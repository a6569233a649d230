//! A parsed complex selector, held in matching order: the rightmost compound
//! first, with each combinator between two compounds occupying one position.

use std::rc::Rc;
use vstd::prelude::*;

verus! {

/// The operator that joins two compound selectors.
#[derive(Clone, Copy, Debug, PartialEq, Eq)]
pub enum Combinator {
    /// `>`
    Child,
    /// whitespace
    Descendant,
    /// `+`
    NextSibling,
    /// `~`
    LaterSibling,
    /// The implied combinator before a pseudo-element.
    PseudoElement,
    /// The implied combinator before `::slotted()`.
    SlotAssignment,
    /// The implied combinator before `::part()`.
    Part,
}

/// Which namespaces an attribute selector may match in.
#[derive(Debug)]
pub enum NamespaceConstraint {
    /// `[*|attr]`, or no namespace prefix with no default namespace.
    Any,
    /// One namespace, given by its URL; the empty URL is "no namespace".
    Specific(Vec<u8>),
}

/// A pseudo-class that is not tree-structural (`:hover`, `:focus`,
/// `:-moz-window-inactive`, `:lang()`), reduced to what it depends on.
#[derive(Clone, Copy, Debug)]
pub struct PseudoClass {
    /// The element-state bits this pseudo-class reads.
    pub state: u64,
    /// The document-state bits this pseudo-class reads.
    pub document_state: u64,
    /// Whether it is decided by an attribute of the element (as `:lang()` is).
    pub attr_based: bool,
}

/// One position of a selector in matching order: a simple selector, or the
/// combinator between two compounds.
#[derive(Debug)]
pub enum Component {
    /// `#name`
    ID(Vec<u8>),
    /// `.name`
    Class(Vec<u8>),
    /// A state or attribute dependent pseudo-class.
    NonTSPseudoClass(PseudoClass),
    /// `[attr...]`, with the attribute's local name as written and in ASCII
    /// lower case.
    Attribute {
        namespace: NamespaceConstraint,
        local_name: Vec<u8>,
        local_name_lower: Vec<u8>,
    },
    /// A pseudo-class or pseudo-element that takes selectors as its
    /// argument (`:not()`, `:is()`, `:where()`, `::slotted()`, `:host()`):
    /// the simple selectors inside it, at every depth, in order. They read
    /// the same element as the compound around them and take no position of
    /// their own.
    Nested(Vec<NestedComponent>),
    /// A combinator.
    Combinator(Combinator),
    /// Any other simple selector (a type selector, `*`, a tree-structural
    /// pseudo-class, a pseudo-element): it reads no mutable feature.
    Other,
}

/// A simple selector found inside the argument of a pseudo-class such as
/// `:not()`.
#[derive(Debug)]
pub enum NestedComponent {
    /// `#name`
    ID(Vec<u8>),
    /// `.name`
    Class(Vec<u8>),
    /// A state or attribute dependent pseudo-class.
    NonTSPseudoClass(PseudoClass),
    /// `[attr...]`, with the attribute's local name as written and in ASCII
    /// lower case.
    Attribute {
        namespace: NamespaceConstraint,
        local_name: Vec<u8>,
        local_name_lower: Vec<u8>,
    },
    /// Any other simple selector.
    Other,
}

/// A complex selector, shared between every fragment taken from it.
#[derive(Debug)]
pub struct Selector {
    components: Rc<Vec<Component>>,
}

impl View for Selector {
    type V = Seq<Component>;

    closed spec fn view(&self) -> Seq<Component> {
        self.components@
    }
}

impl Clone for Selector {
    /// Another handle to the same selector.
    fn clone(&self) -> (r: Self)
        ensures
            r == *self,
    {
        Selector { components: Rc::clone(&self.components) }
    }
}

impl Selector {
    /// Builds a selector from its components in matching order.
    pub fn from_components(components: Vec<Component>) -> (r: Self)
        ensures
            r@ == components@,
    {
        Selector { components: Rc::new(components) }
    }

    /// The number of positions (simple selectors and combinators).
    pub fn len(&self) -> (r: usize)
        ensures
            r == self@.len(),
    {
        self.components.len()
    }

    /// The component at a position in matching order.
    pub fn component_at(&self, index: usize) -> (r: &Component)
        requires
            index < self@.len(),
        ensures
            *r == self@[index as int],
    {
        &self.components[index]
    }

    /// The combinator at a position in matching order.
    pub fn combinator_at_match_order(&self, index: usize) -> (r: Combinator)
        requires
            index < self@.len(),
            self@[index as int] is Combinator,
        ensures
            self@[index as int] == Component::Combinator(r),
    {
        match &self.components[index] {
            Component::Combinator(c) => *c,
            _ => Combinator::Descendant,
        }
    }
}

} // verus!
