//! Fragments of a selector, and how far a change that they read reaches.

use crate::selector::{Combinator, Component, Selector};
use vstd::prelude::*;

verus! {

/// Whether `offset` is where a compound starts in a selector held in
/// matching order: the first position, or one just after a combinator.
pub open spec fn starts_compound(s: Seq<Component>, offset: int) -> bool {
    offset == 0 || (0 < offset <= s.len() && s[offset - 1] is Combinator)
}

/// The combinator just left of the compound that starts at `offset`.
pub open spec fn combinator_before(s: Seq<Component>, offset: int) -> Option<Combinator> {
    if offset <= 0 || offset > s.len() {
        None
    } else {
        match s[offset - 1] {
            Component::Combinator(c) => Some(c),
            _ => None,
        }
    }
}

/// The reach of a change, given the combinator left of the compound that
/// reads it.
pub open spec fn kind_of(c: Option<Combinator>) -> DependencyInvalidationKind {
    match c {
        None => DependencyInvalidationKind::Element,
        Some(Combinator::Child) => DependencyInvalidationKind::Descendants,
        Some(Combinator::Descendant) => DependencyInvalidationKind::Descendants,
        Some(Combinator::LaterSibling) => DependencyInvalidationKind::Siblings,
        Some(Combinator::NextSibling) => DependencyInvalidationKind::Siblings,
        Some(Combinator::PseudoElement) => DependencyInvalidationKind::ElementAndDescendants,
        Some(Combinator::SlotAssignment) => DependencyInvalidationKind::SlottedElements,
        Some(Combinator::Part) => DependencyInvalidationKind::Parts,
    }
}

/// A selector together with the position, in matching order, of the compound
/// that reads some mutable feature of an element.
#[derive(Debug)]
pub struct Dependency {
    /// The whole selector.
    pub selector: Selector,
    /// Where the compound starts.
    pub selector_offset: usize,
}

/// Which elements of the tree a dependency may affect.
#[derive(Debug, PartialEq, Eq)]
pub enum DependencyInvalidationKind {
    /// The element that changed.
    Element,
    /// The element that changed and its descendants.
    ElementAndDescendants,
    /// Descendants of the element that changed.
    Descendants,
    /// Siblings to the right of the element that changed.
    Siblings,
    /// Elements slotted into the element that changed.
    SlottedElements,
    /// Shadow parts of the element that changed.
    Parts,
}

impl Clone for Dependency {
    fn clone(&self) -> (r: Self)
        ensures
            r == *self,
    {
        Dependency { selector: self.selector.clone(), selector_offset: self.selector_offset }
    }
}

impl Dependency {
    /// The offset starts a compound of the selector.
    pub open spec fn wf(&self) -> bool {
        starts_compound(self.selector@, self.selector_offset as int)
    }

    /// The combinator to the right of the partial selector this dependency
    /// stands for, in source order: the one just before its compound in
    /// matching order.
    pub fn combinator(&self) -> (r: Option<Combinator>)
        requires
            self.wf(),
        ensures
            r == combinator_before(self.selector@, self.selector_offset as int),
            r is None <==> self.selector_offset == 0,
    {
        if self.selector_offset == 0 {
            return None;
        }
        Some(self.selector.combinator_at_match_order(self.selector_offset - 1))
    }

    /// How far a change that this dependency reads reaches.
    pub fn invalidation_kind(&self) -> (r: DependencyInvalidationKind)
        requires
            self.wf(),
        ensures
            r == kind_of(combinator_before(self.selector@, self.selector_offset as int)),
    {
        match self.combinator() {
            None => DependencyInvalidationKind::Element,
            Some(Combinator::Child) | Some(Combinator::Descendant) => {
                DependencyInvalidationKind::Descendants
            },
            Some(Combinator::LaterSibling) | Some(Combinator::NextSibling) => {
                DependencyInvalidationKind::Siblings
            },
            Some(Combinator::PseudoElement) => DependencyInvalidationKind::ElementAndDescendants,
            Some(Combinator::SlotAssignment) => DependencyInvalidationKind::SlottedElements,
            Some(Combinator::Part) => DependencyInvalidationKind::Parts,
        }
    }
}

/// A dependency on element state, with the state bits it reads.
#[derive(Debug)]
pub struct StateDependency {
    /// The fragment.
    pub dep: Dependency,
    /// The element-state bits the fragment's compound reads.
    pub state: u64,
}

/// A dependency on document state. It carries no offset: a change of
/// document state reaches the whole document.
#[derive(Debug)]
pub struct DocumentStateDependency {
    /// The whole selector.
    pub selector: Selector,
    /// The document-state bits the selector reads, over all its compounds.
    pub state: u64,
}

} // verus!
