//! What one compound selector reads: its class and id names, the element and
//! document state bits of its pseudo-classes, whether it reads any other
//! attribute, and which of `[class]` / `[id]` it uses.

use crate::selector::{Component, NamespaceConstraint, NestedComponent};
use vstd::prelude::*;

verus! {

/// Set when an attribute selector on `class` is in use (`[class]`).
pub const HAS_CLASS_ATTR_SELECTOR: u8 = 1;

/// Set when an attribute selector on `id` is in use (`[id]`).
pub const HAS_ID_ATTR_SELECTOR: u8 = 2;

/// The position just past the compound that starts at `i`: the next
/// combinator, or the end of the selector.
pub open spec fn compound_end(s: Seq<Component>, i: int) -> int
    decreases s.len() - i,
{
    if i >= s.len() {
        s.len() as int
    } else if s[i] is Combinator {
        i
    } else {
        compound_end(s, i + 1)
    }
}

/// The class name a simple selector reads, if it is a class selector.
pub open spec fn simple_class_of(c: Component) -> Seq<Seq<u8>> {
    match c {
        Component::Class(n) => seq![n@],
        _ => Seq::empty(),
    }
}

/// The id name a simple selector reads, if it is an id selector.
pub open spec fn simple_id_of(c: Component) -> Seq<Seq<u8>> {
    match c {
        Component::ID(n) => seq![n@],
        _ => Seq::empty(),
    }
}

/// The element-state bits a simple selector reads.
pub open spec fn simple_state_of(c: Component) -> u64 {
    match c {
        Component::NonTSPseudoClass(pc) => pc.state,
        _ => 0,
    }
}

/// The document-state bits a simple selector reads.
pub open spec fn simple_document_state_of(c: Component) -> u64 {
    match c {
        Component::NonTSPseudoClass(pc) => pc.document_state,
        _ => 0,
    }
}

/// Whether a simple selector reads an attribute other than through a class
/// or id selector: any attribute selector, and attribute-based
/// pseudo-classes.
pub open spec fn simple_other_attributes_of(c: Component) -> bool {
    match c {
        Component::NonTSPseudoClass(pc) => pc.attr_based,
        Component::Attribute { .. } => true,
        _ => false,
    }
}

/// The name `id`.
pub open spec fn id_name() -> Seq<u8> {
    seq![105u8, 100u8]
}

/// The name `class`.
pub open spec fn class_name() -> Seq<u8> {
    seq![99u8, 108u8, 97u8, 115u8, 115u8]
}

/// Whether an attribute selector with this constraint may match an
/// attribute in no namespace.
pub open spec fn may_match_in_no_namespace(ns: NamespaceConstraint) -> bool {
    match ns {
        NamespaceConstraint::Any => true,
        NamespaceConstraint::Specific(url) => url@.len() == 0,
    }
}

/// The usage flag an attribute selector sets.
pub open spec fn attribute_flag(ns: NamespaceConstraint, local_name_lower: Seq<u8>) -> u8 {
    if may_match_in_no_namespace(ns) && local_name_lower == id_name() {
        HAS_ID_ATTR_SELECTOR
    } else if may_match_in_no_namespace(ns) && local_name_lower == class_name() {
        HAS_CLASS_ATTR_SELECTOR
    } else {
        0
    }
}

/// The usage flag a simple selector sets.
pub open spec fn simple_flag_of(c: Component) -> u8 {
    match c {
        Component::Attribute { namespace, local_name_lower, .. } => attribute_flag(
            namespace,
            local_name_lower@,
        ),
        _ => 0,
    }
}

/// A simple selector found inside a nested list, as a component.
pub open spec fn lift(n: NestedComponent) -> Component {
    match n {
        NestedComponent::ID(v) => Component::ID(v),
        NestedComponent::Class(v) => Component::Class(v),
        NestedComponent::NonTSPseudoClass(pc) => Component::NonTSPseudoClass(pc),
        NestedComponent::Attribute { namespace, local_name, local_name_lower } => {
            Component::Attribute { namespace, local_name, local_name_lower }
        },
        NestedComponent::Other => Component::Other,
    }
}

/// The class names among the first `i` simple selectors of a nested list.
pub open spec fn nested_classes(v: Seq<NestedComponent>, i: int) -> Seq<Seq<u8>>
    decreases i,
{
    if i <= 0 {
        Seq::empty()
    } else {
        nested_classes(v, i - 1) + simple_class_of(lift(v[i - 1]))
    }
}

/// The id names among the first `i` simple selectors of a nested list.
pub open spec fn nested_ids(v: Seq<NestedComponent>, i: int) -> Seq<Seq<u8>>
    decreases i,
{
    if i <= 0 {
        Seq::empty()
    } else {
        nested_ids(v, i - 1) + simple_id_of(lift(v[i - 1]))
    }
}

/// The element-state bits the first `i` simple selectors of a nested list
/// read.
pub open spec fn nested_state(v: Seq<NestedComponent>, i: int) -> u64
    decreases i,
{
    if i <= 0 {
        0
    } else {
        nested_state(v, i - 1) | simple_state_of(lift(v[i - 1]))
    }
}

/// The document-state bits the first `i` simple selectors of a nested list
/// read.
pub open spec fn nested_document_state(v: Seq<NestedComponent>, i: int) -> u64
    decreases i,
{
    if i <= 0 {
        0
    } else {
        nested_document_state(v, i - 1) | simple_document_state_of(lift(v[i - 1]))
    }
}

/// Whether one of the first `i` simple selectors of a nested list reads
/// another attribute.
pub open spec fn nested_other_attributes(v: Seq<NestedComponent>, i: int) -> bool
    decreases i,
{
    if i <= 0 {
        false
    } else {
        nested_other_attributes(v, i - 1) || simple_other_attributes_of(lift(v[i - 1]))
    }
}

/// The usage flags the first `i` simple selectors of a nested list set.
pub open spec fn nested_flags(v: Seq<NestedComponent>, i: int) -> u8
    decreases i,
{
    if i <= 0 {
        0
    } else {
        nested_flags(v, i - 1) | simple_flag_of(lift(v[i - 1]))
    }
}

/// The class names a component reads, those of a nested list included.
pub open spec fn class_of(c: Component) -> Seq<Seq<u8>> {
    match c {
        Component::Nested(v) => nested_classes(v@, v@.len() as int),
        _ => simple_class_of(c),
    }
}

/// The id names a component reads, those of a nested list included.
pub open spec fn id_of(c: Component) -> Seq<Seq<u8>> {
    match c {
        Component::Nested(v) => nested_ids(v@, v@.len() as int),
        _ => simple_id_of(c),
    }
}

/// The element-state bits a component reads.
pub open spec fn state_of(c: Component) -> u64 {
    match c {
        Component::Nested(v) => nested_state(v@, v@.len() as int),
        _ => simple_state_of(c),
    }
}

/// The document-state bits a component reads.
pub open spec fn document_state_of(c: Component) -> u64 {
    match c {
        Component::Nested(v) => nested_document_state(v@, v@.len() as int),
        _ => simple_document_state_of(c),
    }
}

/// Whether a component reads another attribute.
pub open spec fn other_attributes_of(c: Component) -> bool {
    match c {
        Component::Nested(v) => nested_other_attributes(v@, v@.len() as int),
        _ => simple_other_attributes_of(c),
    }
}

/// The usage flags a component sets.
pub open spec fn flag_of(c: Component) -> u8 {
    match c {
        Component::Nested(v) => nested_flags(v@, v@.len() as int),
        _ => simple_flag_of(c),
    }
}

/// Whether a component is an attribute selector or a nested list that
/// holds one.
pub open spec fn has_attribute_selector(c: Component) -> bool {
    match c {
        Component::Attribute { .. } => true,
        Component::Nested(v) => exists|j: int| 0 <= j < v@.len() && (#[trigger] v@[j]) is Attribute,
        _ => false,
    }
}

/// A component without attribute selectors sets no usage flag.
pub proof fn lemma_no_attribute_no_flag(c: Component)
    requires
        !has_attribute_selector(c),
    ensures
        flag_of(c) == 0,
{
    if let Component::Nested(v) = c {
        lemma_nested_no_flags(v@, v@.len() as int);
    }
}

/// Nested simple selectors without attribute selectors set no usage flag.
pub proof fn lemma_nested_no_flags(v: Seq<NestedComponent>, i: int)
    requires
        i <= v.len(),
        forall|j: int| 0 <= j < v.len() ==> !((#[trigger] v[j]) is Attribute),
    ensures
        nested_flags(v, i) == 0,
    decreases i,
{
    if i > 0 {
        lemma_nested_no_flags(v, i - 1);
        assert(!(v[i - 1] is Attribute));
        assert(0u8 | 0u8 == 0u8) by (bit_vector);
    }
}

/// The class names among the positions `start .. i`, in order.
pub open spec fn classes_in(s: Seq<Component>, start: int, i: int) -> Seq<Seq<u8>>
    decreases i - start,
{
    if i <= start {
        Seq::empty()
    } else {
        classes_in(s, start, i - 1) + class_of(s[i - 1])
    }
}

/// The id names among the positions `start .. i`, in order.
pub open spec fn ids_in(s: Seq<Component>, start: int, i: int) -> Seq<Seq<u8>>
    decreases i - start,
{
    if i <= start {
        Seq::empty()
    } else {
        ids_in(s, start, i - 1) + id_of(s[i - 1])
    }
}

/// The element-state bits read among the positions `start .. i`.
pub open spec fn state_in(s: Seq<Component>, start: int, i: int) -> u64
    decreases i - start,
{
    if i <= start {
        0
    } else {
        state_in(s, start, i - 1) | state_of(s[i - 1])
    }
}

/// The document-state bits read among the positions `start .. i`.
pub open spec fn document_state_in(s: Seq<Component>, start: int, i: int) -> u64
    decreases i - start,
{
    if i <= start {
        0
    } else {
        document_state_in(s, start, i - 1) | document_state_of(s[i - 1])
    }
}

/// Whether some position among `start .. i` reads another attribute.
pub open spec fn other_attributes_in(s: Seq<Component>, start: int, i: int) -> bool
    decreases i - start,
{
    if i <= start {
        false
    } else {
        other_attributes_in(s, start, i - 1) || other_attributes_of(s[i - 1])
    }
}

/// The usage flags set among the positions `start .. i`.
pub open spec fn flags_in(s: Seq<Component>, start: int, i: int) -> u8
    decreases i - start,
{
    if i <= start {
        0
    } else {
        flags_in(s, start, i - 1) | flag_of(s[i - 1])
    }
}

/// The names held in a list of names.
pub open spec fn names(v: Seq<Vec<u8>>) -> Seq<Seq<u8>> {
    v.map_values(|n: Vec<u8>| n@)
}

/// Or-ing no bits changes nothing.
pub proof fn lemma_or_zero_u64(x: u64)
    ensures
        x | 0 == x,
{
    assert(x | 0 == x) by (bit_vector);
}

/// Or-ing no bits changes nothing.
pub proof fn lemma_or_zero_u8(x: u8)
    ensures
        x | 0 == x,
{
    assert(x | 0 == x) by (bit_vector);
}

/// Whether a name is `id`.
fn is_id_name(v: &Vec<u8>) -> (r: bool)
    ensures
        r == (v@ == id_name()),
{
    let r = v.len() == 2 && v[0] == 105u8 && v[1] == 100u8;
    proof {
        if r {
            assert(v@ =~= id_name());
        } else if v@ == id_name() {
            assert(v@[0] == 105u8 && v@[1] == 100u8);
        }
    }
    r
}

/// Whether a name is `class`.
fn is_class_name(v: &Vec<u8>) -> (r: bool)
    ensures
        r == (v@ == class_name()),
{
    let r = v.len() == 5 && v[0] == 99u8 && v[1] == 108u8 && v[2] == 97u8 && v[3] == 115u8
        && v[4] == 115u8;
    proof {
        if r {
            assert(v@ =~= class_name());
        } else if v@ == class_name() {
            assert(v@[0] == 99u8 && v@[1] == 108u8 && v@[2] == 97u8 && v@[3] == 115u8 && v@[4]
                == 115u8);
        }
    }
    r
}

/// A copy of a name.
pub fn copy_name(v: &Vec<u8>) -> (r: Vec<u8>)
    ensures
        r@ == v@,
{
    let mut r: Vec<u8> = Vec::new();
    let mut i: usize = 0;
    while i < v.len()
        invariant
            i <= v@.len(),
            r@ == v@.subrange(0, i as int),
        decreases v@.len() - i,
    {
        r.push(v[i]);
        i = i + 1;
        assert(r@ =~= v@.subrange(0, i as int));
    }
    assert(r@ =~= v@);
    r
}

/// What has been read so far of one compound.
pub struct CompoundSelectorDependencyCollector {
    /// The class names, in order.
    pub classes: Vec<Vec<u8>>,
    /// The id names, in order.
    pub ids: Vec<Vec<u8>>,
    /// The element-state bits.
    pub state: u64,
    /// The document-state bits, gathered over the whole selector.
    pub document_state: u64,
    /// Whether another attribute is read.
    pub other_attributes: bool,
    /// The usage flags of the map being filled.
    pub flags: u8,
}

impl CompoundSelectorDependencyCollector {
    /// Nothing read yet; the document-state bits and usage flags start from
    /// those given.
    pub fn new(document_state: u64, flags: u8) -> (r: Self)
        ensures
            r.classes@.len() == 0,
            r.ids@.len() == 0,
            r.state == 0,
            r.document_state == document_state,
            !r.other_attributes,
            r.flags == flags,
    {
        CompoundSelectorDependencyCollector {
            classes: Vec::new(),
            ids: Vec::new(),
            state: 0,
            document_state,
            other_attributes: false,
            flags,
        }
    }

    /// What visiting `c` turns `old` into.
    pub open spec fn visited(self, old: Self, c: Component) -> bool {
        &&& names(self.classes@) == names(old.classes@) + class_of(c)
        &&& names(self.ids@) == names(old.ids@) + id_of(c)
        &&& self.state == old.state | state_of(c)
        &&& self.document_state == old.document_state | document_state_of(c)
        &&& self.other_attributes == (old.other_attributes || other_attributes_of(c))
        &&& self.flags == old.flags | flag_of(c)
    }

    /// Records what an id, class or state pseudo-class selector reads; any
    /// other component leaves the collector as it was.
    pub fn visit_simple_selector(&mut self, c: &Component)
        ensures
            (*c is ID || *c is Class || *c is NonTSPseudoClass) ==> final(self).visited(
                *old(self),
                *c,
            ),
            !(*c is ID || *c is Class || *c is NonTSPseudoClass) ==> *final(self) == *old(self),
    {
        let ghost before = *self;
        match c {
            Component::ID(id) => {
                self.ids.push(copy_name(id));
                assert(names(self.ids@) =~= names(before.ids@) + id_of(*c));
            },
            Component::Class(class) => {
                self.classes.push(copy_name(class));
                assert(names(self.classes@) =~= names(before.classes@) + class_of(*c));
            },
            Component::NonTSPseudoClass(pc) => {
                self.other_attributes = self.other_attributes || pc.attr_based;
                self.state = self.state | pc.state;
                self.document_state = self.document_state | pc.document_state;
                assert(names(self.ids@) =~= names(before.ids@) + id_of(*c));
                assert(names(self.classes@) =~= names(before.classes@) + class_of(*c));
            },
            _ => {},
        }
        proof {
            lemma_or_zero_u64(before.state);
            lemma_or_zero_u64(before.document_state);
            lemma_or_zero_u8(before.flags);
        }
    }

    /// Records what a simple selector inside a nested list reads.
    fn visit_nested(&mut self, n: &NestedComponent)
        ensures
            final(self).visited(*old(self), lift(*n)),
    {
        let ghost before = *self;
        match n {
            NestedComponent::ID(id) => {
                self.ids.push(copy_name(id));
            },
            NestedComponent::Class(class) => {
                self.classes.push(copy_name(class));
            },
            NestedComponent::NonTSPseudoClass(pc) => {
                self.other_attributes = self.other_attributes || pc.attr_based;
                self.state = self.state | pc.state;
                self.document_state = self.document_state | pc.document_state;
            },
            NestedComponent::Attribute { namespace, local_name, local_name_lower } => {
                self.visit_attribute_selector(namespace, local_name, local_name_lower);
            },
            NestedComponent::Other => {},
        }
        assert(names(self.ids@) =~= names(before.ids@) + id_of(lift(*n)));
        assert(names(self.classes@) =~= names(before.classes@) + class_of(lift(*n)));
        proof {
            lemma_or_zero_u64(before.state);
            lemma_or_zero_u64(before.document_state);
            lemma_or_zero_u8(before.flags);
        }
    }

    /// Records what an attribute selector reads: it reads an attribute, and
    /// on `id` or `class` in no namespace it sets the matching usage flag.
    pub fn visit_attribute_selector(
        &mut self,
        constraint: &NamespaceConstraint,
        local_name: &Vec<u8>,
        local_name_lower: &Vec<u8>,
    )
        ensures
            final(self).classes@ == old(self).classes@,
            final(self).ids@ == old(self).ids@,
            final(self).state == old(self).state,
            final(self).document_state == old(self).document_state,
            final(self).other_attributes,
            final(self).flags == old(self).flags | attribute_flag(*constraint, local_name_lower@),
    {
        self.other_attributes = true;
        let may_match_in_no_namespace = match constraint {
            NamespaceConstraint::Any => true,
            NamespaceConstraint::Specific(ns) => ns.len() == 0,
        };
        if may_match_in_no_namespace {
            if is_id_name(local_name_lower) {
                self.flags = self.flags | HAS_ID_ATTR_SELECTOR;
            } else if is_class_name(local_name_lower) {
                self.flags = self.flags | HAS_CLASS_ATTR_SELECTOR;
            } else {
                proof { lemma_or_zero_u8(self.flags); }
            }
        } else {
            proof { lemma_or_zero_u8(self.flags); }
        }
    }

    /// Records what one component reads; for a nested list, what every
    /// simple selector in it reads.
    pub fn visit(&mut self, c: &Component)
        ensures
            final(self).visited(*old(self), *c),
    {
        let ghost before = *self;
        match c {
            Component::Attribute { namespace, local_name, local_name_lower } => {
                self.visit_attribute_selector(namespace, local_name, local_name_lower);
                proof {
                    lemma_or_zero_u64(before.state);
                    lemma_or_zero_u64(before.document_state);
                    assert(names(self.ids@) =~= names(before.ids@) + id_of(*c));
                    assert(names(self.classes@) =~= names(before.classes@) + class_of(*c));
                }
            },
            Component::Nested(v) => {
                let mut i: usize = 0;
                proof {
                    lemma_or_zero_u64(before.state);
                    lemma_or_zero_u64(before.document_state);
                    lemma_or_zero_u8(before.flags);
                    assert(names(self.ids@) =~= names(before.ids@) + nested_ids(v@, 0));
                    assert(names(self.classes@) =~= names(before.classes@) + nested_classes(v@, 0));
                }
                while i < v.len()
                    invariant
                        i <= v@.len(),
                        names(self.classes@) == names(before.classes@) + nested_classes(v@, i as int),
                        names(self.ids@) == names(before.ids@) + nested_ids(v@, i as int),
                        self.state == before.state | nested_state(v@, i as int),
                        self.document_state == before.document_state | nested_document_state(v@, i as int),
                        self.other_attributes == (before.other_attributes || nested_other_attributes(v@, i as int)),
                        self.flags == before.flags | nested_flags(v@, i as int),
                    decreases v@.len() - i,
                {
                    let ghost prev = *self;
                    self.visit_nested(&v[i]);
                    proof {
                        let n = lift(v@[i as int]);
                        assert(names(self.ids@) =~= names(before.ids@) + nested_ids(v@, i + 1));
                        assert(names(self.classes@) =~= names(before.classes@) + nested_classes(v@, i + 1));
                        lemma_or_assoc_u64(before.state, nested_state(v@, i as int), simple_state_of(n));
                        lemma_or_assoc_u64(before.document_state, nested_document_state(v@, i as int), simple_document_state_of(n));
                        lemma_or_assoc_u8(before.flags, nested_flags(v@, i as int), simple_flag_of(n));
                    }
                    i = i + 1;
                }
            },
            _ => {
                self.visit_simple_selector(c);
                proof {
                    lemma_or_zero_u64(before.state);
                    lemma_or_zero_u64(before.document_state);
                    lemma_or_zero_u8(before.flags);
                    assert(names(self.ids@) =~= names(before.ids@) + id_of(*c));
                    assert(names(self.classes@) =~= names(before.classes@) + class_of(*c));
                }
            },
        }
    }
}

/// Or on words is associative.
pub proof fn lemma_or_assoc_u64(a: u64, b: u64, c: u64)
    ensures
        (a | b) | c == a | (b | c),
{
    assert((a | b) | c == a | (b | c)) by (bit_vector);
}

/// Or on bytes is associative.
pub proof fn lemma_or_assoc_u8(a: u8, b: u8, c: u8)
    ensures
        (a | b) | c == a | (b | c),
{
    assert((a | b) | c == a | (b | c)) by (bit_vector);
}

} // verus!
