use invalidation_map::compound::{
    CompoundSelectorDependencyCollector, HAS_CLASS_ATTR_SELECTOR, HAS_ID_ATTR_SELECTOR,
};
use invalidation_map::dependency::{Dependency, DependencyInvalidationKind};
use invalidation_map::dependency_list::DependencyList;
use invalidation_map::map::{InvalidationMap, QuirksMode};
use invalidation_map::selector::{
    Combinator, Component, NamespaceConstraint, NestedComponent, PseudoClass, Selector,
};

const HOVER: u64 = 1 << 2;
const FOCUS: u64 = 1 << 3;
const WINDOW_INACTIVE: u64 = 1 << 0;

fn class(n: &str) -> Component {
    Component::Class(n.as_bytes().to_vec())
}

fn id(n: &str) -> Component {
    Component::ID(n.as_bytes().to_vec())
}

fn pseudo(state: u64, document_state: u64, attr_based: bool) -> Component {
    Component::NonTSPseudoClass(PseudoClass { state, document_state, attr_based })
}

fn attr(namespace: NamespaceConstraint, name: &str) -> Component {
    Component::Attribute {
        namespace,
        local_name: name.as_bytes().to_vec(),
        local_name_lower: name.to_ascii_lowercase().into_bytes(),
    }
}

fn comb(c: Combinator) -> Component {
    Component::Combinator(c)
}

fn sel(components: Vec<Component>) -> Selector {
    Selector::from_components(components)
}

fn key(n: &str) -> Vec<u8> {
    n.as_bytes().to_vec()
}

#[test]
fn new_map_is_empty() {
    let map = InvalidationMap::new();
    assert_eq!(map.len(), 0);
    assert_eq!(map.flags, 0);
    assert!(map.class_dependencies(&key("foo"), QuirksMode::NoQuirks).is_none());
}

#[test]
fn hover_and_class_offsets() {
    // `.foo :hover`: in matching order `:hover`, descendant, `.foo`.
    let s = sel(vec![pseudo(HOVER, 0, false), comb(Combinator::Descendant), class("foo")]);
    let mut map = InvalidationMap::new();
    assert!(map.note_selector(&s, QuirksMode::NoQuirks).is_ok());

    assert_eq!(map.state_affecting_selectors.len(), 1);
    let hover = &map.state_affecting_selectors[0];
    assert_eq!(hover.dep.selector_offset, 0);
    assert_eq!(hover.state, HOVER);
    assert_eq!(hover.dep.combinator(), None);
    assert_eq!(hover.dep.invalidation_kind(), DependencyInvalidationKind::Element);

    let foo = map.class_dependencies(&key("foo"), QuirksMode::NoQuirks).unwrap();
    assert_eq!(foo.len(), 1);
    let d = foo.get(0);
    assert_eq!(d.selector_offset, 2);
    assert_eq!(d.combinator(), Some(Combinator::Descendant));
    assert_eq!(d.invalidation_kind(), DependencyInvalidationKind::Descendants);
    assert_eq!(map.len(), 2);
}

#[test]
fn class_and_state_in_one_compound_go_to_both_buckets() {
    // `div .bar.foo:hover`
    let s = sel(vec![
        class("foo"),
        pseudo(HOVER | FOCUS, 0, false),
        class("bar"),
        comb(Combinator::Descendant),
        Component::Other,
    ]);
    let mut map = InvalidationMap::new();
    assert!(map.note_selector(&s, QuirksMode::NoQuirks).is_ok());
    let foo = map.class_dependencies(&key("foo"), QuirksMode::NoQuirks).unwrap();
    let bar = map.class_dependencies(&key("bar"), QuirksMode::NoQuirks).unwrap();
    assert_eq!(foo.get(0).selector_offset, 0);
    assert_eq!(bar.get(0).selector_offset, 0);
    assert_eq!(map.state_affecting_selectors.len(), 1);
    assert_eq!(map.state_affecting_selectors[0].dep.selector_offset, 0);
    assert_eq!(map.state_affecting_selectors[0].state, HOVER | FOCUS);
    assert_eq!(map.len(), 3);
    assert!(map.other_attribute_affecting_selectors.is_empty());
    assert!(map.document_state_selectors.is_empty());
}

#[test]
fn document_state_is_filed_once_for_the_whole_selector() {
    // `:-moz-window-inactive .a > .b ~ .c:-moz-window-inactive`
    let s = sel(vec![
        class("c"),
        pseudo(0, WINDOW_INACTIVE, false),
        comb(Combinator::LaterSibling),
        class("b"),
        comb(Combinator::Child),
        class("a"),
        comb(Combinator::Descendant),
        pseudo(0, WINDOW_INACTIVE, false),
    ]);
    let mut map = InvalidationMap::new();
    assert!(map.note_selector(&s, QuirksMode::NoQuirks).is_ok());
    assert_eq!(map.document_state_selectors.len(), 1);
    let doc = &map.document_state_selectors[0];
    assert_eq!(doc.state, WINDOW_INACTIVE);
    assert_eq!(doc.selector.len(), 8);
    assert!(map.state_affecting_selectors.is_empty());
    assert_eq!(map.len(), 4);
}

#[test]
fn no_document_state_no_document_entry() {
    let s = sel(vec![class("a"), pseudo(HOVER, 0, false)]);
    let mut map = InvalidationMap::new();
    assert!(map.note_selector(&s, QuirksMode::NoQuirks).is_ok());
    assert!(map.document_state_selectors.is_empty());
}

#[test]
fn clear_empties_everything() {
    let s = sel(vec![
        class("foo"),
        id("bar"),
        pseudo(HOVER, WINDOW_INACTIVE, true),
        attr(NamespaceConstraint::Any, "class"),
    ]);
    let mut map = InvalidationMap::new();
    assert!(map.note_selector(&s, QuirksMode::NoQuirks).is_ok());
    assert_eq!(map.len(), 5);
    assert_eq!(map.flags, HAS_CLASS_ATTR_SELECTOR);
    map.clear();
    assert_eq!(map.len(), 0);
    assert_eq!(map.flags, 0);
    assert!(map.class_dependencies(&key("foo"), QuirksMode::NoQuirks).is_none());
    assert!(map.id_dependencies(&key("bar"), QuirksMode::NoQuirks).is_none());

    let mut fresh = InvalidationMap::new();
    assert!(map.note_selector(&s, QuirksMode::NoQuirks).is_ok());
    assert!(fresh.note_selector(&s, QuirksMode::NoQuirks).is_ok());
    assert_eq!(map.len(), fresh.len());
    assert_eq!(map.flags, fresh.flags);
    assert_eq!(map.class_to_selector.len(), fresh.class_to_selector.len());
    assert_eq!(map.class_to_selector[0].name, fresh.class_to_selector[0].name);
}

#[test]
fn class_attribute_sets_flag() {
    let mut map = InvalidationMap::new();
    let s = sel(vec![attr(NamespaceConstraint::Any, "class")]);
    assert!(map.note_selector(&s, QuirksMode::NoQuirks).is_ok());
    assert_eq!(map.flags & HAS_CLASS_ATTR_SELECTOR, HAS_CLASS_ATTR_SELECTOR);
    assert_eq!(map.flags & HAS_ID_ATTR_SELECTOR, 0);
    assert_eq!(map.other_attribute_affecting_selectors.len(), 1);
}

#[test]
fn class_selector_sets_no_flag() {
    let mut map = InvalidationMap::new();
    let s = sel(vec![class("foo")]);
    assert!(map.note_selector(&s, QuirksMode::NoQuirks).is_ok());
    assert_eq!(map.flags, 0);
}

#[test]
fn id_attribute_in_no_namespace_sets_flag() {
    let mut map = InvalidationMap::new();
    let s = sel(vec![attr(NamespaceConstraint::Specific(Vec::new()), "ID")]);
    assert!(map.note_selector(&s, QuirksMode::NoQuirks).is_ok());
    assert_eq!(map.flags, HAS_ID_ATTR_SELECTOR);
}

#[test]
fn attribute_in_other_namespace_sets_no_flag() {
    let mut map = InvalidationMap::new();
    let ns = b"http://www.w3.org/2000/svg".to_vec();
    let s = sel(vec![attr(NamespaceConstraint::Specific(ns), "class")]);
    assert!(map.note_selector(&s, QuirksMode::NoQuirks).is_ok());
    assert_eq!(map.flags, 0);
    assert_eq!(map.other_attribute_affecting_selectors.len(), 1);
}

#[test]
fn attribute_based_pseudo_class_is_other_attribute() {
    let mut map = InvalidationMap::new();
    let s = sel(vec![pseudo(0, 0, true)]);
    assert!(map.note_selector(&s, QuirksMode::NoQuirks).is_ok());
    assert_eq!(map.other_attribute_affecting_selectors.len(), 1);
    assert!(map.state_affecting_selectors.is_empty());
    assert_eq!(map.len(), 1);
}

#[test]
fn quirks_mode_folds_case() {
    let mut map = InvalidationMap::new();
    let s = sel(vec![class("FoO"), id("BaR")]);
    assert!(map.note_selector(&s, QuirksMode::Quirks).is_ok());
    assert_eq!(map.class_to_selector[0].name, b"foo".to_vec());
    assert!(map.class_dependencies(&key("FOO"), QuirksMode::Quirks).is_some());
    assert!(map.id_dependencies(&key("bar"), QuirksMode::Quirks).is_some());
    assert!(map.class_dependencies(&key("FoO"), QuirksMode::NoQuirks).is_none());
}

#[test]
fn no_quirks_keeps_case() {
    let mut map = InvalidationMap::new();
    let s = sel(vec![class("FoO")]);
    assert!(map.note_selector(&s, QuirksMode::LimitedQuirks).is_ok());
    assert_eq!(map.class_to_selector[0].name, b"FoO".to_vec());
    assert!(map.class_dependencies(&key("foo"), QuirksMode::LimitedQuirks).is_none());
    assert!(map.class_dependencies(&key("FoO"), QuirksMode::NoQuirks).is_some());
}

#[test]
fn same_selector_twice_is_kept_twice() {
    let mut map = InvalidationMap::new();
    let s = sel(vec![class("foo"), comb(Combinator::Child), id("x")]);
    assert!(map.note_selector(&s, QuirksMode::NoQuirks).is_ok());
    assert!(map.note_selector(&s, QuirksMode::NoQuirks).is_ok());
    assert_eq!(map.class_to_selector.len(), 1);
    assert_eq!(map.class_dependencies(&key("foo"), QuirksMode::NoQuirks).unwrap().len(), 2);
    let x = map.id_dependencies(&key("x"), QuirksMode::NoQuirks).unwrap();
    assert_eq!(x.len(), 2);
    assert_eq!(x.get(1).selector_offset, 2);
    assert_eq!(x.get(1).invalidation_kind(), DependencyInvalidationKind::Descendants);
    assert_eq!(map.len(), 4);
}

#[test]
fn one_class_many_selectors_kept_in_order() {
    let mut map = InvalidationMap::new();
    let a = sel(vec![class("foo")]);
    let b = sel(vec![Component::Other, comb(Combinator::NextSibling), class("foo")]);
    assert!(map.note_selector(&a, QuirksMode::NoQuirks).is_ok());
    assert!(map.note_selector(&b, QuirksMode::NoQuirks).is_ok());
    let foo = map.class_dependencies(&key("foo"), QuirksMode::NoQuirks).unwrap();
    assert_eq!(foo.len(), 2);
    assert_eq!(foo.get(0).selector_offset, 0);
    assert_eq!(foo.get(1).selector_offset, 2);
    assert_eq!(foo.get(1).invalidation_kind(), DependencyInvalidationKind::Siblings);
}

fn kind_after(c: Combinator) -> DependencyInvalidationKind {
    let d = Dependency {
        selector: sel(vec![Component::Other, comb(c), Component::Other]),
        selector_offset: 2,
    };
    d.invalidation_kind()
}

#[test]
fn invalidation_kind_per_combinator() {
    assert_eq!(kind_after(Combinator::Child), DependencyInvalidationKind::Descendants);
    assert_eq!(kind_after(Combinator::Descendant), DependencyInvalidationKind::Descendants);
    assert_eq!(kind_after(Combinator::NextSibling), DependencyInvalidationKind::Siblings);
    assert_eq!(kind_after(Combinator::LaterSibling), DependencyInvalidationKind::Siblings);
    assert_eq!(
        kind_after(Combinator::PseudoElement),
        DependencyInvalidationKind::ElementAndDescendants
    );
    assert_eq!(
        kind_after(Combinator::SlotAssignment),
        DependencyInvalidationKind::SlottedElements
    );
    assert_eq!(kind_after(Combinator::Part), DependencyInvalidationKind::Parts);
}

#[test]
fn offset_zero_is_element() {
    let d = Dependency { selector: sel(vec![class("a")]), selector_offset: 0 };
    assert_eq!(d.combinator(), None);
    assert_eq!(d.invalidation_kind(), DependencyInvalidationKind::Element);
}

#[test]
fn kind_is_same_from_any_bucket() {
    // `.a:hover[title] > .b`
    let s = sel(vec![
        class("b"),
        comb(Combinator::Child),
        class("a"),
        pseudo(HOVER, 0, false),
        attr(NamespaceConstraint::Any, "title"),
    ]);
    let mut map = InvalidationMap::new();
    assert!(map.note_selector(&s, QuirksMode::NoQuirks).is_ok());
    let a = map.class_dependencies(&key("a"), QuirksMode::NoQuirks).unwrap().get(0);
    let st = &map.state_affecting_selectors[0].dep;
    let other = &map.other_attribute_affecting_selectors[0];
    assert_eq!(a.selector_offset, 2);
    assert_eq!(st.selector_offset, 2);
    assert_eq!(other.selector_offset, 2);
    assert_eq!(a.invalidation_kind(), DependencyInvalidationKind::Descendants);
    assert_eq!(st.invalidation_kind(), DependencyInvalidationKind::Descendants);
    assert_eq!(other.invalidation_kind(), DependencyInvalidationKind::Descendants);
}

#[test]
fn empty_selector_files_nothing() {
    let mut map = InvalidationMap::new();
    assert!(map.note_selector(&sel(Vec::new()), QuirksMode::NoQuirks).is_ok());
    assert_eq!(map.len(), 0);
}

#[test]
fn dependency_list_push_and_get() {
    let mut l = DependencyList::new();
    assert_eq!(l.len(), 0);
    let d = Dependency { selector: sel(vec![class("a")]), selector_offset: 0 };
    assert!(l.try_push(d.clone()).is_ok());
    let e = Dependency { selector: sel(vec![class("a"), comb(Combinator::Part), class("b")]), selector_offset: 2 };
    assert!(l.try_push(e).is_ok());
    assert_eq!(l.len(), 2);
    assert_eq!(l.get(0).selector_offset, 0);
    assert_eq!(l.get(1).selector_offset, 2);
    assert_eq!(l.get(1).invalidation_kind(), DependencyInvalidationKind::Parts);
}

fn nested(items: Vec<NestedComponent>) -> Component {
    Component::Nested(items)
}

#[test]
fn class_inside_not_is_filed() {
    // `:not(.a) .b`
    let s = sel(vec![
        class("b"),
        comb(Combinator::Descendant),
        nested(vec![NestedComponent::Class(key("a"))]),
    ]);
    let mut map = InvalidationMap::new();
    assert!(map.note_selector(&s, QuirksMode::NoQuirks).is_ok());
    let a = map.class_dependencies(&key("a"), QuirksMode::NoQuirks).unwrap();
    assert_eq!(a.len(), 1);
    assert_eq!(a.get(0).selector_offset, 2);
    assert_eq!(a.get(0).invalidation_kind(), DependencyInvalidationKind::Descendants);
    assert_eq!(map.len(), 2);
}

#[test]
fn nested_reads_join_their_compound() {
    // `div.x:is(#y:hover, [class])`: one compound, offset 0.
    let s = sel(vec![
        Component::Other,
        class("x"),
        nested(vec![
            NestedComponent::ID(key("y")),
            NestedComponent::NonTSPseudoClass(PseudoClass { state: HOVER, document_state: 0, attr_based: false }),
            NestedComponent::Attribute {
                namespace: NamespaceConstraint::Any,
                local_name: key("class"),
                local_name_lower: key("class"),
            },
            NestedComponent::Other,
        ]),
    ]);
    let mut map = InvalidationMap::new();
    assert!(map.note_selector(&s, QuirksMode::NoQuirks).is_ok());
    assert_eq!(map.id_dependencies(&key("y"), QuirksMode::NoQuirks).unwrap().get(0).selector_offset, 0);
    assert_eq!(map.class_dependencies(&key("x"), QuirksMode::NoQuirks).unwrap().get(0).selector_offset, 0);
    assert_eq!(map.state_affecting_selectors.len(), 1);
    assert_eq!(map.state_affecting_selectors[0].state, HOVER);
    assert_eq!(map.other_attribute_affecting_selectors.len(), 1);
    assert_eq!(map.flags, HAS_CLASS_ATTR_SELECTOR);
    assert_eq!(map.len(), 4);
}

#[test]
fn nested_document_state_is_filed() {
    let s = sel(vec![nested(vec![NestedComponent::NonTSPseudoClass(PseudoClass {
        state: 0,
        document_state: WINDOW_INACTIVE,
        attr_based: false,
    })])]);
    let mut map = InvalidationMap::new();
    assert!(map.note_selector(&s, QuirksMode::NoQuirks).is_ok());
    assert_eq!(map.document_state_selectors.len(), 1);
    assert_eq!(map.document_state_selectors[0].state, WINDOW_INACTIVE);
}

#[test]
fn visit_simple_selector_ignores_attribute() {
    let mut c = CompoundSelectorDependencyCollector::new(0, 0);
    c.visit_simple_selector(&attr(NamespaceConstraint::Any, "id"));
    assert!(!c.other_attributes);
    assert_eq!(c.flags, 0);
    c.visit(&attr(NamespaceConstraint::Any, "id"));
    assert!(c.other_attributes);
    assert_eq!(c.flags, HAS_ID_ATTR_SELECTOR);
}
