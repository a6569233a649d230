//! Facts about how a selector is filed, proved over the step plan that
//! `InvalidationMap::note_selector` follows.

use crate::compound::{
    class_of, classes_in, compound_end, document_state_in, flag_of, flags_in,
    has_attribute_selector, lemma_no_attribute_no_flag, lift, nested_classes, simple_class_of,
    state_in, HAS_CLASS_ATTR_SELECTOR,
};
use crate::dependency::{
    combinator_before, starts_compound, Dependency, DocumentStateDependency, StateDependency,
};
use crate::map::{
    actions_from, apply, apply_all, empty_model, compound_actions, document_actions, fragment, key_of, keys_unique,
    add_named, named, plan, Action, MapModel, NameBuckets, QuirksMode,
};
use crate::selector::{Component, NestedComponent, Selector};
use vstd::prelude::*;

verus! {

/// A compound runs up to the first combinator at or after its start.
pub proof fn lemma_compound_end(s: Seq<Component>, i: int)
    requires
        0 <= i <= s.len(),
    ensures
        i <= compound_end(s, i) <= s.len(),
        compound_end(s, i) < s.len() ==> s[compound_end(s, i)] is Combinator,
        forall|j: int| i <= j < compound_end(s, i) ==> !(#[trigger] s[j] is Combinator),
    decreases s.len() - i,
{
    if i < s.len() && !(s[i] is Combinator) {
        lemma_compound_end(s, i + 1);
    }
}

/// Every compound at or after `j` is filed by the steps from `j`.
pub proof fn lemma_compound_in_actions(sel: Selector, j: int, start: int, a: Action)
    requires
        0 <= j <= start <= sel@.len(),
        start == j || starts_compound(sel@, start),
        compound_actions(sel, start).contains(a),
    ensures
        actions_from(sel, j).contains(a),
    decreases start - j,
{
    let s = sel@;
    lemma_compound_end(s, j);
    let end = compound_end(s, j);
    if start == j {
        if end < s.len() {
            let ca = compound_actions(sel, j);
            let k = choose|k: int| 0 <= k < ca.len() && ca[k] == a;
            assert((ca + actions_from(sel, end + 1))[k] == a);
        }
    } else {
        assert(s[start - 1] is Combinator);
        assert(end <= start - 1);
        lemma_compound_in_actions(sel, end + 1, start, a);
        let rest = actions_from(sel, end + 1);
        let ca = compound_actions(sel, j);
        let k = choose|k: int| 0 <= k < rest.len() && rest[k] == a;
        assert((ca + rest)[ca.len() + k] == a);
    }
}

/// Every compound step is a step of the plan.
pub proof fn lemma_compound_in_plan(sel: Selector, start: int, a: Action)
    requires
        0 <= start <= sel@.len(),
        starts_compound(sel@, start),
        compound_actions(sel, start).contains(a),
    ensures
        plan(sel).contains(a),
{
    lemma_compound_in_actions(sel, 0, start, a);
    let af = actions_from(sel, 0);
    let k = choose|k: int| 0 <= k < af.len() && af[k] == a;
    assert((af + document_actions(sel))[k] == a);
}

/// The class names of a compound include those of each of its class
/// selectors.
pub proof fn lemma_class_collected(s: Seq<Component>, start: int, i: int, end: int)
    requires
        0 <= start <= i < end <= s.len(),
        s[i] is Class,
    ensures
        classes_in(s, start, end).contains(s[i]->Class_0@),
    decreases end - start,
{
    let prev = classes_in(s, start, end - 1);
    if i == end - 1 {
        assert((prev + seq![s[i]->Class_0@])[prev.len() as int] == s[i]->Class_0@);
    } else {
        lemma_class_collected(s, start, i, end - 1);
        let k = choose|k: int| 0 <= k < prev.len() && prev[k] == s[i]->Class_0@;
        assert((prev + crate::compound::class_of(s[end - 1]))[k] == s[i]->Class_0@);
    }
}

/// The class names of a compound include every class name one of its
/// components reads.
pub proof fn lemma_class_of_collected(s: Seq<Component>, start: int, i: int, end: int, x: Seq<u8>)
    requires
        0 <= start <= i < end <= s.len(),
        class_of(s[i]).contains(x),
    ensures
        classes_in(s, start, end).contains(x),
    decreases end - start,
{
    let prev = classes_in(s, start, end - 1);
    let last = class_of(s[end - 1]);
    assert(classes_in(s, start, end) == prev + last);
    if i == end - 1 {
        let k = choose|k: int| 0 <= k < last.len() && last[k] == x;
        assert((prev + last)[prev.len() + k] == x);
    } else {
        lemma_class_of_collected(s, start, i, end - 1, x);
        let k = choose|k: int| 0 <= k < prev.len() && prev[k] == x;
        assert((prev + last)[k] == x);
    }
}

/// The class names a nested list reads include each of its class
/// selectors.
pub proof fn lemma_nested_class(v: Seq<NestedComponent>, j: int, i: int)
    requires
        0 <= j < i <= v.len(),
        v[j] is Class,
    ensures
        nested_classes(v, i).contains(v[j]->Class_0@),
    decreases i,
{
    let prev = nested_classes(v, i - 1);
    let last = simple_class_of(lift(v[i - 1]));
    if j == i - 1 {
        assert((prev + last)[prev.len() as int] == v[j]->Class_0@);
    } else {
        lemma_nested_class(v, j, i - 1);
        let k = choose|k: int| 0 <= k < prev.len() && prev[k] == v[j]->Class_0@;
        assert((prev + last)[k] == v[j]->Class_0@);
    }
}

/// Once a selector is noted, the fragment of each of its compounds is held
/// under every class name the compound reads.
pub proof fn lemma_compound_classes_filed(
    m: MapModel,
    sel: Selector,
    start: int,
    x: Seq<u8>,
    quirks_mode: QuirksMode,
)
    requires
        keys_unique(m.classes),
        keys_unique(m.ids),
        0 <= start <= sel@.len(),
        starts_compound(sel@, start),
        classes_in(sel@, start, compound_end(sel@, start)).contains(x),
    ensures
        named(apply_all(m, plan(sel), quirks_mode).classes, key_of(x, quirks_mode)).contains(
            fragment(sel, start),
        ),
{
    let s = sel@;
    let end = compound_end(s, start);
    let names = classes_in(s, start, end);
    let k = choose|k: int| 0 <= k < names.len() && names[k] == x;
    let class_acts = names.map_values(|n: Seq<u8>| Action::AddClass(n, fragment(sel, start)));
    let ca = compound_actions(sel, start);
    assert(ca[1 + k] == class_acts[k]);
    lemma_compound_in_plan(sel, start, class_acts[k]);
    lemma_apply_all_files(m, plan(sel), Action::AddClass(x, fragment(sel, start)), quirks_mode);
}

/// Once a selector is noted, a class selector inside a nested list
/// (`:not(.a)`, `:is(.a)`) files the fragment of the compound holding the
/// list under that class, at the compound's own offset.
pub proof fn lemma_nested_class_filed(
    m: MapModel,
    sel: Selector,
    start: int,
    i: int,
    j: int,
    quirks_mode: QuirksMode,
)
    requires
        keys_unique(m.classes),
        keys_unique(m.ids),
        0 <= start <= sel@.len(),
        starts_compound(sel@, start),
        start <= i < compound_end(sel@, start),
        sel@[i] is Nested,
        0 <= j < sel@[i]->Nested_0@.len(),
        sel@[i]->Nested_0@[j] is Class,
    ensures
        named(
            apply_all(m, plan(sel), quirks_mode).classes,
            key_of(sel@[i]->Nested_0@[j]->Class_0@, quirks_mode),
        ).contains(fragment(sel, start)),
{
    let s = sel@;
    let v = s[i]->Nested_0@;
    let x = v[j]->Class_0@;
    lemma_compound_end(s, start);
    lemma_nested_class(v, j, v.len() as int);
    lemma_class_of_collected(s, start, i, compound_end(s, start), x);
    lemma_compound_classes_filed(m, sel, start, x, quirks_mode);
}

/// A compound that reads both a class and element state has a step that
/// files it under that class and a step that files it as a state fragment,
/// both with the same selector and offset: the two do not exclude each
/// other.
pub proof fn lemma_class_and_state_both_planned(sel: Selector, start: int, i: int)
    requires
        0 <= start <= sel@.len(),
        starts_compound(sel@, start),
        start <= i < compound_end(sel@, start),
        sel@[i] is Class,
        state_in(sel@, start, compound_end(sel@, start)) != 0,
    ensures
        plan(sel).contains(Action::AddClass(sel@[i]->Class_0@, fragment(sel, start))),
        plan(sel).contains(
            Action::AddState(
                StateDependency {
                    dep: fragment(sel, start),
                    state: state_in(sel@, start, compound_end(sel@, start)),
                },
            ),
        ),
{
    let s = sel@;
    lemma_compound_end(s, start);
    let end = compound_end(s, start);
    lemma_class_collected(s, start, i, end);
    let names = classes_in(s, start, end);
    let k = choose|k: int| 0 <= k < names.len() && names[k] == s[i]->Class_0@;
    let class_acts = names.map_values(|n: Seq<u8>| Action::AddClass(n, fragment(sel, start)));
    let ca = compound_actions(sel, start);
    let head = seq![Action::SetFlags(crate::compound::flags_in(s, start, end))];
    let ids = crate::compound::ids_in(s, start, end).map_values(
        |n: Seq<u8>| Action::AddId(n, fragment(sel, start)),
    );
    let st = state_in(s, start, end);
    let sa = Action::AddState(StateDependency { dep: fragment(sel, start), state: st });
    assert(ca[1 + k] == class_acts[k]);
    lemma_compound_in_plan(sel, start, class_acts[k]);
    assert(ca[1 + class_acts.len() as int + ids.len() as int] == sa);
    lemma_compound_in_plan(sel, start, sa);
}

/// The steps of one compound raise flags only as its first step, and file
/// no document-state fragment.
pub proof fn lemma_compound_shape(sel: Selector, start: int)
    ensures
        forall|k: int|
            0 <= k < compound_actions(sel, start).len() ==> !(
            #[trigger] compound_actions(sel, start)[k] is AddDocumentState),
        forall|k: int|
            0 < k < compound_actions(sel, start).len() ==> !(
            #[trigger] compound_actions(sel, start)[k] is SetFlags),
        compound_actions(sel, start)[0] == Action::SetFlags(
            flags_in(sel@, start, compound_end(sel@, start)),
        ),
        forall|k: int|
            0 <= k < compound_actions(sel, start).len() && (#[trigger] step_fragment(
                compound_actions(sel, start)[k],
            )) is Some ==> step_fragment(compound_actions(sel, start)[k]) == Some(
                fragment(sel, start),
            ),
{
    let s = sel@;
    let end = compound_end(s, start);
    let head = seq![Action::SetFlags(flags_in(s, start, end))];
    let cs = classes_in(s, start, end).map_values(
        |n: Seq<u8>| Action::AddClass(n, fragment(sel, start)),
    );
    let is = crate::compound::ids_in(s, start, end).map_values(
        |n: Seq<u8>| Action::AddId(n, fragment(sel, start)),
    );
    let st = state_in(s, start, end);
    let sa = if st != 0 {
        seq![Action::AddState(StateDependency { dep: fragment(sel, start), state: st })]
    } else {
        Seq::empty()
    };
    let oa = if crate::compound::other_attributes_in(s, start, end) {
        seq![Action::AddOther(fragment(sel, start))]
    } else {
        Seq::empty()
    };
    let ca = compound_actions(sel, start);
    assert(ca == head + cs + is + sa + oa);
    assert forall|k: int| 0 < k < ca.len() implies !(#[trigger] ca[k] is AddDocumentState) && !(
    ca[k] is SetFlags) && step_fragment(ca[k]) == Some(fragment(sel, start)) by {
        if k < 1 + cs.len() {
            assert(ca[k] == cs[k - 1]);
        } else if k < 1 + cs.len() + is.len() {
            assert(ca[k] == is[k - 1 - cs.len()]);
        } else if k < 1 + cs.len() + is.len() + sa.len() {
            assert(ca[k] == sa[k - 1 - cs.len() - is.len()]);
        } else {
            assert(ca[k] == oa[k - 1 - cs.len() - is.len() - sa.len()]);
        }
    }
    assert(ca[0] == head[0]);
}

/// The fragment a step files, if it files one.
pub open spec fn step_fragment(a: Action) -> Option<Dependency> {
    match a {
        Action::AddClass(_, d) => Some(d),
        Action::AddId(_, d) => Some(d),
        Action::AddState(sd) => Some(sd.dep),
        Action::AddOther(d) => Some(d),
        _ => None,
    }
}

/// The steps from a compound on file fragments of `sel` whose offsets start
/// compounds.
pub proof fn lemma_fragments_from(sel: Selector, j: int)
    requires
        sel@.len() <= usize::MAX,
        0 <= j <= sel@.len(),
        starts_compound(sel@, j),
    ensures
        forall|k: int|
            0 <= k < actions_from(sel, j).len() && (#[trigger] step_fragment(
                actions_from(sel, j)[k],
            )) is Some ==> step_fragment(actions_from(sel, j)[k])->Some_0.selector == sel
                && step_fragment(actions_from(sel, j)[k])->Some_0.wf(),
    decreases sel@.len() - j,
{
    let end = compound_end(sel@, j);
    lemma_compound_shape(sel, j);
    lemma_compound_end(sel@, j);
    let ca = compound_actions(sel, j);
    assert(fragment(sel, j).wf());
    if j <= end < sel@.len() {
        lemma_fragments_from(sel, end + 1);
        let rest = actions_from(sel, end + 1);
        assert forall|k: int|
            0 <= k < (ca + rest).len() && (#[trigger] step_fragment((ca + rest)[k])) is Some implies
            step_fragment((ca + rest)[k])->Some_0.selector == sel && step_fragment(
            (ca + rest)[k])->Some_0.wf() by {
            if k >= ca.len() {
                assert((ca + rest)[k] == rest[k - ca.len()]);
            } else {
                assert((ca + rest)[k] == ca[k]);
            }
        }
    }
}

/// Every fragment that noting `sel` files is taken from `sel` itself at an
/// offset that starts one of its compounds. So `invalidation_kind` is
/// defined on each, and gives `kind_of` of the combinator before that
/// offset: a value of the selector and the offset alone, whichever bucket
/// holds the fragment and whatever was noted before.
pub proof fn lemma_planned_fragments_start_compounds(sel: Selector, k: int)
    requires
        sel@.len() <= usize::MAX,
        0 <= k < plan(sel).len(),
        step_fragment(plan(sel)[k]) is Some,
    ensures
        step_fragment(plan(sel)[k])->Some_0.selector == sel,
        step_fragment(plan(sel)[k])->Some_0.wf(),
        step_fragment(plan(sel)[k])->Some_0.selector_offset == 0 || combinator_before(
            sel@,
            step_fragment(plan(sel)[k])->Some_0.selector_offset as int,
        ) is Some,
{
    lemma_fragments_from(sel, 0);
    let af = actions_from(sel, 0);
    let da = document_actions(sel);
    if k < af.len() {
        assert(plan(sel)[k] == af[k]);
    } else {
        assert(plan(sel)[k] == da[k - af.len()]);
    }
}

/// The steps from any compound on file no document-state fragment.
pub proof fn lemma_no_document_step(sel: Selector, j: int)
    ensures
        forall|k: int|
            0 <= k < actions_from(sel, j).len() ==> !(#[trigger] actions_from(sel, j)[k] is AddDocumentState),
    decreases sel@.len() - j,
{
    let end = compound_end(sel@, j);
    lemma_compound_shape(sel, j);
    if j <= end < sel@.len() {
        lemma_no_document_step(sel, end + 1);
        let ca = compound_actions(sel, j);
        let rest = actions_from(sel, end + 1);
        assert forall|k: int| 0 <= k < (ca + rest).len() implies !(#[trigger] (ca + rest)[k] is AddDocumentState) by {
            if k >= ca.len() {
                assert((ca + rest)[k] == rest[k - ca.len()]);
            }
        }
    }
}

/// A selector that reads document state anywhere is filed for it by
/// exactly one step, the last, which carries the whole selector and every
/// document-state bit it reads; one that reads none is filed by no such
/// step.
pub proof fn lemma_document_state_filed_once(sel: Selector)
    ensures
        forall|k: int|
            0 <= k < plan(sel).len() && (#[trigger] plan(sel)[k] is AddDocumentState) ==> k == plan(
                sel,
            ).len() - 1,
        document_state_in(sel@, 0, sel@.len() as int) != 0 ==> plan(sel).last()
            == Action::AddDocumentState(
            DocumentStateDependency {
                selector: sel,
                state: document_state_in(sel@, 0, sel@.len() as int),
            },
        ),
        document_state_in(sel@, 0, sel@.len() as int) == 0 ==> forall|k: int|
            0 <= k < plan(sel).len() ==> !(#[trigger] plan(sel)[k] is AddDocumentState),
{
    lemma_no_document_step(sel, 0);
    let af = actions_from(sel, 0);
    let da = document_actions(sel);
    assert forall|k: int| 0 <= k < af.len() implies #[trigger] plan(sel)[k] == af[k] by {}
}

/// The flags of a compound hold the flag of each of its components.
pub proof fn lemma_flag_collected(s: Seq<Component>, start: int, i: int, end: int)
    requires
        0 <= start <= i < end <= s.len(),
    ensures
        flags_in(s, start, end) & flag_of(s[i]) == flag_of(s[i]),
    decreases end - start,
{
    let prev = flags_in(s, start, end - 1);
    let last = flag_of(s[end - 1]);
    let f = flag_of(s[i]);
    if i == end - 1 {
        assert((prev | f) & f == f) by (bit_vector);
    } else {
        lemma_flag_collected(s, start, i, end - 1);
        assert(prev & f == f ==> (prev | last) & f == f) by (bit_vector);
    }
}

/// Once a selector with an attribute selector on `class` that may match in
/// no namespace (`[class]`) is noted, the map's flags say so.
pub proof fn lemma_class_attribute_flagged(
    m: MapModel,
    sel: Selector,
    start: int,
    i: int,
    quirks_mode: QuirksMode,
)
    requires
        keys_unique(m.classes),
        keys_unique(m.ids),
        0 <= start <= sel@.len(),
        starts_compound(sel@, start),
        start <= i < compound_end(sel@, start),
        flag_of(sel@[i]) == HAS_CLASS_ATTR_SELECTOR,
    ensures
        apply_all(m, plan(sel), quirks_mode).flags & HAS_CLASS_ATTR_SELECTOR
            == HAS_CLASS_ATTR_SELECTOR,
{
    let s = sel@;
    lemma_compound_end(s, start);
    let end = compound_end(s, start);
    let f = flags_in(s, start, end);
    lemma_flag_collected(s, start, i, end);
    lemma_compound_shape(sel, start);
    assert(compound_actions(sel, start).contains(Action::SetFlags(f)));
    lemma_compound_in_plan(sel, start, Action::SetFlags(f));
    lemma_apply_all_files(m, plan(sel), Action::SetFlags(f), quirks_mode);
    let x = apply_all(m, plan(sel), quirks_mode).flags;
    assert(x & f == f && f & 1 == 1 ==> x & 1 == 1) by (bit_vector);
}

/// No attribute selector among `start .. end` raises no flag.
pub proof fn lemma_no_flags(s: Seq<Component>, start: int, end: int)
    requires
        forall|i: int| 0 <= i < s.len() ==> !has_attribute_selector(#[trigger] s[i]),
        0 <= start,
        end <= s.len(),
    ensures
        flags_in(s, start, end) == 0,
    decreases end - start,
{
    if end > start {
        lemma_no_flags(s, start, end - 1);
        lemma_no_attribute_no_flag(s[end - 1]);
        assert(0u8 | 0u8 == 0u8) by (bit_vector);
    }
}

/// In a selector without attribute selectors every step that raises flags
/// raises none.
pub proof fn lemma_no_flag_steps(sel: Selector, j: int)
    requires
        forall|i: int| 0 <= i < sel@.len() ==> !has_attribute_selector(#[trigger] sel@[i]),
        0 <= j,
    ensures
        forall|k: int|
            0 <= k < actions_from(sel, j).len() && (#[trigger] actions_from(sel, j)[k] is SetFlags)
                ==> actions_from(sel, j)[k] == Action::SetFlags(0),
    decreases sel@.len() - j,
{
    let end = compound_end(sel@, j);
    lemma_compound_shape(sel, j);
    if j <= sel@.len() {
        lemma_compound_end(sel@, j);
    }
    lemma_no_flags(sel@, j, end);
    let ca = compound_actions(sel, j);
    if j <= end < sel@.len() {
        lemma_no_flag_steps(sel, end + 1);
        let rest = actions_from(sel, end + 1);
        assert forall|k: int|
            0 <= k < (ca + rest).len() && (#[trigger] (ca + rest)[k] is SetFlags) implies (ca
            + rest)[k] == Action::SetFlags(0) by {
            if k >= ca.len() {
                assert((ca + rest)[k] == rest[k - ca.len()]);
            } else {
                assert((ca + rest)[k] == ca[k]);
            }
        }
    }
}

/// Steps that raise no flag leave the flags as they were.
pub proof fn lemma_flags_kept(m: MapModel, acts: Seq<Action>, quirks_mode: QuirksMode)
    requires
        forall|k: int|
            0 <= k < acts.len() && (#[trigger] acts[k] is SetFlags) ==> acts[k] == Action::SetFlags(
                0,
            ),
    ensures
        apply_all(m, acts, quirks_mode).flags == m.flags,
    decreases acts.len(),
{
    if acts.len() > 0 {
        let init = acts.drop_last();
        assert forall|k: int| 0 <= k < init.len() && (#[trigger] init[k] is SetFlags) implies init[k]
            == Action::SetFlags(0) by {
            assert(init[k] == acts[k]);
        }
        lemma_flags_kept(m, init, quirks_mode);
        let x = apply_all(m, init, quirks_mode).flags;
        assert(x | 0 == x) by (bit_vector);
    }
}

/// Noting a selector without attribute selectors, nested ones included
/// (`.foo`, `#bar`, `:hover`, `:not(.foo)`), leaves the map's flags as they were.
pub proof fn lemma_no_attribute_no_flags(m: MapModel, sel: Selector, quirks_mode: QuirksMode)
    requires
        forall|i: int| 0 <= i < sel@.len() ==> !has_attribute_selector(#[trigger] sel@[i]),
    ensures
        apply_all(m, plan(sel), quirks_mode).flags == m.flags,
{
    lemma_no_flag_steps(sel, 0);
    lemma_no_document_step(sel, 0);
    let p = plan(sel);
    let af = actions_from(sel, 0);
    let da = document_actions(sel);
    assert forall|k: int| 0 <= k < p.len() && (#[trigger] p[k] is SetFlags) implies p[k]
        == Action::SetFlags(0) by {
        if k < af.len() {
            assert(p[k] == af[k]);
        } else {
            assert(p[k] == da[k - af.len()]);
        }
    }
    lemma_flags_kept(m, p, quirks_mode);
}

/// A map just cleared and a new map hold the same, so noting a selector
/// into either gives the same map: nothing of what was cleared shows.
pub proof fn lemma_cleared_notes_like_new(
    cleared: MapModel,
    fresh: MapModel,
    sel: Selector,
    quirks_mode: QuirksMode,
)
    requires
        cleared == empty_model(),
        fresh == empty_model(),
    ensures
        apply_all(cleared, plan(sel), quirks_mode) == apply_all(fresh, plan(sel), quirks_mode),
        forall|k: int|
            0 <= k <= plan(sel).len() ==> apply_all(cleared, #[trigger] plan(sel).take(k), quirks_mode)
                == apply_all(fresh, plan(sel).take(k), quirks_mode),
{
}

/// Whether the map holds what step `a` files.
pub open spec fn filed(m: MapModel, a: Action, quirks_mode: QuirksMode) -> bool {
    match a {
        Action::SetFlags(f) => m.flags & f == f,
        Action::AddClass(n, d) => named(m.classes, key_of(n, quirks_mode)).contains(d),
        Action::AddId(n, d) => named(m.ids, key_of(n, quirks_mode)).contains(d),
        Action::AddState(sd) => m.states.contains(sd),
        Action::AddOther(d) => m.others.contains(d),
        Action::AddDocumentState(dd) => m.documents.contains(dd),
    }
}

/// Filing under a name keeps names unique, files the fragment under its
/// name, and keeps what every name held.
pub proof fn lemma_add_named(
    es: NameBuckets,
    key: Seq<u8>,
    d: crate::dependency::Dependency,
    key2: Seq<u8>,
    x: crate::dependency::Dependency,
)
    requires
        keys_unique(es),
    ensures
        keys_unique(add_named(es, key, d)),
        named(add_named(es, key, d), key).contains(d),
        named(es, key2).contains(x) ==> named(add_named(es, key, d), key2).contains(x),
{
    let r = add_named(es, key, d);
    if exists|i: int| 0 <= i < es.len() && es[i].0 == key {
        let i = choose|i: int| 0 <= i < es.len() && es[i].0 == key;
        assert(r[i].1 == es[i].1.push(d));
        assert(r[i].1[es[i].1.len() as int] == d);
        assert forall|a: int, b: int|
            0 <= a < r.len() && 0 <= b < r.len() && r[a].0 == r[b].0 implies a == b by {
            assert(r[a].0 == es[a].0);
            assert(r[b].0 == es[b].0);
        }
        if named(es, key2).contains(x) {
            let j = choose|j: int| 0 <= j < es.len() && es[j].0 == key2;
            let jr = choose|j: int| 0 <= j < r.len() && r[j].0 == key2;
            assert(r[j].0 == key2);
            assert(r[jr].0 == r[j].0);
            assert(jr == j);
            let t = choose|t: int| 0 <= t < es[j].1.len() && es[j].1[t] == x;
            if j == i {
                assert(r[j].1[t] == x);
            } else {
                assert(r[j].1[t] == x);
            }
        }
    } else {
        let n = es.len() as int;
        assert(r[n].0 == key);
        assert(r[n].1[0] == d);
        assert forall|a: int, b: int|
            0 <= a < r.len() && 0 <= b < r.len() && r[a].0 == r[b].0 implies a == b by {
            if a < n && b < n {
                assert(r[a].0 == es[a].0);
                assert(r[b].0 == es[b].0);
            } else if a < n {
                assert(es[a].0 == key);
            } else if b < n {
                assert(es[b].0 == key);
            }
        }
        if named(es, key2).contains(x) {
            let j = choose|j: int| 0 <= j < es.len() && es[j].0 == key2;
            let jr = choose|j: int| 0 <= j < r.len() && r[j].0 == key2;
            assert(r[j].0 == key2);
            assert(r[jr].0 == r[j].0);
            assert(jr == j);
            let t = choose|t: int| 0 <= t < es[j].1.len() && es[j].1[t] == x;
            assert(r[j].1[t] == x);
        }
    }
}

/// Flag bits once raised stay raised, and raising bits raises them.
pub proof fn lemma_or_keeps(x: u8, f: u8, g: u8)
    ensures
        x & f == f ==> (x | g) & f == f,
        (x | f) & f == f,
{
    assert(x & f == f ==> (x | g) & f == f) by (bit_vector);
    assert((x | f) & f == f) by (bit_vector);
}

/// One step files what it files and keeps what was filed.
pub proof fn lemma_apply_keeps(m: MapModel, a: Action, b: Action, quirks_mode: QuirksMode)
    requires
        keys_unique(m.classes),
        keys_unique(m.ids),
    ensures
        keys_unique(apply(m, a, quirks_mode).classes),
        keys_unique(apply(m, a, quirks_mode).ids),
        filed(apply(m, a, quirks_mode), a, quirks_mode),
        filed(m, b, quirks_mode) ==> filed(apply(m, a, quirks_mode), b, quirks_mode),
{
    let r = apply(m, a, quirks_mode);
    match a {
        Action::SetFlags(f) => {
            lemma_or_keeps(m.flags, f, f);
            if let Action::SetFlags(g) = b {
                lemma_or_keeps(m.flags, g, f);
            }
        },
        Action::AddClass(n, d) => {
            match b {
                Action::AddClass(n2, d2) => lemma_add_named(m.classes, key_of(n, quirks_mode), d, key_of(n2, quirks_mode), d2),
                _ => lemma_add_named(m.classes, key_of(n, quirks_mode), d, key_of(n, quirks_mode), d),
            }
        },
        Action::AddId(n, d) => {
            match b {
                Action::AddId(n2, d2) => lemma_add_named(m.ids, key_of(n, quirks_mode), d, key_of(n2, quirks_mode), d2),
                _ => lemma_add_named(m.ids, key_of(n, quirks_mode), d, key_of(n, quirks_mode), d),
            }
        },
        Action::AddState(sd) => {
            assert(r.states[m.states.len() as int] == sd);
            if let Action::AddState(x) = b {
                if m.states.contains(x) {
                    let t = choose|t: int| 0 <= t < m.states.len() && m.states[t] == x;
                    assert(r.states[t] == x);
                }
            }
        },
        Action::AddOther(d) => {
            assert(r.others[m.others.len() as int] == d);
            if let Action::AddOther(x) = b {
                if m.others.contains(x) {
                    let t = choose|t: int| 0 <= t < m.others.len() && m.others[t] == x;
                    assert(r.others[t] == x);
                }
            }
        },
        Action::AddDocumentState(dd) => {
            assert(r.documents[m.documents.len() as int] == dd);
            if let Action::AddDocumentState(x) = b {
                if m.documents.contains(x) {
                    let t = choose|t: int| 0 <= t < m.documents.len() && m.documents[t] == x;
                    assert(r.documents[t] == x);
                }
            }
        },
    }
}

/// A run of steps leaves filed everything any of its steps files.
pub proof fn lemma_apply_all_files(m: MapModel, acts: Seq<Action>, a: Action, quirks_mode: QuirksMode)
    requires
        keys_unique(m.classes),
        keys_unique(m.ids),
        acts.contains(a),
    ensures
        filed(apply_all(m, acts, quirks_mode), a, quirks_mode),
    decreases acts.len(),
{
    lemma_apply_all_unique(m, acts.drop_last(), quirks_mode);
    let prev = apply_all(m, acts.drop_last(), quirks_mode);
    lemma_apply_keeps(prev, acts.last(), a, quirks_mode);
    if acts.last() != a {
        let k = choose|k: int| 0 <= k < acts.len() && acts[k] == a;
        assert(acts.drop_last()[k] == a);
        lemma_apply_all_files(m, acts.drop_last(), a, quirks_mode);
    }
}

/// A run of steps keeps names unique.
pub proof fn lemma_apply_all_unique(m: MapModel, acts: Seq<Action>, quirks_mode: QuirksMode)
    requires
        keys_unique(m.classes),
        keys_unique(m.ids),
    ensures
        keys_unique(apply_all(m, acts, quirks_mode).classes),
        keys_unique(apply_all(m, acts, quirks_mode).ids),
    decreases acts.len(),
{
    if acts.len() > 0 {
        lemma_apply_all_unique(m, acts.drop_last(), quirks_mode);
        lemma_apply_keeps(apply_all(m, acts.drop_last(), quirks_mode), acts.last(), acts.last(), quirks_mode);
    }
}

/// Once a selector is noted, each compound of it that reads both a class
/// and element state is held under that class and among the state
/// fragments, with the same selector and offset in both.
pub proof fn lemma_class_and_state_both_filed(
    m: MapModel,
    sel: Selector,
    start: int,
    i: int,
    quirks_mode: QuirksMode,
)
    requires
        keys_unique(m.classes),
        keys_unique(m.ids),
        0 <= start <= sel@.len(),
        starts_compound(sel@, start),
        start <= i < compound_end(sel@, start),
        sel@[i] is Class,
        state_in(sel@, start, compound_end(sel@, start)) != 0,
    ensures
        named(
            apply_all(m, plan(sel), quirks_mode).classes,
            key_of(sel@[i]->Class_0@, quirks_mode),
        ).contains(fragment(sel, start)),
        apply_all(m, plan(sel), quirks_mode).states.contains(
            StateDependency {
                dep: fragment(sel, start),
                state: state_in(sel@, start, compound_end(sel@, start)),
            },
        ),
{
    lemma_class_and_state_both_planned(sel, start, i);
    lemma_apply_all_files(m, plan(sel), Action::AddClass(sel@[i]->Class_0@, fragment(sel, start)), quirks_mode);
    lemma_apply_all_files(
        m,
        plan(sel),
        Action::AddState(
            StateDependency {
                dep: fragment(sel, start),
                state: state_in(sel@, start, compound_end(sel@, start)),
            },
        ),
        quirks_mode,
    );
}

} // verus!
