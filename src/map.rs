//! The invalidation map: five buckets of fragments, keyed by what they read,
//! and the decomposition of a selector into them.

use crate::compound::{
    classes_in, compound_end, document_state_in, flags_in, ids_in, lemma_or_zero_u64,
    lemma_or_assoc_u8, lemma_or_zero_u8, names, other_attributes_in, state_in, CompoundSelectorDependencyCollector,
};
use crate::dependency::{starts_compound, Dependency, DocumentStateDependency, StateDependency};
use crate::dependency_list::DependencyList;
use crate::selector::{Component, Selector};
use vstd::prelude::*;

verus! {

/// How a document treats legacy content; in quirks mode class and id names
/// are compared without regard to ASCII case.
#[derive(Clone, Copy, Debug, PartialEq, Eq)]
pub enum QuirksMode {
    Quirks,
    LimitedQuirks,
    NoQuirks,
}

/// Room for a new entry could not be allocated.
#[derive(Debug, PartialEq, Eq)]
pub struct FailedAllocationError;

/// A byte in ASCII lower case.
pub open spec fn lower_byte(b: u8) -> u8 {
    if 65 <= b <= 90 {
        (b + 32) as u8
    } else {
        b
    }
}

/// The key a class or id name is filed under.
pub open spec fn key_of(name: Seq<u8>, quirks_mode: QuirksMode) -> Seq<u8> {
    if quirks_mode == QuirksMode::Quirks {
        name.map_values(|b: u8| lower_byte(b))
    } else {
        name
    }
}

/// The fragments kept under each name, in the order the names came.
pub type NameBuckets = Seq<(Seq<u8>, Seq<Dependency>)>;

/// No name is kept twice.
pub open spec fn keys_unique(es: NameBuckets) -> bool {
    forall|i: int, j: int| 0 <= i < es.len() && 0 <= j < es.len() && es[i].0 == es[j].0 ==> i == j
}

/// Files `d` under `key`: at the end of its list, or in a new list after
/// every other name.
pub open spec fn add_named(es: NameBuckets, key: Seq<u8>, d: Dependency) -> NameBuckets {
    if exists|i: int| 0 <= i < es.len() && es[i].0 == key {
        let i = choose|i: int| 0 <= i < es.len() && es[i].0 == key;
        es.update(i, (key, es[i].1.push(d)))
    } else {
        es.push((key, seq![d]))
    }
}

/// The fragments kept under `key`; none where the name is not kept.
pub open spec fn named(es: NameBuckets, key: Seq<u8>) -> Seq<Dependency> {
    if exists|i: int| 0 <= i < es.len() && es[i].0 == key {
        es[choose|i: int| 0 <= i < es.len() && es[i].0 == key].1
    } else {
        Seq::empty()
    }
}

/// The number of fragments over all names.
pub open spec fn named_count(es: NameBuckets) -> nat
    decreases es.len(),
{
    if es.len() == 0 {
        0
    } else {
        named_count(es.drop_last()) + es.last().1.len()
    }
}

/// What a map holds.
pub struct MapModel {
    pub classes: NameBuckets,
    pub ids: NameBuckets,
    pub states: Seq<StateDependency>,
    pub documents: Seq<DocumentStateDependency>,
    pub others: Seq<Dependency>,
    pub flags: u8,
}

/// One step of filing a selector.
pub enum Action {
    /// Raise usage flags.
    SetFlags(u8),
    /// File a fragment under a class name.
    AddClass(Seq<u8>, Dependency),
    /// File a fragment under an id name.
    AddId(Seq<u8>, Dependency),
    /// File a state fragment.
    AddState(StateDependency),
    /// File a fragment that reads another attribute.
    AddOther(Dependency),
    /// File a document-state fragment.
    AddDocumentState(DocumentStateDependency),
}

/// What one step does to a map.
pub open spec fn apply(m: MapModel, a: Action, quirks_mode: QuirksMode) -> MapModel {
    match a {
        Action::SetFlags(f) => MapModel { flags: m.flags | f, ..m },
        Action::AddClass(n, d) => MapModel {
            classes: add_named(m.classes, key_of(n, quirks_mode), d),
            ..m
        },
        Action::AddId(n, d) => MapModel { ids: add_named(m.ids, key_of(n, quirks_mode), d), ..m },
        Action::AddState(d) => MapModel { states: m.states.push(d), ..m },
        Action::AddOther(d) => MapModel { others: m.others.push(d), ..m },
        Action::AddDocumentState(d) => MapModel { documents: m.documents.push(d), ..m },
    }
}

/// What a run of steps does to a map.
pub open spec fn apply_all(m: MapModel, acts: Seq<Action>, quirks_mode: QuirksMode) -> MapModel
    decreases acts.len(),
{
    if acts.len() == 0 {
        m
    } else {
        apply(apply_all(m, acts.drop_last(), quirks_mode), acts.last(), quirks_mode)
    }
}

/// The fragment of `sel` whose compound starts at `start`.
pub open spec fn fragment(sel: Selector, start: int) -> Dependency {
    Dependency { selector: sel, selector_offset: start as usize }
}

/// The steps that file the compound of `sel` starting at `start`: raise the
/// flags its attribute selectors call for, file it under each of its class
/// names, then each of its id names, then as a state fragment if it reads
/// element state, then as an other-attribute fragment if it reads another
/// attribute.
pub open spec fn compound_actions(sel: Selector, start: int) -> Seq<Action> {
    let s = sel@;
    let end = compound_end(s, start);
    let state = state_in(s, start, end);
    seq![Action::SetFlags(flags_in(s, start, end))] + classes_in(s, start, end).map_values(
        |n: Seq<u8>| Action::AddClass(n, fragment(sel, start)),
    ) + ids_in(s, start, end).map_values(|n: Seq<u8>| Action::AddId(n, fragment(sel, start))) + (
    if state != 0 {
        seq![Action::AddState(StateDependency { dep: fragment(sel, start), state })]
    } else {
        Seq::empty()
    }) + (if other_attributes_in(s, start, end) {
        seq![Action::AddOther(fragment(sel, start))]
    } else {
        Seq::empty()
    })
}

/// The steps that file the compounds of `sel` from the one at `start`
/// leftwards, in matching order.
pub open spec fn actions_from(sel: Selector, start: int) -> Seq<Action>
    decreases sel@.len() - start,
{
    let end = compound_end(sel@, start);
    if start <= end < sel@.len() {
        compound_actions(sel, start) + actions_from(sel, end + 1)
    } else {
        compound_actions(sel, start)
    }
}

/// The step that files `sel` for document state, if it reads any.
pub open spec fn document_actions(sel: Selector) -> Seq<Action> {
    let state = document_state_in(sel@, 0, sel@.len() as int);
    if state != 0 {
        seq![Action::AddDocumentState(DocumentStateDependency { selector: sel, state })]
    } else {
        Seq::empty()
    }
}

/// Every step of filing `sel`.
pub open spec fn plan(sel: Selector) -> Seq<Action> {
    actions_from(sel, 0) + document_actions(sel)
}

/// Whether a step can fail for want of memory.
pub open spec fn allocates(a: Action) -> bool {
    !(a is SetFlags)
}

/// A name, and the fragments whose compound reads it.
#[derive(Debug)]
pub struct NameEntry {
    /// The name, in ASCII lower case in quirks mode.
    pub name: Vec<u8>,
    /// The fragments, in the order they were filed.
    pub dependencies: DependencyList,
}

/// What the entries of a name bucket hold.
pub open spec fn buckets(v: Seq<NameEntry>) -> NameBuckets {
    v.map_values(|e: NameEntry| (e.name@, e.dependencies.view()))
}

/// The index from what an element may change to the fragments that read it.
///
/// The class and id buckets keep their names in a vector, unique by the
/// map's invariant, and are searched linearly. A `HashMap` keyed by byte
/// vectors was not used: vstd's specification of `HashMap` speaks of keys
/// whose hashing it models, and byte vectors are not among them, so nothing
/// could be proved of what such a map holds.
#[derive(Debug)]
pub struct InvalidationMap {
    /// Fragments by the class name their compound reads.
    pub class_to_selector: Vec<NameEntry>,
    /// Fragments by the id name their compound reads.
    pub id_to_selector: Vec<NameEntry>,
    /// Fragments whose compound reads element state.
    pub state_affecting_selectors: Vec<StateDependency>,
    /// Selectors that read document state.
    pub document_state_selectors: Vec<DocumentStateDependency>,
    /// Fragments whose compound reads another attribute.
    pub other_attribute_affecting_selectors: Vec<Dependency>,
    /// Which of `[class]` and `[id]` have been seen.
    pub flags: u8,
}

impl InvalidationMap {
    /// What the map holds.
    pub open spec fn model(&self) -> MapModel {
        MapModel {
            classes: buckets(self.class_to_selector@),
            ids: buckets(self.id_to_selector@),
            states: self.state_affecting_selectors@,
            documents: self.document_state_selectors@,
            others: self.other_attribute_affecting_selectors@,
            flags: self.flags,
        }
    }

    /// No name is kept twice in either name bucket, and every fragment held
    /// starts at a compound of its selector.
    pub open spec fn wf(&self) -> bool {
        model_wf(self.model())
    }

    /// The number of fragments held.
    pub open spec fn count(&self) -> nat {
        let m = self.model();
        m.states.len() + m.documents.len() + m.others.len() + named_count(m.ids) + named_count(
            m.classes,
        )
    }

    /// An empty map.
    pub fn new() -> (r: Self)
        ensures
            r.wf(),
            r.model() == empty_model(),
    {
        let r = InvalidationMap {
            class_to_selector: Vec::new(),
            id_to_selector: Vec::new(),
            state_affecting_selectors: Vec::new(),
            document_state_selectors: Vec::new(),
            other_attribute_affecting_selectors: Vec::new(),
            flags: 0,
        };
        assert(buckets(r.class_to_selector@) =~= Seq::empty());
        assert(buckets(r.id_to_selector@) =~= Seq::empty());
        assert(r.model() =~= empty_model());
        r
    }

    /// Empties every bucket and resets the flags.
    pub fn clear(&mut self)
        ensures
            final(self).wf(),
            final(self).model() == empty_model(),
            final(self).count() == 0,
            forall|key: Seq<u8>|
                #![auto]
                named(final(self).model().classes, key).len() == 0 && named(
                    final(self).model().ids,
                    key,
                ).len() == 0,
    {
        self.class_to_selector = Vec::new();
        self.id_to_selector = Vec::new();
        self.state_affecting_selectors = Vec::new();
        self.document_state_selectors = Vec::new();
        self.other_attribute_affecting_selectors = Vec::new();
        self.flags = 0;
        assert(buckets(self.class_to_selector@) =~= Seq::empty());
        assert(buckets(self.id_to_selector@) =~= Seq::empty());
        assert(self.model() =~= empty_model());
    }

    /// The fragments filed under a class name.
    pub fn class_dependencies(&self, name: &Vec<u8>, quirks_mode: QuirksMode) -> (r: Option<
        &DependencyList,
    >)
        requires
            self.wf(),
        ensures
            r is None <==> named(self.model().classes, key_of(name@, quirks_mode)).len() == 0,
            r matches Some(l) ==> l.view() == named(self.model().classes, key_of(name@, quirks_mode)),
    {
        find_named(&self.class_to_selector, &key_for(name, quirks_mode))
    }

    /// The fragments filed under an id name.
    pub fn id_dependencies(&self, name: &Vec<u8>, quirks_mode: QuirksMode) -> (r: Option<
        &DependencyList,
    >)
        requires
            self.wf(),
        ensures
            r is None <==> named(self.model().ids, key_of(name@, quirks_mode)).len() == 0,
            r matches Some(l) ==> l.view() == named(self.model().ids, key_of(name@, quirks_mode)),
    {
        find_named(&self.id_to_selector, &key_for(name, quirks_mode))
    }

    /// The number of fragments held over all five buckets.
    pub fn len(&self) -> (r: usize)
        requires
            self.count() <= usize::MAX,
        ensures
            r == self.count(),
    {
        let ids = named_total(&self.id_to_selector);
        let classes = named_total(&self.class_to_selector);
        self.state_affecting_selectors.len() + self.document_state_selectors.len()
            + self.other_attribute_affecting_selectors.len() + ids + classes
    }

    /// Files the compounds of `selector` that read a mutable feature, from
    /// the rightmost leftwards, and then the selector itself if it reads
    /// document state: every step of `plan(selector)`, in order. When room
    /// for an entry cannot be allocated it stops there: the steps before the
    /// one that failed stay done, and no later one is taken.
    pub fn note_selector(&mut self, selector: &Selector, quirks_mode: QuirksMode) -> (r: Result<
        (),
        FailedAllocationError,
    >)
        requires
            old(self).wf(),
        ensures
            final(self).wf(),
            r is Ok ==> final(self).model() == apply_all(
                old(self).model(),
                plan(*selector),
                quirks_mode,
            ),
            r is Err ==> exists|k: int|
                0 <= k < plan(*selector).len() && allocates(#[trigger] plan(*selector)[k])
                    && final(self).model() == apply_all(
                    old(self).model(),
                    plan(*selector).take(k),
                    quirks_mode,
                ),
    {
        let ghost sel = *selector;
        let ghost s = selector@;
        let ghost m0 = self.model();
        let ghost mut done: Seq<Action> = Seq::empty();
        let ghost mut rest: Seq<Action> = plan(sel);
        let len = selector.len();
        let mut index: usize = 0;
        let mut document_state: u64 = 0;
        assert(plan(sel) =~= done + rest);
        loop
            invariant_except_break
                rest == actions_from(sel, index as int) + document_actions(sel),
                starts_compound(s, index as int),
                document_state == document_state_in(s, 0, index as int),
            invariant
                sel == *selector,
                s == sel@,
                len == s.len(),
                index <= len,
                plan(sel) == done + rest,
                m0 == old(self).model(),
                self.model() == apply_all(m0, done, quirks_mode),
                self.wf(),
            ensures
                rest == document_actions(sel),
                document_state == document_state_in(s, 0, len as int),
            decreases len - index,
        {
            let ghost start = index as int;
            let ghost before = self.model();
            let (res, end, doc) = self.note_compound(selector, index, document_state, quirks_mode);
            let ghost ca = compound_actions(sel, start);
            let ghost after = if end < len {
                actions_from(sel, end + 1) + document_actions(sel)
            } else {
                document_actions(sel)
            };
            assert(rest =~= ca + after);
            if res.is_err() {
                let ghost k = choose|k: int|
                    0 <= k < ca.len() && allocates(#[trigger] ca[k]) && self.model() == apply_all(
                        before,
                        ca.take(k),
                        quirks_mode,
                    );
                proof {
                    lemma_apply_concat(m0, done, ca.take(k), quirks_mode);
                    assert(plan(sel).take(done.len() + k) =~= done + ca.take(k));
                    assert(plan(sel)[done.len() + k] == ca[k]);
                }
                return Err(FailedAllocationError);
            }
            proof {
                lemma_apply_concat(m0, done, ca, quirks_mode);
                done = done + ca;
                rest = after;
                assert(plan(sel) =~= done + rest);
            }
            document_state = doc;
            if end >= len {
                break;
            }
            proof {
                lemma_or_zero_u64(document_state);
            }
            index = end + 1;
        }
        assert(rest == document_actions(sel));
        if document_state != 0 {
            let dsd = DocumentStateDependency { selector: selector.clone(), state: document_state };
            if self.document_state_selectors.try_reserve(1).is_err() {
                assert(plan(sel).take(done.len() as int) =~= done);
                assert(plan(sel)[done.len() as int] == rest[0]);
                return Err(FailedAllocationError);
            }
            let ghost before = self.model();
            self.document_state_selectors.push(dsd);
            proof {
                assert(self.model() == apply(before, rest[0], quirks_mode));
                lemma_apply_wf(before, rest[0], quirks_mode);
                lemma_apply_push(m0, done, rest[0], quirks_mode);
                assert(done.push(rest[0]) =~= plan(sel));
            }
        } else {
            assert(done =~= plan(sel));
        }
        Ok(())
    }

    /// Files the compound of `selector` that starts at `start`, as
    /// `compound_actions` lays out; returns where the compound ends and the
    /// document-state bits read up to there. When room for an entry cannot
    /// be allocated it stops at that step.
    #[verifier::rlimit(60)]
    fn note_compound(
        &mut self,
        selector: &Selector,
        start: usize,
        document_state: u64,
        quirks_mode: QuirksMode,
    ) -> (r: (Result<(), FailedAllocationError>, usize, u64))
        requires
            old(self).wf(),
            start <= selector@.len(),
            starts_compound(selector@, start as int),
            document_state == document_state_in(selector@, 0, start as int),
        ensures
            final(self).wf(),
            r.1 == compound_end(selector@, start as int),
            start <= r.1 <= selector@.len(),
            r.1 < selector@.len() ==> selector@[r.1 as int] is Combinator,
            r.2 == document_state_in(selector@, 0, r.1 as int),
            r.0 is Ok ==> final(self).model() == apply_all(
                old(self).model(),
                compound_actions(*selector, start as int),
                quirks_mode,
            ),
            r.0 is Err ==> exists|k: int|
                0 <= k < compound_actions(*selector, start as int).len() && allocates(
                    #[trigger] compound_actions(*selector, start as int)[k],
                ) && final(self).model() == apply_all(
                    old(self).model(),
                    compound_actions(*selector, start as int).take(k),
                    quirks_mode,
                ),
    {
        let ghost sel = *selector;
        let ghost s = selector@;
        let ghost m0 = self.model();
        let len = selector.len();
        let mut index = start;
        let mut collector = CompoundSelectorDependencyCollector::new(document_state, self.flags);
        proof {
            lemma_or_zero_u8(self.flags);
            assert(names(collector.classes@) =~= Seq::empty());
            assert(names(collector.ids@) =~= Seq::empty());
        }
        while index < len && !matches!(selector.component_at(index), Component::Combinator(_))
            invariant
                s == selector@,
                len == s.len(),
                start <= index <= len,
                compound_end(s, index as int) == compound_end(s, start as int),
                names(collector.classes@) == classes_in(s, start as int, index as int),
                names(collector.ids@) == ids_in(s, start as int, index as int),
                collector.state == state_in(s, start as int, index as int),
                collector.document_state == document_state_in(s, 0, index as int),
                collector.other_attributes == other_attributes_in(s, start as int, index as int),
                collector.flags == self.flags | flags_in(s, start as int, index as int),
            decreases len - index,
        {
            collector.visit(selector.component_at(index));
            proof {
                lemma_or_assoc_u8(
                    self.flags,
                    flags_in(s, start as int, index as int),
                    crate::compound::flag_of(s[index as int]),
                );
            }
            index = index + 1;
        }
        let ghost st = start as int;
        let ghost end = index as int;
        let ghost f = Dependency { selector: *selector, selector_offset: start };
        let ghost class_acts = classes_in(s, st, end).map_values(
            |n: Seq<u8>| Action::AddClass(n, fragment(sel, st)),
        );
        let ghost id_acts = ids_in(s, st, end).map_values(
            |n: Seq<u8>| Action::AddId(n, fragment(sel, st)),
        );
        let ghost state = state_in(s, st, end);
        let ghost state_acts = if state != 0 {
            seq![Action::AddState(StateDependency { dep: fragment(sel, st), state })]
        } else {
            Seq::empty()
        };
        let ghost other_acts = if other_attributes_in(s, st, end) {
            seq![Action::AddOther(fragment(sel, st))]
        } else {
            Seq::empty()
        };
        let ghost all = compound_actions(sel, st);
        assert(compound_end(s, end) == end);
        assert(fragment(sel, st) == f);
        assert(f.wf());
        let ghost mut done: Seq<Action> = Seq::empty();
        let ghost mut rest: Seq<Action> = all;
        assert(rest =~= seq![Action::SetFlags(flags_in(s, st, end))] + (class_acts + (id_acts + (
        state_acts + other_acts))));
        assert(all =~= done + rest);

        self.flags = collector.flags;
        proof {
            lemma_apply_push(m0, done, rest[0], quirks_mode);
            assert(apply_all(m0, Seq::empty(), quirks_mode) == m0);
            done = done.push(rest[0]);
            rest = rest.drop_first();
            assert(rest =~= class_acts + (id_acts + (state_acts + other_acts)));
            assert(all =~= done + rest);
        }

        let mut k: usize = 0;
        while k < collector.classes.len()
            invariant
                s == selector@,
                k <= collector.classes@.len(),
                names(collector.classes@) == classes_in(s, st, end),
                class_acts == classes_in(s, st, end).map_values(
                    |n: Seq<u8>| Action::AddClass(n, fragment(sel, st)),
                ),
                fragment(sel, st) == f,
                f == (Dependency { selector: *selector, selector_offset: start }),
                f.wf(),
                all == done + rest,
                rest == class_acts.skip(k as int) + (id_acts + (state_acts + other_acts)),
                self.model() == apply_all(m0, done, quirks_mode),
                self.wf(),
                index as int == end,
                st == start as int,
                all == compound_actions(*selector, start as int),
                m0 == old(self).model(),
                end == compound_end(s, st),
                st <= end <= s.len(),
                end < s.len() ==> s[end] is Combinator,
                collector.document_state == document_state_in(s, 0, end),
            decreases collector.classes@.len() - k,
        {
            assert(names(collector.classes@)[k as int] == collector.classes@[k as int]@);
            let key = key_for(&collector.classes[k], quirks_mode);
            let d = Dependency { selector: selector.clone(), selector_offset: start };
            let ghost before = self.model();
            let added = add_named_entry(&mut self.class_to_selector, key, d);
            assert(rest[0] == class_acts[k as int]);
            if added.is_err() {
                assert(self.model() == before);
                assert(all.take(done.len() as int) =~= done);
                assert(all[done.len() as int] == rest[0]);
                assert(allocates(all[done.len() as int]));
                return (Err(FailedAllocationError), index, collector.document_state);
            }
            proof {
                assert(self.model() == apply(before, rest[0], quirks_mode));
                lemma_apply_wf(before, rest[0], quirks_mode);
                lemma_apply_push(m0, done, rest[0], quirks_mode);
                done = done.push(rest[0]);
                rest = rest.drop_first();
                assert(rest =~= class_acts.skip(k + 1) + (id_acts + (state_acts + other_acts)));
                assert(all =~= done + rest);
            }
            k = k + 1;
        }
        assert(rest =~= id_acts + (state_acts + other_acts));

        let mut k: usize = 0;
        while k < collector.ids.len()
            invariant
                s == selector@,
                k <= collector.ids@.len(),
                names(collector.ids@) == ids_in(s, st, end),
                id_acts == ids_in(s, st, end).map_values(
                    |n: Seq<u8>| Action::AddId(n, fragment(sel, st)),
                ),
                fragment(sel, st) == f,
                f == (Dependency { selector: *selector, selector_offset: start }),
                f.wf(),
                all == done + rest,
                rest == id_acts.skip(k as int) + (state_acts + other_acts),
                self.model() == apply_all(m0, done, quirks_mode),
                self.wf(),
                index as int == end,
                st == start as int,
                all == compound_actions(*selector, start as int),
                m0 == old(self).model(),
                end == compound_end(s, st),
                st <= end <= s.len(),
                end < s.len() ==> s[end] is Combinator,
                collector.document_state == document_state_in(s, 0, end),
            decreases collector.ids@.len() - k,
        {
            assert(names(collector.ids@)[k as int] == collector.ids@[k as int]@);
            let key = key_for(&collector.ids[k], quirks_mode);
            let d = Dependency { selector: selector.clone(), selector_offset: start };
            let ghost before = self.model();
            let added = add_named_entry(&mut self.id_to_selector, key, d);
            assert(rest[0] == id_acts[k as int]);
            if added.is_err() {
                assert(self.model() == before);
                assert(all.take(done.len() as int) =~= done);
                assert(all[done.len() as int] == rest[0]);
                assert(allocates(all[done.len() as int]));
                return (Err(FailedAllocationError), index, collector.document_state);
            }
            proof {
                assert(self.model() == apply(before, rest[0], quirks_mode));
                lemma_apply_wf(before, rest[0], quirks_mode);
                lemma_apply_push(m0, done, rest[0], quirks_mode);
                done = done.push(rest[0]);
                rest = rest.drop_first();
                assert(rest =~= id_acts.skip(k + 1) + (state_acts + other_acts));
                assert(all =~= done + rest);
            }
            k = k + 1;
        }
        assert(rest =~= state_acts + other_acts);

        if collector.state != 0 {
            let d = Dependency { selector: selector.clone(), selector_offset: start };
            let sd = StateDependency { dep: d, state: collector.state };
            assert(rest[0] == Action::AddState(sd));
            if self.state_affecting_selectors.try_reserve(1).is_err() {
                assert(all.take(done.len() as int) =~= done);
                assert(all[done.len() as int] == rest[0]);
                assert(allocates(all[done.len() as int]));
                return (Err(FailedAllocationError), index, collector.document_state);
            }
            let ghost before = self.model();
            self.state_affecting_selectors.push(sd);
            proof {
                assert(self.model() == apply(before, rest[0], quirks_mode));
                lemma_apply_wf(before, rest[0], quirks_mode);
                lemma_apply_push(m0, done, rest[0], quirks_mode);
                done = done.push(rest[0]);
                rest = rest.drop_first();
                assert(all =~= done + rest);
            }
        }
        assert(rest =~= other_acts);

        if collector.other_attributes {
            let d = Dependency { selector: selector.clone(), selector_offset: start };
            assert(rest[0] == Action::AddOther(d));
            if self.other_attribute_affecting_selectors.try_reserve(1).is_err() {
                assert(all.take(done.len() as int) =~= done);
                assert(all[done.len() as int] == rest[0]);
                assert(allocates(all[done.len() as int]));
                return (Err(FailedAllocationError), index, collector.document_state);
            }
            let ghost before = self.model();
            self.other_attribute_affecting_selectors.push(d);
            proof {
                assert(self.model() == apply(before, rest[0], quirks_mode));
                lemma_apply_wf(before, rest[0], quirks_mode);
                lemma_apply_push(m0, done, rest[0], quirks_mode);
                done = done.push(rest[0]);
                rest = rest.drop_first();
                assert(all =~= done + rest);
            }
        }
        assert(done =~= all);
        (Ok(()), index, collector.document_state)
    }
}

/// Every fragment kept under a name starts at a compound of its selector.
pub open spec fn named_wf(es: NameBuckets) -> bool {
    forall|i: int, j: int|
        0 <= i < es.len() && 0 <= j < es[i].1.len() ==> (#[trigger] es[i].1[j]).wf()
}

/// No name is kept twice, and every fragment held starts at a compound of
/// its selector.
pub open spec fn model_wf(m: MapModel) -> bool {
    &&& keys_unique(m.classes)
    &&& keys_unique(m.ids)
    &&& named_wf(m.classes)
    &&& named_wf(m.ids)
    &&& forall|i: int| 0 <= i < m.states.len() ==> (#[trigger] m.states[i]).dep.wf()
    &&& forall|i: int| 0 <= i < m.others.len() ==> (#[trigger] m.others[i]).wf()
}

/// Filing a well-formed fragment under a name keeps every fragment
/// well-formed.
proof fn lemma_add_named_wf(es: NameBuckets, key: Seq<u8>, d: Dependency)
    requires
        keys_unique(es),
        named_wf(es),
        d.wf(),
    ensures
        named_wf(add_named(es, key, d)),
{
    let r = add_named(es, key, d);
    if exists|i: int| 0 <= i < es.len() && es[i].0 == key {
        let i = choose|i: int| 0 <= i < es.len() && es[i].0 == key;
        let i2 = choose|i: int| 0 <= i < es.len() && es[i].0 == key;
        assert(es[i].0 == es[i2].0);
        assert(r == es.update(i, (key, es[i].1.push(d))));
        assert forall|a: int, b: int| 0 <= a < r.len() && 0 <= b < r[a].1.len() implies (
        #[trigger] r[a].1[b]).wf() by {
            if a != i {
                assert(r[a] == es[a]);
            } else if b < es[i].1.len() {
                assert(r[a].1[b] == es[i].1[b]);
            } else {
                assert(r[a].1[b] == d);
            }
        }
    } else {
        assert(r == es.push((key, seq![d])));
        assert forall|a: int, b: int| 0 <= a < r.len() && 0 <= b < r[a].1.len() implies (
        #[trigger] r[a].1[b]).wf() by {
            if a < es.len() {
                assert(r[a] == es[a]);
            }
        }
    }
}

/// A step that files only a well-formed fragment keeps a map well-formed.
pub proof fn lemma_apply_wf(m: MapModel, a: Action, quirks_mode: QuirksMode)
    requires
        model_wf(m),
        match a {
            Action::AddClass(_, d) => d.wf(),
            Action::AddId(_, d) => d.wf(),
            Action::AddState(sd) => sd.dep.wf(),
            Action::AddOther(d) => d.wf(),
            _ => true,
        },
        keys_unique(apply(m, a, quirks_mode).classes),
        keys_unique(apply(m, a, quirks_mode).ids),
    ensures
        model_wf(apply(m, a, quirks_mode)),
{
    let r = apply(m, a, quirks_mode);
    match a {
        Action::AddClass(n, d) => lemma_add_named_wf(m.classes, key_of(n, quirks_mode), d),
        Action::AddId(n, d) => lemma_add_named_wf(m.ids, key_of(n, quirks_mode), d),
        Action::AddState(sd) => {
            assert forall|i: int| 0 <= i < r.states.len() implies (#[trigger] r.states[i]).dep.wf() by {
                if i < m.states.len() {
                    assert(r.states[i] == m.states[i]);
                }
            }
        },
        Action::AddOther(d) => {
            assert forall|i: int| 0 <= i < r.others.len() implies (#[trigger] r.others[i]).wf() by {
                if i < m.others.len() {
                    assert(r.others[i] == m.others[i]);
                }
            }
        },
        _ => {},
    }
}

/// Applying one more step after a run.
pub proof fn lemma_apply_push(m: MapModel, acts: Seq<Action>, a: Action, quirks_mode: QuirksMode)
    ensures
        apply_all(m, acts.push(a), quirks_mode) == apply(apply_all(m, acts, quirks_mode), a, quirks_mode),
{
    assert(acts.push(a).drop_last() =~= acts);
}

/// Applying two runs one after the other.
pub proof fn lemma_apply_concat(m: MapModel, a: Seq<Action>, b: Seq<Action>, quirks_mode: QuirksMode)
    ensures
        apply_all(m, a + b, quirks_mode) == apply_all(apply_all(m, a, quirks_mode), b, quirks_mode),
    decreases b.len(),
{
    if b.len() == 0 {
        assert(a + b =~= a);
    } else {
        lemma_apply_concat(m, a, b.drop_last(), quirks_mode);
        assert((a + b).drop_last() =~= a + b.drop_last());
    }
}


/// A map that holds nothing.
pub open spec fn empty_model() -> MapModel {
    MapModel {
        classes: Seq::empty(),
        ids: Seq::empty(),
        states: Seq::empty(),
        documents: Seq::empty(),
        others: Seq::empty(),
        flags: 0,
    }
}

/// A prefix of name buckets holds no more fragments than the whole.
proof fn lemma_named_count_prefix(es: NameBuckets, i: int)
    requires
        0 <= i <= es.len(),
    ensures
        named_count(es.take(i)) <= named_count(es),
    decreases es.len() - i,
{
    if i < es.len() {
        lemma_named_count_prefix(es, i + 1);
        assert(es.take(i + 1).drop_last() =~= es.take(i));
    } else {
        assert(es.take(i) =~= es);
    }
}

/// The number of fragments over all names of a bucket.
fn named_total(entries: &Vec<NameEntry>) -> (r: usize)
    requires
        named_count(buckets(entries@)) <= usize::MAX,
    ensures
        r == named_count(buckets(entries@)),
{
    let ghost es = buckets(entries@);
    let mut total: usize = 0;
    let mut i: usize = 0;
    while i < entries.len()
        invariant
            es == buckets(entries@),
            named_count(es) <= usize::MAX,
            i <= entries@.len(),
            total == named_count(es.take(i as int)),
        decreases entries@.len() - i,
    {
        proof {
            lemma_named_count_prefix(es, i + 1);
            assert(es.take(i + 1).drop_last() =~= es.take(i as int));
        }
        total = total + entries[i].dependencies.len();
        i = i + 1;
    }
    assert(es.take(i as int) =~= es);
    total
}

/// Whether two names are the same bytes.
fn names_equal(a: &Vec<u8>, b: &Vec<u8>) -> (r: bool)
    ensures
        r == (a@ == b@),
{
    if a.len() != b.len() {
        return false;
    }
    let mut i: usize = 0;
    while i < a.len()
        invariant
            a@.len() == b@.len(),
            i <= a@.len(),
            forall|j: int| 0 <= j < i ==> a@[j] == b@[j],
        decreases a@.len() - i,
    {
        if a[i] != b[i] {
            return false;
        }
        i = i + 1;
    }
    assert(a@ =~= b@);
    true
}

/// The key a class or id name is filed under.
fn key_for(name: &Vec<u8>, quirks_mode: QuirksMode) -> (r: Vec<u8>)
    ensures
        r@ == key_of(name@, quirks_mode),
{
    let mut r: Vec<u8> = Vec::new();
    let mut i: usize = 0;
    while i < name.len()
        invariant
            i <= name@.len(),
            r@.len() == i,
            forall|j: int|
                0 <= j < i ==> r@[j] == (if quirks_mode == QuirksMode::Quirks {
                    lower_byte(name@[j])
                } else {
                    name@[j]
                }),
        decreases name@.len() - i,
    {
        let b = name[i];
        if matches!(quirks_mode, QuirksMode::Quirks) && 65 <= b && b <= 90 {
            r.push(b + 32);
        } else {
            r.push(b);
        }
        i = i + 1;
    }
    assert(r@ =~= key_of(name@, quirks_mode));
    r
}

/// The list kept under `key`, if it holds any fragment.
fn find_named<'a>(entries: &'a Vec<NameEntry>, key: &Vec<u8>) -> (r: Option<&'a DependencyList>)
    requires
        keys_unique(buckets(entries@)),
    ensures
        r is None <==> named(buckets(entries@), key@).len() == 0,
        r matches Some(l) ==> l.view() == named(buckets(entries@), key@),
{
    let ghost es = buckets(entries@);
    let mut i: usize = 0;
    while i < entries.len()
        invariant
            i <= entries@.len(),
            es == buckets(entries@),
            keys_unique(es),
            forall|j: int| 0 <= j < i ==> es[j].0 != key@,
        decreases entries@.len() - i,
    {
        if names_equal(&entries[i].name, key) {
            assert(es[i as int].0 == key@);
            let ghost k = choose|k: int| 0 <= k < es.len() && es[k].0 == key@;
            assert(es[k].0 == es[i as int].0);
            let l = &entries[i].dependencies;
            if l.len() == 0 {
                return None;
            }
            return Some(l);
        }
        i = i + 1;
    }
    None
}

/// Files `d` under `key`, or leaves the bucket as it was when room cannot be
/// allocated.
fn add_named_entry(entries: &mut Vec<NameEntry>, key: Vec<u8>, d: Dependency) -> (r: Result<
    (),
    FailedAllocationError,
>)
    requires
        keys_unique(buckets(old(entries)@)),
    ensures
        keys_unique(buckets(final(entries)@)),
        r is Ok ==> buckets(final(entries)@) == add_named(buckets(old(entries)@), key@, d),
        r is Err ==> buckets(final(entries)@) == buckets(old(entries)@),
{
    let ghost es = buckets(entries@);
    let mut i: usize = 0;
    while i < entries.len()
        invariant
            i <= entries@.len(),
            es == buckets(entries@),
            es == buckets(old(entries)@),
            keys_unique(es),
            forall|j: int| 0 <= j < i ==> es[j].0 != key@,
        decreases entries@.len() - i,
    {
        if names_equal(&entries[i].name, &key) {
            assert(es[i as int].0 == key@);
            let ghost k = choose|k: int| 0 <= k < es.len() && es[k].0 == key@;
            assert(es[k].0 == es[i as int].0);
            assert(k == i);
            let pushed = entries[i].dependencies.try_push(d);
            if pushed.is_ok() {
                assert(buckets(entries@) =~= add_named(es, key@, d));
                return Ok(());
            } else {
                assert(buckets(entries@) =~= es);
                return Err(FailedAllocationError);
            }
        }
        i = i + 1;
    }
    assert(!exists|k: int| 0 <= k < es.len() && es[k].0 == key@);
    let mut list = DependencyList::new();
    if list.try_push(d).is_err() {
        return Err(FailedAllocationError);
    }
    if entries.try_reserve(1).is_err() {
        return Err(FailedAllocationError);
    }
    entries.push(NameEntry { name: key, dependencies: list });
    assert(buckets(entries@) =~= add_named(es, key@, d));
    Ok(())
}

} // verus!
