//! The short list of fragments kept under one class or id name, held in a
//! `smallvec::SmallVec` with room for one fragment inline.

use crate::dependency::Dependency;
use crate::map::FailedAllocationError;
use smallvec::{CollectionAllocErr, SmallVec};
use vstd::prelude::*;

verus! {

#[verifier::external_type_specification]
#[verifier::external_body]
pub struct ExCollectionAllocErr(CollectionAllocErr);

/// A list of fragments; one is held inline, more spill to the heap.
#[verifier::external_body]
#[derive(Debug)]
pub struct DependencyList {
    items: SmallVec<[Dependency; 1]>,
}

/// The fragments a list holds, in order.
pub uninterp spec fn list_items(v: DependencyList) -> Seq<Dependency>;

/// Relies on `SmallVec::new`: the new vector is empty.
#[verifier::external_body]
fn list_new() -> (r: DependencyList)
    ensures
        list_items(r) == Seq::<Dependency>::empty(),
{
    DependencyList { items: SmallVec::new() }
}

/// Relies on `SmallVec::len`: the number of items held.
#[verifier::external_body]
fn list_len(v: &DependencyList) -> (r: usize)
    ensures
        r == list_items(*v).len(),
{
    v.items.len()
}

/// Relies on indexing a `SmallVec` (through its slice): the item at `i`.
#[verifier::external_body]
fn list_index(v: &DependencyList, i: usize) -> (r: &Dependency)
    requires
        i < list_items(*v).len(),
    ensures
        *r == list_items(*v)[i as int],
{
    &v.items[i]
}

/// Relies on `SmallVec::try_reserve`: it changes the capacity only, never
/// the items, and reports a failed allocation as an error. It succeeds only
/// when the capacity, which never exceeds `usize::MAX`, holds the items and
/// `additional` more.
#[verifier::external_body]
fn list_try_reserve(v: &mut DependencyList, additional: usize) -> (r: Result<(), CollectionAllocErr>)
    ensures
        list_items(*final(v)) == list_items(*old(v)),
        r is Ok ==> list_items(*old(v)).len() + additional <= usize::MAX,
{
    v.items.try_reserve(additional)
}

/// Relies on `SmallVec::push`: the item goes at the end. It allocates only
/// when the vector is full, and so never after `try_reserve` made room; it
/// panics only when the length would pass `usize::MAX`.
#[verifier::external_body]
fn list_push(v: &mut DependencyList, d: Dependency)
    requires
        list_items(*old(v)).len() < usize::MAX,
    ensures
        list_items(*final(v)) == list_items(*old(v)).push(d),
{
    v.items.push(d)
}

impl DependencyList {
    /// The fragments held, in order of insertion.
    pub open spec fn view(&self) -> Seq<Dependency> {
        list_items(*self)
    }

    /// An empty list.
    pub fn new() -> (r: Self)
        ensures
            r.view() == Seq::<Dependency>::empty(),
    {
        list_new()
    }

    /// The number of fragments held.
    pub fn len(&self) -> (r: usize)
        ensures
            r == self.view().len(),
    {
        list_len(self)
    }

    /// The fragment at position `i`.
    pub fn get(&self, i: usize) -> (r: &Dependency)
        requires
            i < self.view().len(),
        ensures
            *r == self.view()[i as int],
    {
        list_index(self, i)
    }

    /// Appends a fragment, or leaves the list as it was when room for it
    /// cannot be allocated.
    pub fn try_push(&mut self, d: Dependency) -> (r: Result<(), FailedAllocationError>)
        ensures
            r is Ok ==> final(self).view() == old(self).view().push(d),
            r is Err ==> final(self).view() == old(self).view(),
    {
        match list_try_reserve(self, 1) {
            Ok(()) => {
                list_push(self, d);
                Ok(())
            },
            Err(_) => Err(FailedAllocationError),
        }
    }
}

} // verus!
