//! An index from the mutable features of an element (classes, ids, element
//! and document state, other attributes) to the selector fragments that
//! depend on them, used to narrow style invalidation.

pub mod selector;
pub mod dependency;
pub mod dependency_list;
pub mod compound;
pub mod map;
pub mod lemmas;
