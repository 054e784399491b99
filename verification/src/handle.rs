//! Handle allocation and the generic handle table.
//!
//! A handle table maps opaque non-zero `u64` handles to owned values of one
//! resource kind. Handles are produced by a monotonically increasing counter
//! and are never reused, so a handle that has been removed stays invalid for
//! the lifetime of the table.

use vstd::prelude::*;
use std::collections::HashMap;
use crate::Handle;

verus! {

broadcast use vstd::std_specs::hash::group_hash_axioms;

/// Allocates the next handle from a monotonically increasing counter.
/// Returns the current counter value and advances the counter, so no two
/// calls on the same counter ever return the same handle.
pub fn new_handle(counter: &mut u64) -> (h: Handle)
    requires
        0 < *old(counter) < u64::MAX,
    ensures
        h == *old(counter),
        h != 0,
        *final(counter) == *old(counter) + 1,
{
    let h: u64 = *counter;
    *counter = *counter + 1;
    h
}

/// Handle table for a single resource kind: a mapping from opaque handles to
/// owned values, plus the counter that mints fresh handles for this table.
pub struct HandleStore<T> {
    next: u64,
    table: HashMap<Handle, T>,
}

impl<T> HandleStore<T> {
    /// The table as a mathematical map from handles to values.
    pub closed spec fn view(&self) -> Map<Handle, T> {
        self.table@
    }

    /// The counter value the next insertion will use as its handle.
    pub closed spec fn next_handle(&self) -> u64 {
        self.next
    }

    /// Every handle in the table is non-zero and below the counter, so a
    /// fresh handle can never collide with a live one.
    pub closed spec fn wf(&self) -> bool {
        &&& 0 < self.next
        &&& forall|h: Handle| self@.contains_key(h) ==> 0 < h < self.next
    }

    pub fn new() -> (s: Self)
        ensures
            s.wf(),
            s@ == Map::<Handle, T>::empty(),
    {
        HandleStore { next: 1, table: HashMap::new() }
    }

    /// Stores a value under a freshly allocated handle. The handle is
    /// non-zero and was never present in the table before.
    pub fn insert(&mut self, value: T) -> (h: Handle)
        requires
            old(self).wf(),
            old(self).next_handle() < u64::MAX,
        ensures
            final(self).wf(),
            h != 0,
            h == old(self).next_handle(),
            final(self).next_handle() == old(self).next_handle() + 1,
            !old(self)@.contains_key(h),
            final(self)@ == old(self)@.insert(h, value),
    {
        let h = new_handle(&mut self.next);
        self.table.insert(h, value);
        proof {
            assert forall|k: Handle| self@.contains_key(k) implies 0 < k < self.next by {
                if k != h {
                    assert(old(self)@.contains_key(k));
                }
            }
        }
        h
    }

    /// Looks the handle up; returns the stored value, or `None` for a handle
    /// that is unknown or was previously removed.
    pub fn get(&self, handle: Handle) -> (r: Option<&T>)
        ensures
            match r {
                Some(v) => self@.contains_key(handle) && *v == self@[handle],
                None => !self@.contains_key(handle),
            },
    {
        self.table.get(&handle)
    }

    /// Detaches and returns the table's value for the handle. Removing the
    /// same handle again yields `None`, not an error.
    pub fn remove(&mut self, handle: Handle) -> (r: Option<T>)
        requires
            old(self).wf(),
        ensures
            final(self).wf(),
            final(self)@ == old(self)@.remove(handle),
            final(self).next_handle() == old(self).next_handle(),
            match r {
                Some(v) => old(self)@.contains_key(handle) && v == old(self)@[handle],
                None => !old(self)@.contains_key(handle),
            },
    {
        let r = self.table.remove(&handle);
        proof {
            assert forall|k: Handle| self@.contains_key(k) implies 0 < k < self.next by {
                assert(old(self)@.contains_key(k));
            }
        }
        r
    }

    /// Models the C-style "retain" contract. The table keeps no per-slot
    /// count, so this only hands the same handle back; the handle stays
    /// resolvable exactly as long as it has not been removed.
    pub fn keep(&self, handle: Handle) -> (r: Handle)
        ensures
            r == handle,
    {
        handle
    }
}

} // verus!
