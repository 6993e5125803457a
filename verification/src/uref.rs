//! Reference handles: non-owning, identity-based pointers to members of a
//! universe, plus the borrow-state machinery and scoped access guards.

use core::marker::PhantomData;
use vstd::prelude::*;

use crate::universe::MemberKind;

verus! {

/// The dynamic borrow state of one member: any number of concurrent readers
/// or a single writer, never both.
#[derive(Clone, Copy, Debug, PartialEq, Eq, Structural)]
pub enum BorrowState {
    /// No access guard is outstanding.
    Idle,
    /// The given number (at least one) of read guards are outstanding.
    Reading(usize),
    /// A single write guard is outstanding.
    Writing,
}

/// The borrow state after one more read guard is handed out.
pub open spec fn read_acquired(b: BorrowState) -> BorrowState {
    if (b is Reading) {
        BorrowState::Reading((b->0 + 1) as usize)
    } else {
        BorrowState::Reading(1usize)
    }
}

/// The borrow state after one read guard is returned.
pub open spec fn read_released(b: BorrowState) -> BorrowState
    recommends
        b is Reading,
{
    if (b->0 <= 1) {
        BorrowState::Idle
    } else {
        BorrowState::Reading((b->0 - 1) as usize)
    }
}

/// Failure to resolve or borrow through a reference handle.
#[derive(Clone, Copy, Debug, PartialEq, Eq, Structural)]
pub enum RefError {
    /// The member no longer exists (or never belonged to this universe).
    Gone,
    /// Some guard is outstanding, so exclusive access is unavailable.
    AlreadyBorrowed,
    /// A write guard is outstanding, so shared access is unavailable.
    AlreadyMutablyBorrowed,
}

/// A reference handle to a member of type `T` in some universe.
///
/// A handle grants no access by itself: reads and writes go through the
/// universe, which tracks the member's borrow state. Handles do not keep
/// their member alive; every live handle is recorded in the member's handle
/// count, so handles are duplicated with [`crate::universe::Universe::clone_ref`]
/// and surrendered with [`crate::universe::Universe::drop_ref`] rather than
/// copied freely.
///
/// Two handles are equal exactly when they resolve to the same storage: same
/// universe, same arena position. Equal contents in different storage do not
/// make handles equal.
#[derive(Debug)]
pub struct URef<T> {
    universe_id: u64,
    index: usize,
    marker: PhantomData<T>,
}

impl<T> URef<T> {
    /// Identifier of the universe this handle belongs to.
    pub closed spec fn universe_id_spec(self) -> u64 {
        self.universe_id
    }

    /// Arena position of the member this handle designates.
    pub closed spec fn index_spec(self) -> int {
        self.index as int
    }

    /// Construct a handle. Only the universe mints handles; every mint is
    /// recorded in the member's handle count.
    pub(crate) fn make(universe_id: u64, index: usize) -> (r: URef<T>)
        ensures
            r.universe_id_spec() == universe_id,
            r.index_spec() == index,
    {
        URef { universe_id, index, marker: PhantomData }
    }

    pub(crate) fn universe_id_raw(&self) -> (r: u64)
        ensures
            r == self.universe_id_spec(),
    {
        self.universe_id
    }

    pub(crate) fn index_raw(&self) -> (r: usize)
        ensures
            r == self.index_spec(),
    {
        self.index
    }
}

impl<T: crate::universe::UniverseMember> URef<T> {
    /// The type-erased identity of this handle: enough to compare targets
    /// and to record references between members, but granting no access and
    /// not counted as a live handle.
    pub fn erase(&self) -> (r: ErasedRef)
        ensures
            r.universe_id == self.universe_id_spec(),
            r.index == self.index_spec(),
            r.kind == T::kind_spec(),
    {
        ErasedRef { universe_id: self.universe_id, kind: T::kind(), index: self.index }
    }
}

impl<T> PartialEq for URef<T> {
    /// Handles are equal exactly when they designate the same storage.
    fn eq(&self, other: &Self) -> (r: bool) {
        self.universe_id == other.universe_id && self.index == other.index
    }
}

impl<T> vstd::std_specs::cmp::PartialEqSpecImpl for URef<T> {
    open spec fn obeys_eq_spec() -> bool {
        true
    }

    open spec fn eq_spec(&self, other: &Self) -> bool {
        self.universe_id_spec() == other.universe_id_spec() && self.index_spec()
            == other.index_spec()
    }
}

/// The identity of a member reference with its member type erased: which
/// universe, which kind of member, which arena position. Used for lookups
/// across all member types and for recording references between members.
#[derive(Clone, Copy, Debug, PartialEq, Eq, Structural)]
pub struct ErasedRef {
    /// Identifier of the universe the reference belongs to.
    pub universe_id: u64,
    /// Which member table the reference points into.
    pub kind: MemberKind,
    /// Arena position of the member.
    pub index: usize,
}

/// Scoped shared access to a member's current value. While any read guard
/// for a member is outstanding, no write guard can be obtained. Return the
/// guard with [`crate::universe::Universe::end_read`].
#[derive(Debug)]
pub struct ReadGuard<T> {
    value: T,
    universe_id: u64,
    index: usize,
}

impl<T> ReadGuard<T> {
    /// The member value this guard grants access to.
    pub closed spec fn value_spec(self) -> T {
        self.value
    }

    pub closed spec fn universe_id_spec(self) -> u64 {
        self.universe_id
    }

    pub closed spec fn index_spec(self) -> int {
        self.index as int
    }

    pub(crate) fn make(value: T, universe_id: u64, index: usize) -> (r: ReadGuard<T>)
        ensures
            r.value_spec() == value,
            r.universe_id_spec() == universe_id,
            r.index_spec() == index,
    {
        ReadGuard { value, universe_id, index }
    }

    pub(crate) fn parts(self) -> (r: (T, u64, usize))
        ensures
            r.0 == self.value_spec(),
            r.1 == self.universe_id_spec(),
            r.2 == self.index_spec(),
    {
        let ReadGuard { value, universe_id, index } = self;
        (value, universe_id, index)
    }

    /// Read the member's value.
    pub fn value(&self) -> (v: &T)
        ensures
            *v == self.value_spec(),
    {
        &self.value
    }
}

/// Scoped exclusive access to a member's current value. While a write guard
/// for a member is outstanding, no other guard can be obtained. The value is
/// edited in the guard and stored back by
/// [`crate::universe::Universe::end_write`].
#[derive(Debug)]
pub struct WriteGuard<T> {
    value: T,
    universe_id: u64,
    index: usize,
}

impl<T> WriteGuard<T> {
    /// The value that will be stored back when the guard is returned.
    pub closed spec fn value_spec(self) -> T {
        self.value
    }

    pub closed spec fn universe_id_spec(self) -> u64 {
        self.universe_id
    }

    pub closed spec fn index_spec(self) -> int {
        self.index as int
    }

    pub(crate) fn make(value: T, universe_id: u64, index: usize) -> (r: WriteGuard<T>)
        ensures
            r.value_spec() == value,
            r.universe_id_spec() == universe_id,
            r.index_spec() == index,
    {
        WriteGuard { value, universe_id, index }
    }

    pub(crate) fn parts(self) -> (r: (T, u64, usize))
        ensures
            r.0 == self.value_spec(),
            r.1 == self.universe_id_spec(),
            r.2 == self.index_spec(),
    {
        let WriteGuard { value, universe_id, index } = self;
        (value, universe_id, index)
    }

    /// Read the value as it currently stands in the guard.
    pub fn value(&self) -> (v: &T)
        ensures
            *v == self.value_spec(),
    {
        &self.value
    }

    /// Edit the value in place.
    pub fn value_mut(&mut self) -> (v: &mut T)
        ensures
            *v == old(self).value_spec(),
            final(self).value_spec() == *final(v),
            final(self).universe_id_spec() == old(self).universe_id_spec(),
            final(self).index_spec() == old(self).index_spec(),
    {
        &mut self.value
    }

    /// Replace the value outright.
    pub fn set_value(&mut self, value: T)
        ensures
            final(self).value_spec() == value,
            final(self).universe_id_spec() == old(self).universe_id_spec(),
            final(self).index_spec() == old(self).index_spec(),
    {
        self.value = value;
    }
}

} // verus!
