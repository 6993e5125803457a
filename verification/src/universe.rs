//! The universe: the top-level container that owns every member, hands out
//! reference handles, tracks per-member borrow states and handle counts, and
//! garbage-collects members that nothing references any more.

use vstd::prelude::*;
use vstd::string::StringExecFns;

use crate::block::{Block, BlockDef};
use crate::character::Character;
use crate::inv::Slot;
use crate::name::{Name, NameView};
use crate::space::{Grid, Space};
use crate::time::Tick;
use crate::uref::{BorrowState, ErasedRef, ReadGuard, RefError, URef, WriteGuard};

verus! {

/// The member types a universe stores, one table position per kind.
#[derive(Clone, Copy, Debug, PartialEq, Eq, Structural)]
pub enum MemberKind {
    BlockDef,
    Character,
    Space,
}

/// A member value of any kind, as stored in the universe's arena.
#[derive(Debug)]
pub enum AnyMember {
    BlockDef(BlockDef),
    Character(Character),
    Space(Space),
}

/// The mathematical value of a member, independent of storage.
pub enum MemberView {
    BlockDef(BlockDef),
    Character(ErasedRef, Seq<Slot>),
    Space(Grid, Seq<Block>),
}

/// Which kind of member a stored value is.
pub open spec fn kind_of(m: AnyMember) -> MemberKind {
    match m {
        AnyMember::BlockDef(_) => MemberKind::BlockDef,
        AnyMember::Character(_) => MemberKind::Character,
        AnyMember::Space(_) => MemberKind::Space,
    }
}

/// The mathematical value of a stored member.
pub open spec fn member_view(m: AnyMember) -> MemberView {
    match m {
        AnyMember::BlockDef(d) => MemberView::BlockDef(d),
        AnyMember::Character(c) => MemberView::Character(c.space, c.inventory.slots@),
        AnyMember::Space(s) => MemberView::Space(s.grid_spec(), s.contents_spec()),
    }
}

/// Validity of a member, stated on its view.
pub open spec fn view_wf(v: MemberView) -> bool {
    match v {
        MemberView::BlockDef(_) => true,
        MemberView::Character(_, slots) => crate::inv::slots_wf(slots),
        MemberView::Space(grid, contents) => grid.wf() && contents.len() == grid.volume_spec(),
    }
}

/// The references a member holds to other members. A member reachable only
/// through such references is kept alive by them; references are not traced
/// transitively beyond liveness of the holder, so cyclic members that are
/// otherwise unreachable are never collected (a deliberate limitation).
pub open spec fn view_links(v: MemberView) -> Seq<ErasedRef> {
    match v {
        MemberView::Character(space, _) => seq![space],
        _ => Seq::<ErasedRef>::empty(),
    }
}

/// The member values a universe can store. Implementations connect each
/// concrete member type to its stored form and its mathematical view.
pub trait UniverseMember: Sized {
    /// Which table position this type occupies.
    spec fn kind_spec() -> MemberKind;

    /// The mathematical value of this member.
    spec fn mview(self) -> MemberView;

    /// Which field of a [`PartialUniverse`] holds members of this type.
    spec fn of_partial(p: PartialUniverse) -> Seq<URef<Self>>;

    fn kind() -> (k: MemberKind)
        ensures
            k == Self::kind_spec(),
    ;

    /// Store this member.
    fn wrap(self) -> (m: AnyMember)
        ensures
            kind_of(m) == Self::kind_spec(),
            member_view(m) == self.mview(),
    ;

    /// Read a stored member of this type back out, by cloning.
    fn unwrap_clone(m: &AnyMember) -> (v: Self)
        requires
            kind_of(*m) == Self::kind_spec(),
        ensures
            v.mview() == member_view(*m),
    ;

    /// A [`PartialUniverse`] holding exactly the given members of this type.
    fn collect_partial(members: Vec<URef<Self>>) -> (p: PartialUniverse)
        ensures
            Self::of_partial(p) == members@,
            p.total_len_spec() == members@.len(),
    ;
}

impl UniverseMember for BlockDef {
    open spec fn kind_spec() -> MemberKind {
        MemberKind::BlockDef
    }

    open spec fn mview(self) -> MemberView {
        MemberView::BlockDef(self)
    }

    open spec fn of_partial(p: PartialUniverse) -> Seq<URef<BlockDef>> {
        p.blocks@
    }

    fn kind() -> MemberKind {
        MemberKind::BlockDef
    }

    fn wrap(self) -> AnyMember {
        AnyMember::BlockDef(self)
    }

    fn unwrap_clone(m: &AnyMember) -> Self {
        match m {
            AnyMember::BlockDef(d) => *d,
            _ => vstd::pervasive::unreached(),
        }
    }

    fn collect_partial(members: Vec<URef<BlockDef>>) -> PartialUniverse {
        PartialUniverse { blocks: members, characters: Vec::new(), spaces: Vec::new() }
    }
}

impl UniverseMember for Character {
    open spec fn kind_spec() -> MemberKind {
        MemberKind::Character
    }

    open spec fn mview(self) -> MemberView {
        MemberView::Character(self.space, self.inventory.slots@)
    }

    open spec fn of_partial(p: PartialUniverse) -> Seq<URef<Character>> {
        p.characters@
    }

    fn kind() -> MemberKind {
        MemberKind::Character
    }

    fn wrap(self) -> AnyMember {
        AnyMember::Character(self)
    }

    fn unwrap_clone(m: &AnyMember) -> Self {
        match m {
            AnyMember::Character(c) => c.clone(),
            _ => vstd::pervasive::unreached(),
        }
    }

    fn collect_partial(members: Vec<URef<Character>>) -> PartialUniverse {
        PartialUniverse { blocks: Vec::new(), characters: members, spaces: Vec::new() }
    }
}

impl UniverseMember for Space {
    open spec fn kind_spec() -> MemberKind {
        MemberKind::Space
    }

    open spec fn mview(self) -> MemberView {
        MemberView::Space(self.grid_spec(), self.contents_spec())
    }

    open spec fn of_partial(p: PartialUniverse) -> Seq<URef<Space>> {
        p.spaces@
    }

    fn kind() -> MemberKind {
        MemberKind::Space
    }

    fn wrap(self) -> AnyMember {
        AnyMember::Space(self)
    }

    fn unwrap_clone(m: &AnyMember) -> Self {
        match m {
            AnyMember::Space(s) => s.clone(),
            _ => vstd::pervasive::unreached(),
        }
    }

    fn collect_partial(members: Vec<URef<Space>>) -> PartialUniverse {
        PartialUniverse { blocks: Vec::new(), characters: Vec::new(), spaces: members }
    }
}

/// The references a stored member holds to other members.
fn links_of(m: &AnyMember) -> (r: Vec<ErasedRef>)
    ensures
        r@ == view_links(member_view(*m)),
{
    match m {
        AnyMember::Character(c) => {
            let mut v: Vec<ErasedRef> = Vec::new();
            v.push(c.space);
            proof {
                assert(v@ =~= seq![c.space]);
            }
            v
        },
        _ => Vec::new(),
    }
}

/// One arena slot: the member, its name, and its dynamic access state.
struct Entry {
    name: Name,
    member: AnyMember,
    borrow: BorrowState,
    ref_count: usize,
}

/// Copiable identifier distinguishing universes from one another, so that a
/// handle can be checked against the universe it is used on.
#[derive(Clone, Copy, Debug, PartialEq, Eq, Hash, Structural)]
pub struct UniverseId(u64);

impl UniverseId {
    /// The raw identifier value.
    pub closed spec fn raw(self) -> u64 {
        self.0
    }

    /// A fresh identifier.
    fn new() -> UniverseId {
        UniverseId(random_u64())
    }
}

/// Relies on `rand::random` for an identifier that distinct universes within
/// one process are overwhelmingly unlikely to share. Nothing is assumed
/// about the value.
#[verifier::external_body]
fn random_u64() -> u64 {
    rand::random()
}

/// Errors resulting from attempting to insert a member into a universe.
#[derive(Debug)]
pub struct InsertError {
    /// The name given for the insertion.
    pub name: Name,
    /// The problem that was detected.
    pub kind: InsertErrorKind,
}

/// Specific problems with inserting a member; part of [`InsertError`].
#[derive(Clone, Copy, Debug, PartialEq, Eq, Structural)]
pub enum InsertErrorKind {
    /// A member already exists with the proposed name, of whatever type.
    AlreadyExists,
    /// The proposed name may not be used: numeric names are allocated only
    /// by the universe itself.
    InvalidName,
    /// The provided reference no longer has a value.
    Gone,
    /// The referenced member already belongs to some universe.
    AlreadyInserted,
}

/// Bookkeeping data returned by [`Universe::step`].
#[derive(Clone, Copy, Debug, PartialEq, Eq, Structural)]
pub struct UniverseStepInfo {
    /// Whether this step performed the deferred garbage collection.
    pub gc_performed: bool,
    /// Whether simulated time was paused for this step.
    pub paused: bool,
}

/// A collection of named members which refer to each other through reference
/// handles and are simulated at the same time steps.
pub struct Universe {
    /// Arena of member slots; positions are never reused, so a handle's
    /// position either holds its member or permanently holds nothing.
    entries: Vec<Option<Entry>>,
    id: u64,
    /// Next number to assign to an anonymous name; never reused even after
    /// deletion, so a freed name cannot alias an old handle's target.
    next_anonym: usize,
    /// Whether to run a garbage collection on the next step. Set on every
    /// insertion so that insert/drop churn cannot grow the arena unboundedly
    /// as long as stepping continues.
    wants_gc: bool,
    /// Number of unpaused steps since creation; diagnostic only.
    session_step_time: u64,
}

impl Universe {
    /// Number of arena slots ever allocated (live or not).
    pub closed spec fn arena_len(self) -> int {
        self.entries@.len() as int
    }

    /// Whether arena position `i` currently holds a member.
    pub closed spec fn live_at(self, i: int) -> bool {
        0 <= i < self.entries@.len() && self.entries@[i] is Some
    }

    /// The name of the member at position `i`.
    pub closed spec fn name_at(self, i: int) -> Name
        recommends
            self.live_at(i),
    {
        self.entries@[i]->Some_0.name
    }

    /// The kind of the member at position `i`.
    pub closed spec fn kind_at(self, i: int) -> MemberKind
        recommends
            self.live_at(i),
    {
        kind_of(self.entries@[i]->Some_0.member)
    }

    /// The value of the member at position `i`.
    pub closed spec fn view_at(self, i: int) -> MemberView
        recommends
            self.live_at(i),
    {
        member_view(self.entries@[i]->Some_0.member)
    }

    /// The borrow state of the member at position `i`.
    pub closed spec fn borrow_at(self, i: int) -> BorrowState
        recommends
            self.live_at(i),
    {
        self.entries@[i]->Some_0.borrow
    }

    /// The number of live handles to the member at position `i`.
    pub closed spec fn refs_at(self, i: int) -> int
        recommends
            self.live_at(i),
    {
        self.entries@[i]->Some_0.ref_count as int
    }

    /// This universe's identifier.
    pub closed spec fn id_spec(self) -> u64 {
        self.id
    }

    /// The next anonymous name to be allocated.
    pub closed spec fn next_anonym_spec(self) -> int {
        self.next_anonym as int
    }

    /// Whether a garbage collection is scheduled for the next step.
    pub closed spec fn wants_gc_spec(self) -> bool {
        self.wants_gc
    }

    /// Number of unpaused steps so far.
    pub closed spec fn step_time_spec(self) -> int {
        self.session_step_time as int
    }

    /// Whether some live member, of any kind, carries the given name.
    pub open spec fn has_name(self, n: NameView) -> bool {
        exists|i: int| self.live_at(i) && (#[trigger] self.name_at(i))@ == n
    }

    /// Whether some live member of kind `k` carries the given name.
    pub open spec fn has_typed(self, n: NameView, k: MemberKind) -> bool {
        exists|i: int|
            self.live_at(i) && (#[trigger] self.name_at(i))@ == n && self.kind_at(i) == k
    }

    /// Whether the handle currently designates a live member of its type in
    /// this universe.
    pub open spec fn uref_live<T: UniverseMember>(self, r: URef<T>) -> bool {
        &&& r.universe_id_spec() == self.id_spec()
        &&& 0 <= r.index_spec() < self.arena_len()
        &&& self.live_at(r.index_spec())
        &&& self.kind_at(r.index_spec()) == T::kind_spec()
    }

    /// Whether some live member holds a reference to position `i`.
    pub open spec fn linked(self, i: int) -> bool {
        exists|j: int, k: int|
            #![trigger view_links(self.view_at(j))[k]]
            {
                &&& self.live_at(j)
                &&& 0 <= k < view_links(self.view_at(j)).len()
                &&& view_links(self.view_at(j))[k].universe_id == self.id_spec()
                &&& view_links(self.view_at(j))[k].index == i
            }
    }

    /// Position `i` is unchanged between `other` and `self`.
    pub open spec fn entry_same(self, other: Universe, i: int) -> bool {
        &&& self.live_at(i) == other.live_at(i)
        &&& (other.live_at(i) ==> {
            &&& self.name_at(i)@ == other.name_at(i)@
            &&& self.kind_at(i) == other.kind_at(i)
            &&& self.view_at(i) == other.view_at(i)
            &&& self.borrow_at(i) == other.borrow_at(i)
            &&& self.refs_at(i) == other.refs_at(i)
        })
    }

    /// Everything except per-member handle counts and borrow states is
    /// unchanged between `other` and `self`.
    pub open spec fn same_members(self, other: Universe) -> bool {
        &&& self.arena_len() == other.arena_len()
        &&& self.id_spec() == other.id_spec()
        &&& self.next_anonym_spec() == other.next_anonym_spec()
        &&& self.wants_gc_spec() == other.wants_gc_spec()
        &&& self.step_time_spec() == other.step_time_spec()
        &&& forall|j: int|
            0 <= j < other.arena_len() ==> {
                &&& #[trigger] self.live_at(j) == other.live_at(j)
                &&& (other.live_at(j) ==> self.name_at(j)@ == other.name_at(j)@ && self.kind_at(j)
                    == other.kind_at(j) && self.view_at(j) == other.view_at(j))
            }
    }

    /// Nothing at all is changed between `other` and `self`.
    pub open spec fn unchanged(self, other: Universe) -> bool {
        &&& self.same_members(other)
        &&& forall|j: int| 0 <= j < other.arena_len() ==> #[trigger] self.entry_same(other, j)
    }

    /// Validity of the whole container:
    /// - live members' names are pairwise distinct (across all kinds);
    /// - no stored name is pending;
    /// - every stored anonymous name is below the allocation counter;
    /// - read-borrow counts are at least one;
    /// - every member value is valid.
    pub open spec fn wf(self) -> bool {
        &&& forall|i: int, j: int|
            self.live_at(i) && self.live_at(j) && i != j ==> (#[trigger] self.name_at(i))@ != (
            #[trigger] self.name_at(j))@
        &&& forall|i: int|
            #[trigger] self.live_at(i) ==> !(self.name_at(i)@ is Pending) && (self.name_at(i)@
                matches NameView::Anonym(k) ==> k < self.next_anonym_spec()) && (self.borrow_at(i)
                matches BorrowState::Reading(n) ==> n >= 1) && view_wf(self.view_at(i))
    }

    /// Member-preservation composes.
    proof fn lemma_same_members_trans(a: Universe, b: Universe, c: Universe)
        requires
            c.same_members(b),
            b.same_members(a),
        ensures
            c.same_members(a),
    {
        assert forall|j: int|
            0 <= j < a.arena_len() implies {
            &&& #[trigger] c.live_at(j) == a.live_at(j)
            &&& (a.live_at(j) ==> c.name_at(j)@ == a.name_at(j)@ && c.kind_at(j) == a.kind_at(j)
                && c.view_at(j) == a.view_at(j))
        } by {
            assert(b.live_at(j) == a.live_at(j));
            assert(c.live_at(j) == b.live_at(j));
        }
    }

    /// Validity carries over to a universe whose live entries are unchanged
    /// and whose name counter has not decreased.
    proof fn lemma_wf_frame(pre: Universe, post: Universe)
        requires
            pre.wf(),
            post.arena_len() == pre.arena_len(),
            forall|j: int| 0 <= j < pre.arena_len() ==> #[trigger] post.entry_same(pre, j),
            post.next_anonym_spec() >= pre.next_anonym_spec(),
        ensures
            post.wf(),
    {
        assert forall|i: int| #[trigger] post.live_at(i) implies !(post.name_at(i)@ is Pending)
            && (post.name_at(i)@ matches NameView::Anonym(k) ==> k < post.next_anonym_spec()) && (
        post.borrow_at(i) matches BorrowState::Reading(n) ==> n >= 1) && view_wf(
            post.view_at(i),
        ) by {
            assert(post.entry_same(pre, i));
            assert(pre.live_at(i));
        }
        assert forall|i: int, j: int| post.live_at(i) && post.live_at(j) && i != j implies (
        #[trigger] post.name_at(i))@ != (#[trigger] post.name_at(j))@ by {
            assert(post.entry_same(pre, i) && post.entry_same(pre, j));
            assert(pre.live_at(i) && pre.live_at(j));
        }
    }

    /// In a valid universe, the next anonymous name to be allocated is not
    /// equal to any existing member's name, so a pending insertion always
    /// receives a genuinely fresh identity.
    pub proof fn lemma_fresh_anonym_unused(self)
        requires
            self.wf(),
        ensures
            !self.has_name(NameView::Anonym(self.next_anonym_spec())),
    {
        if self.has_name(NameView::Anonym(self.next_anonym_spec())) {
            let i = choose|i: int|
                self.live_at(i) && (#[trigger] self.name_at(i))@ == NameView::Anonym(
                    self.next_anonym_spec(),
                );
            assert(self.live_at(i));
        }
    }

    /// The arena never has a negative length.
    pub proof fn lemma_arena_len_nonneg(self)
        ensures
            self.arena_len() >= 0,
    {
    }

    /// A live arena position lies within the arena.
    pub proof fn lemma_live_bounds(self, i: int)
        ensures
            self.live_at(i) ==> 0 <= i < self.arena_len(),
    {
    }

    /// A fresh, empty universe.
    pub fn new() -> (u: Universe)
        ensures
            u.wf(),
            u.arena_len() == 0,
            u.next_anonym_spec() == 0,
            !u.wants_gc_spec(),
            u.step_time_spec() == 0,
    {
        Universe {
            entries: Vec::new(),
            id: UniverseId::new().0,
            next_anonym: 0,
            wants_gc: false,
            session_step_time: 0,
        }
    }

    /// This universe's identifier, usable to check whether a handle belongs
    /// to it.
    pub fn universe_id(&self) -> (r: UniverseId)
        ensures
            r.raw() == self.id_spec(),
    {
        UniverseId(self.id)
    }

    /// The arena position of the live member named `name`, if any.
    fn find_index(&self, name: &Name) -> (r: Option<usize>)
        ensures
            match r {
                Some(i) => self.live_at(i as int) && self.name_at(i as int)@ == name@,
                None => !self.has_name(name@),
            },
    {
        let n: usize = self.entries.len();
        let mut i: usize = 0;
        while i < n
            invariant
                n == self.arena_len(),
                i <= n,
                forall|j: int|
                    0 <= j < i ==> (#[trigger] self.live_at(j) ==> self.name_at(j)@ != name@),
            decreases n - i,
        {
            match &self.entries[i] {
                Some(e) => {
                    if e.name == *name {
                        return Some(i);
                    }
                },
                None => {},
            }
            i = i + 1;
        }
        None
    }

    /// Look up a member by name regardless of its type, returning its erased
    /// identity. Used for cross-type name-uniqueness checks and generic
    /// tooling; the result grants no access and is not a counted handle.
    pub fn get_any(&self, name: &Name) -> (r: Option<ErasedRef>)
        ensures
            r is Some <==> self.has_name(name@),
            r matches Some(e) ==> {
                &&& self.live_at(e.index as int)
                &&& self.name_at(e.index as int)@ == name@
                &&& e.kind == self.kind_at(e.index as int)
                &&& e.universe_id == self.id_spec()
            },
    {
        match self.find_index(name) {
            None => None,
            Some(i) => {
                match &self.entries[i] {
                    Some(e) => {
                        let kind: MemberKind = match &e.member {
                            AnyMember::BlockDef(_) => MemberKind::BlockDef,
                            AnyMember::Character(_) => MemberKind::Character,
                            AnyMember::Space(_) => MemberKind::Space,
                        };
                        Some(ErasedRef { universe_id: self.id, kind, index: i })
                    },
                    None => vstd::pervasive::unreached(),
                }
            },
        }
    }

    /// Resolve a proposed name: a specific name must be unused (across all
    /// member kinds), a pending name receives the next anonymous number, and
    /// an anonymous name may not be chosen by the caller at all.
    fn allocate_name(&mut self, proposed_name: &Name) -> (r: Result<Name, InsertError>)
        requires
            old(self).wf(),
            old(self).next_anonym_spec() < usize::MAX,
        ensures
            final(self).wf(),
            final(self).arena_len() == old(self).arena_len(),
            final(self).id_spec() == old(self).id_spec(),
            final(self).wants_gc_spec() == old(self).wants_gc_spec(),
            final(self).step_time_spec() == old(self).step_time_spec(),
            forall|j: int|
                0 <= j < old(self).arena_len() ==> #[trigger] final(self).entry_same(
                    *old(self),
                    j,
                ),
            r is Ok <==> (proposed_name@ is Pending || (proposed_name@ is Specific && !old(self).has_name(proposed_name@))),
            r matches Err(e) ==> {
                &&& final(self).next_anonym_spec() == old(self).next_anonym_spec()
                &&& e.name@ == proposed_name@
                &&& ((proposed_name@ is Anonym && e.kind == InsertErrorKind::InvalidName) || (
                proposed_name@ is Specific && old(self).has_name(proposed_name@) && e.kind
                    == InsertErrorKind::AlreadyExists))
            },
            r matches Ok(n) ==> {
                &&& n@ == old(self).resolved_name(proposed_name@)
                &&& !old(self).has_name(n@)
                &&& final(self).next_anonym_spec() == old(self).next_anonym_spec() + (
                if proposed_name@ is Pending {
                    1int
                } else {
                    0int
                })
            },
    {
        let r: Result<Name, InsertError> = match proposed_name {
            Name::Specific(_) => {
                if self.get_any(proposed_name).is_some() {
                    Err(
                        InsertError {
                            name: proposed_name.clone(),
                            kind: InsertErrorKind::AlreadyExists,
                        },
                    )
                } else {
                    Ok(proposed_name.clone())
                }
            },
            Name::Anonym(_) => Err(
                InsertError { name: proposed_name.clone(), kind: InsertErrorKind::InvalidName },
            ),
            Name::Pending => {
                let new_name = Name::Anonym(self.next_anonym);
                proof {
                    assert(!self.has_name(new_name@)) by {
                        if self.has_name(new_name@) {
                            let i = choose|i: int|
                                self.live_at(i) && (#[trigger] self.name_at(i))@ == new_name@;
                            assert(self.live_at(i));
                        }
                    }
                }
                self.next_anonym = self.next_anonym + 1;
                Ok(new_name)
            },
        };
        proof {
            assert forall|j: int|
                0 <= j < old(self).arena_len() implies #[trigger] self.entry_same(
                *old(self),
                j,
            ) by {
                assert(self.entries@ == old(self).entries@);
            }
            Self::lemma_wf_frame(*old(self), *self);
        }
        r
    }

    /// The name a proposed name resolves to upon insertion.
    pub open spec fn resolved_name(self, n: NameView) -> NameView {
        if n is Pending {
            NameView::Anonym(self.next_anonym_spec())
        } else {
            n
        }
    }

    /// Insert a new member under the given name and return a handle to it.
    ///
    /// A `Specific` name already used by any member of any kind is refused
    /// with `AlreadyExists`; an `Anonym` name is refused with `InvalidName`
    /// (the universe alone allocates those); a `Pending` name is replaced by
    /// a fresh anonymous name. The new member starts with no guards
    /// outstanding and exactly one live handle: the returned one. Every
    /// insertion schedules a garbage collection for the next step.
    #[verifier::rlimit(60)]
    pub fn insert<T: UniverseMember>(&mut self, name: Name, value: T) -> (r: Result<
        URef<T>,
        InsertError,
    >)
        requires
            old(self).wf(),
            old(self).next_anonym_spec() < usize::MAX,
            view_wf(value.mview()),
        ensures
            final(self).wf(),
            final(self).id_spec() == old(self).id_spec(),
            final(self).step_time_spec() == old(self).step_time_spec(),
            r is Ok <==> (name@ is Pending || (name@ is Specific && !old(self).has_name(name@))),
            r matches Err(e) ==> {
                &&& final(self).unchanged(*old(self))
                &&& e.name@ == name@
                &&& ((name@ is Anonym && e.kind == InsertErrorKind::InvalidName) || (name@
                    is Specific && old(self).has_name(name@) && e.kind
                    == InsertErrorKind::AlreadyExists))
            },
            r matches Ok(u) ==> {
                &&& u.universe_id_spec() == old(self).id_spec()
                &&& u.index_spec() == old(self).arena_len()
                &&& final(self).arena_len() == old(self).arena_len() + 1
                &&& forall|j: int|
                    0 <= j < old(self).arena_len() ==> #[trigger] final(self).entry_same(
                        *old(self),
                        j,
                    )
                &&& final(self).live_at(old(self).arena_len())
                &&& final(self).name_at(old(self).arena_len())@ == old(self).resolved_name(name@)
                &&& final(self).kind_at(old(self).arena_len()) == T::kind_spec()
                &&& final(self).view_at(old(self).arena_len()) == value.mview()
                &&& final(self).borrow_at(old(self).arena_len()) == BorrowState::Idle
                &&& final(self).refs_at(old(self).arena_len()) == 1
                &&& final(self).next_anonym_spec() == old(self).next_anonym_spec() + (
                if name@ is Pending {
                    1int
                } else {
                    0int
                })
                &&& final(self).wants_gc_spec()
            },
    {
        match self.insert_raw(name, value.wrap(), 1) {
            Ok(index) => Ok(URef::make(self.id, index)),
            Err(e) => Err(e),
        }
    }

    /// Insert a stored member with the given starting handle count. Direct
    /// insertion hands the single minted handle to the caller; insertion by
    /// an aggregate transaction starts at zero, since it returns no handle.
    pub(crate) fn insert_raw(&mut self, name: Name, member: AnyMember, ref_count: usize) -> (r:
        Result<usize, InsertError>)
        requires
            old(self).wf(),
            old(self).next_anonym_spec() < usize::MAX,
            view_wf(member_view(member)),
        ensures
            final(self).wf(),
            final(self).id_spec() == old(self).id_spec(),
            final(self).step_time_spec() == old(self).step_time_spec(),
            r is Ok <==> (name@ is Pending || (name@ is Specific && !old(self).has_name(name@))),
            r matches Err(e) ==> {
                &&& final(self).unchanged(*old(self))
                &&& e.name@ == name@
                &&& ((name@ is Anonym && e.kind == InsertErrorKind::InvalidName) || (name@
                    is Specific && old(self).has_name(name@) && e.kind
                    == InsertErrorKind::AlreadyExists))
            },
            r matches Ok(index) ==> {
                &&& index == old(self).arena_len()
                &&& final(self).arena_len() == old(self).arena_len() + 1
                &&& forall|j: int|
                    0 <= j < old(self).arena_len() ==> #[trigger] final(self).entry_same(
                        *old(self),
                        j,
                    )
                &&& final(self).live_at(old(self).arena_len())
                &&& final(self).name_at(old(self).arena_len())@ == old(self).resolved_name(name@)
                &&& final(self).kind_at(old(self).arena_len()) == kind_of(member)
                &&& final(self).view_at(old(self).arena_len()) == member_view(member)
                &&& final(self).borrow_at(old(self).arena_len()) == BorrowState::Idle
                &&& final(self).refs_at(old(self).arena_len()) == ref_count
                &&& final(self).next_anonym_spec() == old(self).next_anonym_spec() + (
                if name@ is Pending {
                    1int
                } else {
                    0int
                })
                &&& final(self).wants_gc_spec()
            },
    {
        let ghost pre = *self;
        let value = member;
        let resolved = match self.allocate_name(&name) {
            Ok(n) => n,
            Err(e) => {
                proof {
                    assert forall|j: int|
                        0 <= j < pre.arena_len() implies #[trigger] self.entry_same(pre, j) by {
                        assert(self.entry_same(pre, j));
                    }
                    assert forall|j: int|
                        0 <= j < pre.arena_len() implies {
                        &&& #[trigger] self.live_at(j) == pre.live_at(j)
                        &&& (pre.live_at(j) ==> self.name_at(j)@ == pre.name_at(j)@
                            && self.kind_at(j) == pre.kind_at(j) && self.view_at(j) == pre.view_at(
                            j,
                        ))
                    } by {
                        assert(self.entry_same(pre, j));
                    }
                    assert(self.arena_len() == pre.arena_len());
                    assert(self.id_spec() == pre.id_spec());
                    assert(self.next_anonym_spec() == pre.next_anonym_spec());
                    assert(self.wants_gc_spec() == pre.wants_gc_spec());
                    assert(self.step_time_spec() == pre.step_time_spec());
                    assert(self.same_members(pre));
                    assert(self.unchanged(pre));
                }
                return Err(e);
            },
        };
        let ghost mid = *self;
        let index: usize = self.entries.len();
        self.entries.push(
            Some(Entry { name: resolved, member: value, borrow: BorrowState::Idle, ref_count }),
        );
        self.wants_gc = true;
        proof {
            assert(self.entries@ == mid.entries@.push(
                self.entries@[self.entries@.len() - 1],
            ));
            assert forall|j: int|
                0 <= j < pre.arena_len() implies #[trigger] self.entry_same(pre, j) by {
                assert(self.entries@[j] == mid.entries@[j]);
                assert(mid.entry_same(pre, j));
            }
            assert(self.live_at(index as int));
            assert(self.name_at(index as int)@ == pre.resolved_name(name@));
            assert(self.view_at(index as int) == member_view(value));
            assert forall|i: int, j: int|
                self.live_at(i) && self.live_at(j) && i != j implies (#[trigger] self.name_at(
                i,
            ))@ != (#[trigger] self.name_at(j))@ by {
                if i == index as int {
                    assert(self.entry_same(pre, j));
                    assert(pre.live_at(j));
                    assert(!pre.has_name(self.name_at(index as int)@));
                } else if j == index as int {
                    assert(self.entry_same(pre, i));
                    assert(pre.live_at(i));
                    assert(!pre.has_name(self.name_at(index as int)@));
                } else {
                    assert(self.entry_same(pre, i) && self.entry_same(pre, j));
                    assert(pre.live_at(i) && pre.live_at(j));
                }
            }
            assert forall|i: int| #[trigger] self.live_at(i) implies !(self.name_at(i)@
                is Pending) && (self.name_at(i)@ matches NameView::Anonym(k) ==> k
                < self.next_anonym_spec()) && (self.borrow_at(i) matches BorrowState::Reading(n)
                ==> n >= 1) && view_wf(self.view_at(i)) by {
                if i != index as int {
                    assert(self.entry_same(pre, i));
                    assert(pre.live_at(i));
                }
            }
        }
        Ok(index)
    }

    /// Insert a new member without giving it a specific name; it receives a
    /// fresh anonymous name.
    pub fn insert_anonymous<T: UniverseMember>(&mut self, value: T) -> (r: URef<T>)
        requires
            old(self).wf(),
            old(self).next_anonym_spec() < usize::MAX,
            view_wf(value.mview()),
        ensures
            final(self).wf(),
            final(self).id_spec() == old(self).id_spec(),
            r.universe_id_spec() == old(self).id_spec(),
            r.index_spec() == old(self).arena_len(),
            final(self).arena_len() == old(self).arena_len() + 1,
            forall|j: int|
                0 <= j < old(self).arena_len() ==> #[trigger] final(self).entry_same(
                    *old(self),
                    j,
                ),
            final(self).live_at(old(self).arena_len()),
            final(self).name_at(old(self).arena_len())@ == NameView::Anonym(
                old(self).next_anonym_spec(),
            ),
            final(self).kind_at(old(self).arena_len()) == T::kind_spec(),
            final(self).view_at(old(self).arena_len()) == value.mview(),
            final(self).borrow_at(old(self).arena_len()) == BorrowState::Idle,
            final(self).refs_at(old(self).arena_len()) == 1,
            final(self).next_anonym_spec() == old(self).next_anonym_spec() + 1,
            final(self).wants_gc_spec(),
            final(self).step_time_spec() == old(self).step_time_spec(),
    {
        match self.insert(Name::Pending, value) {
            Ok(r) => r,
            Err(_) => vstd::pervasive::unreached(),
        }
    }
}

/// A handle count after recording one more live handle. Counts saturate at
/// the machine limit; a saturated count pins its member forever rather than
/// ever letting it be collected early.
pub open spec fn inc_count(n: int) -> int {
    if n < usize::MAX {
        n + 1
    } else {
        n
    }
}

/// A handle count after one live handle is surrendered.
pub open spec fn dec_count(n: int) -> int {
    if n > 0 {
        n - 1
    } else {
        0
    }
}

impl Universe {
    /// Which members of the first `bound` arena positions hold a reference
    /// to position `i`.
    spec fn linked_below(self, i: int, bound: int) -> bool {
        exists|j: int, k: int|
            #![trigger view_links(self.view_at(j))[k]]
            {
                &&& j < bound
                &&& self.live_at(j)
                &&& 0 <= k < view_links(self.view_at(j)).len()
                &&& view_links(self.view_at(j))[k].universe_id == self.id_spec()
                &&& view_links(self.view_at(j))[k].index == i
            }
    }

    proof fn lemma_linked_below_all(self, i: int)
        ensures
            self.linked(i) <==> self.linked_below(i, self.arena_len()),
    {
    }

    /// Validity carries over when entries are only removed.
    proof fn lemma_wf_removals(pre: Universe, post: Universe)
        requires
            pre.wf(),
            post.arena_len() == pre.arena_len(),
            post.next_anonym_spec() == pre.next_anonym_spec(),
            forall|j: int|
                #[trigger] post.live_at(j) ==> pre.live_at(j) && post.name_at(j)@ == pre.name_at(
                    j,
                )@ && post.view_at(j) == pre.view_at(j) && post.borrow_at(j) == pre.borrow_at(j),
        ensures
            post.wf(),
    {
        assert forall|i: int, j: int| post.live_at(i) && post.live_at(j) && i != j implies (
        #[trigger] post.name_at(i))@ != (#[trigger] post.name_at(j))@ by {
            assert(pre.live_at(i) && pre.live_at(j));
        }
        assert forall|i: int| #[trigger] post.live_at(i) implies !(post.name_at(i)@ is Pending)
            && (post.name_at(i)@ matches NameView::Anonym(k) ==> k < post.next_anonym_spec()) && (
        post.borrow_at(i) matches BorrowState::Reading(n) ==> n >= 1) && view_wf(
            post.view_at(i),
        ) by {
            assert(pre.live_at(i));
        }
    }

    /// Validity carries over when a single live entry's borrow state, handle
    /// count, or (validly) its value change.
    proof fn lemma_wf_entry_update(pre: Universe, post: Universe, i: int)
        requires
            pre.wf(),
            post.arena_len() == pre.arena_len(),
            post.next_anonym_spec() == pre.next_anonym_spec(),
            forall|j: int|
                0 <= j < pre.arena_len() && j != i ==> #[trigger] post.entry_same(pre, j),
            post.live_at(i) == pre.live_at(i),
            pre.live_at(i) ==> post.name_at(i)@ == pre.name_at(i)@ && view_wf(post.view_at(i))
                && (post.borrow_at(i) matches BorrowState::Reading(n) ==> n >= 1),
        ensures
            post.wf(),
    {
        assert forall|a: int, b: int| post.live_at(a) && post.live_at(b) && a != b implies (
        #[trigger] post.name_at(a))@ != (#[trigger] post.name_at(b))@ by {
            if a != i {
                assert(post.entry_same(pre, a));
            }
            if b != i {
                assert(post.entry_same(pre, b));
            }
            assert(pre.live_at(a) && pre.live_at(b));
        }
        assert forall|a: int| #[trigger] post.live_at(a) implies !(post.name_at(a)@ is Pending)
            && (post.name_at(a)@ matches NameView::Anonym(k) ==> k < post.next_anonym_spec()) && (
        post.borrow_at(a) matches BorrowState::Reading(n) ==> n >= 1) && view_wf(
            post.view_at(a),
        ) by {
            if a != i {
                assert(post.entry_same(pre, a));
            }
            assert(pre.live_at(a));
        }
    }

    /// The kind of a stored member.
    fn member_kind(m: &AnyMember) -> (k: MemberKind)
        ensures
            k == kind_of(*m),
    {
        match m {
            AnyMember::BlockDef(_) => MemberKind::BlockDef,
            AnyMember::Character(_) => MemberKind::Character,
            AnyMember::Space(_) => MemberKind::Space,
        }
    }

    /// Look up a member of type `T` by name and mint a handle to it, or
    /// return `None` if no member of that type carries the name. Minting is
    /// recorded in the member's handle count.
    pub fn get<T: UniverseMember>(&mut self, name: &Name) -> (r: Option<URef<T>>)
        requires
            old(self).wf(),
        ensures
            final(self).wf(),
            final(self).same_members(*old(self)),
            r is Some <==> old(self).has_typed(name@, T::kind_spec()),
            r is None ==> final(self).unchanged(*old(self)),
            r matches Some(u) ==> {
                &&& u.universe_id_spec() == old(self).id_spec()
                &&& old(self).live_at(u.index_spec())
                &&& old(self).name_at(u.index_spec())@ == name@
                &&& old(self).kind_at(u.index_spec()) == T::kind_spec()
                &&& forall|j: int|
                    0 <= j < old(self).arena_len() && j != u.index_spec()
                        ==> #[trigger] final(self).entry_same(*old(self), j)
                &&& final(self).borrow_at(u.index_spec()) == old(self).borrow_at(u.index_spec())
                &&& final(self).refs_at(u.index_spec()) == inc_count(
                    old(self).refs_at(u.index_spec()),
                )
            },
    {
        let ghost pre = *self;
        let found = self.find_index(name);
        match found {
            None => {
                proof {
                    assert forall|j: int|
                        0 <= j < pre.arena_len() implies #[trigger] self.entry_same(pre, j) by {
                        assert(self.entries@ == pre.entries@);
                    }
                    assert(self.same_members(pre));
                    assert(self.unchanged(pre));
                    assert(!pre.has_typed(name@, T::kind_spec())) by {
                        if pre.has_typed(name@, T::kind_spec()) {
                            let i = choose|i: int|
                                pre.live_at(i) && (#[trigger] pre.name_at(i))@ == name@
                                    && pre.kind_at(i) == T::kind_spec();
                            assert(pre.has_name(name@));
                        }
                    }
                }
                None
            },
            Some(i) => {
                let e_opt: &mut Option<Entry> = vstd::std_specs::vec::vec_index_mut(
                    &mut self.entries,
                    i,
                );
                let e = e_opt.take();
                match e {
                    Some(mut entry) => {
                        let k = Self::member_kind(&entry.member);
                        if k == T::kind() {
                            if entry.ref_count < usize::MAX {
                                entry.ref_count = entry.ref_count + 1;
                            }
                            *e_opt = Some(entry);
                            proof {
                                assert(self.entries@ =~= pre.entries@.update(
                                    i as int,
                                    self.entries@[i as int],
                                ));
                                assert forall|j: int|
                                    0 <= j < pre.arena_len() && j != i as int
                                        implies #[trigger] self.entry_same(pre, j) by {
                                    assert(self.entries@[j] == pre.entries@[j]);
                                }
                                assert(self.live_at(i as int) == pre.live_at(i as int));
                                assert(self.name_at(i as int)@ == pre.name_at(i as int)@);
                                assert(self.view_at(i as int) == pre.view_at(i as int));
                                assert(self.borrow_at(i as int) == pre.borrow_at(i as int));
                                assert(self.refs_at(i as int) == inc_count(
                                    pre.refs_at(i as int),
                                ));
                                Self::lemma_wf_entry_update(pre, *self, i as int);
                                assert(self.same_members(pre));
                                assert(pre.has_typed(name@, T::kind_spec()));
                            }
                            Some(URef::make(self.id, i))
                        } else {
                            *e_opt = Some(entry);
                            proof {
                                assert(self.entries@ =~= pre.entries@);
                                assert forall|j: int|
                                    0 <= j < pre.arena_len() implies #[trigger] self.entry_same(
                                    pre,
                                    j,
                                ) by {
                                    assert(self.entries@[j] == pre.entries@[j]);
                                }
                                assert(self.same_members(pre));
                                assert(self.unchanged(pre));
                                assert(!pre.has_typed(name@, T::kind_spec())) by {
                                    if pre.has_typed(name@, T::kind_spec()) {
                                        let m = choose|m: int|
                                            pre.live_at(m) && (#[trigger] pre.name_at(m))@
                                                == name@ && pre.kind_at(m) == T::kind_spec();
                                        if m != i as int {
                                            assert(pre.name_at(m)@ != pre.name_at(i as int)@);
                                        }
                                    }
                                }
                            }
                            None
                        }
                    },
                    None => vstd::pervasive::unreached(),
                }
            },
        }
    }

    /// Record one more live handle to the same member as `uref` and return
    /// the duplicate. Duplicating a handle whose member is gone is allowed;
    /// the duplicate is gone as well.
    pub fn clone_ref<T: UniverseMember>(&mut self, uref: &URef<T>) -> (r: URef<T>)
        requires
            old(self).wf(),
        ensures
            final(self).wf(),
            final(self).same_members(*old(self)),
            r.universe_id_spec() == uref.universe_id_spec(),
            r.index_spec() == uref.index_spec(),
            !old(self).uref_live(*uref) ==> final(self).unchanged(*old(self)),
            old(self).uref_live(*uref) ==> {
                &&& forall|j: int|
                    0 <= j < old(self).arena_len() && j != uref.index_spec()
                        ==> #[trigger] final(self).entry_same(*old(self), j)
                &&& final(self).borrow_at(uref.index_spec()) == old(self).borrow_at(
                    uref.index_spec(),
                )
                &&& final(self).refs_at(uref.index_spec()) == inc_count(
                    old(self).refs_at(uref.index_spec()),
                )
            },
    {
        let ghost pre = *self;
        let id_ok: bool = uref.universe_id_raw() == self.id;
        let i: usize = uref.index_raw();
        let mut live_and_typed: bool = false;
        if id_ok && i < self.entries.len() {
            match &self.entries[i] {
                Some(e) => {
                    let k = Self::member_kind(&e.member);
                    live_and_typed = k == T::kind();
                },
                None => {},
            }
        }
        if live_and_typed {
            let e_opt: &mut Option<Entry> = vstd::std_specs::vec::vec_index_mut(
                &mut self.entries,
                i,
            );
            let e = e_opt.take();
            match e {
                Some(mut entry) => {
                    if entry.ref_count < usize::MAX {
                        entry.ref_count = entry.ref_count + 1;
                    }
                    *e_opt = Some(entry);
                    proof {
                        assert forall|j: int|
                            0 <= j < pre.arena_len() && j != i as int
                                implies #[trigger] self.entry_same(pre, j) by {
                            assert(self.entries@[j] == pre.entries@[j]);
                        }
                        Self::lemma_wf_entry_update(pre, *self, i as int);
                        assert(self.same_members(pre));
                    }
                },
                None => vstd::pervasive::unreached(),
            }
        } else {
            proof {
                assert forall|j: int|
                    0 <= j < pre.arena_len() implies #[trigger] self.entry_same(pre, j) by {
                    assert(self.entries@ == pre.entries@);
                }
                assert(self.same_members(pre));
                assert(self.unchanged(pre));
            }
        }
        URef::make(uref.universe_id_raw(), i)
    }

    /// Surrender a live handle, removing it from its member's handle count.
    pub fn drop_ref<T: UniverseMember>(&mut self, uref: URef<T>)
        requires
            old(self).wf(),
        ensures
            final(self).wf(),
            final(self).same_members(*old(self)),
            !old(self).uref_live(uref) ==> final(self).unchanged(*old(self)),
            old(self).uref_live(uref) ==> {
                &&& forall|j: int|
                    0 <= j < old(self).arena_len() && j != uref.index_spec()
                        ==> #[trigger] final(self).entry_same(*old(self), j)
                &&& final(self).borrow_at(uref.index_spec()) == old(self).borrow_at(
                    uref.index_spec(),
                )
                &&& final(self).refs_at(uref.index_spec()) == dec_count(
                    old(self).refs_at(uref.index_spec()),
                )
            },
    {
        let ghost pre = *self;
        let id_ok: bool = uref.universe_id_raw() == self.id;
        let i: usize = uref.index_raw();
        let mut live_and_typed: bool = false;
        if id_ok && i < self.entries.len() {
            match &self.entries[i] {
                Some(e) => {
                    let k = Self::member_kind(&e.member);
                    live_and_typed = k == T::kind();
                },
                None => {},
            }
        }
        if live_and_typed {
            let e_opt: &mut Option<Entry> = vstd::std_specs::vec::vec_index_mut(
                &mut self.entries,
                i,
            );
            let e = e_opt.take();
            match e {
                Some(mut entry) => {
                    if entry.ref_count > 0 {
                        entry.ref_count = entry.ref_count - 1;
                    }
                    *e_opt = Some(entry);
                    proof {
                        assert forall|j: int|
                            0 <= j < pre.arena_len() && j != i as int
                                implies #[trigger] self.entry_same(pre, j) by {
                            assert(self.entries@[j] == pre.entries@[j]);
                        }
                        Self::lemma_wf_entry_update(pre, *self, i as int);
                        assert(self.same_members(pre));
                    }
                },
                None => vstd::pervasive::unreached(),
            }
        } else {
            proof {
                assert forall|j: int|
                    0 <= j < pre.arena_len() implies #[trigger] self.entry_same(pre, j) by {
                    assert(self.entries@ == pre.entries@);
                }
                assert(self.same_members(pre));
                assert(self.unchanged(pre));
            }
        }
    }

    /// Request shared access to the member `uref` designates.
    ///
    /// Fails with `Gone` if the member no longer exists (or never belonged
    /// to this universe), with `AlreadyMutablyBorrowed` if a write guard is
    /// outstanding, and with `AlreadyBorrowed` in the extreme case that the
    /// reader count has reached the machine limit. Otherwise the reader
    /// count rises by one and the guard grants the member's current value.
    pub fn try_read<T: UniverseMember>(&mut self, uref: &URef<T>) -> (r: Result<
        ReadGuard<T>,
        RefError,
    >)
        requires
            old(self).wf(),
        ensures
            final(self).wf(),
            final(self).same_members(*old(self)),
            r is Err ==> final(self).unchanged(*old(self)),
            !old(self).uref_live(*uref) <==> r == Err::<ReadGuard<T>, RefError>(RefError::Gone),
            old(self).uref_live(*uref) && old(self).borrow_at(uref.index_spec())
                is Writing ==> r == Err::<ReadGuard<T>, RefError>(
                RefError::AlreadyMutablyBorrowed,
            ),
            old(self).uref_live(*uref) && old(self).borrow_at(uref.index_spec())
                == BorrowState::Reading(usize::MAX) ==> r == Err::<ReadGuard<T>, RefError>(
                RefError::AlreadyBorrowed,
            ),
            old(self).uref_live(*uref) && !(old(self).borrow_at(uref.index_spec()) is Writing)
                && old(self).borrow_at(uref.index_spec()) != BorrowState::Reading(usize::MAX)
                ==> {
                &&& r is Ok
                &&& (r->Ok_0).value_spec().mview() == old(self).view_at(uref.index_spec())
                &&& (r->Ok_0).universe_id_spec() == old(self).id_spec()
                &&& (r->Ok_0).index_spec() == uref.index_spec()
                &&& forall|j: int|
                    0 <= j < old(self).arena_len() && j != uref.index_spec()
                        ==> #[trigger] final(self).entry_same(*old(self), j)
                &&& final(self).refs_at(uref.index_spec()) == old(self).refs_at(uref.index_spec())
                &&& final(self).borrow_at(uref.index_spec()) == crate::uref::read_acquired(
                    old(self).borrow_at(uref.index_spec()),
                )
            },
    {
        let ghost pre = *self;
        let id_ok: bool = uref.universe_id_raw() == self.id;
        let i: usize = uref.index_raw();
        let mut live_and_typed: bool = false;
        if id_ok && i < self.entries.len() {
            match &self.entries[i] {
                Some(e) => {
                    let k = Self::member_kind(&e.member);
                    live_and_typed = k == T::kind();
                },
                None => {},
            }
        }
        if !live_and_typed {
            proof {
                assert forall|j: int|
                    0 <= j < pre.arena_len() implies #[trigger] self.entry_same(pre, j) by {
                    assert(self.entries@ == pre.entries@);
                }
                assert(self.same_members(pre));
                assert(self.unchanged(pre));
            }
            return Err(RefError::Gone);
        }
        let e_opt: &mut Option<Entry> = vstd::std_specs::vec::vec_index_mut(&mut self.entries, i);
        let e = e_opt.take();
        match e {
            Some(mut entry) => {
                let next_state: BorrowState = match entry.borrow {
                    BorrowState::Idle => BorrowState::Reading(1),
                    BorrowState::Reading(n) => {
                        if n == usize::MAX {
                            entry.borrow = BorrowState::Reading(n);
                            *e_opt = Some(entry);
                            proof {
                                assert(self.entries@ =~= pre.entries@);
                                assert forall|j: int|
                                    0 <= j < pre.arena_len() implies #[trigger] self.entry_same(
                                    pre,
                                    j,
                                ) by {
                                    assert(self.entries@[j] == pre.entries@[j]);
                                }
                                assert(self.same_members(pre));
                                assert(self.unchanged(pre));
                            }
                            return Err(RefError::AlreadyBorrowed);
                        }
                        BorrowState::Reading(n + 1)
                    },
                    BorrowState::Writing => {
                        entry.borrow = BorrowState::Writing;
                        *e_opt = Some(entry);
                        proof {
                            assert(self.entries@ =~= pre.entries@);
                            assert forall|j: int|
                                0 <= j < pre.arena_len() implies #[trigger] self.entry_same(
                                pre,
                                j,
                            ) by {
                                assert(self.entries@[j] == pre.entries@[j]);
                            }
                            assert(self.same_members(pre));
                            assert(self.unchanged(pre));
                        }
                        return Err(RefError::AlreadyMutablyBorrowed);
                    },
                };
                let value: T = T::unwrap_clone(&entry.member);
                entry.borrow = next_state;
                *e_opt = Some(entry);
                proof {
                    assert forall|j: int|
                        0 <= j < pre.arena_len() && j != i as int implies #[trigger] self.entry_same(
                        pre,
                        j,
                    ) by {
                        assert(self.entries@[j] == pre.entries@[j]);
                    }
                    Self::lemma_wf_entry_update(pre, *self, i as int);
                    assert(self.same_members(pre));
                }
                Ok(ReadGuard::make(value, uref.universe_id_raw(), i))
            },
            None => vstd::pervasive::unreached(),
        }
    }

    /// Request shared access, treating unavailability as a caller bug.
    ///
    /// Call sites that have already established that the member is live and
    /// not under a write guard use this form; others use
    /// [`Universe::try_read`] and handle the error.
    pub fn read<T: UniverseMember>(&mut self, uref: &URef<T>) -> (g: ReadGuard<T>)
        requires
            old(self).wf(),
            old(self).uref_live(*uref),
            !(old(self).borrow_at(uref.index_spec()) is Writing),
            old(self).borrow_at(uref.index_spec()) != BorrowState::Reading(usize::MAX),
        ensures
            final(self).wf(),
            final(self).same_members(*old(self)),
            g.value_spec().mview() == old(self).view_at(uref.index_spec()),
            g.universe_id_spec() == old(self).id_spec(),
            g.index_spec() == uref.index_spec(),
            forall|j: int|
                0 <= j < old(self).arena_len() && j != uref.index_spec()
                    ==> #[trigger] final(self).entry_same(*old(self), j),
            final(self).refs_at(uref.index_spec()) == old(self).refs_at(uref.index_spec()),
            final(self).borrow_at(uref.index_spec()) == crate::uref::read_acquired(
                old(self).borrow_at(uref.index_spec()),
            ),
    {
        match self.try_read(uref) {
            Ok(g) => g,
            Err(_) => vstd::pervasive::unreached(),
        }
    }

    /// Return a read guard, reducing its member's reader count by one. A
    /// guard that does not correspond to a member of this universe under
    /// read (which a correctly minted guard always does) is discarded with
    /// no effect.
    pub fn end_read<T: UniverseMember>(&mut self, guard: ReadGuard<T>)
        requires
            old(self).wf(),
        ensures
            final(self).wf(),
            final(self).same_members(*old(self)),
            !(guard.universe_id_spec() == old(self).id_spec() && old(self).live_at(
                guard.index_spec(),
            ) && old(self).borrow_at(guard.index_spec()) is Reading) ==> final(self).unchanged(
                *old(self),
            ),
            (guard.universe_id_spec() == old(self).id_spec() && old(self).live_at(
                guard.index_spec(),
            ) && old(self).borrow_at(guard.index_spec()) is Reading) ==> {
                &&& forall|j: int|
                    0 <= j < old(self).arena_len() && j != guard.index_spec()
                        ==> #[trigger] final(self).entry_same(*old(self), j)
                &&& final(self).refs_at(guard.index_spec()) == old(self).refs_at(
                    guard.index_spec(),
                )
                &&& final(self).borrow_at(guard.index_spec()) == crate::uref::read_released(
                    old(self).borrow_at(guard.index_spec()),
                )
            },
    {
        let ghost pre = *self;
        let (_value, guard_universe, i) = guard.parts();
        let mut applies: bool = false;
        if guard_universe == self.id && i < self.entries.len() {
            match &self.entries[i] {
                Some(e) => {
                    applies = match e.borrow {
                        BorrowState::Reading(_) => true,
                        _ => false,
                    };
                },
                None => {},
            }
        }
        if applies {
            let e_opt: &mut Option<Entry> = vstd::std_specs::vec::vec_index_mut(
                &mut self.entries,
                i,
            );
            let e = e_opt.take();
            match e {
                Some(mut entry) => {
                    match entry.borrow {
                        BorrowState::Reading(n) => {
                            if n <= 1 {
                                entry.borrow = BorrowState::Idle;
                            } else {
                                entry.borrow = BorrowState::Reading(n - 1);
                            }
                        },
                        _ => {
                            proof {
                                assert(false);
                            }
                        },
                    }
                    *e_opt = Some(entry);
                    proof {
                        assert forall|j: int|
                            0 <= j < pre.arena_len() && j != i as int
                                implies #[trigger] self.entry_same(pre, j) by {
                            assert(self.entries@[j] == pre.entries@[j]);
                        }
                        Self::lemma_wf_entry_update(pre, *self, i as int);
                        assert(self.same_members(pre));
                    }
                },
                None => vstd::pervasive::unreached(),
            }
        } else {
            proof {
                assert forall|j: int|
                    0 <= j < pre.arena_len() implies #[trigger] self.entry_same(pre, j) by {
                    assert(self.entries@ == pre.entries@);
                }
                assert(self.same_members(pre));
                assert(self.unchanged(pre));
            }
        }
    }

    /// Request exclusive access to the member `uref` designates.
    ///
    /// Fails with `Gone` if the member no longer exists, with
    /// `AlreadyMutablyBorrowed` if a write guard is outstanding, and with
    /// `AlreadyBorrowed` if read guards are outstanding. Otherwise the
    /// member is marked as being written and the guard holds its value.
    pub fn try_write<T: UniverseMember>(&mut self, uref: &URef<T>) -> (r: Result<
        WriteGuard<T>,
        RefError,
    >)
        requires
            old(self).wf(),
        ensures
            final(self).wf(),
            final(self).same_members(*old(self)),
            r is Err ==> final(self).unchanged(*old(self)),
            !old(self).uref_live(*uref) <==> r == Err::<WriteGuard<T>, RefError>(RefError::Gone),
            old(self).uref_live(*uref) && old(self).borrow_at(uref.index_spec())
                is Writing ==> r == Err::<WriteGuard<T>, RefError>(
                RefError::AlreadyMutablyBorrowed,
            ),
            old(self).uref_live(*uref) && old(self).borrow_at(uref.index_spec())
                is Reading ==> r == Err::<WriteGuard<T>, RefError>(RefError::AlreadyBorrowed),
            old(self).uref_live(*uref) && old(self).borrow_at(uref.index_spec()) is Idle ==> {
                &&& r is Ok
                &&& (r->Ok_0).value_spec().mview() == old(self).view_at(uref.index_spec())
                &&& (r->Ok_0).universe_id_spec() == old(self).id_spec()
                &&& (r->Ok_0).index_spec() == uref.index_spec()
                &&& forall|j: int|
                    0 <= j < old(self).arena_len() && j != uref.index_spec()
                        ==> #[trigger] final(self).entry_same(*old(self), j)
                &&& final(self).refs_at(uref.index_spec()) == old(self).refs_at(uref.index_spec())
                &&& final(self).view_at(uref.index_spec()) == old(self).view_at(uref.index_spec())
                &&& final(self).borrow_at(uref.index_spec()) == BorrowState::Writing
            },
    {
        let ghost pre = *self;
        let id_ok: bool = uref.universe_id_raw() == self.id;
        let i: usize = uref.index_raw();
        let mut live_and_typed: bool = false;
        if id_ok && i < self.entries.len() {
            match &self.entries[i] {
                Some(e) => {
                    let k = Self::member_kind(&e.member);
                    live_and_typed = k == T::kind();
                },
                None => {},
            }
        }
        if !live_and_typed {
            proof {
                assert forall|j: int|
                    0 <= j < pre.arena_len() implies #[trigger] self.entry_same(pre, j) by {
                    assert(self.entries@ == pre.entries@);
                }
                assert(self.same_members(pre));
                assert(self.unchanged(pre));
            }
            return Err(RefError::Gone);
        }
        let e_opt: &mut Option<Entry> = vstd::std_specs::vec::vec_index_mut(&mut self.entries, i);
        let e = e_opt.take();
        match e {
            Some(mut entry) => {
                match entry.borrow {
                    BorrowState::Idle => {
                        let value: T = T::unwrap_clone(&entry.member);
                        entry.borrow = BorrowState::Writing;
                        *e_opt = Some(entry);
                        proof {
                            assert forall|j: int|
                                0 <= j < pre.arena_len() && j != i as int
                                    implies #[trigger] self.entry_same(pre, j) by {
                                assert(self.entries@[j] == pre.entries@[j]);
                            }
                            Self::lemma_wf_entry_update(pre, *self, i as int);
                            assert(self.same_members(pre));
                        }
                        Ok(WriteGuard::make(value, uref.universe_id_raw(), i))
                    },
                    b => {
                        let r: Result<WriteGuard<T>, RefError> = match b {
                            BorrowState::Reading(_) => Err(RefError::AlreadyBorrowed),
                            _ => Err(RefError::AlreadyMutablyBorrowed),
                        };
                        entry.borrow = b;
                        *e_opt = Some(entry);
                        proof {
                            assert(self.entries@ =~= pre.entries@);
                            assert forall|j: int|
                                0 <= j < pre.arena_len() implies #[trigger] self.entry_same(
                                pre,
                                j,
                            ) by {
                                assert(self.entries@[j] == pre.entries@[j]);
                            }
                            assert(self.same_members(pre));
                            assert(self.unchanged(pre));
                        }
                        r
                    },
                }
            },
            None => vstd::pervasive::unreached(),
        }
    }

    /// Request exclusive access, treating unavailability as a caller bug.
    pub fn write<T: UniverseMember>(&mut self, uref: &URef<T>) -> (g: WriteGuard<T>)
        requires
            old(self).wf(),
            old(self).uref_live(*uref),
            old(self).borrow_at(uref.index_spec()) is Idle,
        ensures
            final(self).wf(),
            final(self).same_members(*old(self)),
            g.value_spec().mview() == old(self).view_at(uref.index_spec()),
            g.universe_id_spec() == old(self).id_spec(),
            g.index_spec() == uref.index_spec(),
            forall|j: int|
                0 <= j < old(self).arena_len() && j != uref.index_spec()
                    ==> #[trigger] final(self).entry_same(*old(self), j),
            final(self).refs_at(uref.index_spec()) == old(self).refs_at(uref.index_spec()),
            final(self).view_at(uref.index_spec()) == old(self).view_at(uref.index_spec()),
            final(self).borrow_at(uref.index_spec()) == BorrowState::Writing,
    {
        match self.try_write(uref) {
            Ok(g) => g,
            Err(_) => vstd::pervasive::unreached(),
        }
    }

    /// Return a write guard, storing its (possibly edited) value back into
    /// the member and clearing the borrow state. A guard that does not
    /// correspond to a member of this universe under write (which a
    /// correctly minted guard always does) is discarded with no effect.
    pub fn end_write<T: UniverseMember>(&mut self, guard: WriteGuard<T>)
        requires
            old(self).wf(),
            view_wf(guard.value_spec().mview()),
        ensures
            final(self).wf(),
            !(guard.universe_id_spec() == old(self).id_spec() && old(self).live_at(
                guard.index_spec(),
            ) && old(self).borrow_at(guard.index_spec()) is Writing && old(self).kind_at(
                guard.index_spec(),
            ) == T::kind_spec()) ==> final(self).unchanged(*old(self)),
            (guard.universe_id_spec() == old(self).id_spec() && old(self).live_at(
                guard.index_spec(),
            ) && old(self).borrow_at(guard.index_spec()) is Writing && old(self).kind_at(
                guard.index_spec(),
            ) == T::kind_spec()) ==> {
                &&& final(self).arena_len() == old(self).arena_len()
                &&& final(self).id_spec() == old(self).id_spec()
                &&& final(self).next_anonym_spec() == old(self).next_anonym_spec()
                &&& final(self).wants_gc_spec() == old(self).wants_gc_spec()
                &&& final(self).step_time_spec() == old(self).step_time_spec()
                &&& forall|j: int|
                    0 <= j < old(self).arena_len() && j != guard.index_spec()
                        ==> #[trigger] final(self).entry_same(*old(self), j)
                &&& final(self).live_at(guard.index_spec())
                &&& final(self).name_at(guard.index_spec())@ == old(self).name_at(
                    guard.index_spec(),
                )@
                &&& final(self).kind_at(guard.index_spec()) == old(self).kind_at(
                    guard.index_spec(),
                )
                &&& final(self).refs_at(guard.index_spec()) == old(self).refs_at(
                    guard.index_spec(),
                )
                &&& final(self).view_at(guard.index_spec()) == guard.value_spec().mview()
                &&& final(self).borrow_at(guard.index_spec()) == BorrowState::Idle
            },
    {
        let ghost pre = *self;
        let (value, guard_universe, i) = guard.parts();
        let mut applies: bool = false;
        if guard_universe == self.id && i < self.entries.len() {
            match &self.entries[i] {
                Some(e) => {
                    let writing = match e.borrow {
                        BorrowState::Writing => true,
                        _ => false,
                    };
                    let k = Self::member_kind(&e.member);
                    applies = writing && k == T::kind();
                },
                None => {},
            }
        }
        if applies {
            let e_opt: &mut Option<Entry> = vstd::std_specs::vec::vec_index_mut(
                &mut self.entries,
                i,
            );
            let e = e_opt.take();
            match e {
                Some(entry) => {
                    let new_entry = Entry {
                        name: entry.name,
                        member: value.wrap(),
                        borrow: BorrowState::Idle,
                        ref_count: entry.ref_count,
                    };
                    *e_opt = Some(new_entry);
                    proof {
                        assert forall|j: int|
                            0 <= j < pre.arena_len() && j != i as int
                                implies #[trigger] self.entry_same(pre, j) by {
                            assert(self.entries@[j] == pre.entries@[j]);
                        }
                        Self::lemma_wf_entry_update(pre, *self, i as int);
                    }
                },
                None => vstd::pervasive::unreached(),
            }
        } else {
            proof {
                assert forall|j: int|
                    0 <= j < pre.arena_len() implies #[trigger] self.entry_same(pre, j) by {
                    assert(self.entries@ == pre.entries@);
                }
                assert(self.same_members(pre));
                assert(self.unchanged(pre));
            }
        }
    }

    /// Delete the member with the given name, of whatever kind. All handles
    /// to it become permanently gone. Returns whether a member was removed.
    pub fn delete(&mut self, name: &Name) -> (r: bool)
        requires
            old(self).wf(),
        ensures
            final(self).wf(),
            r == old(self).has_name(name@),
            final(self).arena_len() == old(self).arena_len(),
            final(self).id_spec() == old(self).id_spec(),
            final(self).next_anonym_spec() == old(self).next_anonym_spec(),
            final(self).wants_gc_spec() == old(self).wants_gc_spec(),
            final(self).step_time_spec() == old(self).step_time_spec(),
            forall|j: int|
                0 <= j < old(self).arena_len() ==> (#[trigger] final(self).live_at(j) <==> (old(self).live_at(j) && old(self).name_at(j)@ != name@)),
            forall|j: int|
                0 <= j < old(self).arena_len() && (!old(self).live_at(j) || old(self).name_at(j)@
                    != name@) ==> #[trigger] final(self).entry_same(*old(self), j),
    {
        let ghost pre = *self;
        match self.find_index(name) {
            None => {
                proof {
                    assert forall|j: int|
                        0 <= j < pre.arena_len() implies #[trigger] self.entry_same(pre, j) by {
                        assert(self.entries@ == pre.entries@);
                    }
                    assert forall|j: int|
                        0 <= j < pre.arena_len() implies (#[trigger] self.live_at(j) <==> (
                    pre.live_at(j) && pre.name_at(j)@ != name@)) by {
                        assert(self.entry_same(pre, j));
                    }
                }
                false
            },
            Some(i) => {
                self.entries.set(i, None);
                proof {
                    assert forall|j: int|
                        0 <= j < pre.arena_len() && j != i as int implies #[trigger] self.entry_same(
                        pre,
                        j,
                    ) by {
                        assert(self.entries@[j] == pre.entries@[j]);
                    }
                    assert forall|j: int|
                        0 <= j < pre.arena_len() implies (#[trigger] self.live_at(j) <==> (
                    pre.live_at(j) && pre.name_at(j)@ != name@)) by {
                        if j != i as int {
                            assert(self.entry_same(pre, j));
                            if pre.live_at(j) {
                                assert(pre.name_at(j)@ != pre.name_at(i as int)@);
                            }
                        }
                    }
                    assert forall|j: int|
                        #[trigger] self.live_at(j) implies pre.live_at(j) && self.name_at(j)@
                        == pre.name_at(j)@ && self.view_at(j) == pre.view_at(j) && self.borrow_at(
                        j,
                    ) == pre.borrow_at(j) by {
                        assert(j != i as int);
                        assert(self.entry_same(pre, j));
                    }
                    Self::lemma_wf_removals(pre, *self);
                }
                true
            },
        }
    }

    /// A copy of the member `uref` designates, read without touching its
    /// borrow state. Used internally by transaction validation, which holds
    /// the whole universe and reads the committed value.
    pub(crate) fn read_copy<T: UniverseMember>(&self, uref: &URef<T>) -> (r: Option<T>)
        requires
            self.wf(),
        ensures
            r is Some <==> self.uref_live(*uref),
            r matches Some(v) ==> v.mview() == self.view_at(uref.index_spec()),
    {
        if uref.universe_id_raw() != self.id {
            return None;
        }
        let i: usize = uref.index_raw();
        if i >= self.entries.len() {
            return None;
        }
        match &self.entries[i] {
            Some(e) => {
                let k = Self::member_kind(&e.member);
                if k == T::kind() {
                    Some(T::unwrap_clone(&e.member))
                } else {
                    None
                }
            },
            None => None,
        }
    }

    /// The current borrow state of the member `uref` designates, if live.
    pub(crate) fn borrow_state_of<T: UniverseMember>(&self, uref: &URef<T>) -> (r: Option<
        BorrowState,
    >)
        requires
            self.wf(),
        ensures
            r is Some <==> self.uref_live(*uref),
            r matches Some(b) ==> b == self.borrow_at(uref.index_spec()),
    {
        if uref.universe_id_raw() != self.id {
            return None;
        }
        let i: usize = uref.index_raw();
        if i >= self.entries.len() {
            return None;
        }
        match &self.entries[i] {
            Some(e) => {
                let k = Self::member_kind(&e.member);
                if k == T::kind() {
                    Some(e.borrow)
                } else {
                    None
                }
            },
            None => None,
        }
    }

    /// Remove every member that no live handle and no other live member
    /// refers to.
    ///
    /// Only the member's handle count and direct incoming references from
    /// live members are consulted; reachability is not traced, so cyclic
    /// members that are otherwise unreachable survive forever (a deliberate
    /// limitation that keeps member lifetimes deterministic).
    pub fn gc(&mut self)
        requires
            old(self).wf(),
        ensures
            final(self).wf(),
            final(self).arena_len() == old(self).arena_len(),
            final(self).id_spec() == old(self).id_spec(),
            final(self).next_anonym_spec() == old(self).next_anonym_spec(),
            final(self).wants_gc_spec() == old(self).wants_gc_spec(),
            final(self).step_time_spec() == old(self).step_time_spec(),
            forall|i: int|
                0 <= i < old(self).arena_len() ==> (#[trigger] final(self).live_at(i) <==> (old(self).live_at(i) && (old(self).refs_at(i) > 0 || old(self).linked(i)))),
            forall|i: int|
                #[trigger] final(self).live_at(i) ==> final(self).entry_same(*old(self), i),
    {
        let ghost pre = *self;
        let n: usize = self.entries.len();

        // First pass: record which positions some live member refers to.
        let mut marked: Vec<bool> = Vec::new();
        let mut f: usize = 0;
        while f < n
            invariant
                f <= n,
                marked@.len() == f,
                forall|m: int| 0 <= m < f ==> !(#[trigger] marked@[m]),
            decreases n - f,
        {
            marked.push(false);
            f = f + 1;
        }
        proof {
            assert forall|m: int| 0 <= m < n implies ((#[trigger] marked@[m]) <==> pre.linked_below(
                m,
                0,
            )) by {}
        }
        let mut j: usize = 0;
        while j < n
            invariant
                *self == pre,
                n == pre.arena_len(),
                j <= n,
                marked@.len() == n,
                forall|m: int|
                    0 <= m < n ==> ((#[trigger] marked@[m]) <==> pre.linked_below(m, j as int)),
            decreases n - j,
        {
            let ghost marked_outer = marked@;
            match &self.entries[j] {
                Some(e) => {
                    let ls: Vec<ErasedRef> = links_of(&e.member);
                    proof {
                        assert(ls@ == view_links(pre.view_at(j as int)));
                        assert(pre.live_at(j as int));
                    }
                    let ln: usize = ls.len();
                    let mut k: usize = 0;
                    while k < ln
                        invariant
                            *self == pre,
                            n == pre.arena_len(),
                            j < n,
                            pre.live_at(j as int),
                            ls@ == view_links(pre.view_at(j as int)),
                            ln == ls@.len(),
                            k <= ln,
                            marked@.len() == n,
                            forall|m: int|
                                0 <= m < n ==> ((#[trigger] marked@[m]) <==> (pre.linked_below(
                                    m,
                                    j as int,
                                ) || (exists|kk: int|
                                    0 <= kk < k && ls@[kk].universe_id == pre.id_spec()
                                        && (#[trigger] ls@[kk]).index == m))),
                        decreases ln - k,
                    {
                        let er: ErasedRef = ls[k];
                        let ghost marked_in = marked@;
                        if er.universe_id == self.id && er.index < n {
                            marked.set(er.index, true);
                        }
                        proof {
                            assert forall|m: int|
                                0 <= m < n implies ((#[trigger] marked@[m]) <==> (
                            pre.linked_below(m, j as int) || (exists|kk: int|
                                0 <= kk < k + 1 && ls@[kk].universe_id == pre.id_spec() && (
                                #[trigger] ls@[kk]).index == m))) by {
                                if er.universe_id == pre.id_spec() && er.index < n && m
                                    == er.index as int {
                                    assert(ls@[k as int].universe_id == pre.id_spec() && ls@[
                                        k as int].index == m);
                                } else {
                                    if marked@[m] {
                                        assert(marked_in[m]);
                                    }
                                    if !marked@[m] {
                                        assert(!marked_in[m]);
                                        if exists|kk: int|
                                            0 <= kk < k + 1 && ls@[kk].universe_id
                                                == pre.id_spec() && (#[trigger] ls@[kk]).index
                                                == m {
                                            let kk = choose|kk: int|
                                                0 <= kk < k + 1 && ls@[kk].universe_id
                                                    == pre.id_spec() && (#[trigger] ls@[kk]).index
                                                    == m;
                                            assert(kk < k);
                                        }
                                    }
                                }
                            }
                        }
                        k = k + 1;
                    }
                    proof {
                        assert forall|m: int|
                            0 <= m < n implies ((#[trigger] marked@[m]) <==> pre.linked_below(
                            m,
                            j + 1,
                        )) by {
                            if marked@[m] {
                                if pre.linked_below(m, j as int) {
                                    assert(pre.linked_below(m, j + 1));
                                } else {
                                    let kk = choose|kk: int|
                                        0 <= kk < ln && ls@[kk].universe_id == pre.id_spec() && (
                                        #[trigger] ls@[kk]).index == m;
                                    assert(view_links(pre.view_at(j as int))[kk].index == m);
                                    assert(pre.linked_below(m, j + 1));
                                }
                            } else {
                                if pre.linked_below(m, j + 1) {
                                    let (jj, kk) = choose|jj: int, kk: int|
                                        #![trigger view_links(pre.view_at(jj))[kk]]
                                        {
                                            &&& jj < j + 1
                                            &&& pre.live_at(jj)
                                            &&& 0 <= kk < view_links(pre.view_at(jj)).len()
                                            &&& view_links(pre.view_at(jj))[kk].universe_id
                                                == pre.id_spec()
                                            &&& view_links(pre.view_at(jj))[kk].index == m
                                        };
                                    if jj < j {
                                        assert(pre.linked_below(m, j as int));
                                    } else {
                                        assert(jj == j);
                                        assert(ls@[kk].universe_id == pre.id_spec() && ls@[
                                            kk].index == m);
                                    }
                                }
                            }
                        }
                    }
                },
                None => {
                    proof {
                        assert forall|m: int|
                            0 <= m < n implies ((#[trigger] marked@[m]) <==> pre.linked_below(
                            m,
                            j + 1,
                        )) by {
                            if !marked@[m] && pre.linked_below(m, j + 1) {
                                let (jj, kk) = choose|jj: int, kk: int|
                                    #![trigger view_links(pre.view_at(jj))[kk]]
                                    {
                                        &&& jj < j + 1
                                        &&& pre.live_at(jj)
                                        &&& 0 <= kk < view_links(pre.view_at(jj)).len()
                                        &&& view_links(pre.view_at(jj))[kk].universe_id
                                            == pre.id_spec()
                                        &&& view_links(pre.view_at(jj))[kk].index == m
                                    };
                                assert(jj != j);
                                assert(pre.linked_below(m, j as int));
                            }
                        }
                    }
                },
            }
            j = j + 1;
        }
        proof {
            assert forall|m: int|
                0 <= m < n implies ((#[trigger] marked@[m]) <==> pre.linked(m)) by {
                pre.lemma_linked_below_all(m);
            }
        }

        // Second pass: remove entries that nothing references.
        let mut i: usize = 0;
        while i < n
            invariant
                n == pre.arena_len(),
                self.arena_len() == pre.arena_len(),
                self.id_spec() == pre.id_spec(),
                self.next_anonym_spec() == pre.next_anonym_spec(),
                self.wants_gc_spec() == pre.wants_gc_spec(),
                self.step_time_spec() == pre.step_time_spec(),
                i <= n,
                marked@.len() == n,
                forall|m: int| 0 <= m < n ==> ((#[trigger] marked@[m]) <==> pre.linked(m)),
                forall|m: int| i <= m < n ==> #[trigger] self.entry_same(pre, m),
                forall|m: int|
                    0 <= m < i ==> ((#[trigger] self.live_at(m)) <==> (pre.live_at(m) && (
                    pre.refs_at(m) > 0 || pre.linked(m)))),
                forall|m: int|
                    0 <= m < i && #[trigger] self.live_at(m) ==> self.entry_same(pre, m),
            decreases n - i,
        {
            let ghost before = *self;
            let lm: bool = marked[i];
            let dead: bool = match &self.entries[i] {
                Some(e) => e.ref_count == 0 && !lm,
                None => false,
            };
            if dead {
                self.entries.set(i, None);
                proof {
                    assert forall|m: int|
                        0 <= m < n && m != i as int implies #[trigger] self.entry_same(
                        before,
                        m,
                    ) by {
                        assert(self.entries@[m] == before.entries@[m]);
                    }
                    assert forall|m: int|
                        i + 1 <= m < n implies #[trigger] self.entry_same(pre, m) by {
                        assert(self.entry_same(before, m));
                        assert(before.entry_same(pre, m));
                    }
                    assert(before.entry_same(pre, i as int));
                    assert(pre.live_at(i as int) && pre.refs_at(i as int) == 0 && !pre.linked(
                        i as int,
                    ));
                    assert(!self.live_at(i as int));
                    assert forall|m: int|
                        0 <= m < i + 1 implies ((#[trigger] self.live_at(m)) <==> (pre.live_at(m)
                            && (pre.refs_at(m) > 0 || pre.linked(m)))) by {
                        if m < i as int {
                            assert(self.entry_same(before, m));
                        }
                    }
                    assert forall|m: int|
                        0 <= m < i + 1 && #[trigger] self.live_at(m) implies self.entry_same(
                        pre,
                        m,
                    ) by {
                        assert(self.entry_same(before, m));
                    }
                }
            } else {
                proof {
                    assert forall|m: int|
                        0 <= m < n implies #[trigger] self.entry_same(before, m) by {
                        assert(self.entries@[m] == before.entries@[m]);
                    }
                    assert forall|m: int|
                        i + 1 <= m < n implies #[trigger] self.entry_same(pre, m) by {
                        assert(before.entry_same(pre, m));
                    }
                    assert(before.entry_same(pre, i as int));
                    assert(self.entry_same(before, i as int));
                    assert((#[trigger] self.live_at(i as int)) <==> (pre.live_at(i as int) && (
                    pre.refs_at(i as int) > 0 || pre.linked(i as int)))) by {
                        if pre.live_at(i as int) {
                            assert(!dead);
                            assert(marked@[i as int] <==> pre.linked(i as int));
                        }
                    }
                    assert forall|m: int|
                        0 <= m < i + 1 implies ((#[trigger] self.live_at(m)) <==> (pre.live_at(m)
                            && (pre.refs_at(m) > 0 || pre.linked(m)))) by {
                        if m < i as int {
                            assert(self.entry_same(before, m));
                        }
                    }
                    assert forall|m: int|
                        0 <= m < i + 1 && #[trigger] self.live_at(m) implies self.entry_same(
                        pre,
                        m,
                    ) by {
                        assert(self.entry_same(before, m));
                    }
                }
            }
            i = i + 1;
        }
        proof {
            assert forall|m: int|
                #[trigger] self.live_at(m) implies pre.live_at(m) && self.name_at(m)@
                == pre.name_at(m)@ && self.view_at(m) == pre.view_at(m) && self.borrow_at(m)
                == pre.borrow_at(m) by {
                assert(self.entry_same(pre, m));
            }
            Self::lemma_wf_removals(pre, *self);
        }
    }

    /// Advance time for all members by one tick.
    ///
    /// Performs the garbage collection scheduled by insertions, then counts
    /// the tick if time is not paused. Members are visited in arena
    /// (insertion) order.
    pub fn step(&mut self, tick: Tick) -> (info: UniverseStepInfo)
        requires
            old(self).wf(),
            old(self).step_time_spec() < u64::MAX,
        ensures
            final(self).wf(),
            final(self).arena_len() == old(self).arena_len(),
            final(self).id_spec() == old(self).id_spec(),
            final(self).next_anonym_spec() == old(self).next_anonym_spec(),
            !final(self).wants_gc_spec(),
            final(self).step_time_spec() == old(self).step_time_spec() + (if tick.paused {
                0int
            } else {
                1int
            }),
            info.gc_performed == old(self).wants_gc_spec(),
            info.paused == tick.paused,
            !old(self).wants_gc_spec() ==> forall|j: int|
                0 <= j < old(self).arena_len() ==> #[trigger] final(self).entry_same(
                    *old(self),
                    j,
                ),
            old(self).wants_gc_spec() ==> {
                &&& forall|i: int|
                    0 <= i < old(self).arena_len() ==> (#[trigger] final(self).live_at(i) <==> (
                    old(self).live_at(i) && (old(self).refs_at(i) > 0 || old(self).linked(i))))
                &&& forall|i: int|
                    #[trigger] final(self).live_at(i) ==> final(self).entry_same(*old(self), i)
            },
    {
        let ghost pre = *self;
        let performed: bool = self.wants_gc;
        if performed {
            self.gc();
        }
        let ghost after_gc = *self;
        self.wants_gc = false;
        if !tick.paused() {
            self.session_step_time = self.session_step_time + 1;
        }
        proof {
            assert forall|j: int|
                0 <= j < pre.arena_len() implies #[trigger] self.entry_same(after_gc, j) by {
                assert(self.entries@ == after_gc.entries@);
            }
            if !pre.wants_gc_spec() {
                assert forall|j: int|
                    0 <= j < pre.arena_len() implies #[trigger] self.entry_same(pre, j) by {
                    assert(self.entry_same(after_gc, j));
                }
            } else {
                assert forall|i: int|
                    0 <= i < pre.arena_len() implies (#[trigger] self.live_at(i) <==> (
                pre.live_at(i) && (pre.refs_at(i) > 0 || pre.linked(i)))) by {
                    assert(self.entry_same(after_gc, i));
                }
                assert forall|i: int| #[trigger] self.live_at(i) implies self.entry_same(
                    pre,
                    i,
                ) by {
                    assert(self.entry_same(after_gc, i));
                    assert(after_gc.live_at(i));
                    assert(after_gc.entry_same(pre, i));
                }
            }
            Self::lemma_wf_frame(after_gc, *self);
        }
        UniverseStepInfo { gc_performed: performed, paused: tick.paused() }
    }

    /// Mint handles for every member of type `T`, in arena (insertion)
    /// order, paired with their names. Includes anonymous members. Each
    /// minted handle is recorded in its member's handle count.
    pub fn iter_by_type<T: UniverseMember>(&mut self) -> (it: UniverseIter<T>)
        requires
            old(self).wf(),
        ensures
            final(self).wf(),
            final(self).same_members(*old(self)),
            forall|j: int|
                0 <= j < old(self).arena_len() && !(old(self).live_at(j) && old(self).kind_at(j)
                    == T::kind_spec()) ==> #[trigger] final(self).entry_same(*old(self), j),
            forall|j: int|
                0 <= j < old(self).arena_len() && old(self).live_at(j) && #[trigger] old(self).kind_at(j) == T::kind_spec() ==> final(self).refs_at(j) == inc_count(
                    old(self).refs_at(j),
                ) && final(self).borrow_at(j) == old(self).borrow_at(j),
            forall|t: int|
                0 <= t < it.items_seq().len() ==> {
                    let u = (#[trigger] it.items_seq()[t]).1;
                    &&& u.universe_id_spec() == old(self).id_spec()
                    &&& old(self).live_at(u.index_spec())
                    &&& old(self).kind_at(u.index_spec()) == T::kind_spec()
                    &&& it.items_seq()[t].0@ == old(self).name_at(u.index_spec())@
                },
            forall|t1: int, t2: int|
                #![trigger it.items_seq()[t1], it.items_seq()[t2]]
                0 <= t1 < t2 < it.items_seq().len() ==> it.items_seq()[t1].1.index_spec()
                    < it.items_seq()[t2].1.index_spec(),
            forall|j: int|
                0 <= j < old(self).arena_len() && old(self).live_at(j) && #[trigger] old(self).kind_at(j) == T::kind_spec() ==> exists|t: int|
                    0 <= t < it.items_seq().len() && (#[trigger] it.items_seq()[t]).1.index_spec()
                        == j,
    {
        let ghost pre = *self;
        let n: usize = self.entries.len();
        let mut items: Vec<(Name, URef<T>)> = Vec::new();
        let mut i: usize = 0;
        while i < n
            invariant
                n == pre.arena_len(),
                i <= n,
                self.arena_len() == pre.arena_len(),
                self.id_spec() == pre.id_spec(),
                self.next_anonym_spec() == pre.next_anonym_spec(),
                self.wants_gc_spec() == pre.wants_gc_spec(),
                self.step_time_spec() == pre.step_time_spec(),
                self.wf(),
                self.same_members(pre),
                forall|j: int|
                    i <= j < n ==> #[trigger] self.entry_same(pre, j),
                forall|j: int|
                    0 <= j < i && !(pre.live_at(j) && pre.kind_at(j) == T::kind_spec())
                        ==> #[trigger] self.entry_same(pre, j),
                forall|j: int|
                    0 <= j < i && pre.live_at(j) && #[trigger] pre.kind_at(j) == T::kind_spec()
                        ==> self.refs_at(j) == inc_count(pre.refs_at(j)) && self.borrow_at(j)
                        == pre.borrow_at(j) && self.live_at(j),
                forall|t: int|
                    0 <= t < items@.len() ==> {
                        let u = (#[trigger] items@[t]).1;
                        &&& u.universe_id_spec() == pre.id_spec()
                        &&& 0 <= u.index_spec() < i
                        &&& pre.live_at(u.index_spec())
                        &&& pre.kind_at(u.index_spec()) == T::kind_spec()
                        &&& items@[t].0@ == pre.name_at(u.index_spec())@
                    },
                forall|t1: int, t2: int|
                    #![trigger items@[t1], items@[t2]]
                    0 <= t1 < t2 < items@.len() ==> items@[t1].1.index_spec() < items@[
                        t2].1.index_spec(),
                forall|j: int|
                    0 <= j < i && pre.live_at(j) && #[trigger] pre.kind_at(j) == T::kind_spec()
                        ==> exists|t: int|
                        0 <= t < items@.len() && (#[trigger] items@[t]).1.index_spec() == j,
            decreases n - i,
        {
            let ghost before = *self;
            let ghost items_before = items@;
            let mut matched: bool = false;
            match &self.entries[i] {
                Some(e) => {
                    let k = Self::member_kind(&e.member);
                    matched = k == T::kind();
                },
                None => {},
            }
            if matched {
                let e_opt: &mut Option<Entry> = vstd::std_specs::vec::vec_index_mut(
                    &mut self.entries,
                    i,
                );
                let e = e_opt.take();
                match e {
                    Some(mut entry) => {
                        let name_copy: Name = entry.name.clone();
                        if entry.ref_count < usize::MAX {
                            entry.ref_count = entry.ref_count + 1;
                        }
                        *e_opt = Some(entry);
                        items.push((name_copy, URef::make(self.id, i)));
                        proof {
                            assert forall|j: int|
                                0 <= j < n && j != i as int implies #[trigger] self.entry_same(
                                before,
                                j,
                            ) by {
                                assert(self.entries@[j] == before.entries@[j]);
                            }
                            assert forall|j: int|
                                i + 1 <= j < n implies #[trigger] self.entry_same(pre, j) by {
                                assert(self.entry_same(before, j));
                                assert(before.entry_same(pre, j));
                            }
                            Self::lemma_wf_entry_update(before, *self, i as int);
                            assert(self.same_members(before));
                            Self::lemma_same_members_trans(pre, before, *self);
                            assert(self.same_members(pre));
                            assert(before.entry_same(pre, i as int));
                            assert(self.refs_at(i as int) == inc_count(pre.refs_at(i as int)));
                            assert(self.borrow_at(i as int) == pre.borrow_at(i as int));
                            assert forall|j: int|
                                0 <= j < i + 1 && !(pre.live_at(j) && pre.kind_at(j)
                                    == T::kind_spec()) implies #[trigger] self.entry_same(
                                pre,
                                j,
                            ) by {
                                assert(self.entry_same(before, j));
                                assert(before.entry_same(pre, j));
                            }
                            assert forall|j: int|
                                0 <= j < i + 1 && pre.live_at(j) && #[trigger] pre.kind_at(j)
                                    == T::kind_spec() implies self.refs_at(j) == inc_count(
                                pre.refs_at(j),
                            ) && self.borrow_at(j) == pre.borrow_at(j) && self.live_at(j) by {
                                if j < i as int {
                                    assert(self.entry_same(before, j));
                                }
                            }
                            assert(items@ =~= items_before.push(items@[items@.len() - 1]));
                            assert forall|j: int|
                                0 <= j < i + 1 && pre.live_at(j) && #[trigger] pre.kind_at(j)
                                    == T::kind_spec() implies exists|t: int|
                                0 <= t < items@.len() && (#[trigger] items@[t]).1.index_spec()
                                    == j by {
                                if j < i as int {
                                    let t = choose|t: int|
                                        0 <= t < items_before.len() && (
                                        #[trigger] items_before[t]).1.index_spec() == j;
                                    assert((items@[t]).1.index_spec() == j);
                                } else {
                                    assert((items@[items@.len() - 1]).1.index_spec() == j);
                                }
                            }
                        }
                    },
                    None => vstd::pervasive::unreached(),
                }
            } else {
                proof {
                    assert forall|j: int|
                        0 <= j < n implies #[trigger] self.entry_same(before, j) by {
                        assert(self.entries@[j] == before.entries@[j]);
                    }
                    assert forall|j: int|
                        i + 1 <= j < n implies #[trigger] self.entry_same(pre, j) by {
                        assert(self.entry_same(before, j));
                    }
                    assert forall|j: int|
                        0 <= j < i + 1 && !(pre.live_at(j) && pre.kind_at(j) == T::kind_spec())
                            implies #[trigger] self.entry_same(pre, j) by {
                        assert(self.entry_same(before, j));
                        if j < i as int {
                            assert(before.entry_same(pre, j) || !(pre.live_at(j) && pre.kind_at(
                                j,
                            ) == T::kind_spec()));
                        } else {
                            assert(before.entry_same(pre, j));
                        }
                    }
                    assert forall|j: int|
                        0 <= j < i + 1 && pre.live_at(j) && #[trigger] pre.kind_at(j)
                            == T::kind_spec() implies self.refs_at(j) == inc_count(
                        pre.refs_at(j),
                    ) && self.borrow_at(j) == pre.borrow_at(j) && self.live_at(j) by {
                        assert(self.entry_same(before, j));
                        if j == i as int {
                            assert(before.entry_same(pre, j));
                            assert(pre.kind_at(j) != T::kind_spec() || !pre.live_at(j));
                        }
                    }
                }
            }
            i = i + 1;
        }
        UniverseIter { items }
    }

    /// The character named `"character"`, currently assumed to be the player
    /// character of this universe.
    pub fn get_default_character(&mut self) -> (r: Option<URef<Character>>)
        requires
            old(self).wf(),
        ensures
            final(self).wf(),
            final(self).same_members(*old(self)),
            r is Some <==> old(self).has_typed(
                NameView::Specific("character"@),
                MemberKind::Character,
            ),
    {
        let name = Name::Specific(String::from_str("character"));
        self.get::<Character>(&name)
    }
}

/// The handles of an iterator's remaining pairs, names dropped.
fn refs_of<T>(it: UniverseIter<T>) -> (r: Vec<URef<T>>)
    ensures
        r@.len() == it.items_seq().len(),
        forall|t: int| 0 <= t < r@.len() ==> #[trigger] r@[t] == it.items_seq()[t].1,
{
    let ghost orig = it.items_seq();
    let mut it = it;
    let mut r: Vec<URef<T>> = Vec::new();
    let mut remaining: usize = it.len();
    while remaining != 0
        invariant
            remaining == it.items_seq().len(),
            it.items_seq() == orig.skip(r@.len() as int),
            r@.len() <= orig.len(),
            forall|t: int| 0 <= t < r@.len() ==> #[trigger] r@[t] == orig[t].1,
        decreases remaining,
    {
        match it.next() {
            Some(pair) => {
                proof {
                    assert(orig.skip(r@.len() as int)[0] == orig[r@.len() as int]);
                    assert(orig.skip(r@.len() as int).drop_first() =~= orig.skip(
                        r@.len() as int + 1,
                    ));
                }
                r.push(pair.1);
            },
            None => vstd::pervasive::unreached(),
        }
        remaining = remaining - 1;
    }
    proof {
        assert(r@.len() == orig.len());
    }
    r
}

/// The result of [`Universe::iter_by_type`]: name-handle pairs for every
/// member of one type, in arena (insertion) order, handed out one at a time.
pub struct UniverseIter<T> {
    items: Vec<(Name, URef<T>)>,
}

impl<T> UniverseIter<T> {
    /// The remaining name-handle pairs, front first.
    pub closed spec fn items_seq(self) -> Seq<(Name, URef<T>)> {
        self.items@
    }

    /// How many pairs remain.
    pub fn len(&self) -> (n: usize)
        ensures
            n == self.items_seq().len(),
    {
        self.items.len()
    }

    /// Hand out the next name-handle pair, if any remain.
    pub fn next(&mut self) -> (r: Option<(Name, URef<T>)>)
        ensures
            old(self).items_seq().len() == 0 ==> r is None && final(self).items_seq() == old(self).items_seq(),
            old(self).items_seq().len() > 0 ==> r == Some(old(self).items_seq()[0]) && final(self).items_seq() == old(self).items_seq().drop_first(),
    {
        if self.items.len() == 0 {
            None
        } else {
            let pair = self.items.remove(0);
            proof {
                assert(self.items_seq() =~= old(self).items_seq().drop_first());
            }
            Some(pair)
        }
    }
}

/// A subset of the reference handles in one universe, grouped by member
/// type, as a serializer consumes them.
#[derive(Debug)]
pub struct PartialUniverse {
    pub blocks: Vec<URef<BlockDef>>,
    pub characters: Vec<URef<Character>>,
    pub spaces: Vec<URef<Space>>,
}

impl PartialUniverse {
    /// Total number of handles held, over all member types.
    pub open spec fn total_len_spec(self) -> int {
        self.blocks@.len() as int + self.characters@.len() as int + self.spaces@.len() as int
    }

    /// Select only the given members, all of one type.
    pub fn from_set<T: UniverseMember>(members: Vec<URef<T>>) -> (p: PartialUniverse)
        ensures
            T::of_partial(p) == members@,
            p.total_len_spec() == members@.len(),
    {
        T::collect_partial(members)
    }

    /// Handles for every member of the universe, grouped by member type.
    /// Every live member's handle count rises by one for the handle
    /// collected here.
    pub fn all_of(universe: &mut Universe) -> (p: PartialUniverse)
        requires
            old(universe).wf(),
        ensures
            final(universe).wf(),
            final(universe).same_members(*old(universe)),
            forall|t: int|
                0 <= t < p.blocks@.len() ==> {
                    let u = #[trigger] p.blocks@[t];
                    &&& u.universe_id_spec() == old(universe).id_spec()
                    &&& old(universe).live_at(u.index_spec())
                    &&& old(universe).kind_at(u.index_spec()) == MemberKind::BlockDef
                },
            forall|t: int|
                0 <= t < p.characters@.len() ==> {
                    let u = #[trigger] p.characters@[t];
                    &&& u.universe_id_spec() == old(universe).id_spec()
                    &&& old(universe).live_at(u.index_spec())
                    &&& old(universe).kind_at(u.index_spec()) == MemberKind::Character
                },
            forall|t: int|
                0 <= t < p.spaces@.len() ==> {
                    let u = #[trigger] p.spaces@[t];
                    &&& u.universe_id_spec() == old(universe).id_spec()
                    &&& old(universe).live_at(u.index_spec())
                    &&& old(universe).kind_at(u.index_spec()) == MemberKind::Space
                },
            forall|j: int|
                0 <= j < old(universe).arena_len() && old(universe).live_at(j) && #[trigger] old(
                    universe,
                ).kind_at(j) == MemberKind::BlockDef ==> exists|t: int|
                    0 <= t < p.blocks@.len() && (#[trigger] p.blocks@[t]).index_spec() == j,
            forall|j: int|
                0 <= j < old(universe).arena_len() && old(universe).live_at(j) && #[trigger] old(
                    universe,
                ).kind_at(j) == MemberKind::Character ==> exists|t: int|
                    0 <= t < p.characters@.len() && (#[trigger] p.characters@[t]).index_spec()
                        == j,
            forall|j: int|
                0 <= j < old(universe).arena_len() && old(universe).live_at(j) && #[trigger] old(
                    universe,
                ).kind_at(j) == MemberKind::Space ==> exists|t: int|
                    0 <= t < p.spaces@.len() && (#[trigger] p.spaces@[t]).index_spec() == j,
    {
        let ghost s0 = *universe;
        let itb = universe.iter_by_type::<BlockDef>();
        let ghost s1 = *universe;
        let itc = universe.iter_by_type::<Character>();
        let ghost s2 = *universe;
        let its = universe.iter_by_type::<Space>();
        proof {
            Universe::lemma_same_members_trans(s0, s1, s2);
            Universe::lemma_same_members_trans(s0, s2, *universe);
        }
        let blocks = refs_of(itb);
        let characters = refs_of(itc);
        let spaces = refs_of(its);
        proof {
            assert forall|j: int|
                0 <= j < s0.arena_len() && s0.live_at(j) && #[trigger] s0.kind_at(j)
                    == MemberKind::BlockDef implies exists|t: int|
                0 <= t < blocks@.len() && (#[trigger] blocks@[t]).index_spec() == j by {
                let t = choose|t: int|
                    0 <= t < itb.items_seq().len() && (#[trigger] itb.items_seq()[t]).1.index_spec()
                        == j;
                assert(blocks@[t].index_spec() == j);
            }
            assert forall|t: int|
                0 <= t < blocks@.len() implies {
                let u = #[trigger] blocks@[t];
                &&& u.universe_id_spec() == s0.id_spec()
                &&& s0.live_at(u.index_spec())
                &&& s0.kind_at(u.index_spec()) == MemberKind::BlockDef
            } by {
                assert(blocks@[t] == itb.items_seq()[t].1);
            }
            assert forall|j: int|
                0 <= j < s0.arena_len() && s0.live_at(j) && #[trigger] s0.kind_at(j)
                    == MemberKind::Character implies exists|t: int|
                0 <= t < characters@.len() && (#[trigger] characters@[t]).index_spec() == j by {
                assert(s1.live_at(j) && s1.kind_at(j) == MemberKind::Character);
                let t = choose|t: int|
                    0 <= t < itc.items_seq().len() && (#[trigger] itc.items_seq()[t]).1.index_spec()
                        == j;
                assert(characters@[t].index_spec() == j);
            }
            assert forall|j: int|
                0 <= j < s0.arena_len() && s0.live_at(j) && #[trigger] s0.kind_at(j)
                    == MemberKind::Space implies exists|t: int|
                0 <= t < spaces@.len() && (#[trigger] spaces@[t]).index_spec() == j by {
                assert(s2.live_at(j) && s2.kind_at(j) == MemberKind::Space);
                let t = choose|t: int|
                    0 <= t < its.items_seq().len() && (#[trigger] its.items_seq()[t]).1.index_spec()
                        == j;
                assert(spaces@[t].index_spec() == j);
            }
            assert forall|t: int|
                0 <= t < characters@.len() implies {
                let u = #[trigger] characters@[t];
                &&& u.universe_id_spec() == s0.id_spec()
                &&& s0.live_at(u.index_spec())
                &&& s0.kind_at(u.index_spec()) == MemberKind::Character
            } by {
                assert(characters@[t] == itc.items_seq()[t].1);
                assert(s1.live_at(characters@[t].index_spec()));
            }
            assert forall|t: int|
                0 <= t < spaces@.len() implies {
                let u = #[trigger] spaces@[t];
                &&& u.universe_id_spec() == s0.id_spec()
                &&& s0.live_at(u.index_spec())
                &&& s0.kind_at(u.index_spec()) == MemberKind::Space
            } by {
                assert(spaces@[t] == its.items_seq()[t].1);
                assert(s2.live_at(spaces@[t].index_spec()));
            }
        }
        PartialUniverse { blocks, characters, spaces }
    }

    /// Total number of handles held, over all member types.
    pub fn count(&self) -> (n: usize)
        requires
            self.total_len_spec() <= usize::MAX,
        ensures
            n == self.total_len_spec(),
    {
        let a: usize = self.blocks.len();
        let b: usize = self.characters.len();
        let c: usize = self.spaces.len();
        a + b + c
    }
}

} // verus!
