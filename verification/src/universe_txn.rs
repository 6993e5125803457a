//! The aggregate transaction: per-member edits keyed by reference handle,
//! plus member insertions and deletions, executed atomically against a
//! whole universe.

use vstd::prelude::*;

use crate::character::{Character, CharacterTransaction};
use crate::inv::InventoryChange;
use crate::name::{Name, NameView};
use crate::space::Space;
use crate::space_txn::{SpaceChange, SpaceTransaction};
use crate::transaction::{ExecuteError, PreconditionFailed};
use crate::universe::{
    UniverseMember,
    kind_of, member_view, view_wf, AnyMember, MemberKind, MemberView, Universe,
};
use crate::uref::{BorrowState, URef};

verus! {

/// Validity of a space-edit list: pairwise-distinct targets and valid
/// member transactions.
pub open spec fn space_edits_wf(s: Seq<(URef<Space>, SpaceTransaction)>) -> bool {
    &&& forall|a: int, b: int|
        0 <= a < b < s.len() ==> ((#[trigger] s[a]).0.index_spec() != (
        #[trigger] s[b]).0.index_spec() || s[a].0.universe_id_spec() != s[b].0.universe_id_spec())
    &&& forall|t: int| 0 <= t < s.len() ==> (#[trigger] s[t]).1.wf()
}

/// Validity of a character-edit list: pairwise-distinct targets and valid
/// member transactions.
pub open spec fn character_edits_wf(s: Seq<(URef<Character>, CharacterTransaction)>) -> bool {
    &&& forall|a: int, b: int|
        0 <= a < b < s.len() ==> ((#[trigger] s[a]).0.index_spec() != (
        #[trigger] s[b]).0.index_spec() || s[a].0.universe_id_spec() != s[b].0.universe_id_spec())
    &&& forall|t: int| 0 <= t < s.len() ==> (#[trigger] s[t]).1.wf()
}

/// Validity of an insertion list: every member value is valid.
pub open spec fn inserts_wf(s: Seq<(Name, AnyMember)>) -> bool {
    forall|t: int| 0 <= t < s.len() ==> view_wf(member_view((#[trigger] s[t]).1))
}

/// A transaction against a whole [`Universe`]: edits of individual members,
/// keyed by their reference handles, plus insertions of new members and
/// deletions by name.
///
/// Execution validates every part against the current state before
/// committing any of them, so a late-discovered conflict never leaves
/// earlier member edits applied.
#[derive(Debug)]
pub struct UniverseTransaction {
    space_edits: Vec<(URef<Space>, SpaceTransaction)>,
    character_edits: Vec<(URef<Character>, CharacterTransaction)>,
    inserts: Vec<(Name, AnyMember)>,
    deletes: Vec<Name>,
}

impl Default for UniverseTransaction {
    /// The empty transaction.
    fn default() -> (r: Self)
        ensures
            r.wf(),
            r.space_edits_seq().len() == 0,
            r.character_edits_seq().len() == 0,
            r.inserts_seq().len() == 0,
            r.deletes_seq().len() == 0,
    {
        UniverseTransaction {
            space_edits: Vec::new(),
            character_edits: Vec::new(),
            inserts: Vec::new(),
            deletes: Vec::new(),
        }
    }
}

impl UniverseTransaction {
    /// The per-space edits, keyed by handle.
    pub closed spec fn space_edits_seq(self) -> Seq<(URef<Space>, SpaceTransaction)> {
        self.space_edits@
    }

    /// The per-character edits, keyed by handle.
    pub closed spec fn character_edits_seq(self) -> Seq<(URef<Character>, CharacterTransaction)> {
        self.character_edits@
    }

    /// The members to insert, with their proposed names, in order.
    pub closed spec fn inserts_seq(self) -> Seq<(Name, AnyMember)> {
        self.inserts@
    }

    /// The names of members to delete.
    pub closed spec fn deletes_seq(self) -> Seq<Name> {
        self.deletes@
    }

    /// Validity: each member is edited at most once, the member transactions
    /// are valid, and every member value to insert is valid.
    pub open spec fn wf(self) -> bool {
        &&& space_edits_wf(self.space_edits_seq())
        &&& character_edits_wf(self.character_edits_seq())
        &&& inserts_wf(self.inserts_seq())
    }

    /// A transaction that inserts one member under the given name. A
    /// `Pending` name is resolved to a fresh anonymous name at commit time,
    /// so independently built insertions each receive a distinct identity.
    pub fn insert(name: Name, member: AnyMember) -> (r: Self)
        requires
            view_wf(member_view(member)),
        ensures
            r.wf(),
            r.space_edits_seq().len() == 0,
            r.character_edits_seq().len() == 0,
            r.inserts_seq().len() == 1,
            r.inserts_seq()[0].0@ == name@,
            r.inserts_seq()[0].1 == member,
            r.deletes_seq().len() == 0,
    {
        let mut inserts: Vec<(Name, AnyMember)> = Vec::new();
        inserts.push((name, member));
        UniverseTransaction {
            space_edits: Vec::new(),
            character_edits: Vec::new(),
            inserts,
            deletes: Vec::new(),
        }
    }

    /// A transaction that deletes the member with the given name.
    pub fn delete(name: Name) -> (r: Self)
        ensures
            r.wf(),
            r.space_edits_seq().len() == 0,
            r.character_edits_seq().len() == 0,
            r.inserts_seq().len() == 0,
            r.deletes_seq().len() == 1,
            r.deletes_seq()[0]@ == name@,
    {
        let mut deletes: Vec<Name> = Vec::new();
        deletes.push(name);
        UniverseTransaction {
            space_edits: Vec::new(),
            character_edits: Vec::new(),
            inserts: Vec::new(),
            deletes,
        }
    }

    /// Extend this transaction to also edit the space `target` designates,
    /// or report a conflict if this transaction already edits it. Edits of
    /// the same member are conservatively treated as conflicting rather
    /// than being combined.
    pub fn edit_space(&mut self, target: URef<Space>, txn: SpaceTransaction) -> (r: Result<
        (),
        crate::transaction::TransactionConflict,
    >)
        requires
            old(self).wf(),
            txn.wf(),
        ensures
            final(self).wf(),
            final(self).character_edits_seq() == old(self).character_edits_seq(),
            final(self).inserts_seq() == old(self).inserts_seq(),
            final(self).deletes_seq() == old(self).deletes_seq(),
            r is Ok ==> final(self).space_edits_seq() == old(self).space_edits_seq().push(
                (target, txn),
            ),
            r is Err ==> final(self).space_edits_seq() == old(self).space_edits_seq(),
            r is Ok <==> !(exists|k: int|
                0 <= k < old(self).space_edits_seq().len() && (#[trigger] old(
                    self,
                ).space_edits_seq()[k]).0.index_spec() == target.index_spec() && old(
                    self,
                ).space_edits_seq()[k].0.universe_id_spec() == target.universe_id_spec()),
    {
        let n: usize = self.space_edits.len();
        let mut k: usize = 0;
        while k < n
            invariant
                self.wf(),
                n == self.space_edits_seq().len(),
                k <= n,
                forall|a: int|
                    0 <= a < k ==> ((#[trigger] self.space_edits_seq()[a]).0.index_spec()
                        != target.index_spec() || self.space_edits_seq()[a].0.universe_id_spec()
                        != target.universe_id_spec()),
            decreases n - k,
        {
            let e = &self.space_edits[k];
            if e.0.index_raw() == target.index_raw() && e.0.universe_id_raw()
                == target.universe_id_raw() {
                return Err(crate::transaction::TransactionConflict {});
            }
            k = k + 1;
        }
        let ghost pre = *self;
        self.space_edits.push((target, txn));
        proof {
            let ses = self.space_edits_seq();
            let n1 = pre.space_edits_seq().len() as int;
            assert(ses =~= pre.space_edits_seq().push((target, txn)));
            assert forall|a: int, b: int| 0 <= a < b < ses.len() implies ((
            #[trigger] ses[a]).0.index_spec() != (#[trigger] ses[b]).0.index_spec()
                || ses[a].0.universe_id_spec() != ses[b].0.universe_id_spec()) by {
                if b == n1 {
                    assert(ses[a] == pre.space_edits_seq()[a]);
                } else {
                    assert(ses[a] == pre.space_edits_seq()[a]);
                    assert(ses[b] == pre.space_edits_seq()[b]);
                }
            }
            assert forall|t: int| 0 <= t < ses.len() implies (#[trigger] ses[t]).1.wf() by {
                if t < n1 {
                    assert(ses[t] == pre.space_edits_seq()[t]);
                    assert((#[trigger] pre.space_edits_seq()[t]).1.wf());
                }
            }
            assert(space_edits_wf(ses));
        }
        Ok(())
    }

    /// Extend this transaction to also edit the character `target`
    /// designates, or report a conflict if this transaction already edits
    /// it.
    pub fn edit_character(&mut self, target: URef<Character>, txn: CharacterTransaction) -> (r:
        Result<(), crate::transaction::TransactionConflict>)
        requires
            old(self).wf(),
            txn.wf(),
        ensures
            final(self).wf(),
            final(self).space_edits_seq() == old(self).space_edits_seq(),
            final(self).inserts_seq() == old(self).inserts_seq(),
            final(self).deletes_seq() == old(self).deletes_seq(),
            r is Ok ==> final(self).character_edits_seq() == old(
                self,
            ).character_edits_seq().push((target, txn)),
            r is Err ==> final(self).character_edits_seq() == old(self).character_edits_seq(),
            r is Ok <==> !(exists|k: int|
                0 <= k < old(self).character_edits_seq().len() && (#[trigger] old(
                    self,
                ).character_edits_seq()[k]).0.index_spec() == target.index_spec() && old(
                    self,
                ).character_edits_seq()[k].0.universe_id_spec() == target.universe_id_spec()),
    {
        let n: usize = self.character_edits.len();
        let mut k: usize = 0;
        while k < n
            invariant
                self.wf(),
                n == self.character_edits_seq().len(),
                k <= n,
                forall|a: int|
                    0 <= a < k ==> ((#[trigger] self.character_edits_seq()[a]).0.index_spec()
                        != target.index_spec()
                        || self.character_edits_seq()[a].0.universe_id_spec()
                        != target.universe_id_spec()),
            decreases n - k,
        {
            let e = &self.character_edits[k];
            if e.0.index_raw() == target.index_raw() && e.0.universe_id_raw()
                == target.universe_id_raw() {
                return Err(crate::transaction::TransactionConflict {});
            }
            k = k + 1;
        }
        let ghost pre = *self;
        self.character_edits.push((target, txn));
        proof {
            let ces = self.character_edits_seq();
            let m1 = pre.character_edits_seq().len() as int;
            assert(ces =~= pre.character_edits_seq().push((target, txn)));
            assert forall|a: int, b: int| 0 <= a < b < ces.len() implies ((
            #[trigger] ces[a]).0.index_spec() != (#[trigger] ces[b]).0.index_spec()
                || ces[a].0.universe_id_spec() != ces[b].0.universe_id_spec()) by {
                if b == m1 {
                    assert(ces[a] == pre.character_edits_seq()[a]);
                } else {
                    assert(ces[a] == pre.character_edits_seq()[a]);
                    assert(ces[b] == pre.character_edits_seq()[b]);
                }
            }
            assert forall|t: int| 0 <= t < ces.len() implies (#[trigger] ces[t]).1.wf() by {
                if t < m1 {
                    assert(ces[t] == pre.character_edits_seq()[t]);
                    assert((#[trigger] pre.character_edits_seq()[t]).1.wf());
                }
            }
            assert(character_edits_wf(ces));
        }
        Ok(())
    }

    /// Whether the two aggregates may be combined: no member is edited by
    /// both. Edits of the same member are conservatively treated as
    /// conflicting rather than being combined; insertions and deletions
    /// never conflict at merge time.
    pub open spec fn compatible_with(self, other: UniverseTransaction) -> bool {
        &&& forall|a: int, b: int|
            0 <= a < self.space_edits_seq().len() && 0 <= b < other.space_edits_seq().len() ==> ((
            #[trigger] self.space_edits_seq()[a]).0.index_spec() != (
            #[trigger] other.space_edits_seq()[b]).0.index_spec()
                || self.space_edits_seq()[a].0.universe_id_spec()
                != other.space_edits_seq()[b].0.universe_id_spec())
        &&& forall|a: int, b: int|
            0 <= a < self.character_edits_seq().len() && 0 <= b
                < other.character_edits_seq().len() ==> ((
            #[trigger] self.character_edits_seq()[a]).0.index_spec() != (
            #[trigger] other.character_edits_seq()[b]).0.index_spec()
                || self.character_edits_seq()[a].0.universe_id_spec()
                != other.character_edits_seq()[b].0.universe_id_spec())
    }

    /// Detect whether the two aggregates edit any member in common.
    pub fn check_merge(&self, other: &UniverseTransaction) -> (r: Result<
        (),
        crate::transaction::TransactionConflict,
    >)
        requires
            self.wf(),
            other.wf(),
        ensures
            r is Ok <==> self.compatible_with(*other),
    {
        let sn: usize = self.space_edits.len();
        let on: usize = other.space_edits.len();
        let mut a: usize = 0;
        while a < sn
            invariant
                sn == self.space_edits_seq().len(),
                on == other.space_edits_seq().len(),
                a <= sn,
                forall|x: int, y: int|
                    0 <= x < a && 0 <= y < on ==> ((#[trigger] self.space_edits_seq()[x]).0.index_spec()
                        != (#[trigger] other.space_edits_seq()[y]).0.index_spec()
                        || self.space_edits_seq()[x].0.universe_id_spec()
                        != other.space_edits_seq()[y].0.universe_id_spec()),
            decreases sn - a,
        {
            let mut b: usize = 0;
            while b < on
                invariant
                    sn == self.space_edits_seq().len(),
                    on == other.space_edits_seq().len(),
                    a < sn,
                    b <= on,
                    forall|y: int|
                        0 <= y < b ==> ((#[trigger] other.space_edits_seq()[y]).0.index_spec()
                            != self.space_edits_seq()[a as int].0.index_spec()
                            || other.space_edits_seq()[y].0.universe_id_spec()
                            != self.space_edits_seq()[a as int].0.universe_id_spec()),
                decreases on - b,
            {
                let mine = &self.space_edits[a];
                let theirs = &other.space_edits[b];
                if mine.0.index_raw() == theirs.0.index_raw() && mine.0.universe_id_raw()
                    == theirs.0.universe_id_raw() {
                    return Err(crate::transaction::TransactionConflict {});
                }
                b = b + 1;
            }
            a = a + 1;
        }
        let cn: usize = self.character_edits.len();
        let con: usize = other.character_edits.len();
        let mut a2: usize = 0;
        while a2 < cn
            invariant
                cn == self.character_edits_seq().len(),
                con == other.character_edits_seq().len(),
                a2 <= cn,
                forall|x: int, y: int|
                    0 <= x < a2 && 0 <= y < con ==> ((
                    #[trigger] self.character_edits_seq()[x]).0.index_spec() != (
                    #[trigger] other.character_edits_seq()[y]).0.index_spec()
                        || self.character_edits_seq()[x].0.universe_id_spec()
                        != other.character_edits_seq()[y].0.universe_id_spec()),
            decreases cn - a2,
        {
            let mut b2: usize = 0;
            while b2 < con
                invariant
                    cn == self.character_edits_seq().len(),
                    con == other.character_edits_seq().len(),
                    a2 < cn,
                    b2 <= con,
                    forall|y: int|
                        0 <= y < b2 ==> ((#[trigger] other.character_edits_seq()[y]).0.index_spec()
                            != self.character_edits_seq()[a2 as int].0.index_spec()
                            || other.character_edits_seq()[y].0.universe_id_spec()
                            != self.character_edits_seq()[a2 as int].0.universe_id_spec()),
                decreases con - b2,
            {
                let mine = &self.character_edits[a2];
                let theirs = &other.character_edits[b2];
                if mine.0.index_raw() == theirs.0.index_raw() && mine.0.universe_id_raw()
                    == theirs.0.universe_id_raw() {
                    return Err(crate::transaction::TransactionConflict {});
                }
                b2 = b2 + 1;
            }
            a2 = a2 + 1;
        }
        Ok(())
    }

    /// Combine two aggregates previously proven compatible: all parts are
    /// concatenated.
    pub fn commit_merge(self, other: Self, check: ()) -> (r: Self)
        requires
            self.wf(),
            other.wf(),
            self.compatible_with(other),
        ensures
            r.wf(),
            r.space_edits_seq() == self.space_edits_seq() + other.space_edits_seq(),
            r.character_edits_seq() == self.character_edits_seq()
                + other.character_edits_seq(),
            r.inserts_seq() == self.inserts_seq() + other.inserts_seq(),
            r.deletes_seq() == self.deletes_seq() + other.deletes_seq(),
    {
        let ghost t1 = self;
        let ghost t2 = other;
        let mut result = self;
        let mut other = other;
        result.space_edits.append(&mut other.space_edits);
        result.character_edits.append(&mut other.character_edits);
        result.inserts.append(&mut other.inserts);
        result.deletes.append(&mut other.deletes);
        proof {
            let ses = result.space_edits_seq();
            let n1 = t1.space_edits_seq().len() as int;
            assert forall|a: int, b: int| 0 <= a < b < ses.len() implies ((
            #[trigger] ses[a]).0.index_spec() != (#[trigger] ses[b]).0.index_spec()
                || ses[a].0.universe_id_spec() != ses[b].0.universe_id_spec()) by {
                if a < n1 && b >= n1 {
                    assert(ses[a] == t1.space_edits_seq()[a]);
                    assert(ses[b] == t2.space_edits_seq()[b - n1]);
                } else if b < n1 {
                    assert(ses[a] == t1.space_edits_seq()[a]);
                    assert(ses[b] == t1.space_edits_seq()[b]);
                } else {
                    assert(ses[a] == t2.space_edits_seq()[a - n1]);
                    assert(ses[b] == t2.space_edits_seq()[b - n1]);
                }
            }
            assert forall|t: int| 0 <= t < ses.len() implies (#[trigger] ses[t]).1.wf() by {
                if t < n1 {
                    assert(ses[t] == t1.space_edits_seq()[t]);
                    assert((#[trigger] t1.space_edits_seq()[t]).1.wf());
                } else {
                    assert(ses[t] == t2.space_edits_seq()[t - n1]);
                    assert((#[trigger] t2.space_edits_seq()[t - n1]).1.wf());
                }
            }
            let ces = result.character_edits_seq();
            let m1 = t1.character_edits_seq().len() as int;
            assert forall|a: int, b: int| 0 <= a < b < ces.len() implies ((
            #[trigger] ces[a]).0.index_spec() != (#[trigger] ces[b]).0.index_spec()
                || ces[a].0.universe_id_spec() != ces[b].0.universe_id_spec()) by {
                if a < m1 && b >= m1 {
                    assert(ces[a] == t1.character_edits_seq()[a]);
                    assert(ces[b] == t2.character_edits_seq()[b - m1]);
                } else if b < m1 {
                    assert(ces[a] == t1.character_edits_seq()[a]);
                    assert(ces[b] == t1.character_edits_seq()[b]);
                } else {
                    assert(ces[a] == t2.character_edits_seq()[a - m1]);
                    assert(ces[b] == t2.character_edits_seq()[b - m1]);
                }
            }
            assert forall|t: int| 0 <= t < ces.len() implies (#[trigger] ces[t]).1.wf() by {
                if t < m1 {
                    assert(ces[t] == t1.character_edits_seq()[t]);
                    assert((#[trigger] t1.character_edits_seq()[t]).1.wf());
                } else {
                    assert(ces[t] == t2.character_edits_seq()[t - m1]);
                    assert((#[trigger] t2.character_edits_seq()[t - m1]).1.wf());
                }
            }
            let ins = result.inserts_seq();
            let i1 = t1.inserts_seq().len() as int;
            assert forall|t: int| 0 <= t < ins.len() implies view_wf(
                member_view((#[trigger] ins[t]).1),
            ) by {
                if t < i1 {
                    assert(ins[t] == t1.inserts_seq()[t]);
                    assert(view_wf(member_view((#[trigger] t1.inserts_seq()[t]).1)));
                } else {
                    assert(ins[t] == t2.inserts_seq()[t - i1]);
                    assert(view_wf(member_view((#[trigger] t2.inserts_seq()[t - i1]).1)));
                }
            }
        }
        result
    }

    /// Merge two aggregates: detect conflicts, then combine.
    pub fn merge(self, other: Self) -> (r: Result<
        Self,
        crate::transaction::TransactionConflict,
    >)
        requires
            self.wf(),
            other.wf(),
        ensures
            r is Ok <==> self.compatible_with(other),
            r matches Ok(m) ==> m.wf() && m.space_edits_seq() == self.space_edits_seq()
                + other.space_edits_seq() && m.character_edits_seq()
                == self.character_edits_seq() + other.character_edits_seq() && m.inserts_seq()
                == self.inserts_seq() + other.inserts_seq() && m.deletes_seq()
                == self.deletes_seq() + other.deletes_seq(),
    {
        match self.check_merge(&other) {
            Err(e) => Err(e),
            Ok(()) => Ok(self.commit_merge(other, ())),
        }
    }

    /// Whether one space edit is applicable: its member is live, free of
    /// guards, and the edit's preconditions hold on its current value.
    pub open spec fn space_edit_valid(u: Universe, e: (URef<Space>, SpaceTransaction)) -> bool {
        &&& u.uref_live(e.0)
        &&& u.borrow_at(e.0.index_spec()) is Idle
        &&& e.1.valid_on(
            u.view_at(e.0.index_spec())->Space_0,
            u.view_at(e.0.index_spec())->Space_1,
        )
    }

    /// Whether one character edit is applicable.
    pub open spec fn character_edit_valid(
        u: Universe,
        e: (URef<Character>, CharacterTransaction),
    ) -> bool {
        &&& u.uref_live(e.0)
        &&& u.borrow_at(e.0.index_spec()) is Idle
        &&& e.1.inventory_spec().spec_check(u.view_at(e.0.index_spec())->Character_1) is Some
    }

    /// Whether one proposed insertion name is allowed against `u`: not an
    /// anonymous name (those are allocated only by the universe), and a
    /// specific name must be unused.
    pub open spec fn insert_name_ok(u: Universe, n: NameView) -> bool {
        &&& !(n is Anonym)
        &&& (n is Specific ==> !u.has_name(n))
    }

    /// Whether the name is deleted by this transaction.
    pub open spec fn name_deleted(self, n: NameView) -> bool {
        exists|t: int| 0 <= t < self.deletes_seq().len() && (#[trigger] self.deletes_seq()[t])@
            == n
    }

    /// Whether arena position `j` is the target of one of this
    /// transaction's member edits.
    pub open spec fn is_edit_target(self, u: Universe, j: int) -> bool {
        (exists|t: int|
            0 <= t < self.space_edits_seq().len() && (#[trigger] self.space_edits_seq()[t]).0.index_spec()
                == j && self.space_edits_seq()[t].0.universe_id_spec() == u.id_spec()) || (exists|
            t: int,
        |
            0 <= t < self.character_edits_seq().len() && (
            #[trigger] self.character_edits_seq()[t]).0.index_spec() == j
                && self.character_edits_seq()[t].0.universe_id_spec() == u.id_spec())
    }

    /// Whether every part of this transaction is applicable to `u`: all
    /// member edits check out, every insertion name is allowed and the
    /// specific ones are pairwise distinct, every deleted name exists, and
    /// no deletion targets an edited member.
    pub open spec fn valid_for(self, u: Universe) -> bool {
        &&& forall|t: int|
            0 <= t < self.space_edits_seq().len() ==> Self::space_edit_valid(
                u,
                #[trigger] self.space_edits_seq()[t],
            )
        &&& forall|t: int|
            0 <= t < self.character_edits_seq().len() ==> Self::character_edit_valid(
                u,
                #[trigger] self.character_edits_seq()[t],
            )
        &&& forall|t: int|
            0 <= t < self.inserts_seq().len() ==> Self::insert_name_ok(
                u,
                (#[trigger] self.inserts_seq()[t]).0@,
            )
        &&& forall|a: int, b: int|
            0 <= a < b < self.inserts_seq().len() && (#[trigger] self.inserts_seq()[a]).0@
                is Specific ==> (#[trigger] self.inserts_seq()[b]).0@ != self.inserts_seq()[a].0@
        &&& forall|t: int|
            0 <= t < self.deletes_seq().len() ==> u.has_name((#[trigger] self.deletes_seq()[t])@)
        &&& forall|t: int|
            0 <= t < self.space_edits_seq().len() ==> !self.name_deleted(
                u.name_at((#[trigger] self.space_edits_seq()[t]).0.index_spec())@,
            )
        &&& forall|t: int|
            0 <= t < self.character_edits_seq().len() ==> !self.name_deleted(
                u.name_at((#[trigger] self.character_edits_seq()[t]).0.index_spec())@,
            )
    }

    /// How many of the first `upto` insertions carry a pending name.
    pub open spec fn pending_before(self, upto: int) -> int
        decreases upto,
    {
        if upto <= 0 {
            0
        } else {
            self.pending_before(upto - 1) + (if self.inserts_seq()[upto - 1].0@ is Pending {
                1int
            } else {
                0int
            })
        }
    }

    /// Validate every part of this transaction against the universe's
    /// current state without modifying anything.
    fn check_all(&self, universe: &Universe) -> (r: Result<(), PreconditionFailed>)
        requires
            self.wf(),
            universe.wf(),
        ensures
            r is Ok <==> self.valid_for(*universe),
    {
        // Member edits: live, unborrowed, and the member transaction's own
        // preconditions hold on the current value.
        let sn: usize = self.space_edits.len();
        let mut t: usize = 0;
        while t < sn
            invariant
                self.wf(),
                universe.wf(),
                sn == self.space_edits_seq().len(),
                t <= sn,
                forall|k: int|
                    0 <= k < t ==> Self::space_edit_valid(
                        *universe,
                        #[trigger] self.space_edits_seq()[k],
                    ),
            decreases sn - t,
        {
            let e = &self.space_edits[t];
            match universe.read_copy::<Space>(&e.0) {
                None => {
                    return Err(
                        PreconditionFailed {
                            location: "Universe",
                            problem: "edited member is gone",
                            key: None,
                        },
                    );
                },
                Some(space) => {
                    match universe.borrow_state_of::<Space>(&e.0) {
                        Some(BorrowState::Idle) => {},
                        _ => {
                            return Err(
                                PreconditionFailed {
                                    location: "Universe",
                                    problem: "edited member is currently borrowed",
                                    key: None,
                                },
                            );
                        },
                    }
                    proof {
                        assert(view_wf(universe.view_at(e.0.index_spec())));
                        assert(space.wf());
                        assert((#[trigger] self.space_edits_seq()[t as int]).1.wf());
                    }
                    match e.1.check(&space) {
                        Err(pf) => {
                            return Err(pf);
                        },
                        Ok(()) => {
                            proof {
                                assert(Self::space_edit_valid(
                                    *universe,
                                    self.space_edits_seq()[t as int],
                                ));
                            }
                        },
                    }
                },
            }
            t = t + 1;
        }
        let cn: usize = self.character_edits.len();
        let mut t2: usize = 0;
        while t2 < cn
            invariant
                self.wf(),
                universe.wf(),
                cn == self.character_edits_seq().len(),
                t2 <= cn,
                forall|k: int|
                    0 <= k < t2 ==> Self::character_edit_valid(
                        *universe,
                        #[trigger] self.character_edits_seq()[k],
                    ),
            decreases cn - t2,
        {
            let e = &self.character_edits[t2];
            match universe.read_copy::<Character>(&e.0) {
                None => {
                    return Err(
                        PreconditionFailed {
                            location: "Universe",
                            problem: "edited member is gone",
                            key: None,
                        },
                    );
                },
                Some(character) => {
                    match universe.borrow_state_of::<Character>(&e.0) {
                        Some(BorrowState::Idle) => {},
                        _ => {
                            return Err(
                                PreconditionFailed {
                                    location: "Universe",
                                    problem: "edited member is currently borrowed",
                                    key: None,
                                },
                            );
                        },
                    }
                    proof {
                        assert(view_wf(universe.view_at(e.0.index_spec())));
                        assert(character.mview() == universe.view_at(e.0.index_spec()));
                        assert(view_wf(
                            MemberView::Character(character.space, character.inventory.slots@),
                        ));
                        assert(character.inventory.wf());
                        assert((#[trigger] self.character_edits_seq()[t2 as int]).1.wf());
                    }
                    match e.1.check(&character) {
                        Err(pf) => {
                            return Err(pf);
                        },
                        Ok(_) => {
                            proof {
                                assert(Self::character_edit_valid(
                                    *universe,
                                    self.character_edits_seq()[t2 as int],
                                ));
                            }
                        },
                    }
                },
            }
            t2 = t2 + 1;
        }
        // Insertions: no anonymous names, specific names unused and
        // pairwise distinct.
        let inn: usize = self.inserts.len();
        let mut t3: usize = 0;
        while t3 < inn
            invariant
                self.wf(),
                universe.wf(),
                inn == self.inserts_seq().len(),
                t3 <= inn,
                forall|k: int|
                    0 <= k < t3 ==> Self::insert_name_ok(
                        *universe,
                        (#[trigger] self.inserts_seq()[k]).0@,
                    ),
                forall|a: int, b: int|
                    0 <= a < b < t3 && (#[trigger] self.inserts_seq()[a]).0@ is Specific ==> (
                    #[trigger] self.inserts_seq()[b]).0@ != self.inserts_seq()[a].0@,
            decreases inn - t3,
        {
            let name = &self.inserts[t3].0;
            match name {
                Name::Anonym(_) => {
                    return Err(
                        PreconditionFailed {
                            location: "Universe",
                            problem: "anonymous names are allocated by the universe",
                            key: None,
                        },
                    );
                },
                Name::Specific(_) => {
                    if universe.get_any(name).is_some() {
                        return Err(
                            PreconditionFailed {
                                location: "Universe",
                                problem: "a member with the inserted name already exists",
                                key: None,
                            },
                        );
                    }
                },
                Name::Pending => {},
            }
            let mut k: usize = 0;
            while k < t3
                invariant
                    inn == self.inserts_seq().len(),
                    t3 < inn,
                    k <= t3,
                    forall|a: int|
                        0 <= a < k && (#[trigger] self.inserts_seq()[a]).0@ is Specific
                            ==> self.inserts_seq()[t3 as int].0@ != self.inserts_seq()[a].0@,
                decreases t3 - k,
            {
                let earlier = &self.inserts[k].0;
                let is_specific: bool = match earlier {
                    Name::Specific(_) => true,
                    _ => false,
                };
                if is_specific && earlier.eq(&self.inserts[t3].0) {
                    return Err(
                        PreconditionFailed {
                            location: "Universe",
                            problem: "the same name is inserted twice",
                            key: None,
                        },
                    );
                }
                k = k + 1;
            }
            t3 = t3 + 1;
        }
        // Deletions: every deleted name exists and does not name an edited
        // member.
        let dn: usize = self.deletes.len();
        let mut t4: usize = 0;
        while t4 < dn
            invariant
                self.wf(),
                universe.wf(),
                dn == self.deletes_seq().len(),
                sn == self.space_edits_seq().len(),
                cn == self.character_edits_seq().len(),
                t4 <= dn,
                forall|k: int|
                    0 <= k < t4 ==> universe.has_name((#[trigger] self.deletes_seq()[k])@),
                forall|k: int, j: int|
                    #![trigger self.deletes_seq()[k], universe.name_at(j)]
                    0 <= k < t4 && universe.live_at(j) && universe.name_at(j)@
                        == self.deletes_seq()[k]@ ==> !self.is_edit_target(*universe, j),
            decreases dn - t4,
        {
            let d = &self.deletes[t4];
            let er = match universe.get_any(d) {
                None => {
                    return Err(
                        PreconditionFailed {
                            location: "Universe",
                            problem: "no member carries the deleted name",
                            key: None,
                        },
                    );
                },
                Some(er) => er,
            };
            let mut k: usize = 0;
            while k < sn
                invariant
                    self.wf(),
                    universe.wf(),
                    sn == self.space_edits_seq().len(),
                    dn == self.deletes_seq().len(),
                    t4 < dn,
                    k <= sn,
                    universe.live_at(er.index as int),
                    er.universe_id == universe.id_spec(),
                    universe.name_at(er.index as int)@ == self.deletes_seq()[t4 as int]@,
                    forall|a: int|
                        0 <= a < k ==> ((#[trigger] self.space_edits_seq()[a]).0.index_spec()
                            != er.index as int || self.space_edits_seq()[a].0.universe_id_spec()
                            != er.universe_id),
                decreases sn - k,
            {
                let e = &self.space_edits[k];
                if e.0.index_raw() == er.index && e.0.universe_id_raw() == er.universe_id {
                    proof {
                        assert(universe.name_at(er.index as int)@ == self.deletes_seq()[
                            t4 as int]@);
                        assert(self.deletes_seq()[t4 as int]@ == universe.name_at(
                            e.0.index_spec(),
                        )@);
                        assert(self.name_deleted(universe.name_at(e.0.index_spec())@));
                        assert(!self.valid_for(*universe));
                    }
                    return Err(
                        PreconditionFailed {
                            location: "Universe",
                            problem: "the transaction deletes a member it also edits",
                            key: None,
                        },
                    );
                }
                k = k + 1;
            }
            let mut k2: usize = 0;
            while k2 < cn
                invariant
                    self.wf(),
                    universe.wf(),
                    cn == self.character_edits_seq().len(),
                    dn == self.deletes_seq().len(),
                    t4 < dn,
                    k2 <= cn,
                    universe.live_at(er.index as int),
                    er.universe_id == universe.id_spec(),
                    universe.name_at(er.index as int)@ == self.deletes_seq()[t4 as int]@,
                    forall|a: int|
                        0 <= a < k2 ==> ((#[trigger] self.character_edits_seq()[a]).0.index_spec()
                            != er.index as int
                            || self.character_edits_seq()[a].0.universe_id_spec()
                            != er.universe_id),
                decreases cn - k2,
            {
                let e = &self.character_edits[k2];
                if e.0.index_raw() == er.index && e.0.universe_id_raw() == er.universe_id {
                    proof {
                        assert(universe.name_at(er.index as int)@ == self.deletes_seq()[
                            t4 as int]@);
                        assert(self.deletes_seq()[t4 as int]@ == universe.name_at(
                            e.0.index_spec(),
                        )@);
                        assert(self.name_deleted(universe.name_at(e.0.index_spec())@));
                        assert(!self.valid_for(*universe));
                    }
                    return Err(
                        PreconditionFailed {
                            location: "Universe",
                            problem: "the transaction deletes a member it also edits",
                            key: None,
                        },
                    );
                }
                k2 = k2 + 1;
            }
            proof {
                assert forall|j: int|
                    universe.live_at(j) && universe.name_at(j)@ == self.deletes_seq()[t4 as int]@
                        implies !self.is_edit_target(*universe, j) by {
                    assert(j == er.index as int) by {
                        if j != er.index as int {
                            assert(universe.name_at(j)@ != universe.name_at(er.index as int)@);
                        }
                    }
                }
            }
            t4 = t4 + 1;
        }
        proof {
            assert forall|t: int|
                0 <= t < self.space_edits_seq().len() implies !self.name_deleted(
                universe.name_at((#[trigger] self.space_edits_seq()[t]).0.index_spec())@,
            ) by {
                if self.name_deleted(
                    universe.name_at(self.space_edits_seq()[t].0.index_spec())@,
                ) {
                    let d = choose|d: int|
                        0 <= d < self.deletes_seq().len() && (#[trigger] self.deletes_seq()[d])@
                            == universe.name_at(self.space_edits_seq()[t].0.index_spec())@;
                    assert(Self::space_edit_valid(*universe, self.space_edits_seq()[t]));
                    assert(universe.live_at(self.space_edits_seq()[t].0.index_spec()));
                    assert(!self.is_edit_target(
                        *universe,
                        self.space_edits_seq()[t].0.index_spec(),
                    ));
                    assert(self.is_edit_target(
                        *universe,
                        self.space_edits_seq()[t].0.index_spec(),
                    ));
                }
            }
            assert forall|t: int|
                0 <= t < self.character_edits_seq().len() implies !self.name_deleted(
                universe.name_at((#[trigger] self.character_edits_seq()[t]).0.index_spec())@,
            ) by {
                if self.name_deleted(
                    universe.name_at(self.character_edits_seq()[t].0.index_spec())@,
                ) {
                    let d = choose|d: int|
                        0 <= d < self.deletes_seq().len() && (#[trigger] self.deletes_seq()[d])@
                            == universe.name_at(self.character_edits_seq()[t].0.index_spec())@;
                    assert(Self::character_edit_valid(
                        *universe,
                        self.character_edits_seq()[t],
                    ));
                    assert(universe.live_at(self.character_edits_seq()[t].0.index_spec()));
                    assert(!self.is_edit_target(
                        *universe,
                        self.character_edits_seq()[t].0.index_spec(),
                    ));
                    assert(self.is_edit_target(
                        *universe,
                        self.character_edits_seq()[t].0.index_spec(),
                    ));
                }
            }
        }
        Ok(())
    }

    /// Whether position `j` is targeted by one of the first `upto` space
    /// edits.
    pub open spec fn space_target_before(self, u: Universe, j: int, upto: int) -> bool {
        exists|k: int|
            0 <= k < upto && (#[trigger] self.space_edits_seq()[k]).0.index_spec() == j
                && self.space_edits_seq()[k].0.universe_id_spec() == u.id_spec()
    }

    /// Whether position `j` is targeted by one of the first `upto`
    /// character edits.
    pub open spec fn character_target_before(self, u: Universe, j: int, upto: int) -> bool {
        exists|k: int|
            0 <= k < upto && (#[trigger] self.character_edits_seq()[k]).0.index_spec() == j
                && self.character_edits_seq()[k].0.universe_id_spec() == u.id_spec()
    }

    /// The view a space edit leaves its member with.
    pub open spec fn space_edit_result(u: Universe, e: (URef<Space>, SpaceTransaction)) -> MemberView {
        MemberView::Space(
            u.view_at(e.0.index_spec())->Space_0,
            e.1.applied_on(
                u.view_at(e.0.index_spec())->Space_0,
                u.view_at(e.0.index_spec())->Space_1,
            ),
        )
    }

    /// The view a character edit leaves its member with.
    pub open spec fn character_edit_result(
        u: Universe,
        e: (URef<Character>, CharacterTransaction),
    ) -> MemberView {
        MemberView::Character(
            u.view_at(e.0.index_spec())->Character_0,
            e.1.inventory_spec().applied_slots(u.view_at(e.0.index_spec())->Character_1),
        )
    }

    /// The member edit at position `j` has been applied, and the member's
    /// identity is otherwise untouched.
    pub open spec fn edit_applied_at(self, u: Universe, pre: Universe, j: int, result: MemberView) -> bool {
        &&& u.live_at(j)
        &&& u.name_at(j)@ == pre.name_at(j)@
        &&& u.borrow_at(j) is Idle
        &&& u.refs_at(j) == pre.refs_at(j)
        &&& u.view_at(j) == result
    }

    /// `pending_before` counts at most one per insertion.
    proof fn lemma_pending_before_bound(self, upto: int)
        requires
            0 <= upto,
        ensures
            0 <= self.pending_before(upto) <= upto,
        decreases upto,
    {
        if upto > 0 {
            self.lemma_pending_before_bound(upto - 1);
        }
    }

    /// Run the whole transaction atomically: validate every part against
    /// the current state, then commit member edits, deletions, and
    /// insertions. If any part is inapplicable, nothing at all is modified
    /// and the failure is returned.
    #[verifier::rlimit(100)]
    pub fn execute(&self, universe: &mut Universe) -> (r: Result<(), ExecuteError>)
        requires
            self.wf(),
            old(universe).wf(),
            old(universe).next_anonym_spec() + self.inserts_seq().len() <= usize::MAX,
        ensures
            final(universe).wf(),
            final(universe).id_spec() == old(universe).id_spec(),
            r is Ok <==> self.valid_for(*old(universe)),
            r is Err ==> final(universe).unchanged(*old(universe)) && (r matches Err(
                ExecuteError::Check(_),
            )),
            r is Ok ==> {
                &&& final(universe).arena_len() == old(universe).arena_len()
                    + self.inserts_seq().len()
                &&& forall|t: int|
                    0 <= t < self.space_edits_seq().len() ==> self.edit_applied_at(
                        *final(universe),
                        *old(universe),
                        (#[trigger] self.space_edits_seq()[t]).0.index_spec(),
                        Self::space_edit_result(*old(universe), self.space_edits_seq()[t]),
                    )
                &&& forall|t: int|
                    0 <= t < self.character_edits_seq().len() ==> self.edit_applied_at(
                        *final(universe),
                        *old(universe),
                        (#[trigger] self.character_edits_seq()[t]).0.index_spec(),
                        Self::character_edit_result(
                            *old(universe),
                            self.character_edits_seq()[t],
                        ),
                    )
                &&& forall|j: int|
                    0 <= j < old(universe).arena_len() ==> ((#[trigger] final(universe).live_at(
                        j,
                    )) <==> (old(universe).live_at(j) && !self.name_deleted(
                        old(universe).name_at(j)@,
                    )))
                &&& forall|j: int|
                    0 <= j < old(universe).arena_len() && old(universe).live_at(j)
                        && !self.name_deleted(old(universe).name_at(j)@) && !self.is_edit_target(
                        *old(universe),
                        j,
                    ) ==> #[trigger] final(universe).entry_same(*old(universe), j)
                &&& forall|t: int|
                    0 <= t < self.inserts_seq().len() ==> {
                        let j = old(universe).arena_len() + t;
                        &&& final(universe).live_at(j)
                        &&& final(universe).view_at(j) == member_view(
                            (#[trigger] self.inserts_seq()[t]).1,
                        )
                        &&& final(universe).refs_at(j) == 0
                        &&& final(universe).borrow_at(j) is Idle
                        &&& final(universe).name_at(j)@ == (if self.inserts_seq()[t].0@
                            is Pending {
                            NameView::Anonym(
                                old(universe).next_anonym_spec() + self.pending_before(t),
                            )
                        } else {
                            self.inserts_seq()[t].0@
                        })
                    }
                &&& final(universe).next_anonym_spec() == old(universe).next_anonym_spec()
                    + self.pending_before(self.inserts_seq().len() as int)
                &&& final(universe).wants_gc_spec() == (old(universe).wants_gc_spec()
                    || self.inserts_seq().len() > 0)
                &&& final(universe).step_time_spec() == old(universe).step_time_spec()
            },
    {
        let ghost pre = *universe;
        match self.check_all(universe) {
            Err(pf) => {
                proof {
                    assert forall|j: int|
                        0 <= j < pre.arena_len() implies #[trigger] universe.entry_same(
                        pre,
                        j,
                    ) by {}
                    assert forall|j: int|
                        0 <= j < pre.arena_len() implies {
                        &&& #[trigger] universe.live_at(j) == pre.live_at(j)
                        &&& (pre.live_at(j) ==> universe.name_at(j)@ == pre.name_at(j)@
                            && universe.kind_at(j) == pre.kind_at(j) && universe.view_at(j)
                            == pre.view_at(j))
                    } by {
                        assert(universe.entry_same(pre, j));
                    }
                    assert(universe.unchanged(pre));
                }
                return Err(ExecuteError::Check(pf));
            },
            Ok(()) => {},
        }

        // Commit the space edits.
        let sn: usize = self.space_edits.len();
        let mut t: usize = 0;
        while t < sn
            invariant
                self.wf(),
                universe.wf(),
                pre.wf(),
                self.valid_for(pre),
                sn == self.space_edits_seq().len(),
                t <= sn,
                universe.arena_len() == pre.arena_len(),
                universe.id_spec() == pre.id_spec(),
                universe.next_anonym_spec() == pre.next_anonym_spec(),
                universe.wants_gc_spec() == pre.wants_gc_spec(),
                universe.step_time_spec() == pre.step_time_spec(),
                forall|j: int|
                    0 <= j < pre.arena_len() && !self.space_target_before(pre, j, t as int)
                        ==> #[trigger] universe.entry_same(pre, j),
                forall|k: int|
                    0 <= k < t ==> self.edit_applied_at(
                        *universe,
                        pre,
                        (#[trigger] self.space_edits_seq()[k]).0.index_spec(),
                        Self::space_edit_result(pre, self.space_edits_seq()[k]),
                    ),
            decreases sn - t,
        {
            let ghost before = *universe;
            let e = &self.space_edits[t];
            let ghost i = e.0.index_spec();
            proof {
                assert(Self::space_edit_valid(pre, self.space_edits_seq()[t as int]));
                assert(!self.space_target_before(pre, i, t as int)) by {
                    if self.space_target_before(pre, i, t as int) {
                        let k = choose|k: int|
                            0 <= k < t && (#[trigger] self.space_edits_seq()[k]).0.index_spec()
                                == i && self.space_edits_seq()[k].0.universe_id_spec()
                                == pre.id_spec();
                        assert(self.space_edits_seq()[k].0.index_spec()
                            != self.space_edits_seq()[t as int].0.index_spec()
                            || self.space_edits_seq()[k].0.universe_id_spec()
                            != self.space_edits_seq()[t as int].0.universe_id_spec());
                    }
                }
                assert(universe.entry_same(pre, i));
                assert(universe.uref_live(e.0) && universe.borrow_at(i) is Idle);
                assert(view_wf(universe.view_at(i)));
            }
            let mut guard = universe.write::<Space>(&e.0);
            let mut outs: Vec<SpaceChange> = Vec::new();
            let space_ref = guard.value_mut();
            proof {
                assert(space_ref.mview() == pre.view_at(i));
                assert(space_ref.wf());
                assert((#[trigger] self.space_edits_seq()[t as int]).1.wf());
                assert(e.1.valid_for(*space_ref));
            }
            let cr = e.1.commit(space_ref, (), &mut outs);
            proof {
                assert(cr is Ok);
            }
            proof {
                assert(guard.value_spec().wf());
                assert(view_wf(guard.value_spec().mview()));
                assert(guard.value_spec().mview() == Self::space_edit_result(
                    pre,
                    self.space_edits_seq()[t as int],
                ));
            }
            let ghost mid = *universe;
            proof {
                assert(mid.same_members(before));
                assert(mid.live_at(i)) by {
                    assert(mid.live_at(i) == before.live_at(i));
                }
                assert(mid.kind_at(i) == MemberKind::Space) by {
                    assert(mid.kind_at(i) == before.kind_at(i));
                }
                assert(mid.borrow_at(i) is Writing);
                assert(guard.universe_id_spec() == mid.id_spec() && guard.index_spec() == i);
            }
            universe.end_write::<Space>(guard);
            proof {
                assert forall|j: int|
                    0 <= j < pre.arena_len() && !self.space_target_before(pre, j, t + 1)
                        implies #[trigger] universe.entry_same(pre, j) by {
                    assert(j != i);
                    assert(universe.entry_same(mid, j));
                    assert(mid.entry_same(before, j) || j == i);
                    assert(before.entry_same(pre, j) || self.space_target_before(
                        pre,
                        j,
                        t as int,
                    ));
                    assert(!self.space_target_before(pre, j, t as int)) by {
                        if self.space_target_before(pre, j, t as int) {
                            let k = choose|k: int|
                                0 <= k < t && (#[trigger] self.space_edits_seq()[k]).0.index_spec()
                                    == j && self.space_edits_seq()[k].0.universe_id_spec()
                                    == pre.id_spec();
                            assert(self.space_target_before(pre, j, t + 1));
                        }
                    }
                }
                assert(self.edit_applied_at(
                    *universe,
                    pre,
                    i,
                    Self::space_edit_result(pre, self.space_edits_seq()[t as int]),
                ));
                assert forall|k: int|
                    0 <= k < t + 1 implies self.edit_applied_at(
                    *universe,
                    pre,
                    (#[trigger] self.space_edits_seq()[k]).0.index_spec(),
                    Self::space_edit_result(pre, self.space_edits_seq()[k]),
                ) by {
                    if k < t {
                        let jk = self.space_edits_seq()[k].0.index_spec();
                        assert(jk != i) by {
                            if jk == i {
                                assert(self.space_edits_seq()[k].0.index_spec()
                                    != self.space_edits_seq()[t as int].0.index_spec()
                                    || self.space_edits_seq()[k].0.universe_id_spec()
                                    != self.space_edits_seq()[t as int].0.universe_id_spec());
                                assert(Self::space_edit_valid(
                                    pre,
                                    self.space_edits_seq()[k],
                                ));
                            }
                        }
                        assert(universe.entry_same(mid, jk));
                        assert(mid.entry_same(before, jk));
                    }
                }
            }
            t = t + 1;
        }

        // Commit the character edits. Their targets are characters, so they
        // are disjoint from the space-edit targets.
        let cn: usize = self.character_edits.len();
        let mut t2: usize = 0;
        while t2 < cn
            invariant
                self.wf(),
                universe.wf(),
                pre.wf(),
                self.valid_for(pre),
                sn == self.space_edits_seq().len(),
                cn == self.character_edits_seq().len(),
                t2 <= cn,
                universe.arena_len() == pre.arena_len(),
                universe.id_spec() == pre.id_spec(),
                universe.next_anonym_spec() == pre.next_anonym_spec(),
                universe.wants_gc_spec() == pre.wants_gc_spec(),
                universe.step_time_spec() == pre.step_time_spec(),
                forall|j: int|
                    0 <= j < pre.arena_len() && !self.space_target_before(pre, j, sn as int)
                        && !self.character_target_before(pre, j, t2 as int)
                        ==> #[trigger] universe.entry_same(pre, j),
                forall|k: int|
                    0 <= k < sn ==> self.edit_applied_at(
                        *universe,
                        pre,
                        (#[trigger] self.space_edits_seq()[k]).0.index_spec(),
                        Self::space_edit_result(pre, self.space_edits_seq()[k]),
                    ),
                forall|k: int|
                    0 <= k < t2 ==> self.edit_applied_at(
                        *universe,
                        pre,
                        (#[trigger] self.character_edits_seq()[k]).0.index_spec(),
                        Self::character_edit_result(pre, self.character_edits_seq()[k]),
                    ),
            decreases cn - t2,
        {
            let ghost before = *universe;
            let e = &self.character_edits[t2];
            let ghost i = e.0.index_spec();
            proof {
                assert(Self::character_edit_valid(pre, self.character_edits_seq()[t2 as int]));
                assert(pre.kind_at(i) == MemberKind::Character);
                assert(!self.space_target_before(pre, i, sn as int)) by {
                    if self.space_target_before(pre, i, sn as int) {
                        let k = choose|k: int|
                            0 <= k < sn && (#[trigger] self.space_edits_seq()[k]).0.index_spec()
                                == i && self.space_edits_seq()[k].0.universe_id_spec()
                                == pre.id_spec();
                        assert(Self::space_edit_valid(pre, self.space_edits_seq()[k]));
                        assert(pre.kind_at(i) == MemberKind::Space);
                    }
                }
                assert(!self.character_target_before(pre, i, t2 as int)) by {
                    if self.character_target_before(pre, i, t2 as int) {
                        let k = choose|k: int|
                            0 <= k < t2 && (#[trigger] self.character_edits_seq()[k]).0.index_spec()
                                == i && self.character_edits_seq()[k].0.universe_id_spec()
                                == pre.id_spec();
                        assert(self.character_edits_seq()[k].0.index_spec()
                            != self.character_edits_seq()[t2 as int].0.index_spec()
                            || self.character_edits_seq()[k].0.universe_id_spec()
                            != self.character_edits_seq()[t2 as int].0.universe_id_spec());
                    }
                }
                assert(universe.entry_same(pre, i));
                assert(universe.uref_live(e.0) && universe.borrow_at(i) is Idle);
                assert(view_wf(universe.view_at(i)));
            }
            let mut guard = universe.write::<Character>(&e.0);
            let mut outs: Vec<InventoryChange> = Vec::new();
            let char_ref = guard.value_mut();
            proof {
                assert(char_ref.mview() == pre.view_at(i));
                assert(view_wf(MemberView::Character(char_ref.space, char_ref.inventory.slots@)));
                assert(char_ref.inventory.wf());
                assert((#[trigger] self.character_edits_seq()[t2 as int]).1.wf());
                assert(e.1.inventory_spec().spec_check(char_ref.inventory.slots@) is Some);
            }
            let token = match e.1.check(char_ref) {
                Ok(token) => token,
                Err(_) => vstd::pervasive::unreached(),
            };
            let cr = e.1.commit(char_ref, token, &mut outs);
            proof {
                assert(cr is Ok);
            }
            proof {
                assert(guard.value_spec().inventory.wf());
                assert(view_wf(guard.value_spec().mview()));
                assert(guard.value_spec().mview() == Self::character_edit_result(
                    pre,
                    self.character_edits_seq()[t2 as int],
                ));
            }
            let ghost mid = *universe;
            proof {
                assert(mid.same_members(before));
                assert(mid.live_at(i)) by {
                    assert(mid.live_at(i) == before.live_at(i));
                }
                assert(mid.kind_at(i) == MemberKind::Character) by {
                    assert(mid.kind_at(i) == before.kind_at(i));
                }
                assert(mid.borrow_at(i) is Writing);
                assert(guard.universe_id_spec() == mid.id_spec() && guard.index_spec() == i);
            }
            universe.end_write::<Character>(guard);
            proof {
                assert forall|j: int|
                    0 <= j < pre.arena_len() && !self.space_target_before(pre, j, sn as int)
                        && !self.character_target_before(pre, j, t2 + 1)
                        implies #[trigger] universe.entry_same(pre, j) by {
                    assert(j != i);
                    assert(universe.entry_same(mid, j));
                    assert(mid.entry_same(before, j));
                    assert(!self.character_target_before(pre, j, t2 as int)) by {
                        if self.character_target_before(pre, j, t2 as int) {
                            let k = choose|k: int|
                                0 <= k < t2 && (
                                #[trigger] self.character_edits_seq()[k]).0.index_spec() == j
                                    && self.character_edits_seq()[k].0.universe_id_spec()
                                    == pre.id_spec();
                            assert(self.character_target_before(pre, j, t2 + 1));
                        }
                    }
                    assert(before.entry_same(pre, j));
                }
                assert(self.edit_applied_at(
                    *universe,
                    pre,
                    i,
                    Self::character_edit_result(pre, self.character_edits_seq()[t2 as int]),
                ));
                assert forall|k: int|
                    0 <= k < sn implies self.edit_applied_at(
                    *universe,
                    pre,
                    (#[trigger] self.space_edits_seq()[k]).0.index_spec(),
                    Self::space_edit_result(pre, self.space_edits_seq()[k]),
                ) by {
                    let jk = self.space_edits_seq()[k].0.index_spec();
                    assert(jk != i) by {
                        if jk == i {
                            assert(Self::space_edit_valid(pre, self.space_edits_seq()[k]));
                            assert(pre.kind_at(i) == MemberKind::Space);
                        }
                    }
                    assert(universe.entry_same(mid, jk));
                    assert(mid.entry_same(before, jk));
                }
                assert forall|k: int|
                    0 <= k < t2 + 1 implies self.edit_applied_at(
                    *universe,
                    pre,
                    (#[trigger] self.character_edits_seq()[k]).0.index_spec(),
                    Self::character_edit_result(pre, self.character_edits_seq()[k]),
                ) by {
                    if k < t2 {
                        let jk = self.character_edits_seq()[k].0.index_spec();
                        assert(jk != i) by {
                            if jk == i {
                                assert(self.character_edits_seq()[k].0.index_spec()
                                    != self.character_edits_seq()[t2 as int].0.index_spec()
                                    || self.character_edits_seq()[k].0.universe_id_spec()
                                    != self.character_edits_seq()[t2 as int].0.universe_id_spec());
                                assert(Self::character_edit_valid(
                                    pre,
                                    self.character_edits_seq()[k],
                                ));
                            }
                        }
                        assert(universe.entry_same(mid, jk));
                        assert(mid.entry_same(before, jk));
                    }
                }
            }
            t2 = t2 + 1;
        }

        // Perform the deletions: edits never target deleted names, so the
        // applied edits survive.
        let ghost after_edits = *universe;
        proof {
            assert forall|j: int|
                0 <= j < pre.arena_len() implies ((#[trigger] universe.live_at(j)) <==> pre.live_at(
                j,
            )) && (universe.live_at(j) ==> universe.name_at(j)@ == pre.name_at(j)@) by {
                if self.space_target_before(pre, j, sn as int) {
                    let k = choose|k: int|
                        0 <= k < sn && (#[trigger] self.space_edits_seq()[k]).0.index_spec() == j
                            && self.space_edits_seq()[k].0.universe_id_spec() == pre.id_spec();
                    assert(self.edit_applied_at(
                        *universe,
                        pre,
                        j,
                        Self::space_edit_result(pre, self.space_edits_seq()[k]),
                    ));
                    assert(Self::space_edit_valid(pre, self.space_edits_seq()[k]));
                } else if self.character_target_before(pre, j, cn as int) {
                    let k = choose|k: int|
                        0 <= k < cn && (#[trigger] self.character_edits_seq()[k]).0.index_spec()
                            == j && self.character_edits_seq()[k].0.universe_id_spec()
                            == pre.id_spec();
                    assert(self.edit_applied_at(
                        *universe,
                        pre,
                        j,
                        Self::character_edit_result(pre, self.character_edits_seq()[k]),
                    ));
                    assert(Self::character_edit_valid(pre, self.character_edits_seq()[k]));
                } else {
                    assert(universe.entry_same(pre, j));
                }
            }
        }
        let dn: usize = self.deletes.len();
        let mut t3: usize = 0;
        while t3 < dn
            invariant
                self.wf(),
                universe.wf(),
                pre.wf(),
                self.valid_for(pre),
                sn == self.space_edits_seq().len(),
                cn == self.character_edits_seq().len(),
                dn == self.deletes_seq().len(),
                t3 <= dn,
                universe.arena_len() == pre.arena_len(),
                universe.id_spec() == pre.id_spec(),
                universe.next_anonym_spec() == pre.next_anonym_spec(),
                universe.wants_gc_spec() == pre.wants_gc_spec(),
                universe.step_time_spec() == pre.step_time_spec(),
                forall|j: int|
                    0 <= j < pre.arena_len() ==> ((#[trigger] universe.live_at(j)) <==> (
                    pre.live_at(j) && !self.deleted_before(pre.name_at(j)@, t3 as int))),
                forall|j: int|
                    0 <= j < pre.arena_len() && #[trigger] universe.live_at(j)
                        ==> universe.name_at(j)@ == pre.name_at(j)@,
                forall|j: int|
                    0 <= j < pre.arena_len() && !self.space_target_before(pre, j, sn as int)
                        && !self.character_target_before(pre, j, cn as int) && universe.live_at(j)
                        ==> #[trigger] universe.entry_same(pre, j),
                forall|k: int|
                    0 <= k < sn && universe.live_at(
                        (#[trigger] self.space_edits_seq()[k]).0.index_spec(),
                    ) ==> self.edit_applied_at(
                        *universe,
                        pre,
                        self.space_edits_seq()[k].0.index_spec(),
                        Self::space_edit_result(pre, self.space_edits_seq()[k]),
                    ),
                forall|k: int|
                    0 <= k < cn && universe.live_at(
                        (#[trigger] self.character_edits_seq()[k]).0.index_spec(),
                    ) ==> self.edit_applied_at(
                        *universe,
                        pre,
                        self.character_edits_seq()[k].0.index_spec(),
                        Self::character_edit_result(pre, self.character_edits_seq()[k]),
                    ),
            decreases dn - t3,
        {
            let ghost before = *universe;
            let d = &self.deletes[t3];
            let _removed = universe.delete(d);
            proof {
                assert forall|j: int|
                    0 <= j < pre.arena_len() implies ((#[trigger] universe.live_at(j)) <==> (
                pre.live_at(j) && !self.deleted_before(pre.name_at(j)@, t3 + 1))) by {
                    assert(universe.live_at(j) <==> (before.live_at(j) && before.name_at(j)@
                        != d@));
                    if before.live_at(j) {
                        assert(before.name_at(j)@ == pre.name_at(j)@);
                    }
                    if !self.deleted_before(pre.name_at(j)@, t3 + 1) {
                        assert(!self.deleted_before(pre.name_at(j)@, t3 as int)) by {
                            if self.deleted_before(pre.name_at(j)@, t3 as int) {
                                let k = choose|k: int|
                                    0 <= k < t3 && (#[trigger] self.deletes_seq()[k])@
                                        == pre.name_at(j)@;
                                assert(self.deleted_before(pre.name_at(j)@, t3 + 1));
                            }
                        }
                        assert(self.deletes_seq()[t3 as int]@ != pre.name_at(j)@ || !pre.live_at(
                            j,
                        ));
                    }
                    if universe.live_at(j) {
                        if self.deleted_before(pre.name_at(j)@, t3 + 1) {
                            let k = choose|k: int|
                                0 <= k < t3 + 1 && (#[trigger] self.deletes_seq()[k])@
                                    == pre.name_at(j)@;
                            assert(k == t3 as int || self.deleted_before(
                                pre.name_at(j)@,
                                t3 as int,
                            ));
                        }
                    }
                }
                assert forall|j: int|
                    0 <= j < pre.arena_len() && #[trigger] universe.live_at(j)
                        implies universe.name_at(j)@ == pre.name_at(j)@ && (universe.entry_same(
                    before,
                    j,
                )) by {
                    assert(universe.live_at(j) <==> (before.live_at(j) && before.name_at(j)@
                        != d@));
                    assert(before.live_at(j));
                    assert(before.name_at(j)@ != d@);
                    assert(universe.entry_same(before, j));
                    assert(before.name_at(j)@ == pre.name_at(j)@);
                }
                assert forall|j: int|
                    0 <= j < pre.arena_len() && !self.space_target_before(pre, j, sn as int)
                        && !self.character_target_before(pre, j, cn as int) && universe.live_at(j)
                        implies #[trigger] universe.entry_same(pre, j) by {
                    assert(universe.entry_same(before, j));
                    assert(before.entry_same(pre, j));
                }
                assert forall|k: int|
                    0 <= k < sn && universe.live_at(
                        (#[trigger] self.space_edits_seq()[k]).0.index_spec(),
                    ) implies self.edit_applied_at(
                    *universe,
                    pre,
                    self.space_edits_seq()[k].0.index_spec(),
                    Self::space_edit_result(pre, self.space_edits_seq()[k]),
                ) by {
                    let jk = self.space_edits_seq()[k].0.index_spec();
                    assert(Self::space_edit_valid(pre, self.space_edits_seq()[k]));
                    assert(universe.entry_same(before, jk));
                    assert(before.live_at(jk));
                }
                assert forall|k: int|
                    0 <= k < cn && universe.live_at(
                        (#[trigger] self.character_edits_seq()[k]).0.index_spec(),
                    ) implies self.edit_applied_at(
                    *universe,
                    pre,
                    self.character_edits_seq()[k].0.index_spec(),
                    Self::character_edit_result(pre, self.character_edits_seq()[k]),
                ) by {
                    let jk = self.character_edits_seq()[k].0.index_spec();
                    assert(Self::character_edit_valid(pre, self.character_edits_seq()[k]));
                    assert(universe.entry_same(before, jk));
                    assert(before.live_at(jk));
                }
            }
            t3 = t3 + 1;
        }
        let ghost after_deletes = *universe;
        proof {
            assert forall|k: int|
                0 <= k < sn implies universe.live_at(
                (#[trigger] self.space_edits_seq()[k]).0.index_spec(),
            ) by {
                assert(Self::space_edit_valid(pre, self.space_edits_seq()[k]));
                let jk = self.space_edits_seq()[k].0.index_spec();
                assert(!self.name_deleted(pre.name_at(jk)@));
                assert(!self.deleted_before(pre.name_at(jk)@, dn as int)) by {
                    if self.deleted_before(pre.name_at(jk)@, dn as int) {
                        let m = choose|m: int|
                            0 <= m < dn && (#[trigger] self.deletes_seq()[m])@ == pre.name_at(
                                jk,
                            )@;
                        assert(self.name_deleted(pre.name_at(jk)@));
                    }
                }
            }
            assert forall|k: int|
                0 <= k < cn implies universe.live_at(
                (#[trigger] self.character_edits_seq()[k]).0.index_spec(),
            ) by {
                assert(Self::character_edit_valid(pre, self.character_edits_seq()[k]));
                let jk = self.character_edits_seq()[k].0.index_spec();
                assert(!self.name_deleted(pre.name_at(jk)@));
                assert(!self.deleted_before(pre.name_at(jk)@, dn as int)) by {
                    if self.deleted_before(pre.name_at(jk)@, dn as int) {
                        let m = choose|m: int|
                            0 <= m < dn && (#[trigger] self.deletes_seq()[m])@ == pre.name_at(
                                jk,
                            )@;
                        assert(self.name_deleted(pre.name_at(jk)@));
                    }
                }
            }
        }

        // Perform the insertions; pending names receive consecutive fresh
        // anonymous names.
        let inn: usize = self.inserts.len();
        let mut t4: usize = 0;
        while t4 < inn
            invariant
                self.wf(),
                universe.wf(),
                pre.wf(),
                after_deletes.wf(),
                self.valid_for(pre),
                inn == self.inserts_seq().len(),
                t4 <= inn,
                pre.next_anonym_spec() + inn <= usize::MAX,
                universe.arena_len() == pre.arena_len() + t4,
                universe.id_spec() == pre.id_spec(),
                universe.next_anonym_spec() == pre.next_anonym_spec() + self.pending_before(
                    t4 as int,
                ),
                universe.wants_gc_spec() == (pre.wants_gc_spec() || t4 > 0),
                universe.step_time_spec() == pre.step_time_spec(),
                dn == self.deletes_seq().len(),
                after_deletes.arena_len() == pre.arena_len(),
                after_deletes.id_spec() == pre.id_spec(),
                forall|j: int|
                    0 <= j < pre.arena_len() ==> ((#[trigger] after_deletes.live_at(j)) <==> (
                    pre.live_at(j) && !self.deleted_before(pre.name_at(j)@, dn as int))),
                forall|j: int|
                    0 <= j < pre.arena_len() && #[trigger] after_deletes.live_at(j)
                        ==> after_deletes.name_at(j)@ == pre.name_at(j)@,
                forall|j: int|
                    0 <= j < pre.arena_len() ==> #[trigger] universe.entry_same(
                        after_deletes,
                        j,
                    ),
                forall|k: int|
                    0 <= k < t4 ==> {
                        let j = pre.arena_len() + k;
                        &&& universe.live_at(j)
                        &&& universe.view_at(j) == member_view(
                            (#[trigger] self.inserts_seq()[k]).1,
                        )
                        &&& universe.refs_at(j) == 0
                        &&& universe.borrow_at(j) is Idle
                        &&& universe.name_at(j)@ == (if self.inserts_seq()[k].0@ is Pending {
                            NameView::Anonym(pre.next_anonym_spec() + self.pending_before(k))
                        } else {
                            self.inserts_seq()[k].0@
                        })
                    },
            decreases inn - t4,
        {
            let ghost before = *universe;
            let e = &self.inserts[t4];
            proof {
                self.lemma_pending_before_bound(t4 as int);
                assert(universe.next_anonym_spec() < usize::MAX);
                assert(view_wf(member_view((#[trigger] self.inserts_seq()[t4 as int]).1)));
                assert(Self::insert_name_ok(pre, self.inserts_seq()[t4 as int].0@));
                if e.0@ is Specific {
                    assert(!universe.has_name(e.0@)) by {
                        if universe.has_name(e.0@) {
                            let j = choose|j: int|
                                universe.live_at(j) && (#[trigger] universe.name_at(j))@ == e.0@;
                            universe.lemma_live_bounds(j);
                            if j < pre.arena_len() {
                                assert(universe.entry_same(after_deletes, j));
                                assert(after_deletes.live_at(j));
                                assert(after_deletes.name_at(j)@ == pre.name_at(j)@);
                                assert(pre.live_at(j));
                                assert(pre.has_name(e.0@));
                            } else {
                                let k = j - pre.arena_len();
                                assert(universe.name_at(j)@ == (if self.inserts_seq()[k].0@
                                    is Pending {
                                    NameView::Anonym(
                                        pre.next_anonym_spec() + self.pending_before(k),
                                    )
                                } else {
                                    self.inserts_seq()[k].0@
                                }));
                                assert(self.inserts_seq()[k].0@ == e.0@);
                                assert((#[trigger] self.inserts_seq()[k]).0@ is Specific ==> (
                                #[trigger] self.inserts_seq()[t4 as int]).0@
                                    != self.inserts_seq()[k].0@);
                            }
                        }
                    }
                }
            }
            let name_copy: Name = e.0.clone();
            let member_copy: AnyMember = clone_member(&e.1);
            let ir = universe.insert_raw(name_copy, member_copy, 0);
            proof {
                assert(ir is Ok);
                assert forall|j: int|
                    0 <= j < pre.arena_len() implies #[trigger] universe.entry_same(
                    after_deletes,
                    j,
                ) by {
                    assert(universe.entry_same(before, j));
                    assert(before.entry_same(after_deletes, j));
                }
                assert forall|k: int|
                    0 <= k < t4 + 1 implies {
                    let j = pre.arena_len() + k;
                    &&& universe.live_at(j)
                    &&& universe.view_at(j) == member_view((#[trigger] self.inserts_seq()[k]).1)
                    &&& universe.refs_at(j) == 0
                    &&& universe.borrow_at(j) is Idle
                    &&& universe.name_at(j)@ == (if self.inserts_seq()[k].0@ is Pending {
                        NameView::Anonym(pre.next_anonym_spec() + self.pending_before(k))
                    } else {
                        self.inserts_seq()[k].0@
                    })
                } by {
                    if k < t4 {
                        pre.lemma_arena_len_nonneg();
                        assert(before.arena_len() == pre.arena_len() + t4);
                        assert(0 <= pre.arena_len() + k < before.arena_len());
                        assert(universe.entry_same(before, pre.arena_len() + k));
                    }
                }
            }
            match ir {
                Ok(_) => {},
                Err(_) => vstd::pervasive::unreached(),
            }
            t4 = t4 + 1;
        }

        // Tie the final state back to the starting state.
        proof {
            assert forall|j: int|
                0 <= j < pre.arena_len() implies ((#[trigger] universe.live_at(j)) <==> (
            pre.live_at(j) && !self.name_deleted(pre.name_at(j)@))) by {
                assert(universe.entry_same(after_deletes, j));
                assert(after_deletes.live_at(j) <==> (pre.live_at(j) && !self.deleted_before(
                    pre.name_at(j)@,
                    dn as int,
                )));
                if self.name_deleted(pre.name_at(j)@) {
                    let k = choose|k: int|
                        0 <= k < self.deletes_seq().len() && (#[trigger] self.deletes_seq()[k])@
                            == pre.name_at(j)@;
                    assert(self.deleted_before(pre.name_at(j)@, dn as int));
                }
                if self.deleted_before(pre.name_at(j)@, dn as int) {
                    let k = choose|k: int|
                        0 <= k < dn && (#[trigger] self.deletes_seq()[k])@ == pre.name_at(j)@;
                    assert(self.name_deleted(pre.name_at(j)@));
                }
            }
            assert forall|t: int|
                0 <= t < self.space_edits_seq().len() implies self.edit_applied_at(
                *universe,
                pre,
                (#[trigger] self.space_edits_seq()[t]).0.index_spec(),
                Self::space_edit_result(pre, self.space_edits_seq()[t]),
            ) by {
                let jk = self.space_edits_seq()[t].0.index_spec();
                assert(after_deletes.live_at(jk));
                assert(self.edit_applied_at(
                    after_deletes,
                    pre,
                    jk,
                    Self::space_edit_result(pre, self.space_edits_seq()[t]),
                ));
                assert(universe.entry_same(after_deletes, jk));
            }
            assert forall|t: int|
                0 <= t < self.character_edits_seq().len() implies self.edit_applied_at(
                *universe,
                pre,
                (#[trigger] self.character_edits_seq()[t]).0.index_spec(),
                Self::character_edit_result(pre, self.character_edits_seq()[t]),
            ) by {
                let jk = self.character_edits_seq()[t].0.index_spec();
                assert(after_deletes.live_at(jk));
                assert(self.edit_applied_at(
                    after_deletes,
                    pre,
                    jk,
                    Self::character_edit_result(pre, self.character_edits_seq()[t]),
                ));
                assert(universe.entry_same(after_deletes, jk));
            }
            assert forall|j: int|
                0 <= j < pre.arena_len() && pre.live_at(j) && !self.name_deleted(
                    pre.name_at(j)@,
                ) && !self.is_edit_target(pre, j) implies #[trigger] universe.entry_same(
                pre,
                j,
            ) by {
                assert(!self.space_target_before(pre, j, sn as int)) by {
                    if self.space_target_before(pre, j, sn as int) {
                        let k = choose|k: int|
                            0 <= k < sn && (#[trigger] self.space_edits_seq()[k]).0.index_spec()
                                == j && self.space_edits_seq()[k].0.universe_id_spec()
                                == pre.id_spec();
                        assert(self.is_edit_target(pre, j));
                    }
                }
                assert(!self.character_target_before(pre, j, cn as int)) by {
                    if self.character_target_before(pre, j, cn as int) {
                        let k = choose|k: int|
                            0 <= k < cn && (
                            #[trigger] self.character_edits_seq()[k]).0.index_spec() == j
                                && self.character_edits_seq()[k].0.universe_id_spec()
                                == pre.id_spec();
                        assert(self.is_edit_target(pre, j));
                    }
                }
                assert(!self.deleted_before(pre.name_at(j)@, dn as int)) by {
                    if self.deleted_before(pre.name_at(j)@, dn as int) {
                        let k = choose|k: int|
                            0 <= k < dn && (#[trigger] self.deletes_seq()[k])@ == pre.name_at(
                                j,
                            )@;
                        assert(self.name_deleted(pre.name_at(j)@));
                    }
                }
                assert(after_deletes.live_at(j));
                assert(after_deletes.entry_same(pre, j));
                assert(universe.entry_same(after_deletes, j));
            }
        }
        Ok(())
    }

    /// Whether one of the first `upto` deletions names `n`.
    pub open spec fn deleted_before(self, n: NameView, upto: int) -> bool {
        exists|t: int| 0 <= t < upto && (#[trigger] self.deletes_seq()[t])@ == n
    }

}

impl SpaceTransaction {
    /// Wrap this edit of the member `target` designates into a
    /// whole-universe transaction.
    pub fn bind(self, target: URef<Space>) -> (r: UniverseTransaction)
        requires
            self.wf(),
        ensures
            r.wf(),
            r.space_edits_seq().len() == 1,
            r.space_edits_seq()[0].0 == target,
            r.space_edits_seq()[0].1 == self,
            r.character_edits_seq().len() == 0,
            r.inserts_seq().len() == 0,
            r.deletes_seq().len() == 0,
    {
        let mut space_edits: Vec<(URef<Space>, SpaceTransaction)> = Vec::new();
        space_edits.push((target, self));
        UniverseTransaction {
            space_edits,
            character_edits: Vec::new(),
            inserts: Vec::new(),
            deletes: Vec::new(),
        }
    }
}

impl CharacterTransaction {
    /// Wrap this edit of the member `target` designates into a
    /// whole-universe transaction.
    pub fn bind(self, target: URef<Character>) -> (r: UniverseTransaction)
        requires
            self.wf(),
        ensures
            r.wf(),
            r.character_edits_seq().len() == 1,
            r.character_edits_seq()[0].0 == target,
            r.character_edits_seq()[0].1 == self,
            r.space_edits_seq().len() == 0,
            r.inserts_seq().len() == 0,
            r.deletes_seq().len() == 0,
    {
        let mut character_edits: Vec<(URef<Character>, CharacterTransaction)> = Vec::new();
        character_edits.push((target, self));
        UniverseTransaction {
            space_edits: Vec::new(),
            character_edits,
            inserts: Vec::new(),
            deletes: Vec::new(),
        }
    }
}

/// A copy of a stored member value.
fn clone_member(m: &AnyMember) -> (r: AnyMember)
    ensures
        member_view(r) == member_view(*m),
        kind_of(r) == kind_of(*m),
{
    match m {
        AnyMember::BlockDef(d) => AnyMember::BlockDef(*d),
        AnyMember::Character(c) => AnyMember::Character(c.clone()),
        AnyMember::Space(s) => AnyMember::Space(s.clone()),
    }
}

} // verus!
