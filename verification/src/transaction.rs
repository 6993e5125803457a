//! Shared pieces of the two-phase transaction protocol.
//!
//! A transaction type for a target `T` offers:
//! - `check(&self, &T) -> Result<CommitCheck, PreconditionFailed>`: read-only
//!   validation producing a token that captures work worth not redoing;
//! - `commit(&self, &mut T, CommitCheck, ...)`: application of the edits,
//!   which must only be handed a token that `check` produced against the
//!   same target state;
//! - `execute(&self, &mut T, ...)`: the composition of the two;
//! - `check_merge` / `commit_merge`: conflict detection and combination of
//!   two transactions of the same kind.
//!
//! The concrete transaction types ([`crate::space_txn::SpaceTransaction`],
//! [`crate::inv::InventoryTransaction`], [`crate::universe_txn::UniverseTransaction`])
//! each implement this shape with exact contracts; the token types below
//! have no public constructors, so a commit cannot run unvalidated.

use vstd::prelude::*;

verus! {

/// Failure reported by a transaction's `check`: the transaction is not
/// applicable to the current target state.
///
/// This is deliberately a location tag plus a problem string rather than an
/// enum: the set of possible precondition violations is open-ended per
/// target type. `key` optionally names the slot or index at fault.
#[derive(Clone, Copy, Debug, PartialEq, Eq)]
pub struct PreconditionFailed {
    /// Which kind of target detected the failure.
    pub location: &'static str,
    /// Human-readable description of the violated precondition.
    pub problem: &'static str,
    /// The key within the target at which the violation was found, if the
    /// target is keyed and the failure concerns a single key.
    pub key: Option<usize>,
}

/// Failure reported by `check_merge`: the two transactions contradict each
/// other and cannot be combined.
#[derive(Clone, Copy, Debug, PartialEq, Eq, Structural)]
pub struct TransactionConflict {}

/// Failure reported by `commit`, for problems that `check` could not have
/// ruled out. The concrete transactions in this crate never produce one,
/// and their contracts say so.
#[derive(Clone, Copy, Debug, PartialEq, Eq)]
pub struct CommitError {
    /// Human-readable description of the failure.
    pub problem: &'static str,
}

/// Either kind of failure from `execute`, which runs `check` then `commit`.
#[derive(Clone, Copy, Debug, PartialEq, Eq)]
pub enum ExecuteError {
    /// The transaction was not applicable; nothing was modified.
    Check(PreconditionFailed),
    /// The commit itself failed.
    Commit(CommitError),
}

// ---------------------------------------------------------------------------
// Association sequences.
//
// The keyed transactions store their per-key edits as vectors of key-value
// pairs with pairwise-distinct keys. These spec functions and lemmas give
// such sequences a map-like reading that the contracts are stated over.
/// The value paired with the first occurrence of `k`, if any.
pub open spec fn kv_lookup<K, V>(s: Seq<(K, V)>, k: K) -> Option<V>
    decreases s.len(),
{
    if s.len() == 0 {
        None
    } else if s[0].0 == k {
        Some(s[0].1)
    } else {
        kv_lookup(s.drop_first(), k)
    }
}

/// Whether any pair carries the key `k`.
pub open spec fn kv_has<K, V>(s: Seq<(K, V)>, k: K) -> bool {
    kv_lookup(s, k) is Some
}

/// Pairwise-distinct keys.
pub open spec fn kv_unique<K, V>(s: Seq<(K, V)>) -> bool {
    forall|i: int, j: int| 0 <= i < j < s.len() ==> s[i].0 != s[j].0
}

/// A lookup hit is the pair at some index; a miss means no pair has the key.
pub proof fn lemma_kv_lookup_index<K, V>(s: Seq<(K, V)>, k: K)
    ensures
        kv_lookup(s, k) is None <==> forall|i: int| 0 <= i < s.len() ==> s[i].0 != k,
        kv_lookup(s, k) matches Some(v) ==> exists|i: int|
            0 <= i < s.len() && s[i].0 == k && s[i].1 == v,
    decreases s.len(),
{
    if s.len() > 0 && s[0].0 != k {
        lemma_kv_lookup_index(s.drop_first(), k);
        assert(forall|i: int|
            0 <= i < s.drop_first().len() ==> s.drop_first()[i] == s[i + 1]);
        assert(forall|i: int| 1 <= i < s.len() ==> s[i] == s.drop_first()[i - 1]);
        match kv_lookup(s, k) {
            Some(v) => {
                let i = choose|i: int|
                    0 <= i < s.drop_first().len() && s.drop_first()[i].0 == k
                        && s.drop_first()[i].1 == v;
                assert(s[i + 1].0 == k && s[i + 1].1 == v);
            },
            None => {},
        }
    }
}

/// With distinct keys, the pair at index `i` is what lookup of its key finds.
pub proof fn lemma_kv_lookup_at<K, V>(s: Seq<(K, V)>, i: int)
    requires
        kv_unique(s),
        0 <= i < s.len(),
    ensures
        kv_lookup(s, s[i].0) == Some(s[i].1),
    decreases s.len(),
{
    if i > 0 {
        assert(s[0].0 != s[i].0);
        assert(forall|j: int|
            0 <= j < s.drop_first().len() ==> s.drop_first()[j] == s[j + 1]);
        lemma_kv_lookup_at(s.drop_first(), i - 1);
    }
}

/// Appending a pair with a fresh key adds exactly that binding.
pub proof fn lemma_kv_lookup_push<K, V>(s: Seq<(K, V)>, p: (K, V), k: K)
    ensures
        kv_lookup(s.push(p), k) == if kv_has(s, k) {
            kv_lookup(s, k)
        } else if p.0 == k {
            Some(p.1)
        } else {
            None
        },
    decreases s.len(),
{
    if s.len() == 0 {
        assert(s.push(p)[0] == p);
        assert(s.push(p).drop_first() =~= Seq::<(K, V)>::empty());
        assert(kv_lookup(s, k) is None);
        if p.0 == k {
            assert(kv_lookup(s.push(p), k) == Some(p.1));
        } else {
            assert(kv_lookup(Seq::<(K, V)>::empty(), k) is None);
            assert(kv_lookup(s.push(p), k) is None);
        }
    } else {
        assert(s.push(p)[0] == s[0]);
        assert(s.push(p).drop_first() =~= s.drop_first().push(p));
        lemma_kv_lookup_push(s.drop_first(), p, k);
        if s[0].0 == k {
            assert(kv_lookup(s.push(p), k) == Some(s[0].1));
            assert(kv_lookup(s, k) == Some(s[0].1));
        } else {
            assert(kv_lookup(s.push(p), k) == kv_lookup(s.drop_first().push(p), k));
            assert(kv_lookup(s, k) == kv_lookup(s.drop_first(), k));
        }
    }
}

/// Looking up in a concatenation tries the first part, then the second.
pub proof fn lemma_kv_lookup_concat<K, V>(a: Seq<(K, V)>, b: Seq<(K, V)>, k: K)
    ensures
        kv_lookup(a + b, k) == if kv_has(a, k) {
            kv_lookup(a, k)
        } else {
            kv_lookup(b, k)
        },
    decreases a.len(),
{
    if a.len() == 0 {
        assert(a + b =~= b);
    } else {
        assert((a + b)[0] == a[0]);
        assert((a + b).drop_first() =~= a.drop_first() + b);
        lemma_kv_lookup_concat(a.drop_first(), b, k);
    }
}

/// Replacing the pair at index `i` (keeping its key) rebinds only that key.
pub proof fn lemma_kv_lookup_update<K, V>(s: Seq<(K, V)>, i: int, v: V, k: K)
    requires
        kv_unique(s),
        0 <= i < s.len(),
    ensures
        kv_lookup(s.update(i, (s[i].0, v)), k) == if s[i].0 == k {
            Some(v)
        } else {
            kv_lookup(s, k)
        },
    decreases s.len(),
{
    let t = s.update(i, (s[i].0, v));
    if i == 0 {
        if s[0].0 != k {
            assert(t.drop_first() =~= s.drop_first());
        }
    } else {
        assert(t[0] == s[0]);
        if s[0].0 != k {
            assert(t.drop_first() =~= s.drop_first().update(i - 1, (s[i].0, v)));
            assert(s.drop_first()[i - 1] == s[i]);
            lemma_kv_lookup_update(s.drop_first(), i - 1, v, k);
        } else {
            assert(s[0].0 != s[i].0);
        }
    }
}

} // verus!
