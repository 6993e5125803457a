//! Transactions on a [`Space`]: per-cube preconditions and replacements.

use vstd::prelude::*;

use crate::block::Block;
use crate::math::GridPoint;
use crate::space::{Grid, Space};
use crate::transaction::{
    kv_lookup, kv_unique, lemma_kv_lookup_at, lemma_kv_lookup_index, lemma_kv_lookup_push,
    lemma_kv_lookup_update, CommitError, ExecuteError, PreconditionFailed, TransactionConflict,
};

verus! {

/// Change notice emitted once per cube whose block a commit actually changed.
#[derive(Clone, Copy, Debug, PartialEq, Eq, Hash, Structural)]
pub struct SpaceChange {
    /// The cube whose block was replaced.
    pub cube: GridPoint,
}

/// The edit of a single cube within a [`SpaceTransaction`].
///
/// `old` is a precondition: if present, the cube must currently hold exactly
/// that block. `new`, if present, is the replacement to write.
#[derive(Clone, Copy, Debug, PartialEq, Eq)]
pub struct CubeTransaction {
    /// If present, the block the cube is required to hold before the commit.
    pub old: Option<Block>,
    /// If present, the block the commit writes into the cube.
    pub new: Option<Block>,
}

impl CubeTransaction {
    /// Whether the two single-cube edits may be combined: their preconditions
    /// must agree, and at most one of them may write. Two writes of the same
    /// cube conflict even when the written blocks are equal, so that merged
    /// transactions never hide a double replacement.
    pub open spec fn compatible(self, other: CubeTransaction) -> bool {
        &&& !(self.old is Some && other.old is Some && self.old != other.old)
        &&& !(self.new is Some && other.new is Some)
    }

    /// The combined edit of two compatible single-cube edits.
    pub open spec fn merged(self, other: CubeTransaction) -> CubeTransaction {
        CubeTransaction {
            old: if other.old is Some {
                other.old
            } else {
                self.old
            },
            new: if other.new is Some {
                other.new
            } else {
                self.new
            },
        }
    }

    /// Detect whether the two edits conflict.
    pub fn check_merge(&self, other: &CubeTransaction) -> (r: Result<(), TransactionConflict>)
        ensures
            r is Ok <==> self.compatible(*other),
    {
        match (&self.old, &other.old) {
            (Some(a), Some(b)) => {
                if *a != *b {
                    return Err(TransactionConflict {});
                }
            },
            _ => {},
        }
        if self.new.is_some() && other.new.is_some() {
            return Err(TransactionConflict {});
        }
        Ok(())
    }

    /// Combine two edits previously proven compatible.
    pub fn commit_merge(self, other: CubeTransaction, check: ()) -> (r: CubeTransaction)
        requires
            self.compatible(other),
        ensures
            r == self.merged(other),
    {
        CubeTransaction {
            old: if other.old.is_some() {
                other.old
            } else {
                self.old
            },
            new: if other.new.is_some() {
                other.new
            } else {
                self.new
            },
        }
    }
}

/// A transaction editing a [`Space`]: a set of per-cube preconditions and
/// replacements, applied atomically after a whole-transaction `check`.
#[derive(Debug, PartialEq)]
pub struct SpaceTransaction {
    cubes: Vec<(GridPoint, CubeTransaction)>,
}

impl Clone for SpaceTransaction {
    /// Clones reproduce the transaction exactly.
    fn clone(&self) -> (r: Self)
        ensures
            r.cubes_seq() == self.cubes_seq(),
    {
        let n: usize = self.cubes.len();
        let mut cubes: Vec<(GridPoint, CubeTransaction)> = Vec::new();
        let mut i: usize = 0;
        while i < n
            invariant
                n == self.cubes_seq().len(),
                i <= n,
                cubes@ == self.cubes_seq().take(i as int),
            decreases n - i,
        {
            cubes.push(self.cubes[i]);
            proof {
                assert(cubes@ =~= self.cubes_seq().take(i + 1));
            }
            i = i + 1;
        }
        proof {
            assert(self.cubes_seq().take(n as int) =~= self.cubes_seq());
        }
        SpaceTransaction { cubes }
    }
}

impl Default for SpaceTransaction {
    /// The empty transaction: no preconditions, no edits.
    fn default() -> (r: Self)
        ensures
            r.cubes_seq() == Seq::<(GridPoint, CubeTransaction)>::empty(),
    {
        SpaceTransaction { cubes: Vec::new() }
    }
}

impl SpaceTransaction {
    /// The stored per-cube edits, in insertion order.
    pub closed spec fn cubes_seq(self) -> Seq<(GridPoint, CubeTransaction)> {
        self.cubes@
    }

    /// Validity: each cube is edited at most once.
    pub open spec fn wf(self) -> bool {
        kv_unique(self.cubes_seq())
    }

    /// The edit stored for `p`, if any.
    pub open spec fn get_cube(self, p: GridPoint) -> Option<CubeTransaction> {
        kv_lookup(self.cubes_seq(), p)
    }

    /// Whether one stored edit is applicable to the given space contents.
    pub open spec fn entry_valid(
        grid: Grid,
        contents: Seq<Block>,
        e: (GridPoint, CubeTransaction),
    ) -> bool {
        &&& grid.contains_spec(e.0)
        &&& (e.1.old matches Some(b) ==> contents[grid.index_spec(e.0)] == b)
    }

    /// Whether every stored edit is applicable: every cube lies in the grid
    /// and every `old` precondition matches the current block.
    pub open spec fn valid_on(self, grid: Grid, contents: Seq<Block>) -> bool {
        forall|i: int|
            0 <= i < self.cubes_seq().len() ==> Self::entry_valid(
                grid,
                contents,
                #[trigger] self.cubes_seq()[i],
            )
    }

    /// [`SpaceTransaction::valid_on`], stated for a [`Space`] value.
    pub open spec fn valid_for(self, space: Space) -> bool {
        self.valid_on(space.grid_spec(), space.contents_spec())
    }

    /// The space contents after this transaction's replacements.
    pub open spec fn applied_on(self, grid: Grid, contents: Seq<Block>) -> Seq<Block> {
        Seq::new(
            contents.len(),
            |i: int|
                match kv_lookup(self.cubes_seq(), grid.point_spec(i)) {
                    Some(ct) => match ct.new {
                        Some(b) => b,
                        None => contents[i],
                    },
                    None => contents[i],
                },
        )
    }

    /// The change notice a single stored edit produces against the given
    /// base contents: one notice iff it writes a block different from the
    /// one currently there.
    pub open spec fn entry_change(
        grid: Grid,
        contents: Seq<Block>,
        e: (GridPoint, CubeTransaction),
    ) -> Seq<SpaceChange> {
        match e.1.new {
            Some(b) => if contents[grid.index_spec(e.0)] != b {
                seq![SpaceChange { cube: e.0 }]
            } else {
                Seq::<SpaceChange>::empty()
            },
            None => Seq::<SpaceChange>::empty(),
        }
    }

    /// Change notices of a sequence of stored edits, in order.
    pub open spec fn seq_changes(
        s: Seq<(GridPoint, CubeTransaction)>,
        grid: Grid,
        contents: Seq<Block>,
    ) -> Seq<SpaceChange>
        decreases s.len(),
    {
        if s.len() == 0 {
            Seq::<SpaceChange>::empty()
        } else {
            Self::entry_change(grid, contents, s[0]) + Self::seq_changes(
                s.drop_first(),
                grid,
                contents,
            )
        }
    }

    /// The change notices committing this transaction emits.
    pub open spec fn changes_on(self, grid: Grid, contents: Seq<Block>) -> Seq<SpaceChange> {
        Self::seq_changes(self.cubes_seq(), grid, contents)
    }

    proof fn lemma_seq_changes_push(
        s: Seq<(GridPoint, CubeTransaction)>,
        e: (GridPoint, CubeTransaction),
        grid: Grid,
        contents: Seq<Block>,
    )
        ensures
            Self::seq_changes(s.push(e), grid, contents) == Self::seq_changes(s, grid, contents)
                + Self::entry_change(grid, contents, e),
        decreases s.len(),
    {
        if s.len() == 0 {
            assert(s.push(e)[0] == e);
            assert(s.push(e).drop_first() =~= Seq::<(GridPoint, CubeTransaction)>::empty());
            assert(Self::seq_changes(
                Seq::<(GridPoint, CubeTransaction)>::empty(),
                grid,
                contents,
            ) =~= Seq::<SpaceChange>::empty());
            assert(Self::seq_changes(s.push(e), grid, contents) =~= Self::entry_change(
                grid,
                contents,
                e,
            ));
            assert(Self::seq_changes(s, grid, contents) + Self::entry_change(grid, contents, e)
                =~= Self::entry_change(grid, contents, e));
        } else {
            assert(s.push(e)[0] == s[0]);
            assert(s.push(e).drop_first() =~= s.drop_first().push(e));
            Self::lemma_seq_changes_push(s.drop_first(), e, grid, contents);
            assert(Self::entry_change(grid, contents, s[0]) + (Self::seq_changes(
                s.drop_first(),
                grid,
                contents,
            ) + Self::entry_change(grid, contents, e)) =~= Self::seq_changes(s, grid, contents)
                + Self::entry_change(grid, contents, e));
        }
    }

    /// Find the stored index of the edit for `p`.
    fn find_cube(&self, p: GridPoint) -> (r: Option<usize>)
        requires
            self.wf(),
        ensures
            match r {
                Some(i) => i < self.cubes_seq().len() && self.cubes_seq()[i as int].0 == p
                    && self.get_cube(p) == Some(self.cubes_seq()[i as int].1),
                None => self.get_cube(p) is None,
            },
    {
        let n: usize = self.cubes.len();
        let mut i: usize = 0;
        while i < n
            invariant
                self.wf(),
                n == self.cubes_seq().len(),
                i <= n,
                forall|j: int| 0 <= j < i ==> self.cubes_seq()[j].0 != p,
            decreases n - i,
        {
            if self.cubes[i].0 == p {
                proof {
                    lemma_kv_lookup_at(self.cubes_seq(), i as int);
                }
                return Some(i);
            }
            i = i + 1;
        }
        proof {
            lemma_kv_lookup_index(self.cubes_seq(), p);
        }
        None
    }

    /// A transaction editing a single cube.
    ///
    /// If `old_block` is present, the transaction requires that the cube
    /// currently holds that block; if `new_block` is present, it replaces
    /// the cube's block with it.
    pub fn set_cube(cube: GridPoint, old_block: Option<Block>, new_block: Option<Block>) -> (r:
        Self)
        ensures
            r.wf(),
            r.get_cube(cube) == Some(CubeTransaction { old: old_block, new: new_block }),
            forall|q: GridPoint| q != cube ==> #[trigger] r.get_cube(q) is None,
    {
        Self::single(cube, CubeTransaction { old: old_block, new: new_block })
    }

    /// A transaction holding exactly one stored edit.
    fn single(cube: GridPoint, transaction: CubeTransaction) -> (r: Self)
        ensures
            r.wf(),
            r.get_cube(cube) == Some(transaction),
            forall|q: GridPoint| q != cube ==> #[trigger] r.get_cube(q) is None,
    {
        let mut cubes: Vec<(GridPoint, CubeTransaction)> = Vec::new();
        cubes.push((cube, transaction));
        let r = SpaceTransaction { cubes };
        proof {
            let s = r.cubes_seq();
            assert(s.len() == 1 && s[0] == (cube, transaction));
            assert(s.drop_first() =~= Seq::<(GridPoint, CubeTransaction)>::empty());
            assert forall|q: GridPoint| q != cube implies #[trigger] r.get_cube(q) is None by {
                assert(kv_lookup(s, q) == kv_lookup(s.drop_first(), q));
                assert(kv_lookup(s.drop_first(), q) is None);
            }
        }
        r
    }

    /// Expand this transaction to also edit `cube`, or report a conflict (by
    /// the same rule as transaction merging) and leave it unchanged.
    pub fn set(&mut self, cube: GridPoint, old_block: Option<Block>, new_block: Option<Block>)
        -> (r: Result<(), TransactionConflict>)
        requires
            old(self).wf(),
        ensures
            final(self).wf(),
            match old(self).get_cube(cube) {
                None => r is Ok && final(self).get_cube(cube) == Some(
                    CubeTransaction { old: old_block, new: new_block },
                ),
                Some(e) => {
                    if e.compatible(CubeTransaction { old: old_block, new: new_block }) {
                        r is Ok && final(self).get_cube(cube) == Some(
                            e.merged(CubeTransaction { old: old_block, new: new_block }),
                        )
                    } else {
                        r is Err
                    }
                },
            },
            r is Ok ==> forall|q: GridPoint|
                q != cube ==> #[trigger] final(self).get_cube(q) == old(self).get_cube(q),
            r is Err ==> final(self).cubes_seq() == old(self).cubes_seq(),
    {
        let ct = CubeTransaction { old: old_block, new: new_block };
        match self.find_cube(cube) {
            None => {
                proof {
                    lemma_kv_lookup_index(self.cubes_seq(), cube);
                }
                let ghost s0 = self.cubes_seq();
                self.cubes.push((cube, ct));
                proof {
                    assert(self.cubes_seq() =~= s0.push((cube, ct)));
                    assert forall|q: GridPoint| true implies #[trigger] kv_lookup(
                        self.cubes_seq(),
                        q,
                    ) == (if q == cube {
                        Some(ct)
                    } else {
                        kv_lookup(s0, q)
                    }) by {
                        lemma_kv_lookup_push(s0, (cube, ct), q);
                    }
                }
                Ok(())
            },
            Some(i) => {
                let existing = self.cubes[i].1;
                match existing.check_merge(&ct) {
                    Err(e) => Err(e),
                    Ok(()) => {
                        let merged = existing.commit_merge(ct, ());
                        let ghost s0 = self.cubes_seq();
                        self.cubes.set(i, (cube, merged));
                        proof {
                            assert(self.cubes_seq() =~= s0.update(i as int, (cube, merged)));
                            assert(forall|a: int, b: int|
                                0 <= a < b < self.cubes_seq().len() ==> self.cubes_seq()[a].0
                                    != self.cubes_seq()[b].0);
                            assert forall|q: GridPoint| true implies #[trigger] kv_lookup(
                                self.cubes_seq(),
                                q,
                            ) == (if q == cube {
                                Some(merged)
                            } else {
                                kv_lookup(s0, q)
                            }) by {
                                lemma_kv_lookup_update(s0, i as int, (cube, merged).1, q);
                            }
                        }
                        Ok(())
                    },
                }
            },
        }
    }

    /// Expand this transaction to write `block` into `cube`, replacing any
    /// previously stored replacement for that cube but keeping a stored
    /// precondition.
    pub fn set_overwrite(&mut self, cube: GridPoint, block: Block)
        requires
            old(self).wf(),
        ensures
            final(self).wf(),
            final(self).get_cube(cube) == Some(
                CubeTransaction {
                    old: match old(self).get_cube(cube) {
                        Some(e) => e.old,
                        None => None,
                    },
                    new: Some(block),
                },
            ),
            forall|q: GridPoint|
                q != cube ==> #[trigger] final(self).get_cube(q) == old(self).get_cube(q),
    {
        match self.find_cube(cube) {
            None => {
                proof {
                    lemma_kv_lookup_index(self.cubes_seq(), cube);
                }
                let ghost s0 = self.cubes_seq();
                let ct = CubeTransaction { old: None, new: Some(block) };
                self.cubes.push((cube, ct));
                proof {
                    assert(self.cubes_seq() =~= s0.push((cube, ct)));
                    assert forall|q: GridPoint| true implies #[trigger] kv_lookup(
                        self.cubes_seq(),
                        q,
                    ) == (if q == cube {
                        Some(ct)
                    } else {
                        kv_lookup(s0, q)
                    }) by {
                        lemma_kv_lookup_push(s0, (cube, ct), q);
                    }
                }
            },
            Some(i) => {
                let existing = self.cubes[i].1;
                let ct = CubeTransaction { old: existing.old, new: Some(block) };
                let ghost s0 = self.cubes_seq();
                self.cubes.set(i, (cube, ct));
                proof {
                    assert(self.cubes_seq() =~= s0.update(i as int, (cube, ct)));
                    assert(forall|a: int, b: int|
                        0 <= a < b < self.cubes_seq().len() ==> self.cubes_seq()[a].0
                            != self.cubes_seq()[b].0);
                    assert forall|q: GridPoint| true implies #[trigger] kv_lookup(
                        self.cubes_seq(),
                        q,
                    ) == (if q == cube {
                        Some(ct)
                    } else {
                        kv_lookup(s0, q)
                    }) by {
                        lemma_kv_lookup_update(s0, i as int, (cube, ct).1, q);
                    }
                }
            },
        }
    }

    /// Validate this transaction against `space` without modifying anything.
    ///
    /// Succeeds exactly when every edited cube lies within the space's bounds
    /// and every stored `old` precondition matches the block actually there.
    pub fn check(&self, space: &Space) -> (r: Result<(), PreconditionFailed>)
        requires
            self.wf(),
            space.wf(),
        ensures
            r is Ok <==> self.valid_for(*space),
            r matches Err(e) ==> e.location@ == "Space"@ && ((e.problem@
                == "cube out of space's bounds"@ && exists|i: int|
                0 <= i < self.cubes_seq().len() && !space.grid_spec().contains_spec(
                    #[trigger] self.cubes_seq()[i].0,
                )) || (e.problem@ == "existing block not as expected"@ && exists|i: int|
                0 <= i < self.cubes_seq().len() && space.grid_spec().contains_spec(
                    #[trigger] self.cubes_seq()[i].0,
                ) && self.cubes_seq()[i].1.old is Some && self.cubes_seq()[i].1.old != Some(
                    space.spec_get(self.cubes_seq()[i].0),
                ))),
    {
        let grid = space.grid();
        let n: usize = self.cubes.len();
        let mut i: usize = 0;
        while i < n
            invariant
                self.wf(),
                space.wf(),
                grid == space.grid_spec(),
                n == self.cubes_seq().len(),
                i <= n,
                forall|j: int|
                    0 <= j < i ==> Self::entry_valid(
                        space.grid_spec(),
                        space.contents_spec(),
                        #[trigger] self.cubes_seq()[j],
                    ),
            decreases n - i,
        {
            let p = self.cubes[i].0;
            let ct = self.cubes[i].1;
            if !grid.contains(p) {
                return Err(
                    PreconditionFailed {
                        location: "Space",
                        problem: "cube out of space's bounds",
                        key: None,
                    },
                );
            }
            match &ct.old {
                Some(b) => {
                    match space.get(p) {
                        Some(cur) => {
                            if cur != *b {
                                return Err(
                                    PreconditionFailed {
                                        location: "Space",
                                        problem: "existing block not as expected",
                                        key: None,
                                    },
                                );
                            }
                        },
                        None => {
                            proof {
                                assert(false);
                            }
                        },
                    }
                },
                None => {},
            }
            i = i + 1;
        }
        Ok(())
    }

    /// Apply this transaction's replacements to `space`, pushing one change
    /// notice per cube whose block actually changed, in stored-edit order.
    ///
    /// `check` must be the (empty) token produced by a successful
    /// [`SpaceTransaction::check`] against the same space state, whose
    /// success is recorded in the precondition.
    pub fn commit(&self, space: &mut Space, check: (), outputs: &mut Vec<SpaceChange>) -> (r:
        Result<(), CommitError>)
        requires
            self.wf(),
            old(space).wf(),
            self.valid_for(*old(space)),
        ensures
            r is Ok,
            final(space).wf(),
            final(space).grid_spec() == old(space).grid_spec(),
            final(space).contents_spec() == self.applied_on(
                old(space).grid_spec(),
                old(space).contents_spec(),
            ),
            final(outputs)@ == old(outputs)@ + self.changes_on(
                old(space).grid_spec(),
                old(space).contents_spec(),
            ),
    {
        let ghost g0 = old(space).grid_spec();
        let ghost c0 = old(space).contents_spec();
        let n: usize = self.cubes.len();
        let mut i: usize = 0;
        while i < n
            invariant
                self.wf(),
                space.wf(),
                self.valid_on(g0, c0),
                space.grid_spec() == g0,
                g0.wf(),
                c0.len() == g0.volume_spec(),
                n == self.cubes_seq().len(),
                i <= n,
                space.contents_spec() == Self::partial_applied(
                    self.cubes_seq().take(i as int),
                    g0,
                    c0,
                ),
                outputs@ == old(outputs)@ + Self::seq_changes(
                    self.cubes_seq().take(i as int),
                    g0,
                    c0,
                ),
            decreases n - i,
        {
            let ghost prefix = self.cubes_seq().take(i as int);
            let p = self.cubes[i].0;
            let ct = self.cubes[i].1;
            proof {
                assert(Self::entry_valid(g0, c0, self.cubes_seq()[i as int]));
                assert(forall|j: int| 0 <= j < i ==> prefix[j] == self.cubes_seq()[j]);
                lemma_kv_lookup_index(prefix, p);
                g0.lemma_index_bijective(p);
                assert(self.cubes_seq().take(i + 1) =~= prefix.push((p, ct)));
            }
            match &ct.new {
                Some(b) => {
                    let r = space.set(p, b);
                    proof {
                        assert(r matches Ok(ch) && ch == (c0[g0.index_spec(p)] != b));
                        Self::lemma_partial_applied_step(self.cubes_seq(), i as int, g0, c0);
                        assert(space.contents_spec() =~= Self::partial_applied(
                            self.cubes_seq().take(i + 1),
                            g0,
                            c0,
                        ));
                        Self::lemma_seq_changes_push(prefix, (p, ct), g0, c0);
                    }
                    match r {
                        Ok(changed) => {
                            if changed {
                                outputs.push(SpaceChange { cube: p });
                            }
                            proof {
                                assert(outputs@ =~= old(outputs)@ + Self::seq_changes(
                                    self.cubes_seq().take(i + 1),
                                    g0,
                                    c0,
                                ));
                            }
                        },
                        Err(_) => {
                            proof {
                                assert(false);
                            }
                        },
                    }
                },
                None => {
                    proof {
                        Self::lemma_partial_applied_step(self.cubes_seq(), i as int, g0, c0);
                        assert(space.contents_spec() =~= Self::partial_applied(
                            self.cubes_seq().take(i + 1),
                            g0,
                            c0,
                        ));
                        Self::lemma_seq_changes_push(prefix, (p, ct), g0, c0);
                        assert(outputs@ =~= old(outputs)@ + Self::seq_changes(
                            self.cubes_seq().take(i + 1),
                            g0,
                            c0,
                        ));
                    }
                },
            }
            i = i + 1;
        }
        proof {
            assert(self.cubes_seq().take(n as int) =~= self.cubes_seq());
            assert(self.applied_on(g0, c0) =~= Self::partial_applied(self.cubes_seq(), g0, c0));
        }
        Ok(())
    }

    /// The contents after applying only the given stored edits.
    pub open spec fn partial_applied(
        s: Seq<(GridPoint, CubeTransaction)>,
        grid: Grid,
        contents: Seq<Block>,
    ) -> Seq<Block> {
        Seq::new(
            contents.len(),
            |i: int|
                match kv_lookup(s, grid.point_spec(i)) {
                    Some(ct) => match ct.new {
                        Some(b) => b,
                        None => contents[i],
                    },
                    None => contents[i],
                },
        )
    }

    /// Applying one more stored edit updates exactly its own cube.
    proof fn lemma_partial_applied_step(
        s: Seq<(GridPoint, CubeTransaction)>,
        k: int,
        grid: Grid,
        contents: Seq<Block>,
    )
        requires
            kv_unique(s),
            0 <= k < s.len(),
            grid.wf(),
            contents.len() == grid.volume_spec(),
            grid.contains_spec(s[k].0),
        ensures
            Self::partial_applied(s.take(k + 1), grid, contents) == (match s[k].1.new {
                Some(b) => Self::partial_applied(s.take(k), grid, contents).update(
                    grid.index_spec(s[k].0),
                    b,
                ),
                None => Self::partial_applied(s.take(k), grid, contents),
            }),
    {
        let prefix = s.take(k);
        let longer = s.take(k + 1);
        let p = s[k].0;
        let ct = s[k].1;
        assert(longer =~= prefix.push((p, ct)));
        grid.lemma_index_bijective(p);
        assert forall|j: int| 0 <= j < contents.len() implies Self::partial_applied(
            longer,
            grid,
            contents,
        )[j] == (match ct.new {
            Some(b) => Self::partial_applied(prefix, grid, contents).update(
                grid.index_spec(p),
                b,
            )[j],
            None => Self::partial_applied(prefix, grid, contents)[j],
        }) by {
            let q = grid.point_spec(j);
            lemma_kv_lookup_push(prefix, (p, ct), q);
            grid.lemma_point_bijective(j);
            if q == p {
                assert(j == grid.index_spec(p));
                assert(kv_lookup(prefix, p) is None) by {
                    lemma_kv_lookup_index(prefix, p);
                    assert(forall|m: int| 0 <= m < k ==> prefix[m] == s[m]);
                }
            }
        }
        match ct.new {
            Some(b) => {
                assert(Self::partial_applied(longer, grid, contents) =~= Self::partial_applied(
                    prefix,
                    grid,
                    contents,
                ).update(grid.index_spec(p), b));
            },
            None => {
                assert(Self::partial_applied(longer, grid, contents) =~= Self::partial_applied(
                    prefix,
                    grid,
                    contents,
                ));
            },
        }
    }

    /// Run `check` and, if it passes, `commit`; either the whole transaction
    /// is applied or the space is left untouched and the failure returned.
    pub fn execute(&self, space: &mut Space, outputs: &mut Vec<SpaceChange>) -> (r: Result<
        (),
        ExecuteError,
    >)
        requires
            self.wf(),
            old(space).wf(),
        ensures
            final(space).wf(),
            r is Ok <==> self.valid_for(*old(space)),
            r is Ok ==> {
                &&& final(space).grid_spec() == old(space).grid_spec()
                &&& final(space).contents_spec() == self.applied_on(
                    old(space).grid_spec(),
                    old(space).contents_spec(),
                )
                &&& final(outputs)@ == old(outputs)@ + self.changes_on(
                    old(space).grid_spec(),
                    old(space).contents_spec(),
                )
            },
            r is Err ==> {
                &&& *final(space) == *old(space)
                &&& final(outputs)@ == old(outputs)@
                &&& r matches Err(ExecuteError::Check(_))
            },
    {
        match self.check(space) {
            Err(e) => Err(ExecuteError::Check(e)),
            Ok(()) => {
                match self.commit(space, (), outputs) {
                    Ok(()) => Ok(()),
                    Err(e) => Err(ExecuteError::Commit(e)),
                }
            },
        }
    }

    /// Whether the two transactions are free of per-cube conflicts.
    pub open spec fn compatible_with(self, other: SpaceTransaction) -> bool {
        forall|p: GridPoint|
            match (#[trigger] self.get_cube(p), #[trigger] other.get_cube(p)) {
                (Some(a), Some(b)) => a.compatible(b),
                _ => true,
            }
    }

    /// Detect whether the two transactions conflict on any cube.
    pub fn check_merge(&self, other: &SpaceTransaction) -> (r: Result<(), TransactionConflict>)
        requires
            self.wf(),
            other.wf(),
        ensures
            r is Ok <==> self.compatible_with(*other),
    {
        let n: usize = self.cubes.len();
        let mut i: usize = 0;
        while i < n
            invariant
                self.wf(),
                other.wf(),
                n == self.cubes_seq().len(),
                i <= n,
                forall|j: int|
                    0 <= j < i ==> match kv_lookup(
                        other.cubes_seq(),
                        (#[trigger] self.cubes_seq()[j]).0,
                    ) {
                        Some(b) => self.cubes_seq()[j].1.compatible(b),
                        None => true,
                    },
            decreases n - i,
        {
            let p = self.cubes[i].0;
            let mine = self.cubes[i].1;
            proof {
                lemma_kv_lookup_at(self.cubes_seq(), i as int);
            }
            match other.find_cube(p) {
                Some(k) => {
                    let theirs = other.cubes[k].1;
                    match mine.check_merge(&theirs) {
                        Err(e) => {
                            proof {
                                assert(self.get_cube(p) == Some(mine));
                                assert(other.get_cube(p) == Some(theirs));
                                assert(!self.compatible_with(*other));
                            }
                            return Err(e);
                        },
                        Ok(()) => {},
                    }
                },
                None => {},
            }
            i = i + 1;
        }
        proof {
            assert forall|p: GridPoint| true implies match (
                #[trigger] self.get_cube(p),
                #[trigger] other.get_cube(p),
            ) {
                (Some(a), Some(b)) => a.compatible(b),
                _ => true,
            } by {
                lemma_kv_lookup_index(self.cubes_seq(), p);
                match kv_lookup(self.cubes_seq(), p) {
                    Some(a) => {
                        let j = choose|j: int|
                            0 <= j < self.cubes_seq().len() && self.cubes_seq()[j].0 == p
                                && self.cubes_seq()[j].1 == a;
                        assert(match kv_lookup(other.cubes_seq(), self.cubes_seq()[j].0) {
                            Some(b) => self.cubes_seq()[j].1.compatible(b),
                            None => true,
                        });
                    },
                    None => {},
                }
            }
        }
        Ok(())
    }

    /// Combine two transactions previously proven compatible. The result
    /// edits the union of their cubes, merging the edits of shared cubes.
    pub fn commit_merge(self, other: Self, check: ()) -> (r: Self)
        requires
            self.wf(),
            other.wf(),
            self.compatible_with(other),
        ensures
            r.wf(),
            forall|p: GridPoint|
                #[trigger] r.get_cube(p) == match (self.get_cube(p), other.get_cube(p)) {
                    (Some(a), Some(b)) => Some(a.merged(b)),
                    (Some(a), None) => Some(a),
                    (None, Some(b)) => Some(b),
                    (None, None) => None::<CubeTransaction>,
                },
    {
        let ghost t1 = self;
        let mut result = self;
        let n: usize = other.cubes.len();
        let mut i: usize = 0;
        while i < n
            invariant
                result.wf(),
                other.wf(),
                t1.wf(),
                t1.compatible_with(other),
                n == other.cubes_seq().len(),
                i <= n,
                forall|p: GridPoint|
                    #[trigger] result.get_cube(p) == match (
                        t1.get_cube(p),
                        kv_lookup(other.cubes_seq().take(i as int), p),
                    ) {
                        (Some(a), Some(b)) => Some(a.merged(b)),
                        (Some(a), None) => Some(a),
                        (None, Some(b)) => Some(b),
                        (None, None) => None::<CubeTransaction>,
                    },
            decreases n - i,
        {
            let ghost prefix = other.cubes_seq().take(i as int);
            let ghost pre = result;
            let p = other.cubes[i].0;
            let theirs = other.cubes[i].1;
            proof {
                lemma_kv_lookup_at(other.cubes_seq(), i as int);
                assert(other.cubes_seq().take(i + 1) =~= prefix.push((p, theirs)));
                assert(forall|m: int| 0 <= m < i ==> prefix[m] == other.cubes_seq()[m]);
                lemma_kv_lookup_index(prefix, p);
                assert(kv_lookup(prefix, p) is None);
            }
            match result.find_cube(p) {
                Some(k) => {
                    let mine = result.cubes[k].1;
                    proof {
                        assert(result.get_cube(p) == Some(mine));
                        assert(t1.get_cube(p) == Some(mine));
                        assert(other.get_cube(p) == Some(theirs));
                        assert(mine.compatible(theirs));
                    }
                    let merged = mine.commit_merge(theirs, ());
                    result.cubes.set(k, (p, merged));
                    proof {
                        assert(result.cubes_seq() =~= pre.cubes_seq().update(
                            k as int,
                            (p, merged),
                        ));
                        assert(forall|a: int, b: int|
                            0 <= a < b < result.cubes_seq().len() ==> result.cubes_seq()[a].0
                                != result.cubes_seq()[b].0);
                        assert forall|q: GridPoint| true implies #[trigger] result.get_cube(q)
                            == (match (t1.get_cube(q), kv_lookup(
                            other.cubes_seq().take(i + 1),
                            q,
                        )) {
                            (Some(a), Some(b)) => Some(a.merged(b)),
                            (Some(a), None) => Some(a),
                            (None, Some(b)) => Some(b),
                            (None, None) => None::<CubeTransaction>,
                        }) by {
                            lemma_kv_lookup_update(pre.cubes_seq(), k as int, (p, merged).1, q);
                            lemma_kv_lookup_push(prefix, (p, theirs), q);
                            assert(pre.get_cube(q) == match (t1.get_cube(q), kv_lookup(
                                prefix,
                                q,
                            )) {
                                (Some(a), Some(b)) => Some(a.merged(b)),
                                (Some(a), None) => Some(a),
                                (None, Some(b)) => Some(b),
                                (None, None) => None::<CubeTransaction>,
                            });
                        }
                    }
                },
                None => {
                    result.cubes.push((p, theirs));
                    proof {
                        assert(result.cubes_seq() =~= pre.cubes_seq().push((p, theirs)));
                        lemma_kv_lookup_index(pre.cubes_seq(), p);
                        assert forall|q: GridPoint| true implies #[trigger] result.get_cube(q)
                            == (match (t1.get_cube(q), kv_lookup(
                            other.cubes_seq().take(i + 1),
                            q,
                        )) {
                            (Some(a), Some(b)) => Some(a.merged(b)),
                            (Some(a), None) => Some(a),
                            (None, Some(b)) => Some(b),
                            (None, None) => None::<CubeTransaction>,
                        }) by {
                            lemma_kv_lookup_push(pre.cubes_seq(), (p, theirs), q);
                            lemma_kv_lookup_push(prefix, (p, theirs), q);
                            assert(pre.get_cube(q) == match (t1.get_cube(q), kv_lookup(
                                prefix,
                                q,
                            )) {
                                (Some(a), Some(b)) => Some(a.merged(b)),
                                (Some(a), None) => Some(a),
                                (None, Some(b)) => Some(b),
                                (None, None) => None::<CubeTransaction>,
                            });
                        }
                    }
                },
            }
            i = i + 1;
        }
        proof {
            assert(other.cubes_seq().take(n as int) =~= other.cubes_seq());
        }
        result
    }

    /// Validity restated over cube lookups rather than stored entries.
    pub proof fn lemma_valid_on_keys(self, grid: Grid, contents: Seq<Block>)
        requires
            self.wf(),
        ensures
            self.valid_on(grid, contents) <==> (forall|p: GridPoint|
                (#[trigger] self.get_cube(p)) matches Some(ct) ==> grid.contains_spec(p) && (
                ct.old matches Some(b) ==> contents[grid.index_spec(p)] == b)),
    {
        if self.valid_on(grid, contents) {
            assert forall|p: GridPoint|
                (#[trigger] self.get_cube(p)) is Some implies grid.contains_spec(p) && ((
            self.get_cube(p)->Some_0).old matches Some(b) ==> contents[grid.index_spec(p)]
                == b) by {
                lemma_kv_lookup_index(self.cubes_seq(), p);
                match kv_lookup(self.cubes_seq(), p) {
                    Some(ct) => {
                        let i = choose|i: int|
                            0 <= i < self.cubes_seq().len() && self.cubes_seq()[i].0 == p
                                && self.cubes_seq()[i].1 == ct;
                        assert(Self::entry_valid(grid, contents, self.cubes_seq()[i]));
                    },
                    None => {},
                }
            }
        }
        if forall|p: GridPoint|
            (#[trigger] self.get_cube(p)) matches Some(ct) ==> grid.contains_spec(p) && (ct.old
                matches Some(b) ==> contents[grid.index_spec(p)] == b) {
            assert forall|i: int|
                0 <= i < self.cubes_seq().len() implies Self::entry_valid(
                grid,
                contents,
                #[trigger] self.cubes_seq()[i],
            ) by {
                lemma_kv_lookup_at(self.cubes_seq(), i);
                assert(self.get_cube(self.cubes_seq()[i].0) == Some(self.cubes_seq()[i].1));
            }
        }
    }

    /// Transactions editing disjoint cubes never conflict.
    pub proof fn lemma_disjoint_txns_compatible(t1: SpaceTransaction, t2: SpaceTransaction)
        requires
            forall|p: GridPoint|
                !((#[trigger] t1.get_cube(p)) is Some && (#[trigger] t2.get_cube(p)) is Some),
        ensures
            t1.compatible_with(t2),
    {
    }

    /// Two transactions that both write a new block into the same cube
    /// always conflict, whether or not the written blocks are equal.
    pub proof fn lemma_double_write_conflicts(
        t1: SpaceTransaction,
        t2: SpaceTransaction,
        p: GridPoint,
    )
        requires
            t1.get_cube(p) matches Some(c1) && c1.new is Some,
            t2.get_cube(p) matches Some(c2) && c2.new is Some,
        ensures
            !t1.compatible_with(t2),
    {
        assert(!(match (t1.get_cube(p), t2.get_cube(p)) {
            (Some(a), Some(b)) => a.compatible(b),
            _ => true,
        }));
    }

    /// For disjoint transactions, the merged transaction is valid exactly
    /// when both parts are, and applying it equals applying one part and
    /// then the other — in either order.
    pub proof fn lemma_disjoint_merge_execution(
        t1: SpaceTransaction,
        t2: SpaceTransaction,
        m: SpaceTransaction,
        grid: Grid,
        contents: Seq<Block>,
    )
        requires
            t1.wf(),
            t2.wf(),
            m.wf(),
            grid.wf(),
            contents.len() == grid.volume_spec(),
            forall|p: GridPoint|
                !((#[trigger] t1.get_cube(p)) is Some && (#[trigger] t2.get_cube(p)) is Some),
            forall|p: GridPoint|
                #[trigger] m.get_cube(p) == (if t1.get_cube(p) is Some {
                    t1.get_cube(p)
                } else {
                    t2.get_cube(p)
                }),
        ensures
            m.valid_on(grid, contents) <==> (t1.valid_on(grid, contents) && t2.valid_on(
                grid,
                contents,
            )),
            t2.valid_on(grid, t1.applied_on(grid, contents)) == t2.valid_on(grid, contents),
            t1.valid_on(grid, t2.applied_on(grid, contents)) == t1.valid_on(grid, contents),
            m.applied_on(grid, contents) == t2.applied_on(grid, t1.applied_on(grid, contents)),
            m.applied_on(grid, contents) == t1.applied_on(grid, t2.applied_on(grid, contents)),
    {
        t1.lemma_valid_on_keys(grid, contents);
        t2.lemma_valid_on_keys(grid, contents);
        m.lemma_valid_on_keys(grid, contents);
        t2.lemma_valid_on_keys(grid, t1.applied_on(grid, contents));
        t1.lemma_valid_on_keys(grid, t2.applied_on(grid, contents));
        assert forall|p: GridPoint| (#[trigger] t1.get_cube(p)) is Some implies m.get_cube(p)
            == t1.get_cube(p) by {}
        assert forall|p: GridPoint| (#[trigger] t2.get_cube(p)) is Some implies m.get_cube(p)
            == t2.get_cube(p) by {
            assert(!(t1.get_cube(p) is Some));
        }
        assert(t1.applied_on(grid, contents).len() == contents.len());
        assert(t2.applied_on(grid, contents).len() == contents.len());
        assert forall|p: GridPoint| grid.contains_spec(p) implies (t1.applied_on(
            grid,
            contents,
        )[grid.index_spec(p)] == (match t1.get_cube(p) {
            Some(ct) => match ct.new {
                Some(b) => b,
                None => contents[grid.index_spec(p)],
            },
            None => contents[grid.index_spec(p)],
        }) && t2.applied_on(grid, contents)[grid.index_spec(p)] == (match t2.get_cube(p) {
            Some(ct) => match ct.new {
                Some(b) => b,
                None => contents[grid.index_spec(p)],
            },
            None => contents[grid.index_spec(p)],
        })) by {
            grid.lemma_index_bijective(p);
        }
        assert(m.applied_on(grid, contents) =~= t2.applied_on(grid, t1.applied_on(grid, contents)))
            by {
            assert forall|i: int| 0 <= i < contents.len() implies m.applied_on(grid, contents)[i]
                == t2.applied_on(grid, t1.applied_on(grid, contents))[i] by {
                grid.lemma_point_bijective(i);
                let q = grid.point_spec(i);
                assert(!(t1.get_cube(q) is Some && t2.get_cube(q) is Some));
                assert(m.get_cube(q) == (if t1.get_cube(q) is Some {
                    t1.get_cube(q)
                } else {
                    t2.get_cube(q)
                }));
                assert(t1.applied_on(grid, contents)[i] == (match t1.get_cube(q) {
                    Some(ct) => match ct.new {
                        Some(b) => b,
                        None => contents[i],
                    },
                    None => contents[i],
                }));
                assert(t2.applied_on(grid, t1.applied_on(grid, contents))[i] == (match t2.get_cube(
                    q,
                ) {
                    Some(ct) => match ct.new {
                        Some(b) => b,
                        None => t1.applied_on(grid, contents)[i],
                    },
                    None => t1.applied_on(grid, contents)[i],
                }));
            }
        }
        assert(m.applied_on(grid, contents) =~= t1.applied_on(grid, t2.applied_on(grid, contents)))
            by {
            assert forall|i: int| 0 <= i < contents.len() implies m.applied_on(grid, contents)[i]
                == t1.applied_on(grid, t2.applied_on(grid, contents))[i] by {
                grid.lemma_point_bijective(i);
                let q = grid.point_spec(i);
                assert(!(t1.get_cube(q) is Some && t2.get_cube(q) is Some));
                assert(m.get_cube(q) == (if t1.get_cube(q) is Some {
                    t1.get_cube(q)
                } else {
                    t2.get_cube(q)
                }));
                assert(t2.applied_on(grid, contents)[i] == (match t2.get_cube(q) {
                    Some(ct) => match ct.new {
                        Some(b) => b,
                        None => contents[i],
                    },
                    None => contents[i],
                }));
                assert(t1.applied_on(grid, t2.applied_on(grid, contents))[i] == (match t1.get_cube(
                    q,
                ) {
                    Some(ct) => match ct.new {
                        Some(b) => b,
                        None => t2.applied_on(grid, contents)[i],
                    },
                    None => t2.applied_on(grid, contents)[i],
                }));
            }
        }
        assert forall|p: GridPoint| true implies ((#[trigger] t2.get_cube(p)) matches Some(ct)
            ==> grid.contains_spec(p) ==> t1.applied_on(grid, contents)[grid.index_spec(p)]
            == contents[grid.index_spec(p)]) by {
            if t2.get_cube(p) is Some && grid.contains_spec(p) {
                grid.lemma_index_bijective(p);
            }
        }
        assert forall|p: GridPoint| true implies ((#[trigger] t1.get_cube(p)) matches Some(ct)
            ==> grid.contains_spec(p) ==> t2.applied_on(grid, contents)[grid.index_spec(p)]
            == contents[grid.index_spec(p)]) by {
            if t1.get_cube(p) is Some && grid.contains_spec(p) {
                grid.lemma_index_bijective(p);
            }
        }
    }

    /// Merge two transactions: detect conflicts, then combine.
    pub fn merge(self, other: Self) -> (r: Result<Self, TransactionConflict>)
        requires
            self.wf(),
            other.wf(),
        ensures
            r is Ok <==> self.compatible_with(other),
            r matches Ok(m) ==> m.wf() && forall|p: GridPoint|
                #[trigger] m.get_cube(p) == match (self.get_cube(p), other.get_cube(p)) {
                    (Some(a), Some(b)) => Some(a.merged(b)),
                    (Some(a), None) => Some(a),
                    (None, Some(b)) => Some(b),
                    (None, None) => None::<CubeTransaction>,
                },
    {
        match self.check_merge(&other) {
            Err(e) => Err(e),
            Ok(()) => Ok(self.commit_merge(other, ())),
        }
    }
}

} // verus!
