//! Tests for transactions on spaces.

use all_is_cubes::block::Block;
use all_is_cubes::math::{GridPoint, Rgba};
use all_is_cubes::space::Space;
use all_is_cubes::space_txn::{SpaceChange, SpaceTransaction};
use all_is_cubes::transaction::ExecuteError;

fn p(x: i32, y: i32, z: i32) -> GridPoint {
    GridPoint::new(x, y, z)
}

fn make_some_blocks(n: u8) -> Vec<Block> {
    (0..n).map(|i| Block::from_color(Rgba::new(i, 7, 100, 255))).collect()
}

type Predicate = Box<dyn Fn(&Space, &Space) -> Result<(), String>>;

/// Systematically executes each transaction, and each merged pair of
/// transactions, against each target: a failed check must leave the target
/// untouched, and a successful execution must satisfy the transactions'
/// predicates.
struct SpaceTransactionTester {
    transactions: Vec<(SpaceTransaction, Predicate)>,
    targets: Vec<Box<dyn Fn() -> Space>>,
}

impl SpaceTransactionTester {
    fn new() -> Self {
        SpaceTransactionTester { transactions: Vec::new(), targets: Vec::new() }
    }

    fn transaction(
        mut self,
        txn: SpaceTransaction,
        pred: impl Fn(&Space, &Space) -> Result<(), String> + 'static,
    ) -> Self {
        self.transactions.push((txn, Box::new(pred)));
        self
    }

    fn target(mut self, f: impl Fn() -> Space + 'static) -> Self {
        self.targets.push(Box::new(f));
        self
    }

    fn test(self) {
        for (txn, pred) in &self.transactions {
            for target_fn in &self.targets {
                let before = target_fn();
                let mut target = target_fn();
                let mut outputs: Vec<SpaceChange> = Vec::new();
                match txn.execute(&mut target, &mut outputs) {
                    Ok(()) => {
                        if let Err(e) = pred(&before, &target) {
                            panic!("transaction predicate failed: {e}");
                        }
                    }
                    Err(ExecuteError::Check(_)) => {
                        assert_eq!(before, target, "failed check must not mutate the target");
                        assert!(outputs.is_empty());
                    }
                    Err(ExecuteError::Commit(_)) => {
                        panic!("commit must not fail after a successful check");
                    }
                }
            }
        }
        for (ta, pred_a) in &self.transactions {
            for (tb, pred_b) in &self.transactions {
                let merged = match ta.clone().merge(tb.clone()) {
                    Ok(m) => m,
                    Err(_) => continue,
                };
                for target_fn in &self.targets {
                    let before = target_fn();
                    let mut target = target_fn();
                    let mut outputs: Vec<SpaceChange> = Vec::new();
                    match merged.execute(&mut target, &mut outputs) {
                        Ok(()) => {
                            if let Err(e) = pred_a(&before, &target) {
                                panic!("merged predicate (first) failed: {e}");
                            }
                            if let Err(e) = pred_b(&before, &target) {
                                panic!("merged predicate (second) failed: {e}");
                            }
                        }
                        Err(ExecuteError::Check(_)) => {
                            assert_eq!(before, target);
                        }
                        Err(ExecuteError::Commit(_)) => {
                            panic!("commit must not fail after a successful check");
                        }
                    }
                }
            }
        }
    }
}

#[test]
fn set_cube_mutate_equivalent_to_merge() {
    let blocks = make_some_blocks(3);
    let (b1, b2, b3) = (blocks[0], blocks[1], blocks[2]);

    // A basic single-cube transaction is the same either way.
    let mut t = SpaceTransaction::default();
    t.set(p(0, 0, 0), Some(b1), Some(b2)).unwrap();
    assert_eq!(t, SpaceTransaction::set_cube(p(0, 0, 0), Some(b1), Some(b2)));

    // Two-cube transaction.
    let prev = t.clone();
    t.set(p(1, 0, 0), Some(b2), Some(b3)).unwrap();
    assert_eq!(
        t,
        prev.merge(SpaceTransaction::set_cube(p(1, 0, 0), Some(b2), Some(b3))).unwrap(),
    );

    // Conflict
    let prev = t.clone();
    t.set(p(0, 0, 0), Some(b1), Some(b3)).expect_err("should have merge failure");
    assert_eq!(t, prev);
}

#[test]
fn merge_allows_independent() {
    let blocks = make_some_blocks(3);
    let (b1, b2, b3) = (blocks[0], blocks[1], blocks[2]);
    let t1 = SpaceTransaction::set_cube(p(0, 0, 0), Some(b1), Some(b2));
    let t2 = SpaceTransaction::set_cube(p(1, 0, 0), Some(b1), Some(b3));
    let t3 = t1.clone().merge(t2.clone()).unwrap();
    let mut expected = SpaceTransaction::set_cube(p(0, 0, 0), Some(b1), Some(b2));
    expected.set(p(1, 0, 0), Some(b1), Some(b3)).unwrap();
    assert_eq!(t3, expected);
}

#[test]
fn merge_rejects_same_new() {
    let blocks = make_some_blocks(1);
    let block = blocks[0];
    let t1 = SpaceTransaction::set_cube(p(0, 0, 0), None, Some(block));
    let t2 = SpaceTransaction::set_cube(p(0, 0, 0), None, Some(block));
    t1.merge(t2).unwrap_err();
}

#[test]
fn merge_rejects_different_new() {
    let blocks = make_some_blocks(2);
    let (b1, b2) = (blocks[0], blocks[1]);
    let t1 = SpaceTransaction::set_cube(p(0, 0, 0), None, Some(b1));
    let t2 = SpaceTransaction::set_cube(p(0, 0, 0), None, Some(b2));
    t1.merge(t2).unwrap_err();
}

#[test]
fn merge_rejects_different_old() {
    let blocks = make_some_blocks(2);
    let (b1, b2) = (blocks[0], blocks[1]);
    let t1 = SpaceTransaction::set_cube(p(0, 0, 0), Some(b1), None);
    let t2 = SpaceTransaction::set_cube(p(0, 0, 0), Some(b2), None);
    t1.merge(t2).unwrap_err();
}

#[test]
fn merge_allows_same_old() {
    let blocks = make_some_blocks(2);
    let (b1, b2) = (blocks[0], blocks[1]);
    let t1 = SpaceTransaction::set_cube(p(0, 0, 0), Some(b1), Some(b2));
    let t2 = SpaceTransaction::set_cube(p(0, 0, 0), Some(b1), None);
    assert_eq!(t1.clone(), t1.clone().merge(t2).unwrap());
}

#[test]
fn systematic() {
    let blocks = make_some_blocks(3);
    let (b1, b2, b3) = (blocks[0], blocks[1], blocks[2]);
    SpaceTransactionTester::new()
        .transaction(SpaceTransaction::default(), |_, _| Ok(()))
        .transaction(
            SpaceTransaction::set_cube(p(0, 0, 0), Some(b1), Some(b2)),
            move |_, after| {
                if after.get(p(0, 0, 0)) != Some(b2) {
                    return Err("did not set b2".into());
                }
                Ok(())
            },
        )
        .transaction(
            SpaceTransaction::set_cube(p(0, 0, 0), Some(b1), Some(b3)),
            move |_, after| {
                if after.get(p(0, 0, 0)) != Some(b3) {
                    return Err("did not set b3".into());
                }
                Ok(())
            },
        )
        .transaction(
            SpaceTransaction::set_cube(p(0, 0, 0), None, Some(b2)),
            move |_, after| {
                if after.get(p(0, 0, 0)) != Some(b2) {
                    return Err("did not set b2".into());
                }
                Ok(())
            },
        )
        .transaction(SpaceTransaction::set_cube(p(0, 0, 0), Some(b2), None), |_, _| Ok(()))
        .transaction(SpaceTransaction::set_cube(p(0, 0, 0), Some(b1), None), |_, _| Ok(()))
        .target(|| Space::empty_positive(1, 1, 1))
        .target(move || {
            let mut space = Space::empty_positive(1, 1, 1);
            space.set(p(0, 0, 0), &b1).unwrap();
            space
        })
        .target(move || {
            let mut space = Space::empty_positive(1, 1, 1);
            space.set(p(0, 0, 0), &b2).unwrap();
            space
        })
        .target(|| {
            // This space makes the test transactions at [0, 0, 0] out of bounds
            Space::empty(all_is_cubes::space::Grid::new(p(1, 0, 0), p(1, 1, 1)))
        })
        .test();
}

/// A merged transaction on three keys applies both edits and reports one
/// change per replaced cube.
#[test]
fn merged_execution_over_three_keys() {
    let x = Block::from_color(Rgba::new(10, 10, 10, 255));
    let y = Block::from_color(Rgba::new(20, 20, 20, 255));
    let z = Block::from_color(Rgba::new(30, 30, 30, 255));
    let mut space = Space::empty_positive(3, 1, 1);
    for i in 0..3 {
        space.set(p(i, 0, 0), &x).unwrap();
    }
    let t1 = SpaceTransaction::set_cube(p(0, 0, 0), Some(x), Some(y));
    let t2 = SpaceTransaction::set_cube(p(1, 0, 0), Some(x), Some(z));
    let merged = t1.merge(t2).unwrap();
    let mut outputs: Vec<SpaceChange> = Vec::new();
    merged.execute(&mut space, &mut outputs).unwrap();
    assert_eq!(space.get(p(0, 0, 0)), Some(y));
    assert_eq!(space.get(p(1, 0, 0)), Some(z));
    assert_eq!(space.get(p(2, 0, 0)), Some(x));
    assert_eq!(outputs.len(), 2);
    assert_eq!(outputs[0], SpaceChange { cube: p(0, 0, 0) });
    assert_eq!(outputs[1], SpaceChange { cube: p(1, 0, 0) });
}

/// `set_overwrite` replaces a stored replacement but keeps a stored
/// precondition.
#[test]
fn set_overwrite_replaces_new_keeps_old() {
    let blocks = make_some_blocks(3);
    let (b1, b2, b3) = (blocks[0], blocks[1], blocks[2]);
    let mut t = SpaceTransaction::set_cube(p(0, 0, 0), Some(b1), Some(b2));
    t.set_overwrite(p(0, 0, 0), b3);
    assert_eq!(t, SpaceTransaction::set_cube(p(0, 0, 0), Some(b1), Some(b3)));
    let mut fresh = SpaceTransaction::default();
    fresh.set_overwrite(p(0, 0, 0), b3);
    assert_eq!(fresh, SpaceTransaction::set_cube(p(0, 0, 0), None, Some(b3)));
}

/// Writing outside a space's bounds is an error and changes nothing.
#[test]
fn space_set_out_of_bounds() {
    let b = make_some_blocks(1)[0];
    let mut space = Space::empty_positive(1, 1, 1);
    let before = space.clone();
    assert_eq!(
        space.set(p(5, 0, 0), &b),
        Err(all_is_cubes::space::SetCubeError::OutOfBounds)
    );
    assert_eq!(space, before);
    // An in-bounds write reports whether it changed anything.
    assert_eq!(space.set(p(0, 0, 0), &b), Ok(true));
    assert_eq!(space.set(p(0, 0, 0), &b), Ok(false));
}

/// A failed precondition reports the problem and leaves the target exactly
/// as it was.
#[test]
fn check_failure_leaves_space_untouched() {
    let x = Block::from_color(Rgba::new(10, 10, 10, 255));
    let y = Block::from_color(Rgba::new(20, 20, 20, 255));
    let mut space = Space::empty_positive(1, 1, 1);
    space.set(p(0, 0, 0), &x).unwrap();
    let before = space.clone();
    let txn = SpaceTransaction::set_cube(p(0, 0, 0), Some(y), None);
    let e = txn.check(&space).unwrap_err();
    assert_eq!(e.location, "Space");
    assert_eq!(e.problem, "existing block not as expected");
    assert_eq!(space, before);
}
