//! Tests for inventories and their transactions.

use all_is_cubes::block::Block;
use all_is_cubes::inv::{Inventory, InventoryChange, InventoryTransaction, Slot, Tool};
use all_is_cubes::math::Rgba;
use all_is_cubes::transaction::ExecuteError;

fn make_some_blocks(n: u8) -> Vec<Block> {
    (0..n).map(|i| Block::from_color(Rgba::new(i, 7, 100, 255))).collect()
}

type Predicate = Box<dyn Fn(&Inventory, &Inventory) -> Result<(), String>>;

/// Systematic executor mirroring the space-transaction tester: single and
/// merged executions against every target, checking the untouched-on-failure
/// rule and the per-transaction predicates.
struct InventoryTransactionTester {
    transactions: Vec<(InventoryTransaction, Predicate)>,
    targets: Vec<Box<dyn Fn() -> Inventory>>,
}

impl InventoryTransactionTester {
    fn new() -> Self {
        InventoryTransactionTester { transactions: Vec::new(), targets: Vec::new() }
    }

    fn transaction(
        mut self,
        txn: InventoryTransaction,
        pred: impl Fn(&Inventory, &Inventory) -> Result<(), String> + 'static,
    ) -> Self {
        self.transactions.push((txn, Box::new(pred)));
        self
    }

    fn target(mut self, f: impl Fn() -> Inventory + 'static) -> Self {
        self.targets.push(Box::new(f));
        self
    }

    fn test(self) {
        for (txn, pred) in &self.transactions {
            for target_fn in &self.targets {
                let before = target_fn();
                let mut target = target_fn();
                let mut outputs: Vec<InventoryChange> = Vec::new();
                match txn.execute(&mut target, &mut outputs) {
                    Ok(()) => {
                        if let Err(e) = pred(&before, &target) {
                            panic!("transaction predicate failed: {e}");
                        }
                    }
                    Err(ExecuteError::Check(_)) => {
                        assert_eq!(before, target, "failed check must not mutate the target");
                        assert!(outputs.is_empty());
                    }
                    Err(ExecuteError::Commit(_)) => {
                        panic!("commit must not fail after a successful check");
                    }
                }
            }
        }
        for (ta, pred_a) in &self.transactions {
            for (tb, pred_b) in &self.transactions {
                let merged = match ta.clone().merge(tb.clone()) {
                    Ok(m) => m,
                    Err(_) => continue,
                };
                for target_fn in &self.targets {
                    let before = target_fn();
                    let mut target = target_fn();
                    let mut outputs: Vec<InventoryChange> = Vec::new();
                    match merged.execute(&mut target, &mut outputs) {
                        Ok(()) => {
                            if let Err(e) = pred_a(&before, &target) {
                                panic!("merged predicate (first) failed: {e}");
                            }
                            if let Err(e) = pred_b(&before, &target) {
                                panic!("merged predicate (second) failed: {e}");
                            }
                        }
                        Err(ExecuteError::Check(_)) => {
                            assert_eq!(before, target);
                        }
                        Err(ExecuteError::Commit(_)) => {
                            panic!("commit must not fail after a successful check");
                        }
                    }
                }
            }
        }
    }
}

#[test]
fn txn_identity_no_notification() {
    let mut inventory = Inventory::from_slots(vec![Slot::Empty]);
    let mut outputs: Vec<InventoryChange> = Vec::new();
    InventoryTransaction::default().execute(&mut inventory, &mut outputs).unwrap();
    assert!(outputs.is_empty(), "shouldn't notify");
}

#[test]
fn txn_insert_empty_list() {
    assert_eq!(InventoryTransaction::insert(vec![]), InventoryTransaction::default());
}

#[test]
fn txn_insert_filtered_empty() {
    assert_eq!(
        InventoryTransaction::insert(vec![Slot::Empty, Slot::Empty]),
        InventoryTransaction::default()
    );
}

#[test]
fn txn_insert_success() {
    let occupied_slot: Slot = Slot::one(Tool::CopyFromSpace);
    let mut inventory = Inventory::from_slots(vec![
        occupied_slot,
        occupied_slot,
        Slot::Empty,
        occupied_slot,
        Slot::Empty,
    ]);
    let new_item = Tool::InfiniteBlocks(Block::from_color(Rgba::new(255, 255, 255, 255)));
    assert_eq!(inventory.slots[2], Slot::Empty);

    let mut outputs: Vec<InventoryChange> = Vec::new();
    InventoryTransaction::insert(vec![Slot::one(new_item)])
        .execute(&mut inventory, &mut outputs)
        .unwrap();

    assert_eq!(outputs, vec![InventoryChange { slots: vec![2] }]);
    assert_eq!(inventory.slots[2], Slot::one(new_item));
}

#[test]
fn txn_insert_no_space() {
    let contents = vec![Slot::one(Tool::CopyFromSpace), Slot::one(Tool::CopyFromSpace)];
    let inventory = Inventory::from_slots(contents.clone());
    let new_item = Tool::InfiniteBlocks(Block::from_color(Rgba::new(255, 255, 255, 255)));

    assert_eq!(inventory.slots, contents);
    InventoryTransaction::insert(vec![Slot::one(new_item)])
        .check(&inventory)
        .expect_err("should have failed");
    assert_eq!(inventory.slots, contents);
}

#[test]
fn txn_insert_into_existing_stack() {
    let blocks = make_some_blocks(2);
    let this = Tool::Block(blocks[0]);
    let other = Tool::Block(blocks[1]);
    let mut inventory = Inventory::from_slots(vec![
        Slot::stack(10, other),
        Slot::stack(10, this),
        Slot::stack(10, other),
        Slot::stack(10, this),
        Slot::Empty,
    ]);
    let mut outputs: Vec<InventoryChange> = Vec::new();
    InventoryTransaction::insert(vec![Slot::one(this)])
        .execute(&mut inventory, &mut outputs)
        .unwrap();
    assert_eq!(
        inventory.slots,
        vec![
            Slot::stack(10, other),
            Slot::stack(11, this),
            Slot::stack(10, other),
            Slot::stack(10, this),
            Slot::Empty,
        ]
    );
}

#[test]
fn txn_systematic() {
    let old_item = Tool::InfiniteBlocks(Block::from_color(Rgba::new(255, 0, 0, 255)));
    let new_item_1 = Tool::InfiniteBlocks(Block::from_color(Rgba::new(0, 255, 0, 255)));
    let new_item_2 = Tool::InfiniteBlocks(Block::from_color(Rgba::new(0, 0, 255, 255)));

    InventoryTransactionTester::new()
        .transaction(
            InventoryTransaction::insert(vec![Slot::one(new_item_1)]),
            move |before, after| {
                if after.count_of(&new_item_1) <= before.count_of(&new_item_1) {
                    return Err("missing added new_item_1".into());
                }
                Ok(())
            },
        )
        .transaction(
            InventoryTransaction::replace(0, Slot::one(old_item), Slot::one(new_item_1)),
            move |_, after| {
                if after.slots[0].count_of(&old_item) != 0 {
                    return Err("did not replace old_item".into());
                }
                if after.slots[0].count_of(&new_item_1) == 0 {
                    return Err("did not insert new_item_1".into());
                }
                Ok(())
            },
        )
        .transaction(
            // This one conflicts with the above one
            InventoryTransaction::replace(0, Slot::one(old_item), Slot::one(new_item_2)),
            move |_, after| {
                if after.slots[0].count_of(&old_item) != 0 {
                    return Err("did not replace old_item".into());
                }
                if after.slots[0].count_of(&new_item_2) == 0 {
                    return Err("did not insert new_item_2".into());
                }
                Ok(())
            },
        )
        .target(|| Inventory::from_slots(vec![]))
        .target(|| Inventory::from_slots(vec![Slot::Empty]))
        .target(|| Inventory::from_slots(vec![Slot::Empty; 10]))
        .target(move || Inventory::from_slots(vec![Slot::one(old_item), Slot::Empty]))
        .test();
}

#[test]
fn slot_unload_systematic() {
    let blocks = make_some_blocks(2);
    let tools = [
        Tool::Block(blocks[0]),
        Tool::Block(blocks[1]),
        Tool::Activate, // not stackable
    ];
    const MAX: u16 = u16::MAX;
    let counts = [0, 1, 2, 3, 10, MAX / 2, MAX / 2 + 1, MAX - 10, MAX - 2, MAX - 1, MAX];
    let mut gen_slots: Vec<Slot> = Vec::new();
    for count in counts {
        for tool in tools {
            gen_slots.push(Slot::stack(count, tool));
        }
    }
    for &slot1_in in &gen_slots {
        for &slot2_in in &gen_slots {
            let different = matches!(
                (slot1_in, slot2_in),
                (Slot::Stack(_, i1), Slot::Stack(_, i2)) if i1 != i2
            );

            let mut slot1_out = slot1_in;
            let mut slot2_out = slot2_in;
            slot1_out.unload_to(&mut slot2_out);

            assert_eq!(
                u64::from(slot1_in.count()) + u64::from(slot2_in.count()),
                u64::from(slot1_out.count()) + u64::from(slot2_out.count()),
                "not conservative"
            );
            if different {
                assert_eq!(
                    (slot1_in, slot2_in),
                    (slot1_out, slot2_out),
                    "combined different items"
                );
            }
        }
    }
}

/// A replacement whose required old value does not match fails, naming the
/// slot at fault, and changes nothing.
#[test]
fn check_failure_names_slot() {
    let x = Tool::InfiniteBlocks(Block::from_color(Rgba::new(10, 10, 10, 255)));
    let y = Tool::InfiniteBlocks(Block::from_color(Rgba::new(20, 20, 20, 255)));
    let inventory = Inventory::from_slots(vec![Slot::one(x), Slot::one(x), Slot::one(x)]);
    let before = inventory.clone();
    let txn = InventoryTransaction::replace(0, Slot::one(y), Slot::Empty);
    let e = txn.check(&inventory).unwrap_err();
    assert_eq!(e.location, "Inventory");
    assert_eq!(e.problem, "old slot not as expected");
    assert_eq!(e.key, Some(0));
    assert_eq!(inventory, before);
}
