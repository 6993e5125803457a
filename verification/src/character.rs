//! Characters: members that stand in a space and carry an inventory.

use vstd::prelude::*;

use crate::inv::{Inventory, InventoryChange, InventoryCheck, InventoryTransaction};
use crate::space::Space;
use crate::transaction::{CommitError, ExecuteError, PreconditionFailed, TransactionConflict};
use crate::uref::{ErasedRef, URef};

verus! {

/// A member representing an agent in the world: a reference to the space it
/// stands in, and the inventory it carries.
#[derive(Debug)]
pub struct Character {
    /// The identity of the space this character inhabits. Recording it here
    /// keeps that space alive across garbage collection.
    pub space: ErasedRef,
    /// The items the character carries.
    pub inventory: Inventory,
}

impl Clone for Character {
    /// Clones reproduce the character exactly, up to the inventory contents.
    fn clone(&self) -> (r: Self)
        ensures
            r.space == self.space,
            r.inventory.slots@ == self.inventory.slots@,
    {
        Character { space: self.space, inventory: self.inventory.clone() }
    }
}

impl Character {
    /// A character standing in the given space, carrying `inventory`.
    pub fn new(space: &URef<Space>, inventory: Inventory) -> (c: Character)
        ensures
            c.space.universe_id == space.universe_id_spec(),
            c.space.index == space.index_spec(),
            c.inventory == inventory,
    {
        Character { space: space.erase(), inventory }
    }
}

/// Transaction type for [`Character`]: at present, edits of its inventory.
#[derive(Debug, PartialEq)]
pub struct CharacterTransaction {
    inventory: InventoryTransaction,
}

impl Clone for CharacterTransaction {
    /// Clones reproduce the transaction exactly.
    fn clone(&self) -> (r: Self)
        ensures
            r.inventory_spec().replace_seq() == self.inventory_spec().replace_seq(),
            r.inventory_spec().insert_seq() == self.inventory_spec().insert_seq(),
    {
        CharacterTransaction { inventory: self.inventory.clone() }
    }
}

impl Default for CharacterTransaction {
    /// The empty transaction.
    fn default() -> (r: Self)
        ensures
            r.inventory_spec().replace_seq() == Seq::<(usize, (crate::inv::Slot, crate::inv::Slot))>::empty(),
            r.inventory_spec().insert_seq() == Seq::<crate::inv::Slot>::empty(),
            r.wf(),
    {
        CharacterTransaction { inventory: InventoryTransaction::default() }
    }
}

impl CharacterTransaction {
    /// The inventory edit this transaction performs.
    pub closed spec fn inventory_spec(self) -> InventoryTransaction {
        self.inventory
    }

    /// Validity of the underlying inventory edit.
    pub open spec fn wf(self) -> bool {
        self.inventory_spec().wf()
    }

    /// A transaction performing the given inventory edit.
    pub fn inventory(t: InventoryTransaction) -> (r: Self)
        ensures
            r.inventory_spec() == t,
    {
        CharacterTransaction { inventory: t }
    }

    /// Validate against the character without modifying anything; succeeds
    /// exactly when the inventory edit applies to the character's inventory.
    pub fn check(&self, character: &Character) -> (r: Result<
        Option<InventoryCheck>,
        PreconditionFailed,
    >)
        requires
            self.wf(),
            character.inventory.wf(),
        ensures
            r is Ok <==> self.inventory_spec().spec_check(character.inventory.slots@) is Some,
            r matches Ok(t) ==> self.inventory_spec().token_matches(
                character.inventory.slots@,
                t,
            ),
    {
        self.inventory.check(&character.inventory)
    }

    /// Apply the edits; see [`InventoryTransaction::commit`].
    pub fn commit(
        &self,
        character: &mut Character,
        check: Option<InventoryCheck>,
        outputs: &mut Vec<InventoryChange>,
    ) -> (r: Result<(), CommitError>)
        requires
            self.wf(),
            old(character).inventory.wf(),
            self.inventory_spec().spec_check(old(character).inventory.slots@) is Some,
            self.inventory_spec().token_matches(old(character).inventory.slots@, check),
        ensures
            r is Ok,
            final(character).space == old(character).space,
            final(character).inventory.wf(),
            final(character).inventory.slots@ == self.inventory_spec().applied_slots(
                old(character).inventory.slots@,
            ),
            self.inventory_spec().is_empty_spec() ==> final(outputs)@ == old(outputs)@,
            !self.inventory_spec().is_empty_spec() ==> {
                &&& final(outputs)@.len() == old(outputs)@.len() + 1
                &&& final(outputs)@.take(old(outputs)@.len() as int) == old(outputs)@
                &&& final(outputs)@.last().slots@ == self.inventory_spec().spec_check(
                    old(character).inventory.slots@,
                )->Some_0.1
            },
    {
        self.inventory.commit(&mut character.inventory, check, outputs)
    }

    /// Run `check` then `commit`; on failure nothing is modified.
    pub fn execute(&self, character: &mut Character, outputs: &mut Vec<InventoryChange>) -> (r:
        Result<(), ExecuteError>)
        requires
            self.wf(),
            old(character).inventory.wf(),
        ensures
            r is Ok <==> self.inventory_spec().spec_check(old(character).inventory.slots@)
                is Some,
            final(character).space == old(character).space,
            final(character).inventory.wf(),
            r is Ok ==> final(character).inventory.slots@ == self.inventory_spec().applied_slots(
                old(character).inventory.slots@,
            ),
            r is Err ==> final(character).inventory.slots@ == old(character).inventory.slots@
                && final(outputs)@ == old(outputs)@,
    {
        match self.check(character) {
            Err(e) => Err(ExecuteError::Check(e)),
            Ok(token) => {
                match self.commit(character, token, outputs) {
                    Ok(()) => Ok(()),
                    Err(e) => Err(ExecuteError::Commit(e)),
                }
            },
        }
    }

    /// Detect whether two character transactions conflict: they do exactly
    /// when their inventory edits do.
    pub fn check_merge(&self, other: &CharacterTransaction) -> (r: Result<
        (),
        TransactionConflict,
    >)
        requires
            self.wf(),
            other.wf(),
        ensures
            r is Ok <==> self.inventory_spec().compatible_with(other.inventory_spec()),
    {
        self.inventory.check_merge(&other.inventory)
    }

    /// Combine two character transactions previously proven compatible.
    pub fn commit_merge(self, other: Self, check: ()) -> (r: Self)
        requires
            self.wf(),
            other.wf(),
            self.inventory_spec().compatible_with(other.inventory_spec()),
        ensures
            r.wf(),
            r.inventory_spec().replace_seq() == self.inventory_spec().replace_seq()
                + other.inventory_spec().replace_seq(),
            r.inventory_spec().insert_seq() == self.inventory_spec().insert_seq()
                + other.inventory_spec().insert_seq(),
    {
        CharacterTransaction { inventory: self.inventory.commit_merge(other.inventory, ()) }
    }
}

} // verus!
