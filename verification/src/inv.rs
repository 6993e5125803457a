//! Inventories: fixed-size rows of slots holding stacks of identical tools,
//! and the keyed-slot transaction type that edits them.

use vstd::prelude::*;

use crate::block::Block;
use crate::transaction::{
    kv_has, kv_lookup, kv_unique, lemma_kv_lookup_at, lemma_kv_lookup_index,
    lemma_kv_lookup_push, CommitError, ExecuteError, PreconditionFailed, TransactionConflict,
};

verus! {

/// An item that may be kept in an inventory slot and used.
#[derive(Clone, Copy, Debug, PartialEq, Eq, Hash, Structural)]
pub enum Tool {
    /// Activates whatever it is pointed at; never stacks.
    Activate,
    /// Copies blocks out of a space.
    CopyFromSpace,
    /// A placeable block, consumed on use.
    Block(Block),
    /// An endless supply of the given block.
    InfiniteBlocks(Block),
}

/// Limit on how many copies of one tool may share a slot.
#[derive(Clone, Copy, Debug, PartialEq, Eq, Hash, Structural)]
pub enum StackLimit {
    One,
    Standard,
}

impl StackLimit {
    /// The numeric limit this symbolic limit currently denotes.
    pub fn get(self) -> (n: u16)
        ensures
            n == self.get_spec(),
    {
        match self {
            StackLimit::One => 1,
            StackLimit::Standard => 100,
        }
    }

    /// What [`StackLimit::get`] returns.
    pub open spec fn get_spec(self) -> int {
        match self {
            StackLimit::One => 1,
            StackLimit::Standard => 100,
        }
    }
}

impl Tool {
    /// How many copies of this tool may share one slot.
    pub fn stack_limit(&self) -> (l: StackLimit)
        ensures
            l.get_spec() == self.stack_limit_spec(),
    {
        match self {
            Tool::Activate => StackLimit::One,
            Tool::CopyFromSpace => StackLimit::Standard,
            Tool::Block(_) => StackLimit::Standard,
            Tool::InfiniteBlocks(_) => StackLimit::Standard,
        }
    }

    /// The per-slot count limit for this tool.
    pub open spec fn stack_limit_spec(self) -> int {
        match self {
            Tool::Activate => 1,
            _ => 100,
        }
    }
}

/// One inventory slot: either empty or a stack of one or more identical
/// tools.
#[derive(Clone, Copy, Debug, PartialEq, Eq, Hash, Structural)]
pub enum Slot {
    /// The slot holds nothing.
    Empty,
    /// The slot holds the given number of copies of the given tool.
    Stack(u16, Tool),
}

impl Slot {
    /// Validity: a stack never records a zero count.
    pub open spec fn wf(self) -> bool {
        self matches Slot::Stack(c, _) ==> c >= 1
    }

    /// The number of items in the slot.
    pub open spec fn count_spec(self) -> int {
        match self {
            Slot::Empty => 0,
            Slot::Stack(c, _) => c as int,
        }
    }

    /// What [`Slot::stack`] returns: `count` copies of `tool`, normalizing a
    /// zero count to an empty slot.
    pub open spec fn stack_spec(count: u16, tool: Tool) -> Slot {
        if count == 0 {
            Slot::Empty
        } else {
            Slot::Stack(count, tool)
        }
    }

    /// A slot holding `count` copies of `tool`; an empty slot if `count` is
    /// zero, in which case the tool is ignored.
    pub fn stack(count: u16, tool: Tool) -> (s: Slot)
        ensures
            s == Self::stack_spec(count, tool),
            s.wf(),
    {
        if count == 0 {
            Slot::Empty
        } else {
            Slot::Stack(count, tool)
        }
    }

    /// A slot holding exactly one copy of `tool`.
    pub fn one(tool: Tool) -> (s: Slot)
        ensures
            s == Slot::Stack(1u16, tool),
            s.wf(),
    {
        Slot::Stack(1, tool)
    }

    /// The number of items in the slot.
    pub fn count(&self) -> (n: u16)
        ensures
            n == self.count_spec(),
    {
        match self {
            Slot::Empty => 0,
            Slot::Stack(c, _) => *c,
        }
    }

    /// The number of copies of `item` in this slot.
    pub fn count_of(&self, item: &Tool) -> (n: u16)
        ensures
            n == self.count_of_spec(*item),
    {
        match self {
            Slot::Stack(c, t) => if t == item {
                *c
            } else {
                0
            },
            Slot::Empty => 0,
        }
    }

    /// What [`Slot::count_of`] returns.
    pub open spec fn count_of_spec(self, item: Tool) -> int {
        match self {
            Slot::Stack(c, t) => if t == item {
                c as int
            } else {
                0
            },
            Slot::Empty => 0,
        }
    }

    /// The pair of slots that results from moving as many items as stacking
    /// rules allow from `src` into `dst`. Slots holding different tools, and
    /// destinations already at or over their limit, are left unchanged.
    pub open spec fn unload_spec(src: Slot, dst: Slot) -> (Slot, Slot) {
        match (src, dst) {
            (Slot::Empty, _) => (src, dst),
            (Slot::Stack(_, _), Slot::Empty) => (Slot::Empty, src),
            (Slot::Stack(sc, si), Slot::Stack(dc, di)) => {
                if si != di {
                    (src, dst)
                } else {
                    let limit = si.stack_limit_spec();
                    let room = if dc < limit {
                        limit - dc
                    } else {
                        0
                    };
                    let moved = if sc <= room {
                        sc as int
                    } else {
                        room
                    };
                    if moved == 0 {
                        (src, dst)
                    } else {
                        (
                            Self::stack_spec((sc - moved) as u16, si),
                            Slot::Stack((dc + moved) as u16, di),
                        )
                    }
                }
            },
        }
    }

    /// Move as many items as possible from `self` to `destination` while
    /// obeying item stacking rules. Does nothing if the two slots hold
    /// different tools. Returns whether anything moved; the total number of
    /// items is always conserved.
    pub fn unload_to(&mut self, destination: &mut Slot) -> (r: bool)
        requires
            old(self).wf(),
            old(destination).wf(),
        ensures
            final(self).wf(),
            final(destination).wf(),
            (*final(self), *final(destination)) == Slot::unload_spec(
                *old(self),
                *old(destination),
            ),
            r == ((*final(self), *final(destination)) != (*old(self), *old(destination))),
            final(self).count_spec() + final(destination).count_spec() == old(self).count_spec()
                + old(destination).count_spec(),
    {
        let src: Slot = *self;
        let dst: Slot = *destination;
        match (src, dst) {
            (Slot::Empty, _) => false,
            (Slot::Stack(_, _), Slot::Empty) => {
                *destination = src;
                *self = Slot::Empty;
                true
            },
            (Slot::Stack(sc, si), Slot::Stack(dc, di)) => {
                if si != di {
                    return false;
                }
                let limit: u16 = si.stack_limit().get();
                let room: u16 = if dc < limit {
                    limit - dc
                } else {
                    0
                };
                let moved: u16 = if sc <= room {
                    sc
                } else {
                    room
                };
                if moved == 0 {
                    return false;
                }
                *self = Slot::stack(sc - moved, si);
                *destination = Slot::Stack(dc + moved, di);
                true
            },
        }
    }
}

/// A collection of tools in numbered slots.
///
/// An `Inventory` delivers no change notifications of its own; its
/// transaction's commit reports an [`InventoryChange`] which the owner is
/// responsible for forwarding.
#[derive(Debug, PartialEq, Eq, Hash)]
pub struct Inventory {
    /// The slots, in order. The number of slots never changes through
    /// ordinary user actions.
    pub slots: Vec<Slot>,
}

impl Clone for Inventory {
    /// Clones reproduce the inventory exactly.
    fn clone(&self) -> (r: Self)
        ensures
            r.slots@ == self.slots@,
    {
        Inventory { slots: clone_slots(&self.slots) }
    }
}

/// Copy a slot vector. Slots are plain values, so the copy is exact.
fn clone_slots(v: &Vec<Slot>) -> (r: Vec<Slot>)
    ensures
        r@ == v@,
{
    let n: usize = v.len();
    let mut r: Vec<Slot> = Vec::new();
    let mut i: usize = 0;
    while i < n
        invariant
            n == v@.len(),
            i <= n,
            r@ == v@.take(i as int),
        decreases n - i,
    {
        r.push(v[i]);
        proof {
            assert(r@ =~= v@.take(i + 1));
        }
        i = i + 1;
    }
    proof {
        assert(v@.take(n as int) =~= v@);
    }
    r
}

/// An unload changes the slot pair exactly when it changes the destination
/// slot: whenever items move, the destination's count grows.
proof fn lemma_unload_changed(src: Slot, dst: Slot)
    requires
        src.wf(),
        dst.wf(),
    ensures
        (Slot::unload_spec(src, dst) != (src, dst)) <==> (Slot::unload_spec(src, dst).1 != dst),
{
}

/// Total count of `item` over a sequence of slots.
pub open spec fn count_of_seq(s: Seq<Slot>, item: Tool) -> int
    decreases s.len(),
{
    if s.len() == 0 {
        0
    } else {
        s[0].count_of_spec(item) + count_of_seq(s.drop_first(), item)
    }
}

proof fn lemma_count_of_seq_push(s: Seq<Slot>, e: Slot, item: Tool)
    ensures
        count_of_seq(s.push(e), item) == count_of_seq(s, item) + e.count_of_spec(item),
    decreases s.len(),
{
    if s.len() == 0 {
        assert(s.push(e)[0] == e);
        assert(s.push(e).drop_first() =~= Seq::<Slot>::empty());
        assert(count_of_seq(Seq::<Slot>::empty(), item) == 0);
    } else {
        assert(s.push(e)[0] == s[0]);
        assert(s.push(e).drop_first() =~= s.drop_first().push(e));
        lemma_count_of_seq_push(s.drop_first(), e, item);
    }
}

/// Validity of a slot row: every slot is a valid slot value.
pub open spec fn slots_wf(slots: Seq<Slot>) -> bool {
    forall|i: int| 0 <= i < slots.len() ==> (#[trigger] slots[i]).wf()
}

impl Inventory {
    /// Validity: every slot is a valid slot value.
    pub open spec fn wf(self) -> bool {
        slots_wf(self.slots@)
    }

    /// An inventory with the given number of slots, all empty.
    pub fn new(size: usize) -> (inv: Inventory)
        ensures
            inv.wf(),
            inv.slots@.len() == size,
            forall|i: int| 0 <= i < size ==> inv.slots@[i] == Slot::Empty,
    {
        let mut slots: Vec<Slot> = Vec::new();
        let mut i: usize = 0;
        while i < size
            invariant
                i <= size,
                slots@.len() == i,
                forall|j: int| 0 <= j < i ==> slots@[j] == Slot::Empty,
            decreases size - i,
        {
            slots.push(Slot::Empty);
            i = i + 1;
        }
        Inventory { slots }
    }

    /// An inventory holding exactly the given slots.
    pub fn from_slots(items: Vec<Slot>) -> (inv: Inventory)
        ensures
            inv.slots@ == items@,
    {
        Inventory { slots: items }
    }

    /// The total count of `item` over all slots.
    ///
    /// The slot count limit bounds this by `65535` per slot; inventories are
    /// kept small enough that the sum fits a `u32`.
    pub fn count_of(&self, item: &Tool) -> (n: u32)
        requires
            self.slots@.len() <= 65537,
        ensures
            n == count_of_seq(self.slots@, *item),
    {
        let len: usize = self.slots.len();
        let mut n: u32 = 0;
        let mut i: usize = 0;
        while i < len
            invariant
                len == self.slots@.len(),
                len <= 65537,
                i <= len,
                n == count_of_seq(self.slots@.take(i as int), *item),
                n <= i * 65535,
            decreases len - i,
        {
            let c: u16 = self.slots[i].count_of(item);
            proof {
                assert(self.slots@.take(i + 1) =~= self.slots@.take(i as int).push(
                    self.slots@[i as int],
                ));
                lemma_count_of_seq_push(self.slots@.take(i as int), self.slots@[i as int], *item);
            }
            n = n + c as u32;
            i = i + 1;
        }
        proof {
            assert(self.slots@.take(len as int) =~= self.slots@);
        }
        n
    }
}

/// Transaction type for [`Inventory`]: explicit per-slot replacements plus a
/// list of stacks to distribute into whatever slots can accept them.
///
/// Committing reports an [`InventoryChange`] naming the affected slots, which
/// the inventory's owner forwards, if any change was made at all.
#[derive(Debug, PartialEq)]
pub struct InventoryTransaction {
    replace: Vec<(usize, (Slot, Slot))>,
    insert: Vec<Slot>,
}

/// Token produced by a successful [`InventoryTransaction::check`], carrying
/// the fully computed new slot row so the commit does not redo the work.
#[derive(Debug)]
pub struct InventoryCheck {
    new: Vec<Slot>,
    change: InventoryChange,
}

/// Description of a change to an [`Inventory`], for delivery to listeners.
#[derive(Clone, Debug, PartialEq, Eq, Hash)]
pub struct InventoryChange {
    /// Which slots of the inventory were changed, in the order the
    /// transaction touched them.
    pub slots: Vec<usize>,
}

impl Clone for InventoryTransaction {
    /// Clones reproduce the transaction exactly.
    fn clone(&self) -> (r: Self)
        ensures
            r.replace_seq() == self.replace_seq(),
            r.insert_seq() == self.insert_seq(),
    {
        let n: usize = self.replace.len();
        let mut replace: Vec<(usize, (Slot, Slot))> = Vec::new();
        let mut i: usize = 0;
        while i < n
            invariant
                n == self.replace_seq().len(),
                i <= n,
                replace@ == self.replace_seq().take(i as int),
            decreases n - i,
        {
            replace.push(self.replace[i]);
            proof {
                assert(replace@ =~= self.replace_seq().take(i + 1));
            }
            i = i + 1;
        }
        proof {
            assert(self.replace_seq().take(n as int) =~= self.replace_seq());
        }
        InventoryTransaction { replace, insert: clone_slots(&self.insert) }
    }
}

impl Default for InventoryTransaction {
    /// The empty transaction: nothing to check, nothing to apply.
    fn default() -> (r: Self)
        ensures
            r.replace_seq() == Seq::<(usize, (Slot, Slot))>::empty(),
            r.insert_seq() == Seq::<Slot>::empty(),
            r.wf(),
    {
        InventoryTransaction { replace: Vec::new(), insert: Vec::new() }
    }
}

/// The subsequence of nonempty stacks, in order.
pub open spec fn kept_slots(s: Seq<Slot>) -> Seq<Slot>
    decreases s.len(),
{
    if s.len() == 0 {
        Seq::<Slot>::empty()
    } else {
        (if s[0].count_spec() >= 1 {
            seq![s[0]]
        } else {
            Seq::<Slot>::empty()
        }) + kept_slots(s.drop_first())
    }
}

proof fn lemma_kept_slots_push(s: Seq<Slot>, e: Slot)
    ensures
        kept_slots(s.push(e)) == kept_slots(s) + (if e.count_spec() >= 1 {
            seq![e]
        } else {
            Seq::<Slot>::empty()
        }),
    decreases s.len(),
{
    let tail: Seq<Slot> = if e.count_spec() >= 1 {
        seq![e]
    } else {
        Seq::<Slot>::empty()
    };
    if s.len() == 0 {
        assert(s.push(e)[0] == e);
        assert(s.push(e).drop_first() =~= Seq::<Slot>::empty());
        assert(kept_slots(Seq::<Slot>::empty()) =~= Seq::<Slot>::empty());
        assert(kept_slots(s.push(e)) =~= tail);
        assert(kept_slots(s) + tail =~= tail);
    } else {
        assert(s.push(e)[0] == s[0]);
        assert(s.push(e).drop_first() =~= s.drop_first().push(e));
        lemma_kept_slots_push(s.drop_first(), e);
        assert((if s[0].count_spec() >= 1 {
            seq![s[0]]
        } else {
            Seq::<Slot>::empty()
        }) + (kept_slots(s.drop_first()) + tail) =~= kept_slots(s) + tail);
    }
}

impl InventoryTransaction {
    /// The explicit replacements: slot index to (required old, new) pair.
    pub closed spec fn replace_seq(self) -> Seq<(usize, (Slot, Slot))> {
        self.replace@
    }

    /// The stacks to distribute into free capacity.
    pub closed spec fn insert_seq(self) -> Seq<Slot> {
        self.insert@
    }

    /// Validity: each slot index is replaced at most once, and every stored
    /// slot value is valid; insertion stacks are nonempty.
    pub open spec fn wf(self) -> bool {
        &&& kv_unique(self.replace_seq())
        &&& forall|i: int|
            0 <= i < self.replace_seq().len() ==> (#[trigger] self.replace_seq()[i]).1.0.wf() && (
            self.replace_seq()[i]).1.1.wf()
        &&& forall|i: int|
            0 <= i < self.insert_seq().len() ==> (#[trigger] self.insert_seq()[i]).wf() && (
            self.insert_seq()[i]).count_spec() >= 1
    }

    /// Whether the transaction does nothing at all.
    pub open spec fn is_empty_spec(self) -> bool {
        self.replace_seq().len() == 0 && self.insert_seq().len() == 0
    }

    /// Transaction to insert stacks into an inventory; empty stacks are
    /// dropped. The check fails if there is not sufficient space.
    pub fn insert(stacks: Vec<Slot>) -> (r: Self)
        requires
            forall|i: int| 0 <= i < stacks@.len() ==> (#[trigger] stacks@[i]).wf(),
        ensures
            r.wf(),
            r.replace_seq() == Seq::<(usize, (Slot, Slot))>::empty(),
            r.insert_seq() == kept_slots(stacks@),
    {
        let n: usize = stacks.len();
        let mut insert: Vec<Slot> = Vec::new();
        let mut i: usize = 0;
        while i < n
            invariant
                n == stacks@.len(),
                i <= n,
                forall|j: int| 0 <= j < stacks@.len() ==> (#[trigger] stacks@[j]).wf(),
                insert@ == kept_slots(stacks@.take(i as int)),
                forall|j: int|
                    0 <= j < insert@.len() ==> (#[trigger] insert@[j]).wf() && (
                    insert@[j]).count_spec() >= 1,
            decreases n - i,
        {
            let s: Slot = stacks[i];
            proof {
                assert(stacks@.take(i + 1) =~= stacks@.take(i as int).push(stacks@[i as int]));
                lemma_kept_slots_push(stacks@.take(i as int), stacks@[i as int]);
            }
            if s.count() > 0 {
                insert.push(s);
            }
            proof {
                assert(insert@ =~= kept_slots(stacks@.take(i + 1)));
            }
            i = i + 1;
        }
        proof {
            assert(stacks@.take(n as int) =~= stacks@);
        }
        InventoryTransaction { replace: Vec::new(), insert }
    }

    /// Transaction to replace the contents of one existing slot, failing if
    /// the slot does not currently hold exactly `old_slot`.
    pub fn replace(slot: usize, old_slot: Slot, new_slot: Slot) -> (r: Self)
        requires
            old_slot.wf(),
            new_slot.wf(),
        ensures
            r.wf(),
            r.replace_seq() =~= seq![(slot, (old_slot, new_slot))],
            r.insert_seq() == Seq::<Slot>::empty(),
    {
        let mut replace: Vec<(usize, (Slot, Slot))> = Vec::new();
        replace.push((slot, (old_slot, new_slot)));
        InventoryTransaction { replace, insert: Vec::new() }
    }

    /// Apply the explicit replacements in order: each names a slot that must
    /// currently hold the given old value, which is replaced by the new one.
    /// Yields the new slot row and the replaced indices, or `None` on any
    /// out-of-bounds index or value mismatch.
    pub open spec fn apply_replaces(
        rs: Seq<(usize, (Slot, Slot))>,
        slots: Seq<Slot>,
    ) -> Option<(Seq<Slot>, Seq<usize>)>
        decreases rs.len(),
    {
        if rs.len() == 0 {
            Some((slots, Seq::<usize>::empty()))
        } else {
            let idx = rs[0].0;
            if idx < slots.len() && slots[idx as int] == rs[0].1.0 {
                match Self::apply_replaces(rs.drop_first(), slots.update(idx as int, rs[0].1.1)) {
                    Some(t) => Some((t.0, seq![idx] + t.1)),
                    None => None,
                }
            } else {
                None
            }
        }
    }

    /// Distribute one stack over the slots from position `base` onward,
    /// unloading into each in turn. Yields the new slots, the undistributed
    /// remainder, and the indices of the slots that changed.
    pub open spec fn place_stack(slots: Seq<Slot>, stack: Slot, base: int) -> (
        Seq<Slot>,
        Slot,
        Seq<usize>,
    )
        decreases slots.len(),
    {
        if slots.len() == 0 {
            (slots, stack, Seq::<usize>::empty())
        } else {
            let u = Slot::unload_spec(stack, slots[0]);
            let t = Self::place_stack(slots.drop_first(), u.0, base + 1);
            (
                seq![u.1] + t.0,
                t.1,
                (if u.1 != slots[0] {
                    seq![base as usize]
                } else {
                    Seq::<usize>::empty()
                }) + t.2,
            )
        }
    }

    /// Distribute each insertion stack in turn; every stack must be placed
    /// completely or the whole distribution fails.
    pub open spec fn place_all(ins: Seq<Slot>, slots: Seq<Slot>) -> Option<(Seq<Slot>, Seq<usize>)>
        decreases ins.len(),
    {
        if ins.len() == 0 {
            Some((slots, Seq::<usize>::empty()))
        } else {
            let t = Self::place_stack(slots, ins[0], 0);
            if t.1.count_spec() == 0 {
                match Self::place_all(ins.drop_first(), t.0) {
                    Some(u) => Some((u.0, t.2 + u.1)),
                    None => None,
                }
            } else {
                None
            }
        }
    }

    /// The full simulated application of this transaction to a slot row:
    /// replacements first, then distribution of the insertion stacks.
    /// `None` means the transaction is not applicable.
    pub open spec fn spec_check(self, slots: Seq<Slot>) -> Option<(Seq<Slot>, Seq<usize>)> {
        match Self::apply_replaces(self.replace_seq(), slots) {
            Some(t) => match Self::place_all(self.insert_seq(), t.0) {
                Some(u) => Some((u.0, t.1 + u.1)),
                None => None,
            },
            None => None,
        }
    }

    /// The slot row this transaction produces when applicable.
    pub open spec fn applied_slots(self, slots: Seq<Slot>) -> Seq<Slot>
        recommends
            self.spec_check(slots) is Some,
    {
        match self.spec_check(slots) {
            Some(t) => t.0,
            None => slots,
        }
    }

    /// Whether `token` is the token a successful `check` of this transaction
    /// against the given slot row produces.
    pub closed spec fn token_matches(
        self,
        slots: Seq<Slot>,
        token: Option<InventoryCheck>,
    ) -> bool {
        if self.is_empty_spec() {
            token is None
        } else {
            match (self.spec_check(slots), token) {
                (Some(t), Some(c)) => c.new@ == t.0 && c.change.slots@ == t.1 && slots_wf(
                    c.new@,
                ),
                _ => false,
            }
        }
    }

    /// Validate this transaction against `inventory` without modifying it.
    ///
    /// Succeeds exactly when the simulated application succeeds: every
    /// replacement names an in-range slot holding the required value, and
    /// every insertion stack finds enough capacity. On success the token
    /// holds the fully computed new slot row.
    pub fn check(&self, inventory: &Inventory) -> (r: Result<
        Option<InventoryCheck>,
        PreconditionFailed,
    >)
        requires
            self.wf(),
            inventory.wf(),
        ensures
            r is Ok <==> self.spec_check(inventory.slots@) is Some,
            r matches Ok(t) ==> self.token_matches(inventory.slots@, t),
            r matches Err(e) ==> e.location@ == "Inventory"@ && ((e.problem@
                == "slot out of bounds"@ && e.key is Some) || (e.problem@
                == "old slot not as expected"@ && e.key is Some) || e.problem@
                == "insufficient empty slots"@),
    {
        if self.replace.len() == 0 && self.insert.len() == 0 {
            return Ok(None);
        }
        let ghost orig = inventory.slots@;
        let ghost rs = self.replace_seq();
        let ghost ins = self.insert_seq();
        let mut slots: Vec<Slot> = clone_slots(&inventory.slots);
        let mut changed: Vec<usize> = Vec::new();

        // Phase one: explicit replacements, applied to the copy in order.
        let rn: usize = self.replace.len();
        let mut i: usize = 0;
        proof {
            assert(rs.skip(0) =~= rs);
            match Self::apply_replaces(rs, orig) {
                Some(t) => {
                    assert(changed@ + t.1 =~= t.1);
                },
                None => {},
            }
        }
        while i < rn
            invariant
                self.wf(),
                rn == rs.len(),
                rs == self.replace_seq(),
                orig == inventory.slots@,
                i <= rn,
                slots@.len() == orig.len(),
                forall|m: int| 0 <= m < slots@.len() ==> (#[trigger] slots@[m]).wf(),
                match Self::apply_replaces(rs.skip(i as int), slots@) {
                    Some(t) => Self::apply_replaces(rs, orig) == Some((t.0, changed@ + t.1)),
                    None => Self::apply_replaces(rs, orig) is None,
                },
            decreases rn - i,
        {
            let idx: usize = self.replace[i].0;
            let oldv: Slot = self.replace[i].1.0;
            let newv: Slot = self.replace[i].1.1;
            proof {
                assert(rs.skip(i as int)[0] == rs[i as int]);
                assert(rs.skip(i as int).drop_first() =~= rs.skip(i + 1));
            }
            if idx >= slots.len() {
                proof {
                    assert(Self::apply_replaces(rs.skip(i as int), slots@) is None);
                }
                return Err(
                    PreconditionFailed {
                        location: "Inventory",
                        problem: "slot out of bounds",
                        key: Some(idx),
                    },
                );
            }
            let cur: Slot = slots[idx];
            if cur != oldv {
                proof {
                    assert(Self::apply_replaces(rs.skip(i as int), slots@) is None);
                }
                return Err(
                    PreconditionFailed {
                        location: "Inventory",
                        problem: "old slot not as expected",
                        key: Some(idx),
                    },
                );
            }
            let ghost slots_before = slots@;
            let ghost changed_before = changed@;
            slots.set(idx, newv);
            changed.push(idx);
            proof {
                assert(slots@ =~= slots_before.update(idx as int, newv));
                assert((#[trigger] self.replace_seq()[i as int]).1.1.wf());
                match Self::apply_replaces(rs.skip(i + 1), slots@) {
                    Some(t) => {
                        assert(Self::apply_replaces(rs.skip(i as int), slots_before) == Some(
                            (t.0, seq![idx] + t.1),
                        ));
                        assert(changed_before + (seq![idx] + t.1) =~= changed@ + t.1);
                    },
                    None => {
                        assert(Self::apply_replaces(rs.skip(i as int), slots_before) is None);
                    },
                }
            }
            i = i + 1;
        }
        proof {
            assert(rs.skip(rn as int) =~= Seq::<(usize, (Slot, Slot))>::empty());
            assert(Self::apply_replaces(rs.skip(rn as int), slots@) == Some(
                (slots@, Seq::<usize>::empty()),
            ));
            assert(changed@ + Seq::<usize>::empty() =~= changed@);
            assert(Self::apply_replaces(rs, orig) == Some((slots@, changed@)));
        }
        let ghost slots1 = slots@;
        let ghost ch1 = changed@;

        // Phase two: distribute each insertion stack over the free capacity.
        let kn: usize = self.insert.len();
        let mut k: usize = 0;
        proof {
            assert(ins.skip(0) =~= ins);
            assert(changed@.take(ch1.len() as int) =~= ch1);
            assert(changed@.skip(ch1.len() as int) =~= Seq::<usize>::empty());
            match Self::place_all(ins, slots1) {
                Some(u) => {
                    assert(changed@.skip(ch1.len() as int) + u.1 =~= u.1);
                },
                None => {},
            }
        }
        while k < kn
            invariant
                self.wf(),
                kn == ins.len(),
                ins == self.insert_seq(),
                rs == self.replace_seq(),
                orig == inventory.slots@,
                Self::apply_replaces(rs, orig) == Some((slots1, ch1)),
                k <= kn,
                slots@.len() == orig.len(),
                forall|m: int| 0 <= m < slots@.len() ==> (#[trigger] slots@[m]).wf(),
                changed@.take(ch1.len() as int) == ch1,
                ch1.len() <= changed@.len(),
                match Self::place_all(ins.skip(k as int), slots@) {
                    Some(u) => Self::place_all(ins, slots1) == Some(
                        (u.0, changed@.skip(ch1.len() as int) + u.1),
                    ),
                    None => Self::place_all(ins, slots1) is None,
                },
            decreases kn - k,
        {
            let ghost slots_k = slots@;
            let ghost changed_k = changed@;
            let mut cur: Slot = self.insert[k];
            proof {
                assert(ins.skip(k as int)[0] == ins[k as int]);
                assert(ins.skip(k as int).drop_first() =~= ins.skip(k + 1));
                assert((#[trigger] self.insert_seq()[k as int]).wf());
                assert(slots_k.skip(0) =~= slots_k);
                assert(Self::place_stack(slots_k, cur, 0).0 =~= slots@.take(0) + Self::place_stack(
                    slots_k.skip(0),
                    cur,
                    0,
                ).0);
                assert(changed@.skip(changed_k.len() as int) =~= Seq::<usize>::empty());
            }
            let ghost stack0 = cur;
            let ln: usize = slots.len();
            let mut j: usize = 0;
            while j < ln
                invariant
                    ln == slots@.len(),
                    slots@.len() == slots_k.len(),
                    j <= ln,
                    cur.wf(),
                    forall|m: int| 0 <= m < slots@.len() ==> (#[trigger] slots@[m]).wf(),
                    forall|m: int| j <= m < slots_k.len() ==> slots@[m] == slots_k[m],
                    changed@.take(changed_k.len() as int) == changed_k,
                    changed_k.len() <= changed@.len(),
                    Self::place_stack(slots_k, stack0, 0).0 == slots@.take(j as int)
                        + Self::place_stack(slots_k.skip(j as int), cur, j as int).0,
                    Self::place_stack(slots_k, stack0, 0).1 == Self::place_stack(
                        slots_k.skip(j as int),
                        cur,
                        j as int,
                    ).1,
                    Self::place_stack(slots_k, stack0, 0).2 == changed@.skip(
                        changed_k.len() as int,
                    ) + Self::place_stack(slots_k.skip(j as int), cur, j as int).2,
                decreases ln - j,
            {
                let ghost cur_before = cur;
                let ghost slots_before = slots@;
                let ghost changed_before = changed@;
                let mut dst: Slot = slots[j];
                proof {
                    assert(slots_k.skip(j as int)[0] == slots_k[j as int]);
                    assert(slots_k.skip(j as int).drop_first() =~= slots_k.skip(j + 1));
                    assert(dst == slots_k[j as int]);
                }
                let moved: bool = cur.unload_to(&mut dst);
                slots.set(j, dst);
                if moved {
                    changed.push(j);
                }
                proof {
                    lemma_unload_changed(cur_before, slots_k[j as int]);
                    let u = Slot::unload_spec(cur_before, slots_k[j as int]);
                    assert(moved == (u.1 != slots_k[j as int]));
                    assert(slots@ =~= slots_before.update(j as int, u.1));
                    assert(slots@.take(j + 1) =~= slots_before.take(j as int).push(u.1));
                    assert(slots_before.take(j as int) + (seq![u.1] + Self::place_stack(
                        slots_k.skip(j + 1),
                        cur,
                        j + 1,
                    ).0) =~= slots@.take(j + 1) + Self::place_stack(
                        slots_k.skip(j + 1),
                        cur,
                        j + 1,
                    ).0);
                    if moved {
                        assert(changed@ =~= changed_before.push(j as usize));
                        assert(changed_before.skip(changed_k.len() as int) + (seq![j as usize]
                            + Self::place_stack(slots_k.skip(j + 1), cur, j + 1).2) =~= changed@.skip(
                            changed_k.len() as int,
                        ) + Self::place_stack(slots_k.skip(j + 1), cur, j + 1).2);
                        assert(changed@.take(changed_k.len() as int) =~= changed_k);
                    } else {
                        assert(changed_before.skip(changed_k.len() as int) + (
                        Seq::<usize>::empty() + Self::place_stack(
                            slots_k.skip(j + 1),
                            cur,
                            j + 1,
                        ).2) =~= changed@.skip(changed_k.len() as int) + Self::place_stack(
                            slots_k.skip(j + 1),
                            cur,
                            j + 1,
                        ).2);
                    }
                }
                j = j + 1;
            }
            proof {
                assert(slots_k.skip(ln as int) =~= Seq::<Slot>::empty());
                assert(Self::place_stack(slots_k.skip(ln as int), cur, ln as int).0
                    =~= Seq::<Slot>::empty());
                assert(slots@.take(ln as int) =~= slots@);
                assert(Self::place_stack(slots_k, stack0, 0).0 =~= slots@);
                assert(Self::place_stack(slots_k, stack0, 0).1 == cur);
                assert(Self::place_stack(slots_k, stack0, 0).2 == changed@.skip(
                    changed_k.len() as int,
                ));
            }
            if cur.count() > 0 {
                proof {
                    assert(Self::place_all(ins.skip(k as int), slots_k) is None);
                }
                return Err(
                    PreconditionFailed {
                        location: "Inventory",
                        problem: "insufficient empty slots",
                        key: None,
                    },
                );
            }
            proof {
                let t2 = Self::place_stack(slots_k, stack0, 0).2;
                match Self::place_all(ins.skip(k + 1), slots@) {
                    Some(u) => {
                        assert(Self::place_all(ins.skip(k as int), slots_k) == Some(
                            (u.0, t2 + u.1),
                        ));
                        assert(changed_k.skip(ch1.len() as int) + (t2 + u.1) =~= changed@.skip(
                            ch1.len() as int,
                        ) + u.1);
                    },
                    None => {
                        assert(Self::place_all(ins.skip(k as int), slots_k) is None);
                    },
                }
                assert(changed@.take(ch1.len() as int) =~= ch1);
            }
            k = k + 1;
        }
        proof {
            assert(ins.skip(kn as int) =~= Seq::<Slot>::empty());
            assert(Self::place_all(ins.skip(kn as int), slots@) == Some(
                (slots@, Seq::<usize>::empty()),
            ));
            assert(changed@.skip(ch1.len() as int) + Seq::<usize>::empty() =~= changed@.skip(
                ch1.len() as int,
            ));
            assert(Self::place_all(ins, slots1) == Some((slots@, changed@.skip(
                ch1.len() as int,
            ))));
            assert(ch1 + changed@.skip(ch1.len() as int) =~= changed@);
            assert(self.spec_check(orig) == Some((slots@, changed@)));
        }
        Ok(Some(InventoryCheck { new: slots, change: InventoryChange { slots: changed } }))
    }

    /// Apply the edits, replacing the inventory's slot row with the one the
    /// token carries and reporting the change, if the transaction was not
    /// empty.
    ///
    /// `check` must be the token produced by [`InventoryTransaction::check`]
    /// against the same inventory state, as the precondition records.
    pub fn commit(
        &self,
        inventory: &mut Inventory,
        check: Option<InventoryCheck>,
        outputs: &mut Vec<InventoryChange>,
    ) -> (r: Result<(), CommitError>)
        requires
            self.wf(),
            old(inventory).wf(),
            self.spec_check(old(inventory).slots@) is Some,
            self.token_matches(old(inventory).slots@, check),
        ensures
            r is Ok,
            final(inventory).wf(),
            final(inventory).slots@ == self.applied_slots(old(inventory).slots@),
            self.is_empty_spec() ==> final(outputs)@ == old(outputs)@,
            !self.is_empty_spec() ==> {
                &&& final(outputs)@.len() == old(outputs)@.len() + 1
                &&& final(outputs)@.take(old(outputs)@.len() as int) == old(outputs)@
                &&& final(outputs)@.last().slots@ == self.spec_check(
                    old(inventory).slots@,
                )->Some_0.1
            },
    {
        match check {
            None => {
                proof {
                    assert(Self::apply_replaces(self.replace_seq(), old(inventory).slots@)
                        == Some((old(inventory).slots@, Seq::<usize>::empty())));
                    assert(Self::place_all(self.insert_seq(), old(inventory).slots@) == Some(
                        (old(inventory).slots@, Seq::<usize>::empty()),
                    ));
                }
                Ok(())
            },
            Some(c) => {
                inventory.slots = c.new;
                outputs.push(c.change);
                proof {
                    assert(final(outputs)@.take(old(outputs)@.len() as int) =~= old(outputs)@);
                }
                Ok(())
            },
        }
    }

    /// Run `check` and, if it passes, `commit`; either the whole transaction
    /// is applied or the inventory is left untouched and the failure
    /// returned.
    pub fn execute(&self, inventory: &mut Inventory, outputs: &mut Vec<InventoryChange>) -> (r:
        Result<(), ExecuteError>)
        requires
            self.wf(),
            old(inventory).wf(),
        ensures
            r is Ok <==> self.spec_check(old(inventory).slots@) is Some,
            final(inventory).wf(),
            r is Ok ==> {
                &&& final(inventory).slots@ == self.applied_slots(old(inventory).slots@)
                &&& (self.is_empty_spec() ==> final(outputs)@ == old(outputs)@)
                &&& (!self.is_empty_spec() ==> {
                    &&& final(outputs)@.len() == old(outputs)@.len() + 1
                    &&& final(outputs)@.take(old(outputs)@.len() as int) == old(outputs)@
                    &&& final(outputs)@.last().slots@ == self.spec_check(
                        old(inventory).slots@,
                    )->Some_0.1
                })
            },
            r is Err ==> *final(inventory) == *old(inventory) && final(outputs)@ == old(outputs)@
                && (r matches Err(ExecuteError::Check(_))),
    {
        match self.check(inventory) {
            Err(e) => Err(ExecuteError::Check(e)),
            Ok(token) => {
                match self.commit(inventory, token, outputs) {
                    Ok(()) => Ok(()),
                    Err(e) => Err(ExecuteError::Commit(e)),
                }
            },
        }
    }

    /// Whether the two transactions may be combined: no slot is explicitly
    /// replaced by both. Insertion lists never conflict.
    pub open spec fn compatible_with(self, other: InventoryTransaction) -> bool {
        forall|k: usize|
            !(#[trigger] kv_has(self.replace_seq(), k) && #[trigger] kv_has(
                other.replace_seq(),
                k,
            ))
    }

    /// Detect whether the two transactions replace any slot in common.
    pub fn check_merge(&self, other: &InventoryTransaction) -> (r: Result<
        (),
        TransactionConflict,
    >)
        requires
            self.wf(),
            other.wf(),
        ensures
            r is Ok <==> self.compatible_with(*other),
    {
        let n: usize = self.replace.len();
        let mut i: usize = 0;
        while i < n
            invariant
                self.wf(),
                other.wf(),
                n == self.replace_seq().len(),
                i <= n,
                forall|j: int|
                    0 <= j < i ==> !kv_has(
                        other.replace_seq(),
                        (#[trigger] self.replace_seq()[j]).0,
                    ),
            decreases n - i,
        {
            let key: usize = self.replace[i].0;
            let on: usize = other.replace.len();
            let mut j: usize = 0;
            while j < on
                invariant
                    self.wf(),
                    other.wf(),
                    n == self.replace_seq().len(),
                    i < n,
                    key == self.replace_seq()[i as int].0,
                    on == other.replace_seq().len(),
                    j <= on,
                    forall|m: int| 0 <= m < j ==> (#[trigger] other.replace_seq()[m]).0 != key,
                decreases on - j,
            {
                if other.replace[j].0 == key {
                    proof {
                        lemma_kv_lookup_at(self.replace_seq(), i as int);
                        lemma_kv_lookup_at(other.replace_seq(), j as int);
                        assert(kv_has(self.replace_seq(), key));
                        assert(kv_has(other.replace_seq(), key));
                    }
                    return Err(TransactionConflict {});
                }
                j = j + 1;
            }
            proof {
                lemma_kv_lookup_index(other.replace_seq(), key);
            }
            i = i + 1;
        }
        proof {
            assert forall|k: usize|
                !(#[trigger] kv_has(self.replace_seq(), k) && #[trigger] kv_has(
                    other.replace_seq(),
                    k,
                )) by {
                lemma_kv_lookup_index(self.replace_seq(), k);
                if kv_has(self.replace_seq(), k) {
                    let v = kv_lookup(self.replace_seq(), k)->Some_0;
                    let j = choose|j: int|
                        0 <= j < self.replace_seq().len() && self.replace_seq()[j].0 == k
                            && self.replace_seq()[j].1 == v;
                    assert(!kv_has(other.replace_seq(), (self.replace_seq()[j]).0));
                }
            }
        }
        Ok(())
    }

    /// Combine two transactions previously proven compatible: replacements
    /// and insertion lists are concatenated.
    pub fn commit_merge(self, other: Self, check: ()) -> (r: Self)
        requires
            self.wf(),
            other.wf(),
            self.compatible_with(other),
        ensures
            r.wf(),
            r.replace_seq() == self.replace_seq() + other.replace_seq(),
            r.insert_seq() == self.insert_seq() + other.insert_seq(),
    {
        let ghost t1 = self;
        let ghost t2 = other;
        let mut result = self;
        let mut other = other;
        result.replace.append(&mut other.replace);
        result.insert.append(&mut other.insert);
        proof {
            let rs = result.replace_seq();
            let n1 = t1.replace_seq().len() as int;
            assert forall|a: int, b: int| 0 <= a < b < rs.len() implies rs[a].0 != rs[b].0 by {
                if a < n1 && b >= n1 {
                    lemma_kv_lookup_at(t1.replace_seq(), a);
                    lemma_kv_lookup_at(t2.replace_seq(), b - n1);
                    assert(rs[a] == t1.replace_seq()[a]);
                    assert(rs[b] == t2.replace_seq()[b - n1]);
                    if rs[a].0 == rs[b].0 {
                        assert(kv_has(t1.replace_seq(), rs[a].0));
                        assert(kv_has(t2.replace_seq(), rs[a].0));
                    }
                } else if b < n1 {
                    assert(rs[a] == t1.replace_seq()[a]);
                    assert(rs[b] == t1.replace_seq()[b]);
                } else {
                    assert(rs[a] == t2.replace_seq()[a - n1]);
                    assert(rs[b] == t2.replace_seq()[b - n1]);
                }
            }
            assert forall|c: int| 0 <= c < rs.len() implies (#[trigger] rs[c]).1.0.wf()
                && rs[c].1.1.wf() by {
                if c < n1 {
                    assert(rs[c] == t1.replace_seq()[c]);
                    assert((#[trigger] t1.replace_seq()[c]).1.0.wf());
                } else {
                    assert(rs[c] == t2.replace_seq()[c - n1]);
                    assert((#[trigger] t2.replace_seq()[c - n1]).1.0.wf());
                }
            }
            let is = result.insert_seq();
            let m1 = t1.insert_seq().len() as int;
            assert forall|c: int| 0 <= c < is.len() implies (#[trigger] is[c]).wf()
                && is[c].count_spec() >= 1 by {
                if c < m1 {
                    assert(is[c] == t1.insert_seq()[c]);
                    assert((#[trigger] t1.insert_seq()[c]).wf());
                } else {
                    assert(is[c] == t2.insert_seq()[c - m1]);
                    assert((#[trigger] t2.insert_seq()[c - m1]).wf());
                }
            }
        }
        result
    }

    /// Applying a uniquely-keyed replacement list reads each slot before any
    /// replacement touches it: it succeeds exactly when every replacement
    /// matches the *original* slots, and the result rebinds exactly the
    /// replaced slots.
    /// A replacement-only transaction checks out exactly when its
    /// replacement list applies, and produces that list's result.
    proof fn lemma_replace_only_check(t: InventoryTransaction, slots: Seq<Slot>)
        requires
            t.insert_seq().len() == 0,
        ensures
            t.spec_check(slots) is Some <==> Self::apply_replaces(t.replace_seq(), slots)
                is Some,
            t.spec_check(slots) is Some ==> t.applied_slots(slots) == (Self::apply_replaces(
                t.replace_seq(),
                slots,
            )->Some_0).0,
    {
    }

    proof fn lemma_apply_replaces_pointwise(rs: Seq<(usize, (Slot, Slot))>, slots: Seq<Slot>)
        requires
            kv_unique(rs),
            slots.len() <= usize::MAX,
        ensures
            (Self::apply_replaces(rs, slots) is Some) <==> (forall|i: int|
                0 <= i < rs.len() ==> ((#[trigger] rs[i]).0 < slots.len() && slots[rs[i].0 as int]
                    == rs[i].1.0)),
            Self::apply_replaces(rs, slots) matches Some(t) ==> t.0.len() == slots.len() && (
            forall|j: int|
                0 <= j < slots.len() ==> t.0[j] == (match kv_lookup(rs, j as usize) {
                    Some(p) => p.1,
                    None => slots[j],
                })),
        decreases rs.len(),
    {
        if rs.len() > 0 {
            let idx = rs[0].0;
            assert(forall|m: int|
                0 <= m < rs.drop_first().len() ==> rs.drop_first()[m] == rs[m + 1]);
            assert(forall|m: int| 1 <= m < rs.len() ==> rs[m] == rs.drop_first()[m - 1]);
            if idx < slots.len() && slots[idx as int] == rs[0].1.0 {
                let updated = slots.update(idx as int, rs[0].1.1);
                Self::lemma_apply_replaces_pointwise(rs.drop_first(), updated);
                assert forall|i: int|
                    0 <= i < rs.drop_first().len() implies ((#[trigger] rs.drop_first()[i]).0
                    < updated.len() && updated[rs.drop_first()[i].0 as int]
                    == rs.drop_first()[i].1.0) == ((rs[i + 1]).0 < slots.len() && slots[rs[i
                    + 1].0 as int] == rs[i + 1].1.0) by {
                    assert(rs[i + 1].0 != idx);
                }
                if Self::apply_replaces(rs, slots) is Some {
                    assert forall|j: int|
                        0 <= j < slots.len() implies (Self::apply_replaces(rs, slots)->Some_0).0[j]
                        == (match kv_lookup(rs, j as usize) {
                        Some(p) => p.1,
                        None => slots[j],
                    }) by {
                        assert(j == (j as usize) as int);
                        if j == idx as int {
                            lemma_kv_lookup_index(rs.drop_first(), idx);
                            assert(kv_lookup(rs.drop_first(), idx) is None);
                            assert(kv_lookup(rs, j as usize) == Some(rs[0].1));
                        } else {
                            assert(j as usize != rs[0].0);
                            assert(kv_lookup(rs, j as usize) == kv_lookup(
                                rs.drop_first(),
                                j as usize,
                            ));
                        }
                    }
                }
                if forall|i: int|
                    0 <= i < rs.len() ==> ((#[trigger] rs[i]).0 < slots.len() && slots[rs[i].0
                        as int] == rs[i].1.0) {
                    assert(Self::apply_replaces(rs.drop_first(), updated) is Some);
                }
            } else {
                assert(Self::apply_replaces(rs, slots) is None);
                assert(!(rs[0].0 < slots.len() && slots[rs[0].0 as int] == rs[0].1.0));
            }
        }
    }

    /// For replacement-only transactions on disjoint slots, merging
    /// succeeds, the merged transaction is applicable exactly when both
    /// parts are, and applying it produces the same slots as applying one
    /// part and then the other — in either order. (Insertion lists are
    /// placed in concatenation order, so order-independence is a property
    /// of the keyed replacements.)
    pub proof fn lemma_disjoint_replaces_merge(
        t1: InventoryTransaction,
        t2: InventoryTransaction,
        m: InventoryTransaction,
        slots: Seq<Slot>,
    )
        requires
            t1.wf(),
            t2.wf(),
            m.wf(),
            slots.len() <= usize::MAX,
            t1.insert_seq().len() == 0,
            t2.insert_seq().len() == 0,
            m.insert_seq().len() == 0,
            m.replace_seq() == t1.replace_seq() + t2.replace_seq(),
            forall|k: usize|
                !(#[trigger] kv_has(t1.replace_seq(), k) && #[trigger] kv_has(
                    t2.replace_seq(),
                    k,
                )),
        ensures
            t1.compatible_with(t2),
            m.spec_check(slots) is Some <==> (t1.spec_check(slots) is Some && t2.spec_check(
                slots,
            ) is Some),
            m.spec_check(slots) is Some ==> m.applied_slots(slots) == t2.applied_slots(
                t1.applied_slots(slots),
            ) && m.applied_slots(slots) == t1.applied_slots(t2.applied_slots(slots)),
    {
        let rs1 = t1.replace_seq();
        let rs2 = t2.replace_seq();
        let rsm = m.replace_seq();
        Self::lemma_apply_replaces_pointwise(rs1, slots);
        Self::lemma_apply_replaces_pointwise(rs2, slots);
        Self::lemma_apply_replaces_pointwise(rsm, slots);
        Self::lemma_replace_only_check(t1, slots);
        Self::lemma_replace_only_check(t2, slots);
        Self::lemma_replace_only_check(m, slots);
        assert forall|k: usize| true implies #[trigger] kv_lookup(rsm, k) == (if kv_has(
            rs1,
            k,
        ) {
            kv_lookup(rs1, k)
        } else {
            kv_lookup(rs2, k)
        }) by {
            crate::transaction::lemma_kv_lookup_concat(rs1, rs2, k);
        }
        // Validity of the concatenation splits into validity of the parts.
        assert((Self::apply_replaces(rsm, slots) is Some) <==> (Self::apply_replaces(rs1, slots)
            is Some && Self::apply_replaces(rs2, slots) is Some)) by {
            if forall|i: int|
                0 <= i < rsm.len() ==> ((#[trigger] rsm[i]).0 < slots.len() && slots[rsm[i].0
                    as int] == rsm[i].1.0) {
                assert forall|i: int|
                    0 <= i < rs1.len() implies ((#[trigger] rs1[i]).0 < slots.len() && slots[
                rs1[i].0 as int] == rs1[i].1.0) by {
                    assert(rsm[i] == rs1[i]);
                }
                assert forall|i: int|
                    0 <= i < rs2.len() implies ((#[trigger] rs2[i]).0 < slots.len() && slots[
                rs2[i].0 as int] == rs2[i].1.0) by {
                    assert(rsm[rs1.len() + i] == rs2[i]);
                }
            }
            if (forall|i: int|
                0 <= i < rs1.len() ==> ((#[trigger] rs1[i]).0 < slots.len() && slots[rs1[i].0
                    as int] == rs1[i].1.0)) && (forall|i: int|
                0 <= i < rs2.len() ==> ((#[trigger] rs2[i]).0 < slots.len() && slots[rs2[i].0
                    as int] == rs2[i].1.0)) {
                assert forall|i: int|
                    0 <= i < rsm.len() implies ((#[trigger] rsm[i]).0 < slots.len() && slots[
                rsm[i].0 as int] == rsm[i].1.0) by {
                    if i < rs1.len() {
                        assert(rsm[i] == rs1[i]);
                    } else {
                        assert(rsm[i] == rs2[i - rs1.len()]);
                    }
                }
            }
        }
        if m.spec_check(slots) is Some {
            let out1 = t1.applied_slots(slots);
            let out2 = t2.applied_slots(slots);
            assert(out1.len() == slots.len() && out2.len() == slots.len());
            Self::lemma_apply_replaces_pointwise(rs2, out1);
            Self::lemma_apply_replaces_pointwise(rs1, out2);
            Self::lemma_replace_only_check(t2, out1);
            Self::lemma_replace_only_check(t1, out2);
            assert forall|i: int|
                0 <= i < rs2.len() implies ((#[trigger] rs2[i]).0 < out1.len() && out1[rs2[i].0
                as int] == rs2[i].1.0) by {
                lemma_kv_lookup_at(rs2, i);
                assert(kv_has(rs2, rs2[i].0));
                assert(!kv_has(rs1, rs2[i].0));
                lemma_kv_lookup_index(rs1, rs2[i].0);
                assert(out1[rs2[i].0 as int] == slots[rs2[i].0 as int]);
            }
            assert forall|i: int|
                0 <= i < rs1.len() implies ((#[trigger] rs1[i]).0 < out2.len() && out2[rs1[i].0
                as int] == rs1[i].1.0) by {
                lemma_kv_lookup_at(rs1, i);
                assert(kv_has(rs1, rs1[i].0));
                assert(!kv_has(rs2, rs1[i].0));
                lemma_kv_lookup_index(rs2, rs1[i].0);
                assert(out2[rs1[i].0 as int] == slots[rs1[i].0 as int]);
            }
            assert(t2.spec_check(out1) is Some && t1.spec_check(out2) is Some);
            let app_m = (Self::apply_replaces(rsm, slots)->Some_0).0;
            let app_21 = (Self::apply_replaces(rs2, out1)->Some_0).0;
            let app_12 = (Self::apply_replaces(rs1, out2)->Some_0).0;
            assert(m.applied_slots(slots) == app_m);
            assert(t2.applied_slots(out1) == app_21);
            assert(t1.applied_slots(out2) == app_12);
            assert(app_m =~= app_21) by {
                assert forall|j: int| 0 <= j < slots.len() implies app_m[j] == app_21[j] by {
                    assert(j == (j as usize) as int);
                    let k = j as usize;
                    match kv_lookup(rs2, k) {
                        Some(p) => {
                            assert(kv_has(rs2, k));
                            assert(!kv_has(rs1, k));
                            assert(kv_lookup(rsm, k) == Some(p));
                            assert(app_21[j] == p.1);
                        },
                        None => {
                            assert(app_21[j] == out1[j]);
                            assert(kv_lookup(rsm, k) == (if kv_has(rs1, k) {
                                kv_lookup(rs1, k)
                            } else {
                                kv_lookup(rs2, k)
                            }));
                        },
                    }
                }
            }
            assert(app_m =~= app_12) by {
                assert forall|j: int| 0 <= j < slots.len() implies app_m[j] == app_12[j] by {
                    assert(j == (j as usize) as int);
                    let k = j as usize;
                    match kv_lookup(rs1, k) {
                        Some(p) => {
                            assert(kv_has(rs1, k));
                            assert(!kv_has(rs2, k));
                            assert(kv_lookup(rsm, k) == Some(p));
                            assert(app_12[j] == p.1);
                        },
                        None => {
                            assert(app_12[j] == out2[j]);
                            assert(kv_lookup(rsm, k) == (if kv_has(rs1, k) {
                                kv_lookup(rs1, k)
                            } else {
                                kv_lookup(rs2, k)
                            }));
                        },
                    }
                }
            }
        }
    }

    /// Merge two transactions: detect conflicts, then combine.
    pub fn merge(self, other: Self) -> (r: Result<Self, TransactionConflict>)
        requires
            self.wf(),
            other.wf(),
        ensures
            r is Ok <==> self.compatible_with(other),
            r matches Ok(m) ==> m.wf() && m.replace_seq() == self.replace_seq()
                + other.replace_seq() && m.insert_seq() == self.insert_seq() + other.insert_seq(),
    {
        match self.check_merge(&other) {
            Err(e) => Err(e),
            Ok(()) => Ok(self.commit_merge(other, ())),
        }
    }
}

} // verus!
