//! Item slots: the closed set of item-holder kinds with per-variant
//! slot-acceptance rules — a furnace with three fixed slots, or a plain
//! inventory. Kept as a tagged variant type: the slot semantics are a
//! small fixed set, not an open-ended dispatch.

use vstd::prelude::*;
use crate::block::Block;

verus! {

/// A stack of identical items — item kinds are block kinds — or an empty
/// slot.
#[derive(Clone, Copy, PartialEq, Eq, Structural, Debug)]
pub enum Stack {
    Empty,
    Of { item: Block, count: u32 },
}

/// What moving items from `src` into `dst` yields: the new destination,
/// the new source, and whether anything moved. Items move only into an
/// empty slot or onto a stack of the same kind, as many as fit.
pub open spec fn spec_take(dst: Stack, src: Stack) -> (Stack, Stack, bool) {
    match (dst, src) {
        (_, Stack::Empty) => (dst, src, false),
        (Stack::Empty, _) => (src, Stack::Empty, true),
        (Stack::Of { item: di, count: dc }, Stack::Of { item: si, count: sc }) => {
            if di != si {
                (dst, src, false)
            } else {
                let moved = if sc <= u32::MAX - dc {
                    sc as int
                } else {
                    u32::MAX - dc
                };
                if moved == 0 {
                    (dst, src, false)
                } else {
                    (
                        Stack::Of { item: di, count: (dc + moved) as u32 },
                        if sc == moved {
                            Stack::Empty
                        } else {
                            Stack::Of { item: si, count: (sc - moved) as u32 }
                        },
                        true,
                    )
                }
            }
        },
    }
}

impl Stack {
    /// How many items the slot holds.
    pub open spec fn spec_quantity(self) -> int {
        match self {
            Stack::Empty => 0,
            Stack::Of { item, count } => count as int,
        }
    }

    /// How many items the slot holds.
    pub fn quantity(&self) -> (r: u32)
        ensures
            r == self.spec_quantity(),
    {
        match self {
            Stack::Empty => 0,
            Stack::Of { item, count } => *count,
        }
    }

    /// Hands the whole stack out, leaving the slot empty.
    pub fn take_all(&mut self) -> (r: Stack)
        ensures
            *final(self) == Stack::Empty,
            r == *old(self),
    {
        let r = *self;
        *self = Stack::Empty;
        r
    }

    /// Swaps this stack with another.
    pub fn swap_with(&mut self, other: &mut Stack)
        ensures
            *final(self) == *old(other),
            *final(other) == *old(self),
    {
        let tmp = *self;
        *self = *other;
        *other = tmp;
    }

    /// Moves items from `other` into this stack, when this slot is empty
    /// or holds the same kind: as many as fit. Reports whether anything
    /// moved.
    pub fn try_take_from(&mut self, other: &mut Stack) -> (moved: bool)
        ensures
            (*final(self), *final(other), moved) == spec_take(*old(self), *old(other)),
    {
        match (*self, *other) {
            (_, Stack::Empty) => false,
            (Stack::Empty, _) => {
                *self = *other;
                *other = Stack::Empty;
                true
            },
            (Stack::Of { item: di, count: dc }, Stack::Of { item: si, count: sc }) => {
                if !(di == si) {
                    false
                } else {
                    let room: u32 = u32::MAX - dc;
                    let moved: u32 = if sc <= room {
                        sc
                    } else {
                        room
                    };
                    if moved == 0 {
                        false
                    } else {
                        *self = Stack::Of { item: di, count: dc + moved };
                        *other = if sc == moved {
                            Stack::Empty
                        } else {
                            Stack::Of { item: si, count: sc - moved }
                        };
                        true
                    }
                }
            },
        }
    }
}

/// The three fixed furnace slots.
#[derive(Clone, Copy, PartialEq, Eq, Structural, Debug)]
pub enum FurnaceSlot {
    Material,
    Fuel,
    Output,
}

impl FurnaceSlot {
    /// The slot at a furnace slot index.
    pub fn from_index(i: usize) -> (r: FurnaceSlot)
        requires
            i < 3,
        ensures
            i == 0 ==> r == FurnaceSlot::Material,
            i == 1 ==> r == FurnaceSlot::Fuel,
            i == 2 ==> r == FurnaceSlot::Output,
    {
        if i == 0 {
            FurnaceSlot::Material
        } else if i == 1 {
            FurnaceSlot::Fuel
        } else {
            FurnaceSlot::Output
        }
    }

    /// The index of this furnace slot.
    pub fn to_index(self) -> (r: usize)
        ensures
            self == FurnaceSlot::Material ==> r == 0,
            self == FurnaceSlot::Fuel ==> r == 1,
            self == FurnaceSlot::Output ==> r == 2,
            r < 3,
    {
        match self {
            FurnaceSlot::Material => 0,
            FurnaceSlot::Fuel => 1,
            FurnaceSlot::Output => 2,
        }
    }
}

/// A thing that holds item stacks in indexed slots: a furnace with its
/// three fixed slots, or a plain inventory.
#[derive(Clone, Debug)]
pub enum ItemHolder {
    Furnace { fuel: Stack, material: Stack, output: Stack },
    Inventory(Vec<Stack>),
}

impl ItemHolder {
    /// How many slots this holder has.
    pub open spec fn spec_len(self) -> int {
        match self {
            ItemHolder::Furnace { .. } => 3,
            ItemHolder::Inventory(v) => v@.len() as int,
        }
    }

    /// The stack in a slot. Furnace slot indices follow `FurnaceSlot`:
    /// material, then fuel, then output.
    pub open spec fn spec_get(self, i: int) -> Stack {
        match self {
            ItemHolder::Furnace { fuel, material, output } => {
                if i == 0 {
                    material
                } else if i == 1 {
                    fuel
                } else {
                    output
                }
            },
            ItemHolder::Inventory(v) => v@[i],
        }
    }

    /// Per-variant slot-acceptance rule: a furnace takes anything as
    /// material, only fuel-burnable kinds as fuel, and nothing into its
    /// output slot; an inventory takes anything anywhere.
    pub fn can_recieve(&self, item: Block, slot_id: usize) -> (r: bool)
        requires
            slot_id < self.spec_len(),
        ensures
            r == match *self {
                ItemHolder::Furnace { .. } => {
                    if slot_id == 0 {
                        true
                    } else if slot_id == 1 {
                        item == Block::Coal
                    } else {
                        false
                    }
                },
                ItemHolder::Inventory(_) => true,
            },
    {
        match self {
            ItemHolder::Furnace { .. } => {
                let slot = FurnaceSlot::from_index(slot_id);
                match slot {
                    FurnaceSlot::Material => true,
                    FurnaceSlot::Fuel => item.is_fuel(),
                    FurnaceSlot::Output => false,
                }
            },
            ItemHolder::Inventory(_) => true,
        }
    }

    /// The stack in a slot.
    pub fn get(&self, slot_id: usize) -> (r: Stack)
        requires
            slot_id < self.spec_len(),
        ensures
            r == self.spec_get(slot_id as int),
    {
        match self {
            ItemHolder::Furnace { fuel, material, output } => {
                let slot = FurnaceSlot::from_index(slot_id);
                match slot {
                    FurnaceSlot::Material => *material,
                    FurnaceSlot::Fuel => *fuel,
                    FurnaceSlot::Output => *output,
                }
            },
            ItemHolder::Inventory(v) => v[slot_id],
        }
    }

    /// Replaces the stack in a slot, leaving every other slot and the
    /// holder kind unchanged.
    pub fn set(&mut self, slot_id: usize, s: Stack)
        requires
            slot_id < old(self).spec_len(),
        ensures
            final(self).spec_len() == old(self).spec_len(),
            final(self).spec_get(slot_id as int) == s,
            forall|k: int|
                0 <= k < old(self).spec_len() && k != slot_id ==> final(self).spec_get(k) == old(
                    self,
                ).spec_get(k),
            (*old(self) matches ItemHolder::Furnace { .. }) == (*final(self)
                matches ItemHolder::Furnace { .. }),
    {
        match self {
            ItemHolder::Furnace { fuel, material, output } => {
                if slot_id == 0 {
                    *material = s;
                } else if slot_id == 1 {
                    *fuel = s;
                } else {
                    *output = s;
                }
            },
            ItemHolder::Inventory(v) => {
                v[slot_id] = s;
            },
        }
    }

    /// One click with a held stack: the slot takes what it can from the
    /// held stack; when it can take nothing, the two stacks swap.
    pub fn take_or_swap(&mut self, stack: &mut Stack, slot_id: usize)
        requires
            slot_id < old(self).spec_len(),
        ensures
            final(self).spec_len() == old(self).spec_len(),
            forall|k: int|
                0 <= k < old(self).spec_len() && k != slot_id ==> final(self).spec_get(k) == old(
                    self,
                ).spec_get(k),
            ({
                let own = old(self).spec_get(slot_id as int);
                let taken = spec_take(own, *old(stack));
                if taken.2 {
                    final(self).spec_get(slot_id as int) == taken.0 && *final(stack) == taken.1
                } else {
                    final(self).spec_get(slot_id as int) == *old(stack) && *final(stack) == own
                }
            }),
    {
        let mut own = self.get(slot_id);
        if own.try_take_from(stack) {
            self.set(slot_id, own);
            return ;
        }
        own.swap_with(stack);
        self.set(slot_id, own);
    }
}

/// The slots of a holder as a sequence: an inventory's slots in order, a
/// furnace's in its fixed slot order.
pub open spec fn inv_slots(h: ItemHolder) -> Seq<Stack> {
    match h {
        ItemHolder::Furnace { fuel, material, output } => seq![material, fuel, output],
        ItemHolder::Inventory(v) => v@,
    }
}

/// The slots and the remainder after pouring a stack into the first `n`
/// slots in turn: each slot takes what it can — merging with a stack of
/// the same kind, or filling an empty slot — and the rest moves on.
pub open spec fn spec_add_fold(slots: Seq<Stack>, s: Stack, n: int) -> (Seq<Stack>, Stack)
    decreases n,
{
    if n <= 0 {
        (slots, s)
    } else {
        let p = spec_add_fold(slots, s, n - 1);
        let t = spec_take(p.0[n - 1], p.1);
        (p.0.update(n - 1, t.0), t.1)
    }
}

impl ItemHolder {
    /// Adds a stack to an inventory, slot by slot; what did not fit comes
    /// back. Furnaces route additions through their per-slot rules, never
    /// through this bulk path.
    pub fn try_add(&mut self, stack: Stack) -> (r: Option<Stack>)
        requires
            *old(self) matches ItemHolder::Inventory(_),
        ensures
            *final(self) matches ItemHolder::Inventory(_),
            ({
                let p = spec_add_fold(
                    inv_slots(*old(self)),
                    stack,
                    inv_slots(*old(self)).len() as int,
                );
                inv_slots(*final(self)) == p.0 && r == (if p.1 == Stack::Empty {
                    None
                } else {
                    Some(p.1)
                })
            }),
    {
        match self {
            ItemHolder::Inventory(v) => {
                let mut carry = stack;
                let n = v.len();
                let mut i: usize = 0;
                while i < n
                    invariant
                        (*old(self) matches ItemHolder::Inventory(v0) && n == v0@.len()),
                        i <= n,
                        n == v@.len(),
                        (v@, carry) == spec_add_fold(inv_slots(*old(self)), stack, i as int),
                    decreases n - i,
                {
                    let mut own = v[i];
                    own.try_take_from(&mut carry);
                    v[i] = own;
                    i = i + 1;
                }
                if matches!(carry, Stack::Empty) {
                    None
                } else {
                    Some(carry)
                }
            },
            ItemHolder::Furnace { .. } => None,
        }
    }
}

/// A furnace with all three slots empty.
pub fn furnace_slots() -> (r: ItemHolder)
    ensures
        r == (ItemHolder::Furnace {
            fuel: Stack::Empty,
            material: Stack::Empty,
            output: Stack::Empty,
        }),
{
    ItemHolder::Furnace { fuel: Stack::Empty, material: Stack::Empty, output: Stack::Empty }
}

} // verus!
