use ourcraft::block::Block;
use ourcraft::items::{furnace_slots, FurnaceSlot, ItemHolder, Stack};

#[test]
fn furnace_slot_indices_round_trip() {
    for i in 0..3 {
        assert_eq!(FurnaceSlot::from_index(i).to_index(), i);
    }
    assert_eq!(FurnaceSlot::from_index(0), FurnaceSlot::Material);
    assert_eq!(FurnaceSlot::from_index(1), FurnaceSlot::Fuel);
    assert_eq!(FurnaceSlot::from_index(2), FurnaceSlot::Output);
}

#[test]
fn furnace_slot_acceptance_rules() {
    let f = furnace_slots();
    // Material slot takes anything, fuel slot only burnable kinds, output
    // slot nothing.
    assert!(f.can_recieve(Block::Dirt, 0));
    assert!(f.can_recieve(Block::Coal, 1));
    assert!(!f.can_recieve(Block::Dirt, 1));
    assert!(!f.can_recieve(Block::Coal, 2));
    let inv = ItemHolder::Inventory(vec![Stack::Empty; 4]);
    assert!(inv.can_recieve(Block::Dirt, 3));
}

#[test]
fn get_and_set_address_the_right_slots() {
    let mut f = furnace_slots();
    f.set(1, Stack::Of { item: Block::Coal, count: 3 });
    assert_eq!(f.get(1), Stack::Of { item: Block::Coal, count: 3 });
    assert_eq!(f.get(0), Stack::Empty);
    assert_eq!(f.get(2), Stack::Empty);

    let mut inv = ItemHolder::Inventory(vec![Stack::Empty; 2]);
    inv.set(1, Stack::Of { item: Block::Stone, count: 9 });
    assert_eq!(inv.get(0), Stack::Empty);
    assert_eq!(inv.get(1), Stack::Of { item: Block::Stone, count: 9 });
}

#[test]
fn taking_merges_stacks_of_the_same_kind() {
    let mut a = Stack::Of { item: Block::Coal, count: 10 };
    let mut b = Stack::Of { item: Block::Coal, count: 5 };
    assert!(a.try_take_from(&mut b));
    assert_eq!(a, Stack::Of { item: Block::Coal, count: 15 });
    assert_eq!(b, Stack::Empty);

    let mut c = Stack::Of { item: Block::Stone, count: 1 };
    assert!(!a.try_take_from(&mut c));
    assert_eq!(c, Stack::Of { item: Block::Stone, count: 1 });

    let mut empty = Stack::Empty;
    assert!(empty.try_take_from(&mut c));
    assert_eq!(empty, Stack::Of { item: Block::Stone, count: 1 });
    assert_eq!(c, Stack::Empty);
}

#[test]
fn take_or_swap_swaps_when_nothing_can_move() {
    let mut f = furnace_slots();
    f.set(0, Stack::Of { item: Block::Dirt, count: 2 });
    let mut held = Stack::Of { item: Block::Stone, count: 7 };
    f.take_or_swap(&mut held, 0);
    assert_eq!(f.get(0), Stack::Of { item: Block::Stone, count: 7 });
    assert_eq!(held, Stack::Of { item: Block::Dirt, count: 2 });

    let mut held2 = Stack::Of { item: Block::Stone, count: 3 };
    f.take_or_swap(&mut held2, 0);
    assert_eq!(f.get(0), Stack::Of { item: Block::Stone, count: 10 });
    assert_eq!(held2, Stack::Empty);
}

#[test]
fn quantity_and_take_all() {
    let mut s = Stack::Of { item: Block::Coal, count: 4 };
    assert_eq!(s.quantity(), 4);
    let taken = s.take_all();
    assert_eq!(taken.quantity(), 4);
    assert_eq!(s, Stack::Empty);
    assert_eq!(s.quantity(), 0);
}

#[test]
fn try_add_fills_matching_then_empty_slots() {
    let mut inv = ItemHolder::Inventory(vec![
        Stack::Of { item: Block::Coal, count: 10 },
        Stack::Of { item: Block::Stone, count: 1 },
        Stack::Empty,
    ]);
    assert_eq!(inv.try_add(Stack::Of { item: Block::Coal, count: 5 }), None);
    assert_eq!(inv.get(0), Stack::Of { item: Block::Coal, count: 15 });
    assert_eq!(inv.try_add(Stack::Of { item: Block::Dirt, count: 2 }), None);
    assert_eq!(inv.get(2), Stack::Of { item: Block::Dirt, count: 2 });
    assert_eq!(
        inv.try_add(Stack::Of { item: Block::Grass, count: 1 }),
        Some(Stack::Of { item: Block::Grass, count: 1 })
    );
}
