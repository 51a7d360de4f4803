use game_features::{
    Inventory, InventorySizingMode, ItemDefinition, ItemDefinitions, ItemError, ItemInstance,
    MoveToFrontMode, SlotType,
};
use std::collections::HashMap;

type Inv = Inventory<u32, (), u8>;

fn stack(key: u32, quantity: usize) -> ItemInstance<u32, u8> {
    ItemInstance::new(key, quantity)
}

fn tagged(key: u32, quantity: usize, durability: Option<usize>, tag: u8) -> ItemInstance<u32, u8> {
    ItemInstance { key, quantity, durability, user_data: tag }
}

fn def(key: u32, maximum_stack: Option<usize>) -> ItemDefinition<u32, (), ()> {
    ItemDefinition::new(
        key,
        (),
        format!("item {}", key),
        format!("item_{}", key),
        String::new(),
        maximum_stack,
        None,
    )
}

fn catalog(entries: Vec<(u32, Option<usize>)>) -> ItemDefinitions<u32, (), ()> {
    ItemDefinitions::from(entries.into_iter().map(|(k, m)| def(k, m)).collect::<Vec<_>>())
}

fn no_defs() -> ItemDefinitions<u32, (), ()> {
    ItemDefinitions::default()
}

/// The slots as (key, quantity) pairs.
fn shape(inv: &Inv) -> Vec<Option<(u32, usize)>> {
    inv.content.iter().map(|s| s.as_ref().map(|s| (s.key, s.quantity))).collect()
}

fn filled(mode: MoveToFrontMode, stacks: Vec<Option<(u32, usize)>>) -> Inv {
    let mut inv = Inv::new_fixed(stacks.len());
    let defs = no_defs();
    for (idx, s) in stacks.into_iter().enumerate() {
        if let Some((key, quantity)) = s {
            inv.insert_into(idx, stack(key, quantity), &defs).unwrap();
        }
    }
    inv.move_to_front = mode;
    inv
}

fn sizing_holds(inv: &Inv) -> bool {
    match inv.sizing_mode {
        InventorySizingMode::Fixed { size } => inv.content.len() == size,
        InventorySizingMode::Dynamic { min_size, max_size } => {
            min_size <= inv.content.len() && inv.content.len() <= max_size
        }
    }
}

fn no_empty_stack(inv: &Inv) -> bool {
    inv.content.iter().all(|s| s.as_ref().map_or(true, |s| s.quantity > 0))
}

#[test]
fn new_fixed_is_all_empty_and_unrestricted() {
    let inv = Inv::new_fixed(4);
    assert_eq!(shape(&inv), vec![None, None, None, None]);
    assert_eq!(inv.slot_restriction.len(), 4);
    assert!(inv.slot_restriction.iter().all(|r| r.is_none()));
    assert!(matches!(inv.move_to_front, MoveToFrontMode::Off));
    assert!(matches!(inv.sizing_mode, InventorySizingMode::Fixed { size: 4 }));
}

#[test]
fn new_dynamic_starts_at_the_minimum() {
    let inv = Inv::new_dynamic(2, 5);
    assert_eq!(shape(&inv), vec![None, None]);
    assert!(inv.slot_restriction.is_empty());
    assert!(matches!(inv.sizing_mode, InventorySizingMode::Dynamic { min_size: 2, max_size: 5 }));
    assert!(sizing_holds(&inv));
}

#[test]
fn new_fixed_with_no_slot_has_no_space() {
    let mut inv = Inv::new_fixed(0);
    assert!(!inv.has_space());
    assert_eq!(inv.first_empty_slot(), None);
    assert!(matches!(inv.insert(stack(1, 1), &no_defs()), Err(ItemError::InventoryFull)));
}

#[test]
fn get_beyond_the_slots_is_empty() {
    let mut inv = filled(MoveToFrontMode::Off, vec![Some((1, 1))]);
    assert!(inv.get(0).is_some());
    assert!(inv.get(1).is_none());
    assert!(inv.get(usize::MAX).is_none());
    assert!(inv.get_mut(1).is_none());
    assert!(inv.get_mut(usize::MAX).is_none());
}

#[test]
fn get_mut_writes_into_the_slot() {
    let mut inv = filled(MoveToFrontMode::Off, vec![None, Some((1, 1))]);
    assert!(inv.get_mut(0).is_none());
    let held = inv.get_mut(1).unwrap();
    held.quantity = 9;
    held.user_data = 3;
    assert_eq!(shape(&inv), vec![None, Some((1, 9))]);
    assert_eq!(inv.get(1).as_ref().unwrap().user_data, 3);
}

#[test]
fn get_key_finds_the_stacks_in_slot_order() {
    let inv = filled(
        MoveToFrontMode::Off,
        vec![Some((1, 4)), Some((2, 5)), None, Some((1, 6)), Some((3, 7))],
    );
    let found: Vec<usize> = inv.get_key(&1).iter().map(|s| s.quantity).collect();
    assert_eq!(found, vec![4, 6]);
    assert!(inv.get_key(&9).is_empty());
}

#[test]
fn get_key_mut_writes_into_the_matching_slots() {
    let mut inv = filled(
        MoveToFrontMode::Off,
        vec![Some((1, 4)), Some((2, 5)), None, Some((1, 6))],
    );
    {
        let mut found = inv.get_key_mut(&1);
        assert_eq!(found.len(), 2);
        assert_eq!(found[0].quantity, 4);
        assert_eq!(found[1].quantity, 6);
        found[0].quantity = 10;
        found[1].quantity = 20;
    }
    assert_eq!(shape(&inv), vec![Some((1, 10)), Some((2, 5)), None, Some((1, 20))]);
    assert!(inv.get_key_mut(&7).is_empty());
}

#[test]
fn has_and_has_quantity_sum_over_the_stacks_of_a_key() {
    let inv = filled(MoveToFrontMode::Off, vec![Some((1, 4)), Some((2, 5)), None, Some((1, 6))]);
    assert!(inv.has(&1));
    assert!(inv.has(&2));
    assert!(!inv.has(&3));
    assert!(inv.has_quantity(&1, 0));
    assert!(inv.has_quantity(&1, 10));
    assert!(!inv.has_quantity(&1, 11));
    assert!(inv.has_quantity(&2, 5));
    assert!(!inv.has_quantity(&2, 6));
    assert!(inv.has_quantity(&3, 0));
    assert!(!inv.has_quantity(&3, 1));
}

#[test]
fn has_quantity_does_not_overflow_on_huge_stacks() {
    let inv = filled(
        MoveToFrontMode::Off,
        vec![Some((1, usize::MAX)), Some((1, usize::MAX))],
    );
    assert!(inv.has_quantity(&1, usize::MAX));
}

#[test]
fn has_space_looks_for_a_hole_or_for_room_to_grow() {
    let fixed = filled(MoveToFrontMode::Off, vec![Some((1, 1)), None]);
    assert!(fixed.has_space());
    let full = filled(MoveToFrontMode::Off, vec![Some((1, 1)), Some((2, 1))]);
    assert!(!full.has_space());
    let mut dynamic = Inv::new_dynamic(1, 2);
    assert!(dynamic.has_space());
    dynamic.insert(stack(1, 1), &no_defs()).unwrap();
    assert!(dynamic.has_space());
    dynamic.insert(stack(2, 1), &no_defs()).unwrap();
    assert!(!dynamic.has_space());
}

#[test]
fn first_empty_slot_without_compaction_is_the_lowest_hole() {
    let inv = filled(MoveToFrontMode::Off, vec![Some((1, 1)), None, Some((2, 1)), None]);
    assert_eq!(inv.first_empty_slot(), Some(1));
    let full = filled(MoveToFrontMode::Off, vec![Some((1, 1))]);
    assert_eq!(full.first_empty_slot(), None);
}

#[test]
fn first_empty_slot_with_compaction_is_past_the_slots() {
    let mut inv = Inv::new_dynamic(1, 3);
    inv.move_to_front = MoveToFrontMode::Offset;
    assert_eq!(inv.first_empty_slot(), Some(1));
    inv.content.push(None);
    inv.content.push(None);
    assert_eq!(inv.first_empty_slot(), None);
    let fixed = filled(MoveToFrontMode::TakeLast, vec![None, None]);
    assert_eq!(fixed.first_empty_slot(), None);
}

#[test]
fn delete_takes_part_of_a_stack_and_keeps_its_durability() {
    let mut inv = Inv::new_fixed(2);
    inv.insert_into(1, tagged(7, 5, Some(12), 4), &no_defs()).unwrap();
    let part = inv.delete(1, 2).unwrap();
    assert_eq!(part.key, 7);
    assert_eq!(part.quantity, 2);
    assert_eq!(part.durability, Some(12));
    assert_eq!(part.user_data, 0);
    let left = inv.get(1).as_ref().unwrap();
    assert_eq!(left.quantity, 3);
    assert_eq!(left.durability, Some(12));
    assert_eq!(left.user_data, 4);
}

#[test]
fn delete_of_nothing_hands_back_an_empty_stack() {
    let mut inv = filled(MoveToFrontMode::Off, vec![Some((7, 5))]);
    let part = inv.delete(0, 0).unwrap();
    assert_eq!(part.quantity, 0);
    assert_eq!(shape(&inv), vec![Some((7, 5))]);
}

#[test]
fn delete_reports_empty_slots_and_short_stacks() {
    let mut inv = filled(MoveToFrontMode::Off, vec![Some((7, 5)), None]);
    assert!(matches!(inv.delete(1, 1), Err(ItemError::SlotEmpty)));
    assert!(matches!(inv.delete(2, 1), Err(ItemError::SlotEmpty)));
    assert!(matches!(inv.delete(0, 6), Err(ItemError::NotEnoughQuantity)));
    assert!(matches!(inv.delete_stack(1), Err(ItemError::SlotEmpty)));
    assert!(matches!(inv.delete_stack(9), Err(ItemError::SlotEmpty)));
    assert_eq!(shape(&inv), vec![Some((7, 5)), None]);
}

#[test]
fn deleting_a_whole_stack_leaves_a_hole_without_compaction() {
    let mut inv = filled(MoveToFrontMode::Off, vec![Some((1, 1)), Some((2, 2)), Some((3, 3))]);
    let taken = inv.delete(0, 1).unwrap();
    assert_eq!(taken.quantity, 1);
    assert_eq!(shape(&inv), vec![None, Some((2, 2)), Some((3, 3))]);
}

#[test]
fn deleting_a_whole_stack_shifts_the_rest_with_offset() {
    let mut inv = filled(MoveToFrontMode::Offset, vec![Some((1, 1)), Some((2, 2)), Some((3, 3))]);
    inv.delete_stack(0).unwrap();
    assert_eq!(shape(&inv), vec![Some((2, 2)), Some((3, 3)), None]);
    inv.delete_stack(1).unwrap();
    assert_eq!(shape(&inv), vec![Some((2, 2)), None, None]);
}

#[test]
fn deleting_the_last_slot_with_take_last_only_empties_it() {
    let mut inv = filled(MoveToFrontMode::TakeLast, vec![Some((1, 1)), Some((2, 2))]);
    inv.delete_stack(1).unwrap();
    assert_eq!(shape(&inv), vec![Some((1, 1)), None]);
}

#[test]
fn use_item_wears_the_item_down() {
    let mut inv = Inv::new_fixed(2);
    inv.insert_into(0, tagged(1, 2, Some(2), 0), &no_defs()).unwrap();
    inv.insert_into(1, tagged(2, 1, None, 0), &no_defs()).unwrap();
    assert!(matches!(inv.use_item(0), Ok(Some(1))));
    assert!(matches!(inv.use_item(0), Ok(Some(0))));
    assert_eq!(inv.get(0).as_ref().unwrap().durability, Some(0));
    assert!(matches!(inv.use_item(1), Ok(None)));
    assert_eq!(inv.get(1).as_ref().unwrap().durability, None);
    assert!(matches!(inv.use_item(5), Err(ItemError::SlotEmpty)));
    match inv.use_item(0) {
        Err(ItemError::ItemDestroyed(broken)) => {
            assert_eq!((broken.key, broken.quantity, broken.durability), (1, 2, Some(0)));
        }
        _ => panic!("the item should have broken"),
    }
    assert!(matches!(inv.use_item(0), Err(ItemError::SlotEmpty)));
}

#[test]
fn consume_counts_down_and_removes_the_stack() {
    let mut inv = Inv::new_fixed(1);
    inv.insert_into(0, tagged(4, 3, Some(8), 1), &no_defs()).unwrap();
    assert!(matches!(inv.consume(0), Ok(2)));
    assert!(matches!(inv.consume(0), Ok(1)));
    match inv.consume(0) {
        Err(ItemError::StackConsumed(gone)) => {
            assert_eq!(gone.key, 4);
            assert_eq!(gone.quantity, 0);
            assert_eq!(gone.durability, Some(8));
        }
        _ => panic!("the stack should be consumed"),
    }
    assert!(inv.get(0).is_none());
    assert!(matches!(inv.consume(0), Err(ItemError::SlotEmpty)));
    assert!(matches!(inv.consume(3), Err(ItemError::SlotEmpty)));
}

#[test]
fn delete_key_drains_the_lowest_stacks_first() {
    let mut inv = filled(
        MoveToFrontMode::Off,
        vec![Some((1, 2)), Some((2, 9)), Some((1, 3)), Some((1, 4))],
    );
    let taken = inv.delete_key(&1, 6).unwrap();
    assert_eq!((taken.key, taken.quantity, taken.durability), (1, 6, None));
    assert_eq!(shape(&inv), vec![None, Some((2, 9)), None, Some((1, 3))]);
}

#[test]
fn delete_key_is_all_or_nothing() {
    let mut inv = filled(MoveToFrontMode::Off, vec![Some((1, 2)), Some((2, 9)), Some((1, 3))]);
    assert!(matches!(inv.delete_key(&1, 6), Err(ItemError::NotEnoughQuantity)));
    assert!(matches!(inv.delete_key(&3, 1), Err(ItemError::NotEnoughQuantity)));
    assert_eq!(shape(&inv), vec![Some((1, 2)), Some((2, 9)), Some((1, 3))]);
    let all = inv.delete_key(&1, 5).unwrap();
    assert_eq!(all.quantity, 5);
    assert_eq!(shape(&inv), vec![None, Some((2, 9)), None]);
}

#[test]
fn delete_key_of_nothing_changes_nothing() {
    let mut inv = filled(MoveToFrontMode::Off, vec![Some((1, 2))]);
    let none = inv.delete_key(&5, 0).unwrap();
    assert_eq!((none.key, none.quantity), (5, 0));
    let nothing = inv.delete_key(&1, 0).unwrap();
    assert_eq!(nothing.quantity, 0);
    assert_eq!(shape(&inv), vec![Some((1, 2))]);
}

#[test]
fn delete_key_with_offset_only_touches_stacks_of_the_key() {
    let mut inv = filled(
        MoveToFrontMode::Offset,
        vec![Some((1, 1)), Some((1, 2)), Some((2, 3)), Some((1, 1))],
    );
    let taken = inv.delete_key(&1, 2).unwrap();
    assert_eq!(taken.quantity, 2);
    assert_eq!(shape(&inv), vec![Some((1, 1)), Some((2, 3)), Some((1, 1)), None]);
    let rest = inv.delete_key(&1, 2).unwrap();
    assert_eq!(rest.quantity, 2);
    assert_eq!(shape(&inv), vec![Some((2, 3)), None, None, None]);
}

#[test]
fn delete_key_with_take_last_only_touches_stacks_of_the_key() {
    let mut inv = filled(
        MoveToFrontMode::TakeLast,
        vec![Some((1, 1)), Some((2, 3)), Some((1, 4))],
    );
    let taken = inv.delete_key(&1, 3).unwrap();
    assert_eq!(taken.quantity, 3);
    assert_eq!(shape(&inv), vec![Some((1, 2)), Some((2, 3)), None]);
    assert!(inv.has_quantity(&2, 3));
}

#[test]
fn insert_merges_before_it_takes_a_slot() {
    let defs = catalog(vec![(1, Some(10)), (2, None)]);
    let mut inv = filled(MoveToFrontMode::Off, vec![Some((1, 8)), None, Some((1, 9)), None]);
    inv.insert(stack(1, 5), &defs).unwrap();
    assert_eq!(shape(&inv), vec![Some((1, 10)), Some((1, 2)), Some((1, 10)), None]);
    inv.insert(stack(1, 1), &defs).unwrap();
    assert_eq!(shape(&inv), vec![Some((1, 10)), Some((1, 3)), Some((1, 10)), None]);
}

#[test]
fn insert_without_a_stack_limit_merges_everything() {
    let defs = catalog(vec![(2, None)]);
    let mut inv = filled(MoveToFrontMode::Off, vec![None, Some((2, 7))]);
    inv.insert(stack(2, 100), &defs).unwrap();
    assert_eq!(shape(&inv), vec![None, Some((2, 107))]);
}

#[test]
fn insert_does_not_merge_unknown_items_or_other_user_data() {
    let defs = catalog(vec![(1, Some(10))]);
    let mut inv = Inv::new_fixed(3);
    inv.insert_into(0, tagged(1, 2, None, 7), &defs).unwrap();
    inv.insert(tagged(1, 3, None, 8), &defs).unwrap();
    assert_eq!(shape(&inv), vec![Some((1, 2)), Some((1, 3)), None]);
    let empty = no_defs();
    inv.insert(tagged(1, 3, None, 7), &empty).unwrap();
    assert_eq!(shape(&inv), vec![Some((1, 2)), Some((1, 3)), Some((1, 3))]);
}

#[test]
fn insert_of_an_empty_stack_changes_nothing() {
    let mut inv = Inv::new_fixed(1);
    inv.insert(stack(1, 0), &no_defs()).unwrap();
    assert_eq!(shape(&inv), vec![None]);
}

#[test]
fn a_failed_insert_keeps_what_was_merged() {
    let defs = catalog(vec![(1, Some(10))]);
    let mut inv = filled(MoveToFrontMode::Off, vec![Some((1, 8))]);
    let done = inv.insert(stack(1, 5), &defs);
    assert!(matches!(done, Err(ItemError::InventoryFull)));
    assert_eq!(shape(&inv), vec![Some((1, 10))]);
}

#[test]
fn a_dynamic_inventory_stops_growing_at_its_maximum() {
    let mut inv = Inv::new_dynamic(0, 2);
    let defs = no_defs();
    inv.insert(stack(1, 1), &defs).unwrap();
    inv.insert(stack(2, 1), &defs).unwrap();
    assert!(matches!(inv.insert(stack(3, 1), &defs), Err(ItemError::InventoryFull)));
    assert_eq!(shape(&inv), vec![Some((1, 1)), Some((2, 1))]);
    assert!(sizing_holds(&inv));
}

#[test]
fn a_fixed_inventory_with_compaction_takes_no_new_stack() {
    let mut inv = filled(MoveToFrontMode::TakeLast, vec![None, None]);
    assert!(matches!(inv.insert(stack(1, 1), &no_defs()), Err(ItemError::InventoryFull)));
    assert_eq!(shape(&inv), vec![None, None]);
}

#[test]
fn insert_then_delete_stack_is_a_round_trip() {
    let defs = catalog(vec![(1, Some(10))]);
    let mut inv = filled(MoveToFrontMode::Off, vec![Some((2, 1)), None, Some((3, 1))]);
    let before = shape(&inv);
    inv.insert(tagged(1, 6, Some(3), 0), &defs).unwrap();
    let slot = 1;
    let back = inv.delete_stack(slot).unwrap();
    assert_eq!((back.key, back.quantity, back.durability), (1, 6, Some(3)));
    assert_eq!(shape(&inv), before);
}

#[test]
fn transfer_fails_without_touching_anything_when_the_source_cannot_give() {
    let defs = no_defs();
    let mut source = filled(MoveToFrontMode::Off, vec![Some((1, 2)), None]);
    let mut target = filled(MoveToFrontMode::Off, vec![None]);
    assert!(matches!(
        source.transfer(1, &mut target, 0, 1, false, &defs),
        Err(ItemError::SlotEmpty)
    ));
    assert!(matches!(
        source.transfer(0, &mut target, 0, 3, true, &defs),
        Err(ItemError::NotEnoughQuantity)
    ));
    assert!(matches!(
        source.transfer_stack(1, &mut target, 0, false, &defs),
        Err(ItemError::SlotEmpty)
    ));
    assert_eq!(shape(&source), vec![Some((1, 2)), None]);
    assert_eq!(shape(&target), vec![None]);
}

#[test]
fn transfer_into_an_occupied_slot_loses_the_quantity() {
    let defs = no_defs();
    let mut source = filled(MoveToFrontMode::Off, vec![Some((1, 5))]);
    let mut target = filled(MoveToFrontMode::Off, vec![Some((1, 1))]);
    assert!(matches!(
        source.transfer(0, &mut target, 0, 3, false, &defs),
        Err(ItemError::SlotOccupied)
    ));
    assert_eq!(shape(&source), vec![Some((1, 2))]);
    assert_eq!(shape(&target), vec![Some((1, 1))]);
}

#[test]
fn transfer_stack_moves_the_whole_stack() {
    let defs = no_defs();
    let mut source = Inv::new_fixed(1);
    source.insert_into(0, tagged(1, 5, Some(2), 9), &defs).unwrap();
    let mut target = Inv::new_fixed(2);
    source.transfer_stack(0, &mut target, 1, false, &defs).unwrap();
    assert_eq!(shape(&source), vec![None]);
    assert_eq!(shape(&target), vec![None, Some((1, 5))]);
    assert_eq!(target.get(1).as_ref().unwrap().durability, Some(2));
}

#[test]
fn move_item_and_move_stack_stay_in_one_inventory() {
    let defs = no_defs();
    let mut inv = filled(MoveToFrontMode::Off, vec![Some((1, 5)), None, Some((2, 1))]);
    inv.move_item(0, 1, 2, false, &defs).unwrap();
    assert_eq!(shape(&inv), vec![Some((1, 3)), Some((1, 2)), Some((2, 1))]);
    assert!(matches!(inv.move_item(0, 2, 1, false, &defs), Err(ItemError::SlotOccupied)));
    assert_eq!(shape(&inv), vec![Some((1, 2)), Some((1, 2)), Some((2, 1))]);
    inv.move_stack(2, 2, false, &defs).unwrap();
    assert_eq!(shape(&inv), vec![Some((1, 2)), Some((1, 2)), Some((2, 1))]);
    assert!(matches!(inv.move_stack(5, 0, false, &defs), Err(ItemError::SlotEmpty)));
    assert!(matches!(inv.move_item(0, 1, 9, false, &defs), Err(ItemError::NotEnoughQuantity)));
}

#[test]
fn move_stack_with_offset_sees_the_shifted_slots() {
    let defs = no_defs();
    let mut inv = filled(MoveToFrontMode::Offset, vec![Some((1, 5)), Some((2, 1)), None]);
    inv.move_stack(0, 1, false, &defs).unwrap();
    assert_eq!(shape(&inv), vec![Some((2, 1)), Some((1, 5)), None]);
}

#[test]
fn the_sizing_and_the_stacks_stay_sound_through_a_session() {
    let defs = catalog(vec![(1, Some(4)), (2, None)]);
    for mode in [MoveToFrontMode::Off, MoveToFrontMode::TakeLast, MoveToFrontMode::Offset] {
        let mut inv = filled(mode, vec![Some((1, 1)), Some((2, 2)), Some((1, 4)), None]);
        let mut other = Inv::new_dynamic(1, 2);
        let _ = inv.insert(stack(1, 2), &defs);
        let _ = inv.consume(1);
        let _ = inv.consume(1);
        let _ = inv.use_item(0);
        let _ = inv.delete(0, 1);
        let _ = inv.delete_key(&1, 3);
        let _ = inv.transfer(0, &mut other, 0, 1, false, &defs);
        let _ = inv.move_stack(0, 3, false, &defs);
        let _ = other.insert(stack(2, 3), &defs);
        let _ = other.insert(stack(3, 3), &defs);
        assert!(sizing_holds(&inv) && sizing_holds(&other));
        assert!(no_empty_stack(&inv) && no_empty_stack(&other));
    }
}

struct Pocket(bool);

impl SlotType for Pocket {
    fn can_insert_into(&self, item_type: &Self) -> bool {
        self.0 || !item_type.0
    }
}

#[test]
fn slot_types_decide_what_goes_where() {
    assert!(().can_insert_into(&()));
    assert!(Pocket(true).can_insert_into(&Pocket(true)));
    assert!(!Pocket(false).can_insert_into(&Pocket(true)));
    let inv = Inventory::<u32, Pocket, ()>::new_fixed(2);
    assert_eq!(inv.slot_restriction.len(), 2);
}

#[test]
fn inventories_can_be_put_together_from_their_parts() {
    let inv = Inv::new(
        vec![Some(stack(1, 1)), None],
        vec![None, None],
        MoveToFrontMode::new_take_last(),
        InventorySizingMode::new_fixed(2),
    );
    assert_eq!(shape(&inv), vec![Some((1, 1)), None]);
    assert!(matches!(inv.move_to_front, MoveToFrontMode::TakeLast));
    assert!(matches!(MoveToFrontMode::new_off(), MoveToFrontMode::Off));
    assert!(matches!(MoveToFrontMode::new_offset(), MoveToFrontMode::Offset));
    assert!(matches!(
        InventorySizingMode::new_dynamic(1, 2),
        InventorySizingMode::Dynamic { min_size: 1, max_size: 2 }
    ));
    let map: HashMap<u32, ItemDefinition<u32, (), ()>> = HashMap::new();
    assert!(ItemDefinitions::new(map).defs.is_empty());
}

#[test]
fn transfer_of_nothing_leaves_the_target_empty() {
    let defs = ItemDefinitions::<u32, (), ()>::default();
    let mut source = Inventory::<u32, (), ()>::new_fixed(1);
    source.insert_into(0, ItemInstance::new(1, 5), &defs).unwrap();
    let mut target = Inventory::<u32, (), ()>::new_fixed(1);
    let done = source.transfer(0, &mut target, 0, 0, false, &defs);
    assert!(done.is_ok());
    assert_eq!(target.content.len(), 1);
    assert!(target.content[0].is_none());
    let left = source.content[0].as_ref().unwrap();
    assert_eq!((left.key, left.quantity), (1, 5));
}

#[test]
fn insert_into_does_not_store_an_empty_stack() {
    let defs = no_defs();
    let mut inv = filled(MoveToFrontMode::Off, vec![None, Some((2, 1))]);
    assert!(inv.insert_into(0, stack(1, 0), &defs).is_ok());
    assert_eq!(shape(&inv), vec![None, Some((2, 1))]);
    assert!(matches!(inv.insert_into(1, stack(1, 0), &defs), Err(ItemError::SlotOccupied)));
    assert_eq!(shape(&inv), vec![None, Some((2, 1))]);
    assert!(no_empty_stack(&inv));
}

#[test]
fn moving_nothing_changes_nothing() {
    let defs = no_defs();
    for mode in [MoveToFrontMode::Off, MoveToFrontMode::TakeLast, MoveToFrontMode::Offset] {
        let mut inv = filled(mode, vec![Some((1, 5)), None]);
        assert!(inv.move_item(0, 1, 0, false, &defs).is_ok());
        assert_eq!(shape(&inv), vec![Some((1, 5)), None]);
        assert!(matches!(inv.move_item(0, 0, 0, false, &defs), Err(ItemError::SlotOccupied)));
        assert_eq!(shape(&inv), vec![Some((1, 5)), None]);
    }
}

#[test]
fn a_dynamic_inventory_with_compaction_grows_on_insert() {
    let defs = ItemDefinitions::<u32, (), ()>::default();
    for mode in [MoveToFrontMode::TakeLast, MoveToFrontMode::Offset] {
        let mut inv = Inventory::<u32, (), ()>::new_dynamic(1, 3);
        inv.move_to_front = mode;
        inv.insert_into(0, ItemInstance::new(1, 1), &defs).unwrap();
        assert!(inv.insert(ItemInstance::new(2, 1), &defs).is_ok());
        assert_eq!(inv.content.len(), 2);
        let second = inv.content[1].as_ref().unwrap();
        assert_eq!((second.key, second.quantity), (2, 1));
        assert!(inv.insert(ItemInstance::new(3, 4), &defs).is_ok());
        assert_eq!(inv.content.len(), 3);
        let third = inv.content[2].as_ref().unwrap();
        assert_eq!((third.key, third.quantity), (3, 4));
        assert!(matches!(
            inv.insert(ItemInstance::new(4, 1), &defs),
            Err(ItemError::InventoryFull)
        ));
        assert_eq!(inv.content.len(), 3);
        let first = inv.content[0].as_ref().unwrap();
        assert_eq!((first.key, first.quantity), (1, 1));
    }
}

#[test]
fn insert_with_compaction_keeps_the_sum_of_the_key() {
    let defs = catalog(vec![(1, Some(4))]);
    let mut inv = Inv::new_dynamic(2, 4);
    inv.insert_into(0, stack(1, 3), &defs).unwrap();
    inv.insert_into(1, stack(2, 7), &defs).unwrap();
    inv.move_to_front = MoveToFrontMode::Offset;
    inv.insert(stack(1, 5), &defs).unwrap();
    assert_eq!(shape(&inv), vec![Some((1, 4)), Some((2, 7)), Some((1, 4))]);
    assert!(inv.has_quantity(&1, 8) && !inv.has_quantity(&1, 9));
    assert!(sizing_holds(&inv) && no_empty_stack(&inv));
}

#[test]
fn has_all_asks_for_every_key_at_once() {
    let inv = filled(MoveToFrontMode::Off, vec![Some((1, 4)), Some((2, 5)), None, Some((1, 6))]);
    assert!(inv.has_all(&vec![]));
    assert!(inv.has_all(&vec![(1, 10), (2, 5)]));
    assert!(inv.has_all(&vec![(2, 0), (3, 0), (1, 1)]));
    assert!(!inv.has_all(&vec![(1, 10), (2, 6)]));
    assert!(!inv.has_all(&vec![(1, 11), (2, 5)]));
    assert!(!inv.has_all(&vec![(3, 1)]));
    assert!(inv.has_all(&vec![(1, 5), (1, 10)]));
}

#[test]
fn insert_fills_to_the_limit_and_stores_the_rest() {
    let defs = ItemDefinitions::from(vec![ItemDefinition::<u32, (), ()>::new(
        1,
        (),
        String::new(),
        String::new(),
        String::new(),
        Some(5),
        None,
    )]);
    let mut two = Inventory::<u32, (), ()>::new_fixed(2);
    assert!(two.insert(ItemInstance::new(1, 3), &defs).is_ok());
    assert!(two.insert(ItemInstance::new(1, 4), &defs).is_ok());
    let quantities: Vec<usize> = two.content.iter().map(|s| s.as_ref().unwrap().quantity).collect();
    assert_eq!(quantities, vec![5, 2]);
    let mut one = Inventory::<u32, (), ()>::new_fixed(1);
    assert!(one.insert(ItemInstance::new(1, 3), &defs).is_ok());
    assert!(matches!(one.insert(ItemInstance::new(1, 4), &defs), Err(ItemError::InventoryFull)));
    assert_eq!(one.content.len(), 1);
    assert_eq!(one.content[0].as_ref().unwrap().quantity, 5);
}
