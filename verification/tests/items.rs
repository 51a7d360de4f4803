use game_features::{ItemDefinition, ItemDefinitions, ItemInstance};

fn def(key: u32, maximum_stack: Option<usize>) -> ItemDefinition<u32, (), u16> {
    ItemDefinition::new(
        key,
        (),
        "Apple".to_string(),
        "apple".to_string(),
        "Food is nice".to_string(),
        maximum_stack,
        Some(64),
    )
}

fn stack(key: u32, quantity: usize, tag: u8) -> ItemInstance<u32, u8> {
    ItemInstance { key, quantity, durability: None, user_data: tag }
}

#[test]
fn new_stacks_cannot_break_and_carry_default_data() {
    let s = ItemInstance::<u32, u8>::new(3, 7);
    assert_eq!((s.key, s.quantity, s.durability, s.user_data), (3, 7, None, 0));
}

#[test]
fn new_definitions_carry_default_data() {
    let d = def(1, Some(16));
    assert_eq!(d.key, 1);
    assert_eq!(d.name, "Apple");
    assert_eq!(d.friendly_name, "apple");
    assert_eq!(d.description, "Food is nice");
    assert_eq!(d.maximum_stack, Some(16));
    assert_eq!(d.maximum_durability, Some(64));
    assert_eq!(d.user_data, 0);
}

#[test]
fn the_catalog_keeps_the_later_of_two_definitions() {
    let defs = ItemDefinitions::from(vec![def(1, Some(16)), def(2, None), def(1, Some(4))]);
    assert_eq!(defs.defs.len(), 2);
    assert_eq!(defs.defs[&1].maximum_stack, Some(4));
    assert_eq!(defs.defs[&2].maximum_stack, None);
    assert!(ItemDefinitions::<u32, (), u16>::default().defs.is_empty());
    assert!(ItemDefinitions::<u32, (), u16>::from(vec![]).defs.is_empty());
}

#[test]
fn merge_moves_what_fits_under_the_limit() {
    let defs = ItemDefinitions::from(vec![def(1, Some(16))]);
    let mut held = stack(1, 10, 0);
    let mut incoming = stack(1, 9, 0);
    held.merge(&mut incoming, &defs);
    assert_eq!((held.quantity, incoming.quantity), (16, 3));
    held.merge(&mut incoming, &defs);
    assert_eq!((held.quantity, incoming.quantity), (16, 3));
}

#[test]
fn merge_moves_everything_when_it_fits() {
    let defs = ItemDefinitions::from(vec![def(1, Some(16))]);
    let mut held = stack(1, 10, 0);
    let mut incoming = stack(1, 6, 0);
    held.merge(&mut incoming, &defs);
    assert_eq!((held.quantity, incoming.quantity), (16, 0));
}

#[test]
fn merge_without_a_limit_moves_everything() {
    let defs = ItemDefinitions::from(vec![def(1, None)]);
    let mut held = stack(1, 10, 0);
    let mut incoming = stack(1, 1000, 0);
    held.merge(&mut incoming, &defs);
    assert_eq!((held.quantity, incoming.quantity), (1010, 0));
}

#[test]
fn merge_is_a_no_op_on_a_mismatch() {
    let defs = ItemDefinitions::from(vec![def(1, Some(16)), def(2, Some(16))]);
    let mut held = stack(1, 10, 0);
    let mut other_key = stack(2, 5, 0);
    held.merge(&mut other_key, &defs);
    assert_eq!((held.quantity, other_key.quantity), (10, 5));
    let mut other_data = stack(1, 5, 1);
    held.merge(&mut other_data, &defs);
    assert_eq!((held.quantity, other_data.quantity), (10, 5));
    let unknown = ItemDefinitions::<u32, (), u16>::default();
    let mut same = stack(1, 5, 0);
    held.merge(&mut same, &unknown);
    assert_eq!((held.quantity, same.quantity), (10, 5));
}

#[test]
fn merge_conserves_the_total_and_respects_the_limit() {
    let defs = ItemDefinitions::from(vec![def(1, Some(16))]);
    for held_quantity in 0..=16usize {
        for incoming_quantity in 0..=20usize {
            let mut held = stack(1, held_quantity, 0);
            let mut incoming = stack(1, incoming_quantity, 0);
            held.merge(&mut incoming, &defs);
            assert_eq!(held.quantity + incoming.quantity, held_quantity + incoming_quantity);
            assert!(held.quantity <= 16);
            assert!(held.quantity == 16 || incoming.quantity == 0);
        }
    }
}
