use game_features::{LootTreeBuilder, LootTreeNode};

fn two_items() -> LootTreeBuilder<&'static str> {
    let mut builder = LootTreeBuilder::new();
    builder.nodes.push(LootTreeNode { chances: 5, result: "item1" });
    builder.nodes.push(LootTreeNode { chances: 2, result: "item2" });
    builder
}

#[test]
fn new_builder_has_no_nodes() {
    let builder = LootTreeBuilder::<u8>::new();
    assert!(builder.nodes.is_empty());
}

#[test]
fn each_node_is_picked_from_the_chances_before_it() {
    let tree = two_items().build();
    for x in 0..5 {
        assert_eq!(tree.pick(x), Some("item1"));
    }
    assert_eq!(tree.pick(5), Some("item2"));
    assert_eq!(tree.pick(6), Some("item2"));
}

#[test]
fn numbers_below_every_node_pick_nothing() {
    let tree = two_items().build();
    assert_eq!(tree.pick(-1), None);
    assert_eq!(tree.pick(i32::MIN), None);
}

#[test]
fn the_last_node_has_no_upper_end() {
    let tree = two_items().build();
    assert_eq!(tree.pick(7), Some("item2"));
    assert_eq!(tree.pick(i32::MAX), Some("item2"));
}

#[test]
fn nodes_are_found_by_where_they_start_not_by_their_position() {
    // The nodes start at 0, 5 and 3.
    let mut builder = LootTreeBuilder::new();
    builder.nodes.push(LootTreeNode { chances: 5, result: 'a' });
    builder.nodes.push(LootTreeNode { chances: -2, result: 'b' });
    builder.nodes.push(LootTreeNode { chances: 4, result: 'c' });
    let tree = builder.build();
    assert_eq!(tree.pick(2), Some('a'));
    assert_eq!(tree.pick(3), Some('c'));
    assert_eq!(tree.pick(4), Some('c'));
    assert_eq!(tree.pick(5), Some('b'));
    assert_eq!(tree.pick(6), Some('b'));
}

#[test]
fn a_tree_without_nodes_picks_nothing() {
    let tree = LootTreeBuilder::<u8>::new().build();
    assert_eq!(tree.pick(0), None);
}

#[test]
fn roll_gives_the_result_of_some_node() {
    let tree = two_items().build();
    let mut seen_first = false;
    let mut seen_second = false;
    for _ in 0..2000 {
        match tree.roll() {
            Some("item1") => seen_first = true,
            Some("item2") => seen_second = true,
            other => panic!("unexpected roll: {:?}", other),
        }
    }
    assert!(seen_first && seen_second);
}

#[test]
fn roll_on_a_single_node_always_gives_it() {
    let mut builder = LootTreeBuilder::new();
    builder.nodes.push(LootTreeNode { chances: 1, result: 42u32 });
    let tree = builder.build();
    for _ in 0..50 {
        assert_eq!(tree.roll(), Some(42));
    }
}

#[test]
fn roll_never_draws_the_maximum_itself() {
    // The nodes start at 0, 3 and 5, and rolls are drawn below 3.
    let mut builder = LootTreeBuilder::new();
    builder.nodes.push(LootTreeNode { chances: 3, result: 'a' });
    builder.nodes.push(LootTreeNode { chances: 2, result: 'b' });
    builder.nodes.push(LootTreeNode { chances: -2, result: 'c' });
    let tree = builder.build();
    assert_eq!(tree.pick(3), Some('b'));
    for _ in 0..500 {
        assert_eq!(tree.roll(), Some('a'));
    }
}
