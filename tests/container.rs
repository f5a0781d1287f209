use inventory::{Container, ItemKind, ItemStack, Stackable};

fn amounts(cont: &Container<ItemStack>) -> Vec<Option<usize>> {
    let mut out = Vec::new();
    for i in 0..cont.size() {
        out.push(cont.slot(i).map(|s| s.amount()));
    }
    out
}

#[test]
fn test_container_add_and_get() {
    let mut cont = Container::<ItemStack>::new(1);
    let item = ItemStack::new(0, 1, 2);
    cont.add_item(item);
    assert!(
        cont.slot(0).is_some()
            && cont.slot(0).unwrap().item_kind() == 0
            && cont.slot_mut(0).is_some()
            && cont.slot_mut(0).unwrap().item_kind() == 0
    );
}

#[test]
fn test_container_take_removes_item() {
    let mut cont = Container::<ItemStack>::new(1);
    let item = ItemStack::new(0, 1, 2);
    cont.add_item(item);
    assert!(cont.take(0).is_some() && cont.slot(0).is_none());
}

#[test]
fn test_container_can_not_add_more_unique_items_than_slots() {
    let mut cont = Container::<ItemStack>::new(1);
    let item1 = ItemStack::new(0, 1, 2);
    cont.add_item(item1);
    let item2 = ItemStack::new(1, 1, 2);
    assert!(cont.add_item(item2).is_some());
}

#[test]
fn test_container_add_multiple_items_to_slot() {
    let mut cont = Container::<ItemStack>::new(1);
    let item1 = ItemStack::new(0, 1, 2);
    cont.add_item(item1);
    let item2 = ItemStack::new(0, 1, 2);
    assert!(cont.add_item(item2).is_none());
    assert_eq!(cont.slot(0).unwrap().amount(), 2);
}

#[test]
fn test_container_items_fill_non_full_slots() {
    let mut cont = Container::<ItemStack>::new(3);
    let item1 = ItemStack::new(0, 2, 3);
    let item2 = ItemStack::new(0, 2, 3);
    cont.add_item(item1);
    cont.add_item(item2);
    let item3 = ItemStack::new(0, 3, 3);
    assert!(cont.add_item(item3).is_none());
    assert_eq!(cont.slot(0).unwrap().amount(), 3);
    assert_eq!(cont.slot(1).unwrap().amount(), 3);
    assert_eq!(cont.slot(2).unwrap().amount(), 1);
}

#[test]
fn add_item_places_exact_stack() {
    let mut cont = Container::<ItemStack>::new(1);
    assert!(cont.add_item(ItemStack::new(0, 1, 2)).is_none());
    let s = cont.slot(0).unwrap();
    assert_eq!((s.item_kind(), s.amount(), s.max_amount()), (0, 1, 2));
}

#[test]
fn take_returns_the_stored_stack() {
    let mut cont = Container::<ItemStack>::new(1);
    cont.add_item(ItemStack::new(4, 1, 2));
    let t = cont.take(0).unwrap();
    assert_eq!((t.item_kind(), t.amount(), t.max_amount()), (4, 1, 2));
    assert!(cont.slot(0).is_none());
    assert!(cont.take(0).is_none());
}

#[test]
fn other_kind_comes_back_whole_and_slot_unchanged() {
    let mut cont = Container::<ItemStack>::new(1);
    cont.add_item(ItemStack::new(0, 1, 2));
    let r = cont.add_item(ItemStack::new(1, 1, 2)).unwrap();
    assert_eq!((r.item_kind(), r.amount(), r.max_amount()), (1, 1, 2));
    let s = cont.slot(0).unwrap();
    assert_eq!((s.item_kind(), s.amount()), (0, 1));
}

#[test]
fn other_kind_is_skipped_for_a_later_empty_slot() {
    let mut cont = Container::<ItemStack>::new(2);
    cont.add_item(ItemStack::new(0, 1, 5));
    assert!(cont.add_item(ItemStack::new(1, 2, 5)).is_none());
    assert_eq!(cont.slot(1).unwrap().item_kind(), 1);
    assert_eq!(amounts(&cont), vec![Some(1), Some(2)]);
}

#[test]
fn one_stack_is_shared_among_partial_stacks_then_spills() {
    let mut cont = Container::<ItemStack>::new(4);
    cont.add_item(ItemStack::new(0, 4, 5));
    cont.add_item(ItemStack::new(1, 1, 5));
    cont.add_item(ItemStack::new(0, 4, 5));
    assert_eq!(amounts(&cont), vec![Some(5), Some(1), Some(3), None]);
    assert!(cont.add_item(ItemStack::new(0, 5, 5)).is_none());
    assert_eq!(amounts(&cont), vec![Some(5), Some(1), Some(5), Some(3)]);
}

#[test]
fn full_container_returns_reduced_residual() {
    let mut cont = Container::<ItemStack>::new(2);
    cont.add_item(ItemStack::new(0, 3, 4));
    cont.add_item(ItemStack::new(1, 1, 4));
    let r = cont.add_item(ItemStack::new(0, 3, 4)).unwrap();
    assert_eq!((r.item_kind(), r.amount(), r.max_amount()), (0, 2, 4));
    assert_eq!(amounts(&cont), vec![Some(4), Some(1)]);
}

#[test]
fn total_amount_is_conserved() {
    let mut cont = Container::<ItemStack>::new(3);
    cont.add_item(ItemStack::new(0, 2, 3));
    cont.add_item(ItemStack::new(2, 3, 3));
    cont.add_item(ItemStack::new(0, 1, 3));
    let before: usize = amounts(&cont).iter().map(|a| a.unwrap_or(0)).sum();
    let incoming = ItemStack::new(0, 3, 3);
    let r = cont.add_item(incoming);
    let after: usize = amounts(&cont).iter().map(|a| a.unwrap_or(0)).sum();
    let residual = r.map(|s| s.amount()).unwrap_or(0);
    assert_eq!(before + 3, after + residual);
    assert_eq!(residual, 0);
    assert_eq!(amounts(&cont), vec![Some(3), Some(3), Some(3)]);
}

#[test]
fn zero_size_container_returns_item() {
    let mut cont = Container::<ItemStack>::new(0);
    assert_eq!(cont.size(), 0);
    let r = cont.add_item(ItemStack::new(7, 2, 3)).unwrap();
    assert_eq!((r.item_kind(), r.amount()), (7, 2));
    assert_eq!(cont.size(), 0);
}

#[test]
fn zero_amount_item_is_absorbed() {
    let mut cont = Container::<ItemStack>::new(1);
    cont.add_item(ItemStack::new(0, 2, 2));
    assert!(cont.add_item(ItemStack::new(0, 0, 2)).is_none());
    assert_eq!(cont.slot(0).unwrap().amount(), 2);
    let mut empty = Container::<ItemStack>::new(1);
    assert!(empty.add_item(ItemStack::new(3, 0, 2)).is_none());
    assert_eq!(empty.slot(0).unwrap().amount(), 0);
}

#[test]
fn size_is_constant() {
    let mut cont = Container::<ItemStack>::new(3);
    assert_eq!(cont.size(), 3);
    cont.add_item(ItemStack::new(0, 1, 1));
    cont.add_item(ItemStack::new(0, 1, 1));
    cont.swap_slots(0, 2);
    cont.erase_slot(1);
    cont.take(2);
    assert_eq!(cont.size(), 3);
}

#[test]
fn take_then_slot_is_empty() {
    let mut cont = Container::<ItemStack>::new(2);
    cont.add_item(ItemStack::new(0, 1, 1));
    cont.take(0);
    assert!(cont.slot(0).is_none());
    cont.take(1);
    assert!(cont.slot(1).is_none());
}

#[test]
fn swap_twice_restores() {
    let mut cont = Container::<ItemStack>::new(3);
    cont.add_item(ItemStack::new(0, 1, 1));
    cont.add_item(ItemStack::new(1, 2, 2));
    cont.swap_slots(0, 2);
    assert_eq!(amounts(&cont), vec![None, Some(2), Some(1)]);
    assert_eq!(cont.slot(2).unwrap().item_kind(), 0);
    cont.swap_slots(0, 2);
    assert_eq!(amounts(&cont), vec![Some(1), Some(2), None]);
    assert_eq!(cont.slot(0).unwrap().item_kind(), 0);
}

#[test]
fn swap_with_itself_is_a_no_op() {
    let mut cont = Container::<ItemStack>::new(2);
    cont.add_item(ItemStack::new(5, 1, 3));
    cont.swap_slots(0, 0);
    assert_eq!(cont.slot(0).unwrap().item_kind(), 5);
    assert_eq!(amounts(&cont), vec![Some(1), None]);
}

#[test]
fn erase_slot_empties_it() {
    let mut cont = Container::<ItemStack>::new(2);
    cont.add_item(ItemStack::new(0, 1, 1));
    cont.add_item(ItemStack::new(0, 1, 1));
    cont.erase_slot(0);
    assert_eq!(amounts(&cont), vec![None, Some(1)]);
    assert!(cont.add_item(ItemStack::new(2, 1, 1)).is_none());
    assert_eq!(cont.slot(0).unwrap().item_kind(), 2);
}

#[test]
fn slot_mut_changes_in_place() {
    let mut cont = Container::<ItemStack>::new(2);
    cont.add_item(ItemStack::new(0, 1, 4));
    assert_eq!(cont.slot_mut(0).unwrap().set_amount(3), Ok(()));
    assert!(cont.slot_mut(1).is_none());
    assert_eq!(amounts(&cont), vec![Some(3), None]);
}

#[test]
fn add_to_slot_cases() {
    let mut cont = Container::<ItemStack>::new(3);
    assert!(cont.add_to_slot(ItemStack::new(0, 2, 3), 1).is_none());
    assert_eq!(amounts(&cont), vec![None, Some(2), None]);
    let r = cont.add_to_slot(ItemStack::new(0, 3, 3), 1).unwrap();
    assert_eq!(r.amount(), 2);
    assert_eq!(amounts(&cont), vec![None, Some(3), None]);
    let r = cont.add_to_slot(ItemStack::new(9, 1, 3), 1).unwrap();
    assert_eq!((r.item_kind(), r.amount()), (9, 1));
    assert_eq!(cont.slot(1).unwrap().item_kind(), 0);
}
