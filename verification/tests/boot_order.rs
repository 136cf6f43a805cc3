use dracut_stub_manager::apply_boot_order_selection;
use dracut_stub_manager::boot_order_items;
use dracut_stub_manager::get_free_boot_id;
use dracut_stub_manager::insert_or_append;

#[test]
fn gen_boot_number_test() {
    assert_eq!(get_free_boot_id(&vec![1, 2]), 0);
    assert_eq!(get_free_boot_id(&vec![0, 2]), 1);
    assert_eq!(get_free_boot_id(&vec![0, 10, 11, 1]), 2);
}

#[test]
fn free_id_empty_order() {
    assert_eq!(get_free_boot_id(&vec![]), 0);
}

#[test]
fn free_id_contiguous_order() {
    assert_eq!(get_free_boot_id(&vec![0, 1, 2]), 3);
}

#[test]
fn free_id_duplicates_in_order() {
    assert_eq!(get_free_boot_id(&vec![0, 0, 1, 1, 3]), 2);
}

#[test]
fn insert_at_position() {
    let mut order: Vec<u16> = vec![4, 5, 6];
    insert_or_append(&mut order, 9, Some(1));
    assert_eq!(order, vec![4, 9, 5, 6]);
}

#[test]
fn append_without_position() {
    let mut order: Vec<u16> = vec![4, 5];
    insert_or_append(&mut order, 9, None);
    assert_eq!(order, vec![4, 5, 9]);
}

#[test]
fn selection_reorders_ids() {
    let items: Vec<(u16, String)> = vec![
        (7, String::from("seven")),
        (3, String::from("three")),
        (1, String::from("one")),
    ];
    let selection: Vec<usize> = vec![2, 0, 1];
    assert_eq!(apply_boot_order_selection(&items, &selection), vec![1, 7, 3]);
}

#[test]
fn order_items_resolve_descriptions() {
    let descriptions: Vec<(u16, String)> = vec![
        (0, String::from("linux")),
        (1, String::from("fallback")),
        (1, String::from("fallback-new")),
    ];
    let order: Vec<u16> = vec![1, 0];
    let items = boot_order_items(&order, &descriptions);
    assert_eq!(items.len(), 2);
    assert_eq!(items[0].0, 1);
    // the last entry carrying an id wins
    assert_eq!(items[0].1, "fallback-new");
    assert_eq!(items[1].0, 0);
    assert_eq!(items[1].1, "linux");
}
