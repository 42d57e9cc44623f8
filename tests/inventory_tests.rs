use black_quartz::{sell_all_inventory, Currency, Inventory, Item};

fn item(id: &str, quantity: usize, value: u32) -> Item {
    Item { id: id.to_string(), name: id.to_uppercase(), quantity, value }
}

#[test]
fn add_item_merges_by_id() {
    let mut inv = Inventory::default();
    assert_eq!(inv.capacity(), 10);
    assert!(inv.add_item(item("iron", 2, 5)));
    assert!(inv.add_item(item("gold", 1, 20)));
    assert!(inv.add_item(item("iron", 3, 99)));
    assert_eq!(inv.size(), 6);
    assert_eq!(inv.items().len(), 2);
    assert_eq!(inv.items()[0].quantity, 5);
    assert_eq!(inv.items()[0].value, 5);
    assert_eq!(inv.print_items(), "IRON x5,GOLD x1");
}

#[test]
fn add_item_refuses_when_full() {
    let mut inv = Inventory::default();
    assert!(inv.add_item(item("sand", 10, 1)));
    assert!(!inv.add_item(item("sand", 1, 1)));
    assert!(!inv.add_item(item("gold", 1, 1)));
    assert_eq!(inv.size(), 10);
    assert_eq!(inv.print_items(), "SAND x10");
    let mut small = Inventory::with_capacity(3);
    assert!(!small.add_item(item("gold", 4, 1)));
    assert!(small.is_empty());
    assert_eq!(small.print_items(), "");
}

#[test]
fn sell_everything() {
    let mut inv = Inventory::default();
    let mut purse = Currency::default();
    assert!(!sell_all_inventory(&mut inv, &mut purse));
    assert_eq!(purse.amount, 100);
    inv.add_item(item("iron", 3, 7));
    inv.add_item(item("gold", 2, 50));
    assert!(sell_all_inventory(&mut inv, &mut purse));
    assert_eq!(purse.amount, 100 + 21 + 100);
    assert!(inv.is_empty());
    assert_eq!(inv.capacity(), 10);
}

#[test]
fn sell_refuses_an_overflowing_purse() {
    let mut inv = Inventory::default();
    inv.add_item(item("crystal", 2, u32::MAX / 2));
    let mut purse = Currency { amount: 2 };
    assert!(!sell_all_inventory(&mut inv, &mut purse));
    assert_eq!(purse.amount, 2);
    assert_eq!(inv.size(), 2);
    let mut purse = Currency { amount: 1 };
    assert!(sell_all_inventory(&mut inv, &mut purse));
    assert_eq!(purse.amount, u32::MAX);
}
