use inventory_ledger::error::LedgerError;
use inventory_ledger::gateway::Statement;
use inventory_ledger::ledger::Ledger;
use inventory_ledger::product::Product;
use inventory_ledger::stock::StockChange;

fn s(x: &str) -> String {
    x.to_string()
}

fn ledger_with_product(name: &str) -> Ledger {
    let mut l = Ledger::new();
    l.add_product(Product { name: s(name), price: None, picture: None, kind: None })
        .expect("product");
    l
}

fn change(name: &str, expiry: &str, qty: i64) -> StockChange {
    StockChange { name: s(name), expiry_date: s(expiry), qty }
}

#[test]
fn add_stock_creates_and_increments() {
    let mut l = ledger_with_product("Milk");
    let stmts = l.add_stock(&vec![change("Milk", "2024-06-01", 4)]).expect("add");
    assert_eq!(l.current_qty(&s("Milk"), &s("2024-06-01")), 4);
    assert_eq!(
        stmts,
        vec![Statement::UpsertLotAdd { name: s("Milk"), expiry: s("2024-06-01"), delta: 4 }]
    );
    l.add_stock(&vec![change("Milk", "2024-06-01", 6)]).expect("add more");
    assert_eq!(l.current_qty(&s("Milk"), &s("2024-06-01")), 10);
    assert_eq!(l.stock.len(), 1);
}

#[test]
fn add_stock_rejects_nonpositive_quantity() {
    let mut l = ledger_with_product("Milk");
    let err = l.add_stock(&vec![change("Milk", "2024-06-01", 0)]).unwrap_err();
    assert_eq!(err, LedgerError::NonPositiveQuantity { name: s("Milk"), qty: 0 });
    assert!(l.stock.is_empty());
}

#[test]
fn add_stock_rejects_unknown_product() {
    let mut l = ledger_with_product("Milk");
    let err = l.add_stock(&vec![change("Bread", "2024-06-01", 1)]).unwrap_err();
    assert_eq!(err, LedgerError::MissingProduct { name: s("Bread") });
}

#[test]
fn add_stock_batch_is_atomic() {
    let mut l = ledger_with_product("Milk");
    let err = l
        .add_stock(&vec![change("Milk", "2024-06-01", 5), change("Milk", "2024-07-01", -2)])
        .unwrap_err();
    assert_eq!(err, LedgerError::NonPositiveQuantity { name: s("Milk"), qty: -2 });
    // the valid first change must not have been applied
    assert_eq!(l.current_qty(&s("Milk"), &s("2024-06-01")), 0);
    assert!(l.stock.is_empty());
}

#[test]
fn add_stock_rejects_overflow() {
    let mut l = ledger_with_product("Milk");
    l.add_stock(&vec![change("Milk", "2024-06-01", i64::MAX)]).expect("fill");
    let err = l.add_stock(&vec![change("Milk", "2024-06-01", 1)]).unwrap_err();
    assert_eq!(
        err,
        LedgerError::QuantityOverflow { name: s("Milk"), expiry: s("2024-06-01") }
    );
    assert_eq!(l.current_qty(&s("Milk"), &s("2024-06-01")), i64::MAX);
}

#[test]
fn remove_stock_exceeding_available_fails_and_leaves_quantity() {
    // Lot (Milk, 2024-06-01) at 10: removing 15 fails, the lot stays at 10.
    let mut l = ledger_with_product("Milk");
    l.add_stock(&vec![change("Milk", "2024-06-01", 10)]).expect("add");
    let err = l.remove_stock(&vec![change("Milk", "2024-06-01", 15)], false).unwrap_err();
    assert_eq!(
        err,
        LedgerError::InsufficientStock {
            name: s("Milk"),
            expiry: s("2024-06-01"),
            available: 10,
            requested: 15,
        }
    );
    assert_eq!(l.current_qty(&s("Milk"), &s("2024-06-01")), 10);
}

#[test]
fn remove_stock_to_zero_deletes_the_lot() {
    // Removing exactly the available quantity deletes the row; a later
    // addition recreates the lot at the new quantity.
    let mut l = ledger_with_product("Milk");
    l.add_stock(&vec![change("Milk", "2024-06-01", 10)]).expect("add");
    l.remove_stock(&vec![change("Milk", "2024-06-01", 10)], false).expect("remove all");
    assert!(l.stock.is_empty());
    assert_eq!(l.current_qty(&s("Milk"), &s("2024-06-01")), 0);
    l.add_stock(&vec![change("Milk", "2024-06-01", 5)]).expect("add again");
    assert_eq!(l.current_qty(&s("Milk"), &s("2024-06-01")), 5);
}

#[test]
fn remove_stock_from_empty_lot_reports_no_stock() {
    let mut l = ledger_with_product("Milk");
    let err = l.remove_stock(&vec![change("Milk", "2024-06-01", 1)], false).unwrap_err();
    assert_eq!(err, LedgerError::NoStock { name: s("Milk"), expiry: s("2024-06-01") });
}

#[test]
fn remove_stock_rejects_nonpositive_quantity() {
    let mut l = ledger_with_product("Milk");
    l.add_stock(&vec![change("Milk", "2024-06-01", 3)]).expect("add");
    let err = l.remove_stock(&vec![change("Milk", "2024-06-01", -1)], false).unwrap_err();
    assert_eq!(err, LedgerError::NonPositiveQuantity { name: s("Milk"), qty: -1 });
    assert_eq!(l.current_qty(&s("Milk"), &s("2024-06-01")), 3);
}

#[test]
fn add_then_remove_restores_prior_quantity() {
    let mut l = ledger_with_product("Milk");
    l.add_stock(&vec![change("Milk", "2024-06-01", 7)]).expect("seed");
    l.add_stock(&vec![change("Milk", "2024-06-01", 5)]).expect("add");
    l.remove_stock(&vec![change("Milk", "2024-06-01", 5)], false).expect("remove");
    assert_eq!(l.current_qty(&s("Milk"), &s("2024-06-01")), 7);
}

#[test]
fn remove_stock_emits_decrement_and_cleanup_statements() {
    let mut l = ledger_with_product("Milk");
    l.add_stock(&vec![change("Milk", "2024-06-01", 10)]).expect("add");
    let stmts = l.remove_stock(&vec![change("Milk", "2024-06-01", 4)], false).expect("remove");
    assert_eq!(
        stmts,
        vec![
            Statement::UpsertLotAdd { name: s("Milk"), expiry: s("2024-06-01"), delta: -4 },
            Statement::DeleteLotIfEmpty { name: s("Milk"), expiry: s("2024-06-01") },
        ]
    );
    assert_eq!(l.current_qty(&s("Milk"), &s("2024-06-01")), 6);
}

#[test]
fn remove_stock_batch_sees_earlier_changes() {
    let mut l = ledger_with_product("Milk");
    l.add_stock(&vec![change("Milk", "2024-06-01", 10)]).expect("add");
    let err = l
        .remove_stock(
            &vec![change("Milk", "2024-06-01", 6), change("Milk", "2024-06-01", 6)],
            false,
        )
        .unwrap_err();
    assert_eq!(
        err,
        LedgerError::InsufficientStock {
            name: s("Milk"),
            expiry: s("2024-06-01"),
            available: 4,
            requested: 6,
        }
    );
    // atomic: the first removal is rolled back too
    assert_eq!(l.current_qty(&s("Milk"), &s("2024-06-01")), 10);
}

#[test]
fn edit_stock_zero_deletes_and_positive_recreates() {
    // Setting a lot to 0 removes the row; setting it afterwards to q > 0
    // recreates it with exactly q.
    let mut l = ledger_with_product("Milk");
    l.add_stock(&vec![change("Milk", "2024-06-01", 9)]).expect("add");
    let stmts = l.edit_stock(&s("Milk"), &s("2024-06-01"), 0).expect("zero");
    assert_eq!(
        stmts,
        vec![Statement::DeleteLot { name: s("Milk"), expiry: s("2024-06-01") }]
    );
    assert!(l.stock.is_empty());
    let stmts = l.edit_stock(&s("Milk"), &s("2024-06-01"), 12).expect("set");
    assert_eq!(
        stmts,
        vec![Statement::UpsertLotSet { name: s("Milk"), expiry: s("2024-06-01"), qty: 12 }]
    );
    assert_eq!(l.current_qty(&s("Milk"), &s("2024-06-01")), 12);
    assert_eq!(l.stock.len(), 1);
}

#[test]
fn edit_stock_sets_exact_value_not_delta() {
    let mut l = ledger_with_product("Milk");
    l.add_stock(&vec![change("Milk", "2024-06-01", 9)]).expect("add");
    l.edit_stock(&s("Milk"), &s("2024-06-01"), 2).expect("set");
    assert_eq!(l.current_qty(&s("Milk"), &s("2024-06-01")), 2);
}

#[test]
fn edit_stock_rejects_negative_quantity() {
    let mut l = ledger_with_product("Milk");
    let err = l.edit_stock(&s("Milk"), &s("2024-06-01"), -1).unwrap_err();
    assert_eq!(err, LedgerError::NegativeQuantity);
}

#[test]
fn edit_stock_rejects_unknown_product() {
    let mut l = ledger_with_product("Milk");
    let err = l.edit_stock(&s("Bread"), &s("2024-06-01"), 5).unwrap_err();
    assert_eq!(err, LedgerError::MissingProduct { name: s("Bread") });
}

#[test]
fn edit_stock_zero_on_absent_lot_is_no_op() {
    let mut l = ledger_with_product("Milk");
    l.edit_stock(&s("Milk"), &s("2024-06-01"), 0).expect("zero");
    assert!(l.stock.is_empty());
}

#[test]
fn quantities_never_observed_negative() {
    let mut l = ledger_with_product("Milk");
    l.add_stock(&vec![change("Milk", "2024-06-01", 3), change("Milk", "2024-07-01", 2)])
        .expect("add");
    let _ = l.remove_stock(&vec![change("Milk", "2024-06-01", 5)], false);
    let _ = l.remove_stock(&vec![change("Milk", "2024-07-01", 2)], false);
    let _ = l.edit_stock(&s("Milk"), &s("2024-06-01"), -3);
    for lot in &l.stock {
        assert!(lot.qty > 0);
    }
}

#[test]
fn separate_expiry_lots_are_independent() {
    let mut l = ledger_with_product("Milk");
    l.add_stock(&vec![change("Milk", "2024-06-01", 3), change("Milk", "2024-07-01", 8)])
        .expect("add");
    l.remove_stock(&vec![change("Milk", "2024-07-01", 8)], false).expect("drain one");
    assert_eq!(l.current_qty(&s("Milk"), &s("2024-06-01")), 3);
    assert_eq!(l.current_qty(&s("Milk"), &s("2024-07-01")), 0);
}
