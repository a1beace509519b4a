use inventory_ledger::error::{ErrorKind, LedgerError};
use inventory_ledger::gateway::Statement;
use inventory_ledger::ledger::Ledger;
use inventory_ledger::loan::{dir_delta, LoanHeader, LoanItem};
use inventory_ledger::product::Product;
use inventory_ledger::stock::StockChange;

fn s(x: &str) -> String {
    x.to_string()
}

fn ledger_with_product(name: &str) -> Ledger {
    let mut l = Ledger::new();
    l.add_product(Product { name: s(name), price: None, picture: None, kind: None })
        .expect("product");
    l
}

fn header(id: &str, direction: &str) -> LoanHeader {
    LoanHeader {
        id: s(id),
        date: s("2024-05-01"),
        direction: s(direction),
        counterparty: s("Alice"),
        note: None,
    }
}

fn item(id: &str, product: &str, qty: i64, expiry: Option<&str>) -> LoanItem {
    LoanItem {
        id: s(id),
        product_name: s(product),
        quantity: qty,
        expiry: expiry.map(s),
    }
}

#[test]
fn dir_delta_signs() {
    assert_eq!(dir_delta("loan_in", 5), Ok(5));
    assert_eq!(dir_delta("return_in", 5), Ok(5));
    assert_eq!(dir_delta("loan_out", 5), Ok(-5));
    assert_eq!(dir_delta("return_out", 5), Ok(-5));
    assert_eq!(
        dir_delta("sideways", 5),
        Err(LedgerError::UnknownDirection { direction: s("sideways") })
    );
}

#[test]
fn create_loan_in_creates_header_item_and_lot() {
    // A loan_in of 3 Milk on an empty stock table: one header, one item,
    // and a new Milk lot at quantity 3.
    let mut l = ledger_with_product("Milk");
    l.create_loan(
        header("L1", "loan_in"),
        vec![item("I1", "Milk", 3, Some("2024-06-01"))],
        Some(true),
    )
    .expect("create");
    assert_eq!(l.loans.len(), 1);
    assert_eq!(l.loans[0].header.id, s("L1"));
    assert_eq!(l.loans[0].items.len(), 1);
    assert_eq!(l.loans[0].items[0].product_name, s("Milk"));
    assert_eq!(l.current_qty(&s("Milk"), &s("2024-06-01")), 3);
}

#[test]
fn create_loan_out_below_zero_fails_with_zero_writes() {
    // loan_out with adjustment decreasing a lot below zero: the
    // insufficiency is reported and nothing at all is written.
    let mut l = ledger_with_product("Milk");
    l.add_stock(&vec![StockChange { name: s("Milk"), expiry_date: s("2024-06-01"), qty: 2 }])
        .expect("seed");
    let err = l
        .create_loan(
            header("L1", "loan_out"),
            vec![item("I1", "Milk", 5, Some("2024-06-01"))],
            Some(true),
        )
        .unwrap_err();
    assert_eq!(
        err,
        LedgerError::InsufficientStock {
            name: s("Milk"),
            expiry: s("2024-06-01"),
            available: 2,
            requested: 5,
        }
    );
    assert_eq!(err.kind(), ErrorKind::InsufficientStock);
    assert!(l.loans.is_empty());
    assert_eq!(l.current_qty(&s("Milk"), &s("2024-06-01")), 2);
}

#[test]
fn create_loan_unknown_product_fails_before_any_write() {
    let mut l = ledger_with_product("Milk");
    let err = l
        .create_loan(
            header("L1", "loan_in"),
            vec![item("I1", "Bread", 1, Some("2024-06-01"))],
            Some(true),
        )
        .unwrap_err();
    assert_eq!(err, LedgerError::MissingProduct { name: s("Bread") });
    assert_eq!(err.kind(), ErrorKind::Reference);
    assert!(l.loans.is_empty());
    assert!(l.stock.is_empty());
}

#[test]
fn create_loan_rejects_empty_items() {
    let mut l = ledger_with_product("Milk");
    let err = l.create_loan(header("L1", "loan_in"), vec![], Some(true)).unwrap_err();
    assert_eq!(err, LedgerError::EmptyItems);
}

#[test]
fn create_loan_rejects_nonpositive_item() {
    let mut l = ledger_with_product("Milk");
    let err = l
        .create_loan(
            header("L1", "loan_in"),
            vec![item("I1", "Milk", 0, Some("2024-06-01"))],
            Some(true),
        )
        .unwrap_err();
    assert_eq!(err, LedgerError::NonPositiveQuantity { name: s("Milk"), qty: 0 });
}

#[test]
fn create_loan_rejects_unknown_direction() {
    let mut l = ledger_with_product("Milk");
    let err = l
        .create_loan(
            header("L1", "sideways"),
            vec![item("I1", "Milk", 1, Some("2024-06-01"))],
            Some(true),
        )
        .unwrap_err();
    assert_eq!(err, LedgerError::UnknownDirection { direction: s("sideways") });
}

#[test]
fn create_loan_requires_expiry_when_adjusting() {
    let mut l = ledger_with_product("Milk");
    let err = l
        .create_loan(header("L1", "loan_out"), vec![item("I1", "Milk", 1, None)], Some(true))
        .unwrap_err();
    assert_eq!(err, LedgerError::MissingExpiry { name: s("Milk") });
}

#[test]
fn create_loan_rejects_duplicate_id() {
    let mut l = ledger_with_product("Milk");
    l.create_loan(
        header("L1", "loan_in"),
        vec![item("I1", "Milk", 1, Some("2024-06-01"))],
        Some(true),
    )
    .expect("first");
    let err = l
        .create_loan(
            header("L1", "loan_in"),
            vec![item("I2", "Milk", 1, Some("2024-06-01"))],
            Some(true),
        )
        .unwrap_err();
    assert_eq!(err, LedgerError::DuplicateId { id: s("L1") });
    assert_eq!(l.loans.len(), 1);
}

#[test]
fn create_loan_without_adjustment_leaves_stock_alone() {
    let mut l = ledger_with_product("Milk");
    l.create_loan(
        header("L1", "loan_out"),
        vec![item("I1", "Milk", 4, Some("2024-06-01"))],
        Some(false),
    )
    .expect("create");
    assert!(l.stock.is_empty());
    assert_eq!(l.loans.len(), 1);
}

#[test]
fn create_loan_defaults_to_adjusting() {
    let mut l = ledger_with_product("Milk");
    l.create_loan(
        header("L1", "return_in"),
        vec![item("I1", "Milk", 2, Some("2024-06-01"))],
        None,
    )
    .expect("create");
    assert_eq!(l.current_qty(&s("Milk"), &s("2024-06-01")), 2);
}

#[test]
fn create_loan_out_draining_a_lot_deletes_it() {
    let mut l = ledger_with_product("Milk");
    l.add_stock(&vec![StockChange { name: s("Milk"), expiry_date: s("2024-06-01"), qty: 4 }])
        .expect("seed");
    l.create_loan(
        header("L1", "loan_out"),
        vec![item("I1", "Milk", 4, Some("2024-06-01"))],
        Some(true),
    )
    .expect("create");
    assert!(l.stock.is_empty());
}

#[test]
fn create_loan_plan_orders_header_items_adjustment() {
    let mut l = ledger_with_product("Milk");
    l.add_stock(&vec![StockChange { name: s("Milk"), expiry_date: s("2024-06-01"), qty: 9 }])
        .expect("seed");
    let stmts = l
        .create_loan(
            header("L1", "loan_out"),
            vec![item("I1", "Milk", 2, Some("2024-06-01"))],
            Some(true),
        )
        .expect("create");
    assert_eq!(stmts.len(), 4);
    assert!(matches!(stmts[0], Statement::InsertLoanHeader { .. }));
    assert!(matches!(stmts[1], Statement::InsertLoanItem { .. }));
    assert_eq!(
        stmts[2],
        Statement::UpsertLotAdd { name: s("Milk"), expiry: s("2024-06-01"), delta: -2 }
    );
    assert_eq!(
        stmts[3],
        Statement::DeleteLotIfEmpty { name: s("Milk"), expiry: s("2024-06-01") }
    );
}

#[test]
fn create_loan_normalizes_blank_note() {
    let mut l = ledger_with_product("Milk");
    let mut h = header("L1", "loan_in");
    h.note = Some(s("   "));
    l.create_loan(h, vec![item("I1", "Milk", 1, Some("2024-06-01"))], Some(false))
        .expect("create");
    assert_eq!(l.loans[0].header.note, None);
}

#[test]
fn update_loan_replaces_header_and_items() {
    let mut l = ledger_with_product("Milk");
    l.create_loan(
        header("L1", "loan_in"),
        vec![item("I1", "Milk", 1, Some("2024-06-01"))],
        Some(false),
    )
    .expect("create");
    let stmts = l
        .update_loan(
            LoanHeader {
                id: s("L1"),
                date: s("2024-08-01"),
                direction: s("return_out"),
                counterparty: s("Bob"),
                note: Some(s("changed")),
            },
            vec![item("I2", "Milk", 7, None), item("I3", "Milk", 2, None)],
        )
        .expect("update");
    assert_eq!(l.loans.len(), 1);
    assert_eq!(l.loans[0].header.date, s("2024-08-01"));
    assert_eq!(l.loans[0].header.counterparty, s("Bob"));
    assert_eq!(l.loans[0].header.note, Some(s("changed")));
    assert_eq!(l.loans[0].items.len(), 2);
    assert_eq!(l.loans[0].items[0].id, s("I2"));
    // replace-by-delete-then-insert, after the header overwrite
    assert!(matches!(stmts[0], Statement::UpdateLoanHeader { .. }));
    assert_eq!(stmts[1], Statement::DeleteLoanItems { loan_id: s("L1") });
    assert!(matches!(stmts[2], Statement::InsertLoanItem { .. }));
    assert_eq!(stmts.len(), 4);
}

#[test]
fn update_loan_does_not_touch_stock() {
    let mut l = ledger_with_product("Milk");
    l.add_stock(&vec![StockChange { name: s("Milk"), expiry_date: s("2024-06-01"), qty: 5 }])
        .expect("seed");
    l.create_loan(
        header("L1", "loan_out"),
        vec![item("I1", "Milk", 2, Some("2024-06-01"))],
        Some(true),
    )
    .expect("create");
    assert_eq!(l.current_qty(&s("Milk"), &s("2024-06-01")), 3);
    l.update_loan(header("L1", "loan_out"), vec![item("I2", "Milk", 9, Some("2024-06-01"))])
        .expect("update");
    assert_eq!(l.current_qty(&s("Milk"), &s("2024-06-01")), 3);
}

#[test]
fn update_loan_missing_header_with_items_fails() {
    let mut l = ledger_with_product("Milk");
    let err = l
        .update_loan(header("L9", "loan_in"), vec![item("I1", "Milk", 1, None)])
        .unwrap_err();
    assert_eq!(err, LedgerError::MissingLoan { id: s("L9") });
}

#[test]
fn update_loan_missing_header_with_no_items_is_no_op() {
    let mut l = ledger_with_product("Milk");
    l.update_loan(header("L9", "loan_in"), vec![]).expect("no-op");
    assert!(l.loans.is_empty());
}

#[test]
fn update_loan_revalidates_direction_and_products() {
    let mut l = ledger_with_product("Milk");
    l.create_loan(
        header("L1", "loan_in"),
        vec![item("I1", "Milk", 1, Some("2024-06-01"))],
        Some(false),
    )
    .expect("create");
    let err = l
        .update_loan(header("L1", "zigzag"), vec![item("I2", "Milk", 1, None)])
        .unwrap_err();
    assert_eq!(err, LedgerError::UnknownDirection { direction: s("zigzag") });
    let err = l
        .update_loan(header("L1", "loan_in"), vec![item("I2", "Bread", 1, None)])
        .unwrap_err();
    assert_eq!(err, LedgerError::MissingProduct { name: s("Bread") });
    assert_eq!(l.loans[0].items[0].id, s("I1"));
}

#[test]
fn delete_loan_removes_items_before_header() {
    let mut l = ledger_with_product("Milk");
    l.create_loan(
        header("L1", "loan_in"),
        vec![item("I1", "Milk", 1, Some("2024-06-01"))],
        Some(false),
    )
    .expect("create");
    let stmts = l.delete_loan(&s("L1"));
    assert_eq!(
        stmts,
        vec![
            Statement::DeleteLoanItems { loan_id: s("L1") },
            Statement::DeleteLoanHeader { loan_id: s("L1") },
        ]
    );
    assert!(l.loans.is_empty());
}

#[test]
fn delete_loan_missing_id_is_no_op() {
    let mut l = ledger_with_product("Milk");
    l.create_loan(
        header("L1", "loan_in"),
        vec![item("I1", "Milk", 1, Some("2024-06-01"))],
        Some(false),
    )
    .expect("create");
    let stmts = l.delete_loan(&s("L2"));
    assert_eq!(stmts.len(), 2);
    assert_eq!(l.loans.len(), 1);
}

#[test]
fn delete_loan_does_not_reverse_stock() {
    let mut l = ledger_with_product("Milk");
    l.create_loan(
        header("L1", "loan_in"),
        vec![item("I1", "Milk", 3, Some("2024-06-01"))],
        Some(true),
    )
    .expect("create");
    l.delete_loan(&s("L1"));
    assert_eq!(l.current_qty(&s("Milk"), &s("2024-06-01")), 3);
}
