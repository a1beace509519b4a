use inventory_ledger::error::LedgerError;
use inventory_ledger::gateway::Statement;
use inventory_ledger::ledger::Ledger;
use inventory_ledger::product::Product;
use inventory_ledger::sales::{summarize_sale_rows, SaleAggRow, SalesHeader, SalesItem};
use inventory_ledger::stock::StockChange;

fn s(x: &str) -> String {
    x.to_string()
}

fn ledger_with_product(name: &str) -> Ledger {
    let mut l = Ledger::new();
    l.add_product(Product { name: s(name), price: None, picture: None, kind: None })
        .expect("product");
    l
}

fn change(name: &str, expiry: &str, qty: i64) -> StockChange {
    StockChange { name: s(name), expiry_date: s(expiry), qty }
}

#[test]
fn add_sale_records_header_and_items() {
    let mut l = ledger_with_product("Milk");
    let stmts = l
        .add_sale(
            &vec![change("Milk", "2024-06-01", 2), change("Milk", "2024-07-01", 1)],
            Some(s("counter")),
        )
        .expect("sale");
    assert_eq!(l.sales.len(), 1);
    let rec = &l.sales[0];
    assert_eq!(rec.header.id.len(), 36);
    assert_eq!(rec.header.note, Some(s("counter")));
    assert_eq!(rec.items.len(), 2);
    assert_eq!(rec.items[0].product_name, s("Milk"));
    assert_eq!(rec.items[0].quantity, 2);
    assert_eq!(rec.items[0].expiry, s("2024-06-01"));
    assert_eq!(rec.items[1].quantity, 1);
    // header first, then the items
    assert_eq!(stmts.len(), 3);
    assert!(matches!(stmts[0], Statement::InsertSalesHeader { .. }));
    assert!(matches!(stmts[1], Statement::InsertSalesItem { .. }));
}

#[test]
fn add_sale_without_note_stores_empty_text() {
    let mut l = ledger_with_product("Milk");
    l.add_sale(&vec![change("Milk", "2024-06-01", 2)], None).expect("sale");
    assert_eq!(l.sales[0].header.note, Some(s("")));
}

#[test]
fn add_sale_does_not_touch_stock() {
    let mut l = ledger_with_product("Milk");
    l.add_sale(&vec![change("Milk", "2024-06-01", 2)], None).expect("sale");
    assert!(l.stock.is_empty());
}

#[test]
fn add_sale_with_id_rejects_taken_id() {
    let mut l = ledger_with_product("Milk");
    l.add_sale_with_id(s("S1"), s("2024-05-01"), &vec![change("Milk", "2024-06-01", 2)], None)
        .expect("first");
    let err = l
        .add_sale_with_id(s("S1"), s("2024-05-02"), &vec![change("Milk", "2024-06-01", 1)], None)
        .unwrap_err();
    assert_eq!(err, LedgerError::DuplicateId { id: s("S1") });
    assert_eq!(l.sales.len(), 1);
}

#[test]
fn remove_stock_marked_as_sale_records_the_removal() {
    let mut l = ledger_with_product("Milk");
    l.add_stock(&vec![change("Milk", "2024-06-01", 10)]).expect("seed");
    let stmts = l
        .remove_stock(&vec![change("Milk", "2024-06-01", 4)], true)
        .expect("remove and mark");
    assert_eq!(l.current_qty(&s("Milk"), &s("2024-06-01")), 6);
    assert_eq!(l.sales.len(), 1);
    let rec = &l.sales[0];
    assert_eq!(rec.items.len(), 1);
    assert_eq!(rec.items[0].quantity, 4);
    assert_eq!(rec.header.note, Some(s("")));
    // the stock statements come first, then the sale bookkeeping
    assert_eq!(stmts.len(), 4);
    assert_eq!(
        stmts[0],
        Statement::UpsertLotAdd { name: s("Milk"), expiry: s("2024-06-01"), delta: -4 }
    );
    assert!(matches!(stmts[2], Statement::InsertSalesHeader { .. }));
}

#[test]
fn remove_stock_marked_as_sale_fails_atomically() {
    let mut l = ledger_with_product("Milk");
    l.add_stock(&vec![change("Milk", "2024-06-01", 3)]).expect("seed");
    let err = l.remove_stock(&vec![change("Milk", "2024-06-01", 4)], true).unwrap_err();
    assert!(matches!(err, LedgerError::InsufficientStock { .. }));
    assert!(l.sales.is_empty());
    assert_eq!(l.current_qty(&s("Milk"), &s("2024-06-01")), 3);
}

#[test]
fn update_sale_replaces_header_and_items() {
    let mut l = ledger_with_product("Milk");
    l.add_sale_with_id(s("S1"), s("2024-05-01"), &vec![change("Milk", "2024-06-01", 2)], None)
        .expect("sale");
    let stmts = l
        .update_sale(
            SalesHeader { id: s("S1"), date: s("2024-09-09"), note: Some(s("fixed")) },
            vec![SalesItem {
                id: s("I9"),
                product_name: s("Milk"),
                quantity: 5,
                expiry: s("2024-07-01"),
            }],
        )
        .expect("update");
    assert_eq!(l.sales.len(), 1);
    assert_eq!(l.sales[0].header.date, s("2024-09-09"));
    assert_eq!(l.sales[0].header.note, Some(s("fixed")));
    assert_eq!(l.sales[0].items.len(), 1);
    assert_eq!(l.sales[0].items[0].id, s("I9"));
    assert!(matches!(stmts[0], Statement::UpdateSalesHeader { .. }));
    assert_eq!(stmts[1], Statement::DeleteSalesItems { sale_id: s("S1") });
    assert!(matches!(stmts[2], Statement::InsertSalesItem { .. }));
}

#[test]
fn update_sale_normalizes_blank_note_to_none() {
    let mut l = ledger_with_product("Milk");
    l.add_sale_with_id(s("S1"), s("2024-05-01"), &vec![change("Milk", "2024-06-01", 2)], None)
        .expect("sale");
    l.update_sale(
        SalesHeader { id: s("S1"), date: s("2024-05-01"), note: Some(s("  ")) },
        vec![],
    )
    .expect("update");
    assert_eq!(l.sales[0].header.note, None);
}

#[test]
fn update_sale_rejects_unknown_product() {
    let mut l = ledger_with_product("Milk");
    l.add_sale_with_id(s("S1"), s("2024-05-01"), &vec![change("Milk", "2024-06-01", 2)], None)
        .expect("sale");
    let err = l
        .update_sale(
            SalesHeader { id: s("S1"), date: s("2024-05-01"), note: None },
            vec![SalesItem {
                id: s("I1"),
                product_name: s("Bread"),
                quantity: 1,
                expiry: s("2024-07-01"),
            }],
        )
        .unwrap_err();
    assert_eq!(err, LedgerError::MissingProduct { name: s("Bread") });
}

#[test]
fn update_sale_missing_header_with_items_fails() {
    let mut l = ledger_with_product("Milk");
    let err = l
        .update_sale(
            SalesHeader { id: s("S9"), date: s("2024-05-01"), note: None },
            vec![SalesItem {
                id: s("I1"),
                product_name: s("Milk"),
                quantity: 1,
                expiry: s("2024-07-01"),
            }],
        )
        .unwrap_err();
    assert_eq!(err, LedgerError::MissingSale { id: s("S9") });
}

#[test]
fn delete_sale_removes_items_before_header() {
    let mut l = ledger_with_product("Milk");
    l.add_sale_with_id(s("S1"), s("2024-05-01"), &vec![change("Milk", "2024-06-01", 2)], None)
        .expect("sale");
    let stmts = l.delete_sale(&s("S1"));
    assert_eq!(
        stmts,
        vec![
            Statement::DeleteSalesItems { sale_id: s("S1") },
            Statement::DeleteSalesHeader { sale_id: s("S1") },
        ]
    );
    assert!(l.sales.is_empty());
}

fn agg(name: &str, qty: i64, price: i64) -> SaleAggRow {
    SaleAggRow { product_name: s(name), quantity: qty, price }
}

#[test]
fn summarize_sale_rows_totals_and_top_three() {
    let rows = vec![agg("A", 5, 10), agg("B", 3, 7), agg("C", 2, 1), agg("D", 1, 100)];
    let (top, total) = summarize_sale_rows(&rows);
    assert_eq!(total, 5 * 10 + 3 * 7 + 2 * 1 + 1 * 100);
    assert_eq!(total, 173);
    assert_eq!(top, vec![s("A"), s("B"), s("C")]);
}

#[test]
fn summarize_sale_rows_short_list() {
    let rows = vec![agg("A", 2, 3)];
    let (top, total) = summarize_sale_rows(&rows);
    assert_eq!(total, 6);
    assert_eq!(top, vec![s("A")]);
    let (top, total) = summarize_sale_rows(&vec![]);
    assert_eq!(total, 0);
    assert!(top.is_empty());
}

#[test]
fn summarize_sale_rows_saturates_instead_of_wrapping() {
    let rows = vec![agg("A", i64::MAX, 2), agg("B", 1, 1)];
    let (_, total) = summarize_sale_rows(&rows);
    assert_eq!(total, i64::MAX);
    let rows = vec![agg("A", i64::MAX, -2)];
    let (_, total) = summarize_sale_rows(&rows);
    assert_eq!(total, i64::MIN);
}
