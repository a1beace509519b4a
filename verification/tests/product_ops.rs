use inventory_ledger::error::LedgerError;
use inventory_ledger::gateway::Statement;
use inventory_ledger::ledger::Ledger;
use inventory_ledger::loan::{LoanHeader, LoanItem};
use inventory_ledger::product::{price_matches, Product};
use inventory_ledger::stock::StockChange;

fn s(x: &str) -> String {
    x.to_string()
}

fn product(name: &str) -> Product {
    Product { name: s(name), price: None, picture: None, kind: None }
}

fn change(name: &str, expiry: &str, qty: i64) -> StockChange {
    StockChange { name: s(name), expiry_date: s(expiry), qty }
}

#[test]
fn add_product_then_find_it() {
    let mut l = Ledger::new();
    let stmts = l
        .add_product(Product {
            name: s("Milk"),
            price: Some(12),
            picture: None,
            kind: Some(s("dairy")),
        })
        .expect("add");
    assert!(l.product_exists(&s("Milk")));
    assert_eq!(l.products.len(), 1);
    assert_eq!(l.products[0].price, Some(12));
    assert_eq!(l.products[0].kind, Some(s("dairy")));
    assert!(matches!(stmts[0], Statement::InsertProduct { .. }));
}

#[test]
fn add_product_rejects_duplicate_name() {
    let mut l = Ledger::new();
    l.add_product(product("Milk")).expect("add");
    let err = l.add_product(product("Milk")).unwrap_err();
    assert_eq!(err, LedgerError::DuplicateProduct { name: s("Milk") });
    assert_eq!(l.products.len(), 1);
}

#[test]
fn add_product_normalizes_empty_picture_and_blank_kind() {
    let mut l = Ledger::new();
    l.add_product(Product {
        name: s("Milk"),
        price: None,
        picture: Some(s("")),
        kind: Some(s("   ")),
    })
    .expect("add");
    assert_eq!(l.products[0].picture, None);
    assert_eq!(l.products[0].kind, None);
}

#[test]
fn update_product_overwrites_fields() {
    let mut l = Ledger::new();
    l.add_product(product("Milk")).expect("add");
    l.update_product(
        Product { name: s("Milk"), price: Some(9), picture: None, kind: Some(s("dairy")) },
        None,
    )
    .expect("update");
    assert_eq!(l.products[0].price, Some(9));
    assert_eq!(l.products[0].kind, Some(s("dairy")));
}

#[test]
fn update_product_rename_cascades_to_stock() {
    let mut l = Ledger::new();
    l.add_product(product("Milk")).expect("add");
    l.add_stock(&vec![change("Milk", "2024-06-01", 4)]).expect("seed");
    let stmts = l
        .update_product(
            Product { name: s("Whole Milk"), price: None, picture: None, kind: None },
            Some(s("Milk")),
        )
        .expect("rename");
    assert!(!l.product_exists(&s("Milk")));
    assert!(l.product_exists(&s("Whole Milk")));
    assert_eq!(l.current_qty(&s("Whole Milk"), &s("2024-06-01")), 4);
    assert_eq!(l.current_qty(&s("Milk"), &s("2024-06-01")), 0);
    assert_eq!(
        stmts,
        vec![Statement::UpdateProduct {
            old_name: s("Milk"),
            product: Product { name: s("Whole Milk"), price: None, picture: None, kind: None },
            rename: true,
        }]
    );
}

#[test]
fn update_product_missing_row_fails() {
    let mut l = Ledger::new();
    let err = l.update_product(product("Milk"), None).unwrap_err();
    assert_eq!(err, LedgerError::MissingProduct { name: s("Milk") });
}

#[test]
fn update_product_rename_to_taken_name_fails() {
    let mut l = Ledger::new();
    l.add_product(product("Milk")).expect("add");
    l.add_product(product("Bread")).expect("add");
    let err = l
        .update_product(product("Bread"), Some(s("Milk")))
        .unwrap_err();
    assert_eq!(err, LedgerError::DuplicateProduct { name: s("Bread") });
    assert!(l.product_exists(&s("Milk")));
}

#[test]
fn delete_product_blocked_while_stock_references_it() {
    let mut l = Ledger::new();
    l.add_product(product("Milk")).expect("add");
    l.add_stock(&vec![change("Milk", "2024-06-01", 1)]).expect("seed");
    let err = l.delete_product(&s("Milk")).unwrap_err();
    assert_eq!(err, LedgerError::ProductInUse { name: s("Milk") });
    assert!(l.product_exists(&s("Milk")));
}

#[test]
fn delete_product_blocked_while_a_loan_item_references_it() {
    let mut l = Ledger::new();
    l.add_product(product("Milk")).expect("add");
    l.create_loan(
        LoanHeader {
            id: s("L1"),
            date: s("2024-05-01"),
            direction: s("loan_out"),
            counterparty: s("Alice"),
            note: None,
        },
        vec![LoanItem { id: s("I1"), product_name: s("Milk"), quantity: 2, expiry: None }],
        Some(false),
    )
    .expect("loan");
    let err = l.delete_product(&s("Milk")).unwrap_err();
    assert_eq!(err, LedgerError::ProductInUse { name: s("Milk") });
}

#[test]
fn delete_product_succeeds_when_unreferenced() {
    let mut l = Ledger::new();
    l.add_product(product("Milk")).expect("add");
    l.add_stock(&vec![change("Milk", "2024-06-01", 1)]).expect("seed");
    l.remove_stock(&vec![change("Milk", "2024-06-01", 1)], false).expect("drain");
    let stmts = l.delete_product(&s("Milk")).expect("delete");
    assert!(!l.product_exists(&s("Milk")));
    assert_eq!(stmts, vec![Statement::DeleteProduct { name: s("Milk") }]);
}

#[test]
fn delete_product_missing_name_is_no_op() {
    let mut l = Ledger::new();
    l.delete_product(&s("Milk")).expect("no-op");
    assert!(l.products.is_empty());
}

#[test]
fn price_matches_rules() {
    assert!(price_matches(None, None));
    assert!(price_matches(None, Some(5)));
    assert!(price_matches(Some(5), Some(5)));
    assert!(!price_matches(Some(5), Some(6)));
    assert!(!price_matches(Some(5), None));
}
