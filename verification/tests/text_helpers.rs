use inventory_ledger::db::{
    ignore_empty_baton_commit, sql_quote, to_sql_null_or_int, to_sql_null_or_string,
    EMPTY_BATON_MSG,
};
use inventory_ledger::error::LedgerError;
use inventory_ledger::fresh::{fresh_id, today_string};
use inventory_ledger::text::{i64_to_string, is_blank, str_eq, u64_to_string};

fn s(x: &str) -> String {
    x.to_string()
}

#[test]
fn sql_quote_doubles_single_quotes() {
    assert_eq!(sql_quote("plain"), s("plain"));
    assert_eq!(sql_quote("O'Brien"), s("O''Brien"));
    assert_eq!(sql_quote("''"), s("''''"));
    assert_eq!(sql_quote(""), s(""));
    assert_eq!(sql_quote("a'b'c"), s("a''b''c"));
}

#[test]
fn integer_formatting_is_decimal() {
    assert_eq!(u64_to_string(0), s("0"));
    assert_eq!(u64_to_string(907), s("907"));
    assert_eq!(i64_to_string(0), s("0"));
    assert_eq!(i64_to_string(-1), s("-1"));
    assert_eq!(i64_to_string(1234567890), s("1234567890"));
    assert_eq!(i64_to_string(i64::MAX), s("9223372036854775807"));
    assert_eq!(i64_to_string(i64::MIN), s("-9223372036854775808"));
}

#[test]
fn null_or_int_literal() {
    assert_eq!(to_sql_null_or_int(None), s("NULL"));
    assert_eq!(to_sql_null_or_int(Some(42)), s("42"));
    assert_eq!(to_sql_null_or_int(Some(-7)), s("-7"));
}

#[test]
fn null_or_string_literal() {
    assert_eq!(to_sql_null_or_string(&None), s("NULL"));
    assert_eq!(to_sql_null_or_string(&Some(s(""))), s("NULL"));
    assert_eq!(to_sql_null_or_string(&Some(s("  \t "))), s("NULL"));
    assert_eq!(to_sql_null_or_string(&Some(s("note"))), s("'note'"));
    assert_eq!(to_sql_null_or_string(&Some(s("it's"))), s("'it''s'"));
}

#[test]
fn blankness() {
    assert!(is_blank(""));
    assert!(is_blank("   "));
    assert!(is_blank(" \t\r\n"));
    assert!(is_blank("\u{a0}\u{2003}"));
    assert!(!is_blank(" a "));
}

#[test]
fn string_slice_equality() {
    assert!(str_eq("", ""));
    assert!(str_eq("abc", "abc"));
    assert!(!str_eq("abc", "abd"));
    assert!(!str_eq("abc", "ab"));
}

#[test]
fn empty_baton_commit_is_treated_as_success() {
    assert_eq!(ignore_empty_baton_commit(Ok(())), Ok(()));
    assert_eq!(ignore_empty_baton_commit(Err(s(EMPTY_BATON_MSG))), Ok(()));
    assert_eq!(
        ignore_empty_baton_commit(Err(s("connection reset"))),
        Err(s("connection reset"))
    );
}

#[test]
fn fresh_ids_are_hyphenated_and_distinct() {
    let a = fresh_id();
    let b = fresh_id();
    assert_eq!(a.len(), 36);
    assert_eq!(a.chars().filter(|c| *c == '-').count(), 4);
    assert_ne!(a, b);
}

#[test]
fn today_string_is_a_date() {
    let d = today_string();
    assert_eq!(d.len(), 10);
    let bytes = d.as_bytes();
    assert_eq!(bytes[4], b'-');
    assert_eq!(bytes[7], b'-');
    assert!(d.chars().enumerate().all(|(i, c)| {
        if i == 4 || i == 7 { c == '-' } else { c.is_ascii_digit() }
    }));
}

#[test]
fn error_messages_are_exact() {
    assert_eq!(
        LedgerError::EmptyItems.message(),
        s("at least one item is required")
    );
    assert_eq!(
        LedgerError::NonPositiveQuantity { name: s("Milk"), qty: -3 }.message(),
        s("quantity must be positive: Milk (-3)")
    );
    assert_eq!(
        LedgerError::InsufficientStock {
            name: s("Milk"),
            expiry: s("2024-06-01"),
            available: 10,
            requested: 15,
        }
        .message(),
        s("insufficient stock: Milk (expiry 2024-06-01) holds 10, requested 15")
    );
    assert_eq!(
        LedgerError::UnknownDirection { direction: s("sideways") }.message(),
        s("unknown direction: sideways")
    );
    assert_eq!(
        LedgerError::ProductInUse { name: s("Milk") }.message(),
        s("cannot delete product Milk: it is still referenced")
    );
}
