//! The statements a database gateway runs on behalf of the ledger.
//!
//! Each mutating ledger operation returns, besides its effect on the model,
//! the parameterized statements that realize the same effect on the stored
//! tables. The gateway executes them in the given order inside one
//! transaction; the order respects the referential constraints (a header
//! before its items, items deleted before their header).

use vstd::prelude::*;

use crate::loan::{LoanHeader, LoanHeaderV, LoanItem, LoanItemV};
use crate::product::{Product, ProductV};
use crate::sales::{SalesHeader, SalesHeaderV, SalesItem, SalesItemV};

verus! {

/// One parameterized statement for the gateway.
#[derive(Debug, Clone, PartialEq)]
pub enum Statement {
    /// Insert the lot at `delta`, or add `delta` onto the existing quantity.
    UpsertLotAdd { name: String, expiry: String, delta: i64 },
    /// Insert the lot at `qty`, or overwrite the existing quantity with it.
    UpsertLotSet { name: String, expiry: String, qty: i64 },
    /// Delete the lot if its quantity has reached zero or below.
    DeleteLotIfEmpty { name: String, expiry: String },
    /// Delete the lot unconditionally.
    DeleteLot { name: String, expiry: String },
    /// Insert a loan header row.
    InsertLoanHeader { header: LoanHeader },
    /// Overwrite the loan header row with this identifier.
    UpdateLoanHeader { header: LoanHeader },
    /// Insert one loan item row under the given header.
    InsertLoanItem { loan_id: String, item: LoanItem },
    /// Delete every loan item row under the given header.
    DeleteLoanItems { loan_id: String },
    /// Delete the loan header row.
    DeleteLoanHeader { loan_id: String },
    /// Insert a sale header row.
    InsertSalesHeader { header: SalesHeader },
    /// Overwrite the sale header row with this identifier.
    UpdateSalesHeader { header: SalesHeader },
    /// Insert one sale item row under the given header.
    InsertSalesItem { sale_id: String, item: SalesItem },
    /// Delete every sale item row under the given header.
    DeleteSalesItems { sale_id: String },
    /// Delete the sale header row.
    DeleteSalesHeader { sale_id: String },
    /// Insert a product row.
    InsertProduct { product: Product },
    /// Overwrite the product row named `old_name`; a rename cascades to the
    /// stock rows.
    UpdateProduct { old_name: String, product: Product, rename: bool },
    /// Delete the product row.
    DeleteProduct { name: String },
}

/// The mathematical value of a [`Statement`].
pub enum StatementV {
    UpsertLotAdd { name: Seq<char>, expiry: Seq<char>, delta: int },
    UpsertLotSet { name: Seq<char>, expiry: Seq<char>, qty: int },
    DeleteLotIfEmpty { name: Seq<char>, expiry: Seq<char> },
    DeleteLot { name: Seq<char>, expiry: Seq<char> },
    InsertLoanHeader { header: LoanHeaderV },
    UpdateLoanHeader { header: LoanHeaderV },
    InsertLoanItem { loan_id: Seq<char>, item: LoanItemV },
    DeleteLoanItems { loan_id: Seq<char> },
    DeleteLoanHeader { loan_id: Seq<char> },
    InsertSalesHeader { header: SalesHeaderV },
    UpdateSalesHeader { header: SalesHeaderV },
    InsertSalesItem { sale_id: Seq<char>, item: SalesItemV },
    DeleteSalesItems { sale_id: Seq<char> },
    DeleteSalesHeader { sale_id: Seq<char> },
    InsertProduct { product: ProductV },
    UpdateProduct { old_name: Seq<char>, product: ProductV, rename: bool },
    DeleteProduct { name: Seq<char> },
}

impl View for Statement {
    type V = StatementV;

    open spec fn view(&self) -> StatementV {
        match self {
            Statement::UpsertLotAdd { name, expiry, delta } => StatementV::UpsertLotAdd {
                name: name@,
                expiry: expiry@,
                delta: *delta as int,
            },
            Statement::UpsertLotSet { name, expiry, qty } => StatementV::UpsertLotSet {
                name: name@,
                expiry: expiry@,
                qty: *qty as int,
            },
            Statement::DeleteLotIfEmpty { name, expiry } => StatementV::DeleteLotIfEmpty {
                name: name@,
                expiry: expiry@,
            },
            Statement::DeleteLot { name, expiry } => StatementV::DeleteLot {
                name: name@,
                expiry: expiry@,
            },
            Statement::InsertLoanHeader { header } => StatementV::InsertLoanHeader {
                header: header@,
            },
            Statement::UpdateLoanHeader { header } => StatementV::UpdateLoanHeader {
                header: header@,
            },
            Statement::InsertLoanItem { loan_id, item } => StatementV::InsertLoanItem {
                loan_id: loan_id@,
                item: item@,
            },
            Statement::DeleteLoanItems { loan_id } => StatementV::DeleteLoanItems {
                loan_id: loan_id@,
            },
            Statement::DeleteLoanHeader { loan_id } => StatementV::DeleteLoanHeader {
                loan_id: loan_id@,
            },
            Statement::InsertSalesHeader { header } => StatementV::InsertSalesHeader {
                header: header@,
            },
            Statement::UpdateSalesHeader { header } => StatementV::UpdateSalesHeader {
                header: header@,
            },
            Statement::InsertSalesItem { sale_id, item } => StatementV::InsertSalesItem {
                sale_id: sale_id@,
                item: item@,
            },
            Statement::DeleteSalesItems { sale_id } => StatementV::DeleteSalesItems {
                sale_id: sale_id@,
            },
            Statement::DeleteSalesHeader { sale_id } => StatementV::DeleteSalesHeader {
                sale_id: sale_id@,
            },
            Statement::InsertProduct { product } => StatementV::InsertProduct { product: product@ },
            Statement::UpdateProduct { old_name, product, rename } => StatementV::UpdateProduct {
                old_name: old_name@,
                product: product@,
                rename: *rename,
            },
            Statement::DeleteProduct { name } => StatementV::DeleteProduct { name: name@ },
        }
    }
}

/// The views of a statement vector.
pub open spec fn stmts_view(v: Seq<Statement>) -> Seq<StatementV> {
    Seq::new(v.len(), |i: int| v[i]@)
}

} // verus!
