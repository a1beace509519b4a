//! Inventory ledger: verified stock-lot, loan and sale bookkeeping.
//!
//! The ledger keeps per-(product, expiry) stock quantities together with the
//! derived loan and sale records, and guarantees that no lot quantity is ever
//! negative, that batch mutations apply atomically (an error leaves the state
//! untouched), and that every row written references an existing product.
//! Each mutating operation returns the parameterized statements a database
//! gateway must run, in an order that respects the referential constraints.

pub mod db;
pub mod error;
pub mod fresh;
pub mod gateway;
pub mod ledger;
pub mod loan;
pub mod product;
pub mod sales;
pub mod stock;
pub mod summary;
pub mod text;
