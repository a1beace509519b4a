//! The shapes the stock overview and histogram views report.

use vstd::prelude::*;

verus! {

/// One product's stock totals: everything on hand, and the part that
/// expires within the alert window.
#[derive(Debug, Clone, PartialEq)]
pub struct StockSummary {
    pub name: String,
    pub total_quantity: i64,
    pub expire_soon: i64,
    pub kind: Option<String>,
}

/// One bar of the per-product expiry histogram.
#[derive(Debug, Clone, PartialEq)]
pub struct ExpiryBucket {
    pub expiry: String,
    pub quantity: i64,
}

} // verus!
