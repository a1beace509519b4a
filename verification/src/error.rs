//! The typed error taxonomy of the ledger. Every rejected operation names
//! the offending value; rendering to a user-facing string is left to the
//! boundary.

use vstd::prelude::*;
use vstd::string::*;

use crate::text::{i64_to_string, signed_dec_rep};

verus! {

/// Why a ledger operation was rejected.
#[derive(Debug, Clone, PartialEq)]
pub enum LedgerError {
    /// A transaction needs at least one item.
    EmptyItems,
    /// A stock movement asked for a quantity that is not positive.
    NonPositiveQuantity { name: String, qty: i64 },
    /// A lot quantity cannot be set to a negative value.
    NegativeQuantity,
    /// A loan direction outside the closed set of movements.
    UnknownDirection { direction: String },
    /// A stock-affecting item without an expiry lot.
    MissingExpiry { name: String },
    /// A row referenced a product that does not exist.
    MissingProduct { name: String },
    /// A removal from a lot that holds no stock.
    NoStock { name: String, expiry: String },
    /// A decrease larger than what the lot holds.
    InsufficientStock { name: String, expiry: String, available: i64, requested: i64 },
    /// An addition would push a lot quantity past the machine limit.
    QuantityOverflow { name: String, expiry: String },
    /// A product with that name already exists.
    DuplicateProduct { name: String },
    /// A header with that identifier already exists.
    DuplicateId { id: String },
    /// No loan header with that identifier exists.
    MissingLoan { id: String },
    /// No sale header with that identifier exists.
    MissingSale { id: String },
    /// The product is still referenced and cannot be deleted.
    ProductInUse { name: String },
}

/// The mathematical value of a [`LedgerError`].
pub enum LedgerErrorV {
    EmptyItems,
    NonPositiveQuantity { name: Seq<char>, qty: int },
    NegativeQuantity,
    UnknownDirection { direction: Seq<char> },
    MissingExpiry { name: Seq<char> },
    MissingProduct { name: Seq<char> },
    NoStock { name: Seq<char>, expiry: Seq<char> },
    InsufficientStock { name: Seq<char>, expiry: Seq<char>, available: int, requested: int },
    QuantityOverflow { name: Seq<char>, expiry: Seq<char> },
    DuplicateProduct { name: Seq<char> },
    DuplicateId { id: Seq<char> },
    MissingLoan { id: Seq<char> },
    MissingSale { id: Seq<char> },
    ProductInUse { name: Seq<char> },
}

impl View for LedgerError {
    type V = LedgerErrorV;

    open spec fn view(&self) -> LedgerErrorV {
        match self {
            LedgerError::EmptyItems => LedgerErrorV::EmptyItems,
            LedgerError::NonPositiveQuantity { name, qty } => LedgerErrorV::NonPositiveQuantity {
                name: name@,
                qty: *qty as int,
            },
            LedgerError::NegativeQuantity => LedgerErrorV::NegativeQuantity,
            LedgerError::UnknownDirection { direction } => LedgerErrorV::UnknownDirection {
                direction: direction@,
            },
            LedgerError::MissingExpiry { name } => LedgerErrorV::MissingExpiry { name: name@ },
            LedgerError::MissingProduct { name } => LedgerErrorV::MissingProduct { name: name@ },
            LedgerError::NoStock { name, expiry } => LedgerErrorV::NoStock {
                name: name@,
                expiry: expiry@,
            },
            LedgerError::InsufficientStock { name, expiry, available, requested } => {
                LedgerErrorV::InsufficientStock {
                    name: name@,
                    expiry: expiry@,
                    available: *available as int,
                    requested: *requested as int,
                }
            },
            LedgerError::QuantityOverflow { name, expiry } => LedgerErrorV::QuantityOverflow {
                name: name@,
                expiry: expiry@,
            },
            LedgerError::DuplicateProduct { name } => LedgerErrorV::DuplicateProduct {
                name: name@,
            },
            LedgerError::DuplicateId { id } => LedgerErrorV::DuplicateId { id: id@ },
            LedgerError::MissingLoan { id } => LedgerErrorV::MissingLoan { id: id@ },
            LedgerError::MissingSale { id } => LedgerErrorV::MissingSale { id: id@ },
            LedgerError::ProductInUse { name } => LedgerErrorV::ProductInUse { name: name@ },
        }
    }
}

/// The coarse kinds of the error taxonomy: malformed input, a dangling
/// reference, or a decrease beyond availability.
#[derive(Debug, Clone, Copy, PartialEq, Eq, Structural)]
pub enum ErrorKind {
    Validation,
    Reference,
    InsufficientStock,
}

impl LedgerError {
    /// The kind a variant belongs to.
    pub open spec fn spec_kind(&self) -> ErrorKind {
        match self {
            LedgerError::EmptyItems => ErrorKind::Validation,
            LedgerError::NonPositiveQuantity { .. } => ErrorKind::Validation,
            LedgerError::NegativeQuantity => ErrorKind::Validation,
            LedgerError::UnknownDirection { .. } => ErrorKind::Validation,
            LedgerError::MissingExpiry { .. } => ErrorKind::Validation,
            LedgerError::MissingProduct { .. } => ErrorKind::Reference,
            LedgerError::NoStock { .. } => ErrorKind::InsufficientStock,
            LedgerError::InsufficientStock { .. } => ErrorKind::InsufficientStock,
            LedgerError::QuantityOverflow { .. } => ErrorKind::Validation,
            LedgerError::DuplicateProduct { .. } => ErrorKind::Validation,
            LedgerError::DuplicateId { .. } => ErrorKind::Validation,
            LedgerError::MissingLoan { .. } => ErrorKind::Reference,
            LedgerError::MissingSale { .. } => ErrorKind::Reference,
            LedgerError::ProductInUse { .. } => ErrorKind::Reference,
        }
    }

    /// Classifies the error.
    pub fn kind(&self) -> (k: ErrorKind)
        ensures
            k == self.spec_kind(),
    {
        match self {
            LedgerError::EmptyItems => ErrorKind::Validation,
            LedgerError::NonPositiveQuantity { .. } => ErrorKind::Validation,
            LedgerError::NegativeQuantity => ErrorKind::Validation,
            LedgerError::UnknownDirection { .. } => ErrorKind::Validation,
            LedgerError::MissingExpiry { .. } => ErrorKind::Validation,
            LedgerError::MissingProduct { .. } => ErrorKind::Reference,
            LedgerError::NoStock { .. } => ErrorKind::InsufficientStock,
            LedgerError::InsufficientStock { .. } => ErrorKind::InsufficientStock,
            LedgerError::QuantityOverflow { .. } => ErrorKind::Validation,
            LedgerError::DuplicateProduct { .. } => ErrorKind::Validation,
            LedgerError::DuplicateId { .. } => ErrorKind::Validation,
            LedgerError::MissingLoan { .. } => ErrorKind::Reference,
            LedgerError::MissingSale { .. } => ErrorKind::Reference,
            LedgerError::ProductInUse { .. } => ErrorKind::Reference,
        }
    }

    /// The user-facing text of the error.
    pub open spec fn spec_message(&self) -> Seq<char> {
        match self {
            LedgerError::EmptyItems => "at least one item is required"@,
            LedgerError::NonPositiveQuantity { name, qty } => "quantity must be positive: "@
                + name@ + " ("@ + signed_dec_rep(*qty as int) + ")"@,
            LedgerError::NegativeQuantity => "quantity cannot be negative"@,
            LedgerError::UnknownDirection { direction } => "unknown direction: "@ + direction@,
            LedgerError::MissingExpiry { name } => "an expiry date is required: "@ + name@,
            LedgerError::MissingProduct { name } => "product does not exist: "@ + name@,
            LedgerError::NoStock { name, expiry } => "no stock: "@ + name@ + " - "@ + expiry@,
            LedgerError::InsufficientStock { name, expiry, available, requested } => {
                "insufficient stock: "@ + name@ + " (expiry "@ + expiry@ + ") holds "@
                    + signed_dec_rep(*available as int) + ", requested "@ + signed_dec_rep(
                    *requested as int,
                )
            },
            LedgerError::QuantityOverflow { name, expiry } => "quantity out of range: "@ + name@
                + " - "@ + expiry@,
            LedgerError::DuplicateProduct { name } => "product name already exists: "@ + name@,
            LedgerError::DuplicateId { id } => "identifier already exists: "@ + id@,
            LedgerError::MissingLoan { id } => "loan does not exist: "@ + id@,
            LedgerError::MissingSale { id } => "sale does not exist: "@ + id@,
            LedgerError::ProductInUse { name } => "cannot delete product "@ + name@
                + ": it is still referenced"@,
        }
    }

    /// Renders the error as its user-facing text.
    pub fn message(&self) -> (r: String)
        ensures
            r@ == self.spec_message(),
    {
        match self {
            LedgerError::EmptyItems => String::from_str("at least one item is required"),
            LedgerError::NonPositiveQuantity { name, qty } => {
                let mut r = String::from_str("quantity must be positive: ");
                r.append(name.as_str());
                r.append(" (");
                let q = i64_to_string(*qty);
                r.append(q.as_str());
                r.append(")");
                proof {
                    assert(r@ =~= self.spec_message());
                }
                r
            },
            LedgerError::NegativeQuantity => String::from_str("quantity cannot be negative"),
            LedgerError::UnknownDirection { direction } => {
                let mut r = String::from_str("unknown direction: ");
                r.append(direction.as_str());
                r
            },
            LedgerError::MissingExpiry { name } => {
                let mut r = String::from_str("an expiry date is required: ");
                r.append(name.as_str());
                r
            },
            LedgerError::MissingProduct { name } => {
                let mut r = String::from_str("product does not exist: ");
                r.append(name.as_str());
                r
            },
            LedgerError::NoStock { name, expiry } => {
                let mut r = String::from_str("no stock: ");
                r.append(name.as_str());
                r.append(" - ");
                r.append(expiry.as_str());
                proof {
                    assert(r@ =~= self.spec_message());
                }
                r
            },
            LedgerError::InsufficientStock { name, expiry, available, requested } => {
                let mut r = String::from_str("insufficient stock: ");
                r.append(name.as_str());
                r.append(" (expiry ");
                r.append(expiry.as_str());
                r.append(") holds ");
                let a = i64_to_string(*available);
                r.append(a.as_str());
                r.append(", requested ");
                let q = i64_to_string(*requested);
                r.append(q.as_str());
                proof {
                    assert(r@ =~= self.spec_message());
                }
                r
            },
            LedgerError::QuantityOverflow { name, expiry } => {
                let mut r = String::from_str("quantity out of range: ");
                r.append(name.as_str());
                r.append(" - ");
                r.append(expiry.as_str());
                proof {
                    assert(r@ =~= self.spec_message());
                }
                r
            },
            LedgerError::DuplicateProduct { name } => {
                let mut r = String::from_str("product name already exists: ");
                r.append(name.as_str());
                r
            },
            LedgerError::DuplicateId { id } => {
                let mut r = String::from_str("identifier already exists: ");
                r.append(id.as_str());
                r
            },
            LedgerError::MissingLoan { id } => {
                let mut r = String::from_str("loan does not exist: ");
                r.append(id.as_str());
                r
            },
            LedgerError::MissingSale { id } => {
                let mut r = String::from_str("sale does not exist: ");
                r.append(id.as_str());
                r
            },
            LedgerError::ProductInUse { name } => {
                let mut r = String::from_str("cannot delete product ");
                r.append(name.as_str());
                r.append(": it is still referenced");
                proof {
                    assert(r@ =~= self.spec_message());
                }
                r
            },
        }
    }
}

} // verus!
