//! Loans: header and item rows, the direction rule, and the loan
//! operations — create (with its stock adjustment), replace and delete.

use vstd::prelude::*;

use crate::error::{LedgerError, LedgerErrorV};
use crate::gateway::{stmts_view, Statement, StatementV};
use crate::ledger::{
    clone_lots, find_lot_in, has_loan, has_lot, has_product, loan_items_view, lot_idx, lot_matches,
    lot_qty, lots_view, qty_in, remove_lot, set_lot, Ledger, LoanRecord, LoanRecordV, LotRow, LotV,
};
use crate::product::ProductV;
use crate::text::{norm_text, str_eq};

verus! {

/// The parent record of a loan transaction.
#[derive(Debug, Clone, PartialEq)]
pub struct LoanHeader {
    pub id: String,
    pub date: String,
    pub direction: String,
    pub counterparty: String,
    pub note: Option<String>,
}

/// The mathematical value of a [`LoanHeader`].
pub struct LoanHeaderV {
    pub id: Seq<char>,
    pub date: Seq<char>,
    pub direction: Seq<char>,
    pub counterparty: Seq<char>,
    pub note: Option<Seq<char>>,
}

impl View for LoanHeader {
    type V = LoanHeaderV;

    open spec fn view(&self) -> LoanHeaderV {
        LoanHeaderV {
            id: self.id@,
            date: self.date@,
            direction: self.direction@,
            counterparty: self.counterparty@,
            note: match self.note {
                Option::None => Option::None,
                Option::Some(ref s) => Option::Some(s@),
            },
        }
    }
}

/// One line of a loan: a product, a quantity, and for stock-affecting
/// movements the expiry lot it touches.
#[derive(Debug, Clone, PartialEq)]
pub struct LoanItem {
    pub id: String,
    pub product_name: String,
    pub quantity: i64,
    pub expiry: Option<String>,
}

/// The mathematical value of a [`LoanItem`].
pub struct LoanItemV {
    pub id: Seq<char>,
    pub product_name: Seq<char>,
    pub quantity: int,
    pub expiry: Option<Seq<char>>,
}

impl View for LoanItem {
    type V = LoanItemV;

    open spec fn view(&self) -> LoanItemV {
        LoanItemV {
            id: self.id@,
            product_name: self.product_name@,
            quantity: self.quantity as int,
            expiry: match self.expiry {
                Option::None => Option::None,
                Option::Some(ref s) => Option::Some(s@),
            },
        }
    }
}

/// Whether a direction word belongs to the closed set of loan movements.
pub open spec fn is_valid_direction(d: Seq<char>) -> bool {
    d == "loan_in"@ || d == "loan_out"@ || d == "return_in"@ || d == "return_out"@
}

/// Whether a direction increases stock (+qty) rather than decreasing it.
pub open spec fn direction_is_inbound(d: Seq<char>) -> bool {
    d == "loan_in"@ || d == "return_in"@
}

/// The signed stock delta of a movement: inbound directions add the
/// quantity, outbound directions subtract it.
pub open spec fn spec_dir_delta(d: Seq<char>, qty: int) -> int {
    if direction_is_inbound(d) {
        qty
    } else {
        -qty
    }
}

/// Decides membership in the closed direction set.
pub fn validate_direction(d: &str) -> (r: bool)
    ensures
        r == is_valid_direction(d@),
{
    str_eq(d, "loan_in") || str_eq(d, "loan_out") || str_eq(d, "return_in") || str_eq(
        d,
        "return_out",
    )
}

/// The signed stock delta for one item of a loan in direction `direction`:
/// `loan_in` and `return_in` increase stock by `qty`, `loan_out` and
/// `return_out` decrease it; any other word is rejected.
pub fn dir_delta(direction: &str, qty: i64) -> (r: Result<i64, LedgerError>)
    requires
        qty > i64::MIN,
    ensures
        match r {
            Result::Ok(d) => is_valid_direction(direction@) && d == spec_dir_delta(
                direction@,
                qty as int,
            ),
            Result::Err(e) => !is_valid_direction(direction@) && e@
                == crate::error::LedgerErrorV::UnknownDirection { direction: direction@ },
        },
{
    if str_eq(direction, "loan_in") || str_eq(direction, "return_in") {
        Result::Ok(qty)
    } else if str_eq(direction, "loan_out") || str_eq(direction, "return_out") {
        Result::Ok(-qty)
    } else {
        Result::Err(LedgerError::UnknownDirection { direction: direction.to_owned() })
    }
}

/// The stored form of a loan header: the note normalized, everything else
/// as given.
pub open spec fn normalize_header(h: LoanHeaderV) -> LoanHeaderV {
    LoanHeaderV {
        id: h.id,
        date: h.date,
        direction: h.direction,
        counterparty: h.counterparty,
        note: norm_text(h.note),
    }
}

/// An exact copy of a loan item.
pub fn clone_loan_item(it: &LoanItem) -> (r: LoanItem)
    ensures
        r == *it,
{
    LoanItem {
        id: it.id.clone(),
        product_name: it.product_name.clone(),
        quantity: it.quantity,
        expiry: crate::text::clone_opt_string(&it.expiry),
    }
}

/// An exact copy of a loan header.
pub fn clone_loan_header(h: &LoanHeader) -> (r: LoanHeader)
    ensures
        r == *h,
{
    LoanHeader {
        id: h.id.clone(),
        date: h.date.clone(),
        direction: h.direction.clone(),
        counterparty: h.counterparty.clone(),
        note: crate::text::clone_opt_string(&h.note),
    }
}

// ---------------------------------------------------------------------------
// The checks a loan runs through, in the order they are made.
// ---------------------------------------------------------------------------
/// The first item whose quantity is not positive, as its error.
pub open spec fn first_nonpositive(items: Seq<LoanItemV>) -> Option<LedgerErrorV>
    decreases items.len(),
{
    if items.len() == 0 {
        Option::None
    } else if items[0].quantity <= 0 {
        Option::Some(
            LedgerErrorV::NonPositiveQuantity {
                name: items[0].product_name,
                qty: items[0].quantity,
            },
        )
    } else {
        first_nonpositive(items.drop_first())
    }
}

/// When no item is rejected, every quantity is positive.
pub proof fn lemma_first_nonpositive_none(items: Seq<LoanItemV>)
    requires
        first_nonpositive(items) is None,
    ensures
        forall|i: int| 0 <= i < items.len() ==> (#[trigger] items[i]).quantity > 0,
    decreases items.len(),
{
    if items.len() > 0 {
        lemma_first_nonpositive_none(items.drop_first());
        assert forall|i: int| 0 <= i < items.len() implies (#[trigger] items[i]).quantity > 0 by {
            if i > 0 {
                assert(items.drop_first()[i - 1] == items[i]);
            }
        }
    }
}

/// The first item naming a product that does not exist, as its error.
pub open spec fn first_missing_product(ps: Seq<ProductV>, items: Seq<LoanItemV>) -> Option<
    LedgerErrorV,
>
    decreases items.len(),
{
    if items.len() == 0 {
        Option::None
    } else if !has_product(ps, items[0].product_name) {
        Option::Some(LedgerErrorV::MissingProduct { name: items[0].product_name })
    } else {
        first_missing_product(ps, items.drop_first())
    }
}

/// When no item is rejected, every item names an existing product.
pub proof fn lemma_first_missing_product_none(ps: Seq<ProductV>, items: Seq<LoanItemV>)
    requires
        first_missing_product(ps, items) is None,
    ensures
        forall|i: int|
            0 <= i < items.len() ==> has_product(ps, (#[trigger] items[i]).product_name),
    decreases items.len(),
{
    if items.len() > 0 {
        lemma_first_missing_product_none(ps, items.drop_first());
        assert forall|i: int| 0 <= i < items.len() implies has_product(
            ps,
            (#[trigger] items[i]).product_name,
        ) by {
            if i > 0 {
                assert(items.drop_first()[i - 1] == items[i]);
            }
        }
    }
}

/// The pre-check before any write: for each stock-decreasing item, the lot
/// must be named and must hold enough against the stock as it stands now.
pub open spec fn precheck_outbound(
    st: Seq<LotV>,
    dir: Seq<char>,
    items: Seq<LoanItemV>,
) -> Option<LedgerErrorV>
    decreases items.len(),
{
    if items.len() == 0 {
        Option::None
    } else {
        let it = items[0];
        let delta = spec_dir_delta(dir, it.quantity);
        if delta < 0 {
            match it.expiry {
                Option::None => Option::Some(
                    LedgerErrorV::MissingExpiry { name: it.product_name },
                ),
                Option::Some(e) => {
                    let cur = lot_qty(st, it.product_name, e);
                    if cur + delta < 0 {
                        Option::Some(
                            LedgerErrorV::InsufficientStock {
                                name: it.product_name,
                                expiry: e,
                                available: cur,
                                requested: -delta,
                            },
                        )
                    } else {
                        precheck_outbound(st, dir, items.drop_first())
                    }
                },
            }
        } else {
            precheck_outbound(st, dir, items.drop_first())
        }
    }
}

/// The stock after the loan's deltas are applied one item at a time, or
/// the first error: each item needs its expiry lot; a decrease beyond the
/// (now current) quantity is rejected; an increase past the machine limit
/// is rejected; a lot driven to zero is deleted.
pub open spec fn apply_loan_deltas(st: Seq<LotV>, dir: Seq<char>, items: Seq<LoanItemV>) -> Result<
    Seq<LotV>,
    LedgerErrorV,
>
    decreases items.len(),
{
    if items.len() == 0 {
        Result::Ok(st)
    } else {
        let it = items[0];
        match it.expiry {
            Option::None => Result::Err(LedgerErrorV::MissingExpiry { name: it.product_name }),
            Option::Some(e) => {
                let delta = spec_dir_delta(dir, it.quantity);
                let cur = lot_qty(st, it.product_name, e);
                if cur + delta < 0 {
                    Result::Err(
                        LedgerErrorV::InsufficientStock {
                            name: it.product_name,
                            expiry: e,
                            available: cur,
                            requested: -delta,
                        },
                    )
                } else if cur + delta > i64::MAX {
                    Result::Err(LedgerErrorV::QuantityOverflow { name: it.product_name, expiry: e })
                } else if cur + delta == 0 {
                    apply_loan_deltas(remove_lot(st, it.product_name, e), dir, items.drop_first())
                } else {
                    apply_loan_deltas(
                        set_lot(st, it.product_name, e, cur + delta),
                        dir,
                        items.drop_first(),
                    )
                }
            },
        }
    }
}

/// What a loan creation does to the stock, after all its checks, or the
/// first error, in the order the checks are made.
pub open spec fn create_loan_check(
    l: crate::ledger::LedgerV,
    header: LoanHeaderV,
    items: Seq<LoanItemV>,
    will_adjust: bool,
) -> Result<Seq<LotV>, LedgerErrorV> {
    if items.len() == 0 {
        Result::Err(LedgerErrorV::EmptyItems)
    } else if first_nonpositive(items) is Some {
        Result::Err(first_nonpositive(items)->Some_0)
    } else if !is_valid_direction(header.direction) {
        Result::Err(LedgerErrorV::UnknownDirection { direction: header.direction })
    } else if first_missing_product(l.products, items) is Some {
        Result::Err(first_missing_product(l.products, items)->Some_0)
    } else if will_adjust && precheck_outbound(l.stock, header.direction, items) is Some {
        Result::Err(precheck_outbound(l.stock, header.direction, items)->Some_0)
    } else if has_loan(l.loans, header.id) {
        Result::Err(LedgerErrorV::DuplicateId { id: header.id })
    } else if will_adjust {
        apply_loan_deltas(l.stock, header.direction, items)
    } else {
        Result::Ok(l.stock)
    }
}

// ---------------------------------------------------------------------------
// The statements a loan hands to the gateway.
// ---------------------------------------------------------------------------
/// One insert per item, under the header's identifier.
pub open spec fn loan_items_plan(loan_id: Seq<char>, items: Seq<LoanItemV>) -> Seq<StatementV> {
    Seq::new(items.len(), |i: int| StatementV::InsertLoanItem { loan_id, item: items[i] })
}

/// The stock upserts of the adjustment, one per item, each decreasing
/// upsert followed by the delete of a drained lot.
pub open spec fn adjust_plan(dir: Seq<char>, items: Seq<LoanItemV>) -> Seq<StatementV>
    decreases items.len(),
{
    if items.len() == 0 {
        Seq::empty()
    } else {
        let it = items[0];
        let e = it.expiry->Some_0;
        let delta = spec_dir_delta(dir, it.quantity);
        let head = if delta < 0 {
            seq![
                StatementV::UpsertLotAdd { name: it.product_name, expiry: e, delta },
                StatementV::DeleteLotIfEmpty { name: it.product_name, expiry: e },
            ]
        } else {
            seq![StatementV::UpsertLotAdd { name: it.product_name, expiry: e, delta }]
        };
        head + adjust_plan(dir, items.drop_first())
    }
}

/// The whole plan of a creation: the header, then the items, then the
/// stock adjustment if one was asked for.
pub open spec fn create_loan_plan(
    header: LoanHeaderV,
    items: Seq<LoanItemV>,
    will_adjust: bool,
) -> Seq<StatementV> {
    seq![StatementV::InsertLoanHeader { header }] + loan_items_plan(header.id, items) + if will_adjust {
        adjust_plan(header.direction, items)
    } else {
        Seq::empty()
    }
}

/// Where the first item with a missing product stands, the check names it.
proof fn lemma_first_missing_at(ps: Seq<ProductV>, items: Seq<LoanItemV>, i: int)
    requires
        0 <= i < items.len(),
        !has_product(ps, items[i].product_name),
        forall|j: int| 0 <= j < i ==> has_product(ps, (#[trigger] items[j]).product_name),
    ensures
        first_missing_product(ps, items) == Option::Some(
            LedgerErrorV::MissingProduct { name: items[i].product_name },
        ),
    decreases i,
{
    if i == 0 {
    } else {
        assert(has_product(ps, items[0].product_name));
        assert forall|j: int| 0 <= j < i - 1 implies has_product(
            ps,
            (#[trigger] items.drop_first()[j]).product_name,
        ) by {
            assert(items.drop_first()[j] == items[j + 1]);
        }
        assert(items.drop_first()[i - 1] == items[i]);
        lemma_first_missing_at(ps, items.drop_first(), i - 1);
    }
}

/// A creation that names an unknown product fails with the reference
/// error naming the first such product, before any row is written (a
/// failed creation leaves the ledger unchanged, by the operation's
/// contract).
pub proof fn lemma_unknown_product_fails(
    l: crate::ledger::LedgerV,
    header: LoanHeaderV,
    items: Seq<LoanItemV>,
    will_adjust: bool,
    i: int,
)
    requires
        items.len() > 0,
        first_nonpositive(items) is None,
        is_valid_direction(header.direction),
        0 <= i < items.len(),
        !has_product(l.products, items[i].product_name),
        forall|j: int| 0 <= j < i ==> has_product(l.products, (#[trigger] items[j]).product_name),
    ensures
        create_loan_check(l, header, items, will_adjust) == Result::<Seq<LotV>, LedgerErrorV>::Err(
            LedgerErrorV::MissingProduct { name: items[i].product_name },
        ),
{
    lemma_first_missing_at(l.products, items, i);
}

/// An outbound loan that would drive a lot below zero fails with the
/// insufficiency error naming the lot, its quantity and the requested
/// decrease; nothing is written (a failed creation leaves the ledger
/// unchanged, by the operation's contract).
pub proof fn lemma_loan_out_insufficient_fails(
    l: crate::ledger::LedgerV,
    header: LoanHeaderV,
    it: LoanItemV,
    e: Seq<char>,
)
    requires
        header.direction == "loan_out"@,
        it.quantity > 0,
        it.expiry == Option::Some(e),
        has_product(l.products, it.product_name),
        it.quantity > lot_qty(l.stock, it.product_name, e),
    ensures
        create_loan_check(l, header, seq![it], true) == Result::<Seq<LotV>, LedgerErrorV>::Err(
            LedgerErrorV::InsufficientStock {
                name: it.product_name,
                expiry: e,
                available: lot_qty(l.stock, it.product_name, e),
                requested: it.quantity,
            },
        ),
{
    reveal_strlit("loan_in");
    reveal_strlit("loan_out");
    reveal_strlit("return_in");
    reveal_strlit("return_out");
    let items = seq![it];
    assert(items[0] == it);
    assert("loan_out"@.len() == 8);
    assert("loan_in"@.len() == 7);
    assert("return_in"@.len() == 9);
    assert(is_valid_direction(header.direction));
    assert(!direction_is_inbound(header.direction));
    assert(items.drop_first() =~= Seq::<LoanItemV>::empty());
    assert(first_nonpositive(Seq::<LoanItemV>::empty()) is None);
    assert(first_nonpositive(items) is None);
    assert(first_missing_product(l.products, Seq::<LoanItemV>::empty()) is None);
    assert(first_missing_product(l.products, items) is None);
    assert(spec_dir_delta(header.direction, it.quantity) == -it.quantity);
    assert(precheck_outbound(l.stock, header.direction, items) == Option::Some(
        LedgerErrorV::InsufficientStock {
            name: it.product_name,
            expiry: e,
            available: lot_qty(l.stock, it.product_name, e),
            requested: it.quantity,
        },
    ));
}

/// Whether stock is adjusted: yes unless explicitly declined.
pub open spec fn spec_will_adjust(adjust_stock: Option<bool>) -> bool {
    match adjust_stock {
        Option::None => true,
        Option::Some(b) => b,
    }
}

impl Ledger {
    /// Creates a loan: validates the items, the direction and the
    /// products, pre-checks every stock decrease against the quantities as
    /// they stand, inserts the header and its items, and (unless declined)
    /// applies the signed deltas to the stock, deleting any lot driven to
    /// zero. Everything applies atomically — a rejection leaves the ledger
    /// untouched.
    pub fn create_loan(
        &mut self,
        header: LoanHeader,
        items: Vec<LoanItem>,
        adjust_stock: Option<bool>,
    ) -> (r: Result<Vec<Statement>, LedgerError>)
        requires
            old(self).wf(),
        ensures
            final (self).wf(),
            final (self)@.products == old(self)@.products,
            final (self)@.sales == old(self)@.sales,
            match r {
                Result::Ok(stmts) => {
                    &&& create_loan_check(
                        old(self)@,
                        header@,
                        loan_items_view(items@),
                        spec_will_adjust(adjust_stock),
                    ) == Result::<Seq<LotV>, LedgerErrorV>::Ok(final (self)@.stock)
                    &&& final (self)@.loans == old(self)@.loans.push(
                        LoanRecordV {
                            header: normalize_header(header@),
                            items: loan_items_view(items@),
                        },
                    )
                    &&& stmts_view(stmts@) == create_loan_plan(
                        normalize_header(header@),
                        loan_items_view(items@),
                        spec_will_adjust(adjust_stock),
                    )
                },
                Result::Err(e) => {
                    &&& final (self)@.stock == old(self)@.stock
                    &&& final (self)@.loans == old(self)@.loans
                    &&& create_loan_check(
                        old(self)@,
                        header@,
                        loan_items_view(items@),
                        spec_will_adjust(adjust_stock),
                    ) == Result::<Seq<LotV>, LedgerErrorV>::Err(e@)
                },
            },
    {
        let ghost l0 = self@;
        let ghost itemsv = loan_items_view(items@);
        let ghost hv = header@;
        let will_adjust = match adjust_stock {
            Option::Some(b) => b,
            Option::None => true,
        };
        if items.len() == 0 {
            return Result::Err(LedgerError::EmptyItems);
        }
        let n = items.len();
        // Every quantity must be positive.
        let mut i: usize = 0;
        proof {
            assert(itemsv.skip(0) =~= itemsv);
        }
        while i < n
            invariant
                i <= n,
                n == items@.len(),
                itemsv == loan_items_view(items@),
                *self == *old(self),
                old(self).wf(),
                first_nonpositive(itemsv) == first_nonpositive(itemsv.skip(i as int)),
            decreases n - i,
        {
            proof {
                assert(itemsv.skip(i as int)[0] == itemsv[i as int]);
                assert(itemsv[i as int] == items@[i as int]@);
                assert(itemsv.skip(i as int).drop_first() =~= itemsv.skip(i as int + 1));
            }
            let it = &items[i];
            if it.quantity <= 0 {
                return Result::Err(
                    LedgerError::NonPositiveQuantity {
                        name: it.product_name.clone(),
                        qty: it.quantity,
                    },
                );
            }
            i = i + 1;
        }
        proof {
            assert(itemsv.skip(n as int) =~= Seq::<LoanItemV>::empty());
            assert(first_nonpositive(itemsv) is None);
            lemma_first_nonpositive_none(itemsv);
        }
        // The direction must belong to the closed set.
        if !validate_direction(header.direction.as_str()) {
            return Result::Err(LedgerError::UnknownDirection { direction: header.direction });
        }
        let inbound = str_eq(header.direction.as_str(), "loan_in") || str_eq(
            header.direction.as_str(),
            "return_in",
        );
        proof {
            assert(inbound == direction_is_inbound(hv.direction));
        }
        // Every item must name an existing product.
        let mut i: usize = 0;
        while i < n
            invariant
                i <= n,
                n == items@.len(),
                itemsv == loan_items_view(items@),
                *self == *old(self),
                l0 == old(self)@,
                old(self).wf(),
                hv == header@,
                0 < itemsv.len(),
                first_nonpositive(itemsv) is None,
                is_valid_direction(hv.direction),
                first_missing_product(l0.products, itemsv) == first_missing_product(
                    l0.products,
                    itemsv.skip(i as int),
                ),
            decreases n - i,
        {
            proof {
                assert(itemsv.skip(i as int)[0] == itemsv[i as int]);
                assert(itemsv[i as int] == items@[i as int]@);
                assert(itemsv.skip(i as int).drop_first() =~= itemsv.skip(i as int + 1));
            }
            let it = &items[i];
            if !self.product_exists(&it.product_name) {
                return Result::Err(LedgerError::MissingProduct { name: it.product_name.clone() });
            }
            i = i + 1;
        }
        proof {
            assert(itemsv.skip(n as int) =~= Seq::<LoanItemV>::empty());
            assert(first_missing_product(l0.products, itemsv) is None);
            lemma_first_missing_product_none(l0.products, itemsv);
        }
        // Pre-check every decrease against the stock as it stands.
        if will_adjust {
            let mut i: usize = 0;
            while i < n
                invariant
                    i <= n,
                    n == items@.len(),
                    itemsv == loan_items_view(items@),
                    *self == *old(self),
                    l0 == old(self)@,
                    old(self).wf(),
                    hv == header@,
                    0 < itemsv.len(),
                    will_adjust,
                    will_adjust == spec_will_adjust(adjust_stock),
                    inbound == direction_is_inbound(hv.direction),
                    is_valid_direction(hv.direction),
                    first_nonpositive(itemsv) is None,
                    first_missing_product(l0.products, itemsv) is None,
                    forall|j: int| 0 <= j < itemsv.len() ==> (#[trigger] itemsv[j]).quantity > 0,
                    precheck_outbound(l0.stock, hv.direction, itemsv) == precheck_outbound(
                        l0.stock,
                        hv.direction,
                        itemsv.skip(i as int),
                    ),
                decreases n - i,
            {
                proof {
                    assert(itemsv.skip(i as int)[0] == itemsv[i as int]);
                    assert(itemsv[i as int] == items@[i as int]@);
                    assert(itemsv.skip(i as int).drop_first() =~= itemsv.skip(i as int + 1));
                }
                let it = &items[i];
                if !inbound {
                    match &it.expiry {
                        Option::None => {
                            return Result::Err(
                                LedgerError::MissingExpiry { name: it.product_name.clone() },
                            );
                        },
                        Option::Some(e) => {
                            let cur = self.current_qty(&it.product_name, e);
                            if cur < it.quantity {
                                return Result::Err(
                                    LedgerError::InsufficientStock {
                                        name: it.product_name.clone(),
                                        expiry: e.clone(),
                                        available: cur,
                                        requested: it.quantity,
                                    },
                                );
                            }
                        },
                    }
                }
                i = i + 1;
            }
            proof {
                assert(itemsv.skip(n as int) =~= Seq::<LoanItemV>::empty());
                assert(precheck_outbound(l0.stock, hv.direction, itemsv) is None);
            }
        }
        // The header identifier must be fresh.
        if self.find_loan(&header.id).is_some() {
            return Result::Err(LedgerError::DuplicateId { id: header.id });
        }
        // Apply the deltas to a working copy of the stock.
        let mut st = clone_lots(&self.stock);
        let mut adjust_stmts: Vec<Statement> = Vec::new();
        if will_adjust {
            let mut i: usize = 0;
            proof {
                assert(itemsv.skip(0) =~= itemsv);
                assert(stmts_view(adjust_stmts@) =~= Seq::<StatementV>::empty());
            }
            while i < n
                invariant
                    i <= n,
                    n == items@.len(),
                    itemsv == loan_items_view(items@),
                    *self == *old(self),
                    l0 == old(self)@,
                    old(self).wf(),
                    hv == header@,
                    0 < itemsv.len(),
                    will_adjust,
                    will_adjust == spec_will_adjust(adjust_stock),
                    inbound == direction_is_inbound(hv.direction),
                    is_valid_direction(hv.direction),
                    first_nonpositive(itemsv) is None,
                    first_missing_product(l0.products, itemsv) is None,
                    precheck_outbound(l0.stock, hv.direction, itemsv) is None,
                    !has_loan(l0.loans, hv.id),
                    forall|j: int| 0 <= j < itemsv.len() ==> (#[trigger] itemsv[j]).quantity > 0,
                    forall|j: int|
                        0 <= j < itemsv.len() ==> has_product(
                            l0.products,
                            (#[trigger] itemsv[j]).product_name,
                        ),
                    crate::ledger::lot_keys_unique(lots_view(st@)),
                    crate::ledger::stock_positive(lots_view(st@)),
                    crate::ledger::stock_refs_products(lots_view(st@), l0.products),
                    apply_loan_deltas(l0.stock, hv.direction, itemsv) == apply_loan_deltas(
                        lots_view(st@),
                        hv.direction,
                        itemsv.skip(i as int),
                    ),
                    adjust_plan(hv.direction, itemsv) == stmts_view(adjust_stmts@) + adjust_plan(
                        hv.direction,
                        itemsv.skip(i as int),
                    ),
                decreases n - i,
            {
                proof {
                    assert(itemsv.skip(i as int)[0] == itemsv[i as int]);
                    assert(itemsv[i as int] == items@[i as int]@);
                    assert(itemsv.skip(i as int).drop_first() =~= itemsv.skip(i as int + 1));
                }
                let it = &items[i];
                let e = match &it.expiry {
                    Option::Some(e) => e,
                    Option::None => {
                        return Result::Err(
                            LedgerError::MissingExpiry { name: it.product_name.clone() },
                        );
                    },
                };
                let cur = qty_in(&st, &it.product_name, e);
                proof {
                    crate::ledger::lemma_lot_qty_nonneg(lots_view(st@), it.product_name@, e@);
                }
                if !inbound {
                    if cur < it.quantity {
                        return Result::Err(
                            LedgerError::InsufficientStock {
                                name: it.product_name.clone(),
                                expiry: e.clone(),
                                available: cur,
                                requested: it.quantity,
                            },
                        );
                    }
                } else {
                    if cur > i64::MAX - it.quantity {
                        return Result::Err(
                            LedgerError::QuantityOverflow {
                                name: it.product_name.clone(),
                                expiry: e.clone(),
                            },
                        );
                    }
                }
                let newq = if inbound {
                    cur + it.quantity
                } else {
                    cur - it.quantity
                };
                let ghost stv = lots_view(st@);
                if newq == 0 {
                    proof {
                        assert(has_lot(stv, it.product_name@, e@));
                        crate::ledger::lemma_remove_lot(stv, it.product_name@, e@);
                    }
                    let k = find_lot_in(&st, &it.product_name, e).unwrap();
                    proof {
                        let k2 = lot_idx(stv, it.product_name@, e@);
                        assert(0 <= k2 < stv.len() && lot_matches(stv[k2], it.product_name@, e@));
                        if k2 != k as int {
                            assert(stv[k2].name == stv[k as int].name && stv[k2].expiry
                                == stv[k as int].expiry);
                        }
                        stv.remove_ensures(k as int);
                    }
                    st.remove(k);
                    proof {
                        let newst = lots_view(st@);
                        assert(newst =~= stv.remove(lot_idx(stv, it.product_name@, e@)));
                        assert(newst == remove_lot(stv, it.product_name@, e@));
                        assert forall|j: int| 0 <= j < newst.len() implies newst[j].qty > 0
                            && has_product(l0.products, newst[j].name) by {
                            assert(stv.contains(newst[j]));
                            let w = choose|w: int| 0 <= w < stv.len() && stv[w] == newst[j];
                            assert(stv[w].qty > 0);
                            assert(has_product(l0.products, stv[w].name));
                        }
                    }
                } else {
                    proof {
                        crate::ledger::lemma_set_lot(stv, it.product_name@, e@, newq as int);
                    }
                    let row = LotRow {
                        name: it.product_name.clone(),
                        expiry: e.clone(),
                        qty: newq,
                    };
                    match find_lot_in(&st, &it.product_name, e) {
                        Option::Some(k) => {
                            proof {
                                let k2 = lot_idx(stv, it.product_name@, e@);
                                assert(0 <= k2 < stv.len() && lot_matches(
                                    stv[k2],
                                    it.product_name@,
                                    e@,
                                ));
                                if k2 != k as int {
                                    assert(stv[k2].name == stv[k as int].name && stv[k2].expiry
                                        == stv[k as int].expiry);
                                }
                            }
                            st[k] = row;
                            proof {
                                assert(lots_view(st@) =~= stv.update(
                                    lot_idx(stv, it.product_name@, e@),
                                    row@,
                                ));
                            }
                        },
                        Option::None => {
                            st.push(row);
                            proof {
                                assert(lots_view(st@) =~= stv.push(row@));
                            }
                        },
                    }
                    proof {
                        let newst = lots_view(st@);
                        assert(row@ == (LotV {
                            name: it.product_name@,
                            expiry: e@,
                            qty: newq as int,
                        }));
                        assert(newst == set_lot(stv, it.product_name@, e@, newq as int));
                        assert forall|j: int| 0 <= j < newst.len() implies newst[j].qty > 0
                            && has_product(l0.products, newst[j].name) by {
                            if newst[j] != row@ {
                                assert(stv.contains(newst[j]));
                                let w = choose|w: int| 0 <= w < stv.len() && stv[w] == newst[j];
                                assert(stv[w].qty > 0);
                                assert(has_product(l0.products, stv[w].name));
                            }
                        }
                    }
                }
                proof {
                    assert(apply_loan_deltas(stv, hv.direction, itemsv.skip(i as int))
                        == apply_loan_deltas(lots_view(st@), hv.direction, itemsv.skip(i as int + 1)));
                }
                let delta: i64 = if inbound {
                    it.quantity
                } else {
                    -it.quantity
                };
                let s1 = Statement::UpsertLotAdd {
                    name: it.product_name.clone(),
                    expiry: e.clone(),
                    delta,
                };
                let ghost apre = adjust_stmts@;
                adjust_stmts.push(s1);
                if !inbound {
                    adjust_stmts.push(
                        Statement::DeleteLotIfEmpty {
                            name: it.product_name.clone(),
                            expiry: e.clone(),
                        },
                    );
                }
                proof {
                    let itv = itemsv[i as int];
                    let ev = itv.expiry->Some_0;
                    let dv = spec_dir_delta(hv.direction, itv.quantity);
                    let head = if dv < 0 {
                        seq![
                            StatementV::UpsertLotAdd { name: itv.product_name, expiry: ev, delta: dv },
                            StatementV::DeleteLotIfEmpty { name: itv.product_name, expiry: ev },
                        ]
                    } else {
                        seq![StatementV::UpsertLotAdd { name: itv.product_name, expiry: ev, delta: dv }]
                    };
                    assert(adjust_plan(hv.direction, itemsv.skip(i as int)) == head + adjust_plan(
                        hv.direction,
                        itemsv.skip(i as int + 1),
                    ));
                    assert forall|j: int| 0 <= j < adjust_stmts@.len() implies stmts_view(
                        adjust_stmts@,
                    )[j] == (stmts_view(apre) + head)[j] by {
                        if j < apre.len() {
                            assert(adjust_stmts@[j] == apre[j]);
                            assert(stmts_view(apre)[j] == apre[j]@);
                        }
                    }
                    assert(stmts_view(adjust_stmts@) =~= stmts_view(apre) + head);
                    assert((stmts_view(apre) + head) + adjust_plan(hv.direction, itemsv.skip(i as int + 1))
                        =~= stmts_view(apre) + (head + adjust_plan(hv.direction, itemsv.skip(i as int + 1))));
                }
                i = i + 1;
            }
            proof {
                assert(itemsv.skip(n as int) =~= Seq::<LoanItemV>::empty());
                assert(adjust_plan(hv.direction, itemsv.skip(n as int)) =~= Seq::<StatementV>::empty());
                assert(adjust_plan(hv.direction, itemsv) =~= stmts_view(adjust_stmts@));
                assert(apply_loan_deltas(l0.stock, hv.direction, itemsv) == Result::<
                    Seq<LotV>,
                    LedgerErrorV,
                >::Ok(lots_view(st@)));
            }
        }
        // Commit: the stored header, the statements, the record, the stock.
        let norm_note = crate::text::normalize_opt_text(&header.note);
        let stored_header = LoanHeader {
            id: header.id,
            date: header.date,
            direction: header.direction,
            counterparty: header.counterparty,
            note: norm_note,
        };
        proof {
            assert(stored_header@ == normalize_header(hv));
        }
        let mut stmts: Vec<Statement> = Vec::new();
        stmts.push(Statement::InsertLoanHeader { header: clone_loan_header(&stored_header) });
        let mut i: usize = 0;
        proof {
            assert(stmts_view(stmts@) =~= seq![
                StatementV::InsertLoanHeader { header: normalize_header(hv) },
            ] + loan_items_plan(hv.id, itemsv.subrange(0, 0)));
        }
        while i < n
            invariant
                i <= n,
                n == items@.len(),
                itemsv == loan_items_view(items@),
                stored_header@ == normalize_header(hv),
                stmts_view(stmts@) == seq![
                    StatementV::InsertLoanHeader { header: normalize_header(hv) },
                ] + loan_items_plan(hv.id, itemsv.subrange(0, i as int)),
            decreases n - i,
        {
            let ghost spre = stmts@;
            stmts.push(
                Statement::InsertLoanItem {
                    loan_id: stored_header.id.clone(),
                    item: clone_loan_item(&items[i]),
                },
            );
            proof {
                assert(itemsv[i as int] == items@[i as int]@);
                let full = seq![StatementV::InsertLoanHeader { header: normalize_header(hv) }]
                    + loan_items_plan(hv.id, itemsv.subrange(0, i as int + 1));
                assert(stmts_view(spre).len() == spre.len());
                assert(spre.len() == 1 + i as int);
                assert forall|j: int| 0 <= j < stmts@.len() implies stmts_view(stmts@)[j]
                    == full[j] by {
                    if j < spre.len() {
                        assert(stmts@[j] == spre[j]);
                        assert(stmts_view(spre)[j] == spre[j]@);
                        if j > 0 {
                            assert(itemsv.subrange(0, i as int)[j - 1] == itemsv[j - 1]);
                            assert(itemsv.subrange(0, i as int + 1)[j - 1] == itemsv[j - 1]);
                        }
                    } else {
                        assert(itemsv.subrange(0, i as int + 1)[j - 1] == itemsv[j - 1]);
                    }
                }
                assert(stmts_view(stmts@) =~= full);
            }
            i = i + 1;
        }
        proof {
            assert(itemsv.subrange(0, n as int) =~= itemsv);
        }
        let ghost items_stmts = stmts@;
        let ghost adj_pre = adjust_stmts@;
        let mut adjust_stmts = adjust_stmts;
        stmts.append(&mut adjust_stmts);
        proof {
            assert(stmts@ == items_stmts + adj_pre);
            let lhs = stmts_view(stmts@);
            let rhs = stmts_view(items_stmts) + stmts_view(adj_pre);
            assert forall|j: int| 0 <= j < lhs.len() implies lhs[j] == rhs[j] by {
                if j < items_stmts.len() {
                    assert(stmts@[j] == items_stmts[j]);
                    assert(stmts_view(items_stmts)[j] == items_stmts[j]@);
                } else {
                    assert(stmts@[j] == adj_pre[j - items_stmts.len()]);
                    assert(stmts_view(adj_pre)[j - items_stmts.len()] == adj_pre[j
                        - items_stmts.len()]@);
                }
            }
            assert(lhs =~= rhs);
            if !will_adjust {
                assert(stmts_view(adj_pre) =~= Seq::<StatementV>::empty());
            }
            assert(stmts_view(stmts@) =~= create_loan_plan(
                normalize_header(hv),
                itemsv,
                will_adjust,
            ));
        }
        let ghost loans_pre = self@.loans;
        let rec = LoanRecord { header: stored_header, items };
        let ghost recv = rec@;
        self.loans.push(rec);
        proof {
            assert(crate::ledger::loans_view(self.loans@) =~= loans_pre.push(recv));
            assert(recv == (LoanRecordV { header: normalize_header(hv), items: itemsv }));
            assert forall|a: int, b: int|
                0 <= a < b < self@.loans.len() implies self@.loans[a].header.id
                != self@.loans[b].header.id by {
                if b < loans_pre.len() {
                    assert(self@.loans[a] == loans_pre[a] && self@.loans[b] == loans_pre[b]);
                } else {
                    assert(self@.loans[a] == loans_pre[a]);
                    assert(self@.loans[b] == recv);
                    if loans_pre[a].header.id == recv.header.id {
                        assert(has_loan(loans_pre, recv.header.id));
                    }
                }
            }
        }
        if will_adjust {
            self.stock = st;
        }
        Result::Ok(stmts)
    }

    /// Deletes a loan and its items. The statements delete the items
    /// before the header, so no orphaned item can survive and the
    /// referential constraint is never violated; a missing identifier
    /// deletes nothing and is not an error. No stock adjustment is
    /// reversed.
    pub fn delete_loan(&mut self, loan_id: &String) -> (r: Vec<Statement>)
        requires
            old(self).wf(),
        ensures
            final (self).wf(),
            final (self)@.products == old(self)@.products,
            final (self)@.stock == old(self)@.stock,
            final (self)@.sales == old(self)@.sales,
            final (self)@.loans == crate::ledger::remove_loan(old(self)@.loans, loan_id@),
            !has_loan(final (self)@.loans, loan_id@),
            stmts_view(r@) == seq![
                StatementV::DeleteLoanItems { loan_id: loan_id@ },
                StatementV::DeleteLoanHeader { loan_id: loan_id@ },
            ],
    {
        proof {
            crate::ledger::lemma_remove_loan(old(self)@.loans, loan_id@);
        }
        let ghost ls0 = self@.loans;
        match self.find_loan(loan_id) {
            Option::Some(k) => {
                proof {
                    let k2 = crate::ledger::loan_idx(ls0, loan_id@);
                    assert(0 <= k2 < ls0.len() && ls0[k2].header.id == loan_id@);
                    if k2 != k as int {
                        assert(ls0[k2].header.id == ls0[k as int].header.id);
                    }
                    self.loans@.remove_ensures(k as int);
                    ls0.remove_ensures(k as int);
                }
                self.loans.remove(k);
                proof {
                    assert(crate::ledger::loans_view(self.loans@) =~= ls0.remove(
                        crate::ledger::loan_idx(ls0, loan_id@),
                    ));
                }
            },
            Option::None => {},
        }
        let mut stmts: Vec<Statement> = Vec::new();
        stmts.push(Statement::DeleteLoanItems { loan_id: loan_id.clone() });
        stmts.push(Statement::DeleteLoanHeader { loan_id: loan_id.clone() });
        proof {
            assert(stmts_view(stmts@) =~= seq![
                StatementV::DeleteLoanItems { loan_id: loan_id@ },
                StatementV::DeleteLoanHeader { loan_id: loan_id@ },
            ]);
        }
        stmts
    }
}

/// The loans after a replacement, or the error: the direction and every
/// product are re-validated; an existing record is overwritten wholesale
/// (header fields and the full item set); a missing record with no items
/// is a harmless no-op, with items it is an error. The stock is never
/// touched.
pub open spec fn update_loan_check(
    l: crate::ledger::LedgerV,
    header: LoanHeaderV,
    items: Seq<LoanItemV>,
) -> Result<Seq<LoanRecordV>, LedgerErrorV> {
    if !is_valid_direction(header.direction) {
        Result::Err(LedgerErrorV::UnknownDirection { direction: header.direction })
    } else if first_missing_product(l.products, items) is Some {
        Result::Err(first_missing_product(l.products, items)->Some_0)
    } else if has_loan(l.loans, header.id) {
        Result::Ok(
            l.loans.update(
                crate::ledger::loan_idx(l.loans, header.id),
                LoanRecordV { header: normalize_header(header), items },
            ),
        )
    } else if items.len() == 0 {
        Result::Ok(l.loans)
    } else {
        Result::Err(LedgerErrorV::MissingLoan { id: header.id })
    }
}

/// The plan of a replacement: overwrite the header, delete the old items,
/// insert the new ones.
pub open spec fn update_loan_plan(header: LoanHeaderV, items: Seq<LoanItemV>) -> Seq<StatementV> {
    seq![
        StatementV::UpdateLoanHeader { header },
        StatementV::DeleteLoanItems { loan_id: header.id },
    ] + loan_items_plan(header.id, items)
}

impl Ledger {
    /// Replaces a loan: re-validates the direction and the products, then
    /// overwrites the header row and replaces the whole item set. Stock is
    /// not re-adjusted — the effects of the original creation stand.
    pub fn update_loan(&mut self, header: LoanHeader, items: Vec<LoanItem>) -> (r: Result<
        Vec<Statement>,
        LedgerError,
    >)
        requires
            old(self).wf(),
        ensures
            final (self).wf(),
            final (self)@.products == old(self)@.products,
            final (self)@.stock == old(self)@.stock,
            final (self)@.sales == old(self)@.sales,
            match r {
                Result::Ok(stmts) => update_loan_check(old(self)@, header@, loan_items_view(items@))
                    == Result::<Seq<LoanRecordV>, LedgerErrorV>::Ok(final (self)@.loans)
                    && stmts_view(stmts@) == update_loan_plan(
                    normalize_header(header@),
                    loan_items_view(items@),
                ),
                Result::Err(e) => final (self)@.loans == old(self)@.loans && update_loan_check(
                    old(self)@,
                    header@,
                    loan_items_view(items@),
                ) == Result::<Seq<LoanRecordV>, LedgerErrorV>::Err(e@),
            },
    {
        let ghost l0 = self@;
        let ghost itemsv = loan_items_view(items@);
        let ghost hv = header@;
        if !validate_direction(header.direction.as_str()) {
            return Result::Err(LedgerError::UnknownDirection { direction: header.direction });
        }
        let n = items.len();
        let mut i: usize = 0;
        proof {
            assert(itemsv.skip(0) =~= itemsv);
        }
        while i < n
            invariant
                i <= n,
                n == items@.len(),
                itemsv == loan_items_view(items@),
                *self == *old(self),
                l0 == old(self)@,
                old(self).wf(),
                hv == header@,
                is_valid_direction(hv.direction),
                first_missing_product(l0.products, itemsv) == first_missing_product(
                    l0.products,
                    itemsv.skip(i as int),
                ),
            decreases n - i,
        {
            proof {
                assert(itemsv.skip(i as int)[0] == itemsv[i as int]);
                assert(itemsv[i as int] == items@[i as int]@);
                assert(itemsv.skip(i as int).drop_first() =~= itemsv.skip(i as int + 1));
            }
            let it = &items[i];
            if !self.product_exists(&it.product_name) {
                return Result::Err(LedgerError::MissingProduct { name: it.product_name.clone() });
            }
            i = i + 1;
        }
        proof {
            assert(itemsv.skip(n as int) =~= Seq::<LoanItemV>::empty());
            assert(first_missing_product(l0.products, itemsv) is None);
        }
        let found = self.find_loan(&header.id);
        if found.is_none() && items.len() > 0 {
            return Result::Err(LedgerError::MissingLoan { id: header.id });
        }
        // The stored header and the statements.
        let norm_note = crate::text::normalize_opt_text(&header.note);
        let stored_header = LoanHeader {
            id: header.id,
            date: header.date,
            direction: header.direction,
            counterparty: header.counterparty,
            note: norm_note,
        };
        proof {
            assert(stored_header@ == normalize_header(hv));
        }
        let mut stmts: Vec<Statement> = Vec::new();
        stmts.push(Statement::UpdateLoanHeader { header: clone_loan_header(&stored_header) });
        stmts.push(Statement::DeleteLoanItems { loan_id: stored_header.id.clone() });
        let mut i: usize = 0;
        proof {
            assert(stmts_view(stmts@) =~= seq![
                StatementV::UpdateLoanHeader { header: normalize_header(hv) },
                StatementV::DeleteLoanItems { loan_id: hv.id },
            ] + loan_items_plan(hv.id, itemsv.subrange(0, 0)));
        }
        while i < n
            invariant
                i <= n,
                n == items@.len(),
                itemsv == loan_items_view(items@),
                stored_header@ == normalize_header(hv),
                stmts_view(stmts@) == seq![
                    StatementV::UpdateLoanHeader { header: normalize_header(hv) },
                    StatementV::DeleteLoanItems { loan_id: hv.id },
                ] + loan_items_plan(hv.id, itemsv.subrange(0, i as int)),
            decreases n - i,
        {
            let ghost spre = stmts@;
            stmts.push(
                Statement::InsertLoanItem {
                    loan_id: stored_header.id.clone(),
                    item: clone_loan_item(&items[i]),
                },
            );
            proof {
                assert(itemsv[i as int] == items@[i as int]@);
                let full = seq![
                    StatementV::UpdateLoanHeader { header: normalize_header(hv) },
                    StatementV::DeleteLoanItems { loan_id: hv.id },
                ] + loan_items_plan(hv.id, itemsv.subrange(0, i as int + 1));
                assert(stmts_view(spre).len() == spre.len());
                assert(spre.len() == 2 + i as int);
                assert forall|j: int| 0 <= j < stmts@.len() implies stmts_view(stmts@)[j]
                    == full[j] by {
                    if j < spre.len() {
                        assert(stmts@[j] == spre[j]);
                        assert(stmts_view(spre)[j] == spre[j]@);
                        if j > 1 {
                            assert(itemsv.subrange(0, i as int)[j - 2] == itemsv[j - 2]);
                            assert(itemsv.subrange(0, i as int + 1)[j - 2] == itemsv[j - 2]);
                        }
                    } else {
                        assert(itemsv.subrange(0, i as int + 1)[j - 2] == itemsv[j - 2]);
                    }
                }
                assert(stmts_view(stmts@) =~= full);
            }
            i = i + 1;
        }
        proof {
            assert(itemsv.subrange(0, n as int) =~= itemsv);
        }
        // Overwrite the record, if one exists.
        match found {
            Option::Some(k) => {
                proof {
                    let k2 = crate::ledger::loan_idx(l0.loans, hv.id);
                    assert(0 <= k2 < l0.loans.len() && l0.loans[k2].header.id == hv.id);
                    if k2 != k as int {
                        assert(l0.loans[k2].header.id == l0.loans[k as int].header.id);
                    }
                }
                let rec = LoanRecord { header: stored_header, items };
                let ghost recv = rec@;
                self.loans[k] = rec;
                proof {
                    assert(crate::ledger::loans_view(self.loans@) =~= l0.loans.update(
                        crate::ledger::loan_idx(l0.loans, hv.id),
                        recv,
                    ));
                    assert(recv == (LoanRecordV { header: normalize_header(hv), items: itemsv }));
                    assert forall|a: int, b: int|
                        0 <= a < b < self@.loans.len() implies self@.loans[a].header.id
                        != self@.loans[b].header.id by {
                        assert(self@.loans[a].header.id == l0.loans[a].header.id);
                        assert(self@.loans[b].header.id == l0.loans[b].header.id);
                    }
                }
            },
            Option::None => {},
        }
        Result::Ok(stmts)
    }
}

} // verus!
