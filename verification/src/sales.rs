//! Sales: header and item rows, the summary shape the history view
//! reports, and the sale bookkeeping operations. A sale records stock
//! decreases applied elsewhere; it never touches the stock itself.

use vstd::prelude::*;

use crate::error::{LedgerError, LedgerErrorV};
use crate::fresh::{fresh_id, today_string};
use crate::gateway::{stmts_view, Statement, StatementV};
use crate::ledger::{
    has_product, has_sale, sale_items_view, sales_view, Ledger, SaleRecord, SaleRecordV,
};
use crate::product::ProductV;
use crate::stock::{changes_view, StockChange};
use crate::text::{clone_opt_string, norm_text};

verus! {

/// The parent record of a sale.
#[derive(Debug, Clone, PartialEq)]
pub struct SalesHeader {
    pub id: String,
    pub date: String,
    pub note: Option<String>,
}

/// The mathematical value of a [`SalesHeader`].
pub struct SalesHeaderV {
    pub id: Seq<char>,
    pub date: Seq<char>,
    pub note: Option<Seq<char>>,
}

impl View for SalesHeader {
    type V = SalesHeaderV;

    open spec fn view(&self) -> SalesHeaderV {
        SalesHeaderV {
            id: self.id@,
            date: self.date@,
            note: match self.note {
                Option::None => Option::None,
                Option::Some(ref s) => Option::Some(s@),
            },
        }
    }
}

/// One line of a sale: a product, a quantity and the expiry lot it came
/// from.
#[derive(Debug, Clone, PartialEq)]
pub struct SalesItem {
    pub id: String,
    pub product_name: String,
    pub quantity: i64,
    pub expiry: String,
}

/// The mathematical value of a [`SalesItem`].
pub struct SalesItemV {
    pub id: Seq<char>,
    pub product_name: Seq<char>,
    pub quantity: int,
    pub expiry: Seq<char>,
}

impl View for SalesItem {
    type V = SalesItemV;

    open spec fn view(&self) -> SalesItemV {
        SalesItemV {
            id: self.id@,
            product_name: self.product_name@,
            quantity: self.quantity as int,
            expiry: self.expiry@,
        }
    }
}

/// What the sales history reports for one sale: the header, the most sold
/// products and the total value.
#[derive(Debug, Clone, PartialEq)]
pub struct SalesSummary {
    pub header: SalesHeader,
    pub top_products: Vec<String>,
    pub total_value: i64,
}

/// One aggregated line of a sale's items, as the history view reads them
/// back: a product, its summed quantity, and the unit price.
#[derive(Debug, Clone, PartialEq)]
pub struct SaleAggRow {
    pub product_name: String,
    pub quantity: i64,
    pub price: i64,
}

/// The mathematical value of a [`SaleAggRow`].
pub struct SaleAggRowV {
    pub product_name: Seq<char>,
    pub quantity: int,
    pub price: int,
}

impl View for SaleAggRow {
    type V = SaleAggRowV;

    open spec fn view(&self) -> SaleAggRowV {
        SaleAggRowV {
            product_name: self.product_name@,
            quantity: self.quantity as int,
            price: self.price as int,
        }
    }
}

/// The views of an aggregated-line vector.
pub open spec fn agg_view(v: Seq<SaleAggRow>) -> Seq<SaleAggRowV> {
    Seq::new(v.len(), |i: int| v[i]@)
}

/// An integer clamped into the i64 range.
pub open spec fn clamp_i64(x: int) -> int {
    if x > i64::MAX {
        i64::MAX as int
    } else if x < i64::MIN {
        i64::MIN as int
    } else {
        x
    }
}

/// The total value of aggregated lines: quantity times price, summed left
/// to right, every step saturated at the machine bounds.
pub open spec fn total_value_of(rows: Seq<SaleAggRowV>) -> int
    decreases rows.len(),
{
    if rows.len() == 0 {
        0
    } else {
        clamp_i64(
            total_value_of(rows.drop_last()) + clamp_i64(rows.last().quantity * rows.last().price),
        )
    }
}

/// Multiplies, saturating at the i64 bounds.
fn sat_mul_i64(a: i64, b: i64) -> (r: i64)
    ensures
        r as int == clamp_i64(a as int * b as int),
{
    match a.checked_mul(b) {
        Option::Some(p) => p,
        Option::None => {
            if (a > 0) == (b > 0) {
                proof {
                    assert(a as int * b as int > 0) by (nonlinear_arith)
                        requires
                            (a > 0 && b > 0) || (a < 0 && b < 0),
                    ;
                }
                i64::MAX
            } else {
                proof {
                    assert(a as int * b as int <= 0) by (nonlinear_arith)
                        requires
                            (a <= 0 && b >= 0) || (a >= 0 && b <= 0),
                    ;
                }
                i64::MIN
            }
        },
    }
}

/// Adds, saturating at the i64 bounds.
fn sat_add_i64(a: i64, b: i64) -> (r: i64)
    ensures
        r as int == clamp_i64(a as int + b as int),
{
    match a.checked_add(b) {
        Option::Some(s) => s,
        Option::None => {
            if b > 0 {
                i64::MAX
            } else {
                i64::MIN
            }
        },
    }
}

/// What the history reports for one sale, computed from its aggregated
/// lines: the leading product names — at most three, in the order the
/// lines come, which is by descending quantity — and the total value of
/// all lines.
pub fn summarize_sale_rows(rows: &Vec<SaleAggRow>) -> (r: (Vec<String>, i64))
    ensures
        r.1 as int == total_value_of(agg_view(rows@)),
        r.0@.len() == if rows@.len() < 3 {
            rows@.len() as int
        } else {
            3
        },
        forall|i: int| 0 <= i < r.0@.len() ==> (#[trigger] r.0@[i])@ == rows@[i]@.product_name,
{
    let n = rows.len();
    let mut total: i64 = 0;
    let mut i: usize = 0;
    proof {
        assert(agg_view(rows@).subrange(0, 0) =~= Seq::<SaleAggRowV>::empty());
    }
    while i < n
        invariant
            i <= n,
            n == rows@.len(),
            total as int == total_value_of(agg_view(rows@).subrange(0, i as int)),
        decreases n - i,
    {
        let line = sat_mul_i64(rows[i].quantity, rows[i].price);
        total = sat_add_i64(total, line);
        proof {
            let av = agg_view(rows@);
            assert(av[i as int] == rows@[i as int]@);
            let pre = av.subrange(0, i as int + 1);
            assert(pre.drop_last() =~= av.subrange(0, i as int));
            assert(pre.last() == av[i as int]);
        }
        i = i + 1;
    }
    proof {
        assert(agg_view(rows@).subrange(0, n as int) =~= agg_view(rows@));
    }
    let mut top: Vec<String> = Vec::new();
    let take = if n < 3 {
        n
    } else {
        3
    };
    let mut i: usize = 0;
    while i < take
        invariant
            i <= take,
            take <= n,
            n == rows@.len(),
            top@.len() == i,
            forall|j: int| 0 <= j < i ==> (#[trigger] top@[j])@ == rows@[j]@.product_name,
        decreases take - i,
    {
        top.push(rows[i].product_name.clone());
        i = i + 1;
    }
    (top, total)
}

/// An exact copy of a sale header.
pub fn clone_sales_header(h: &SalesHeader) -> (r: SalesHeader)
    ensures
        r == *h,
{
    SalesHeader { id: h.id.clone(), date: h.date.clone(), note: clone_opt_string(&h.note) }
}

/// An exact copy of a sale item.
pub fn clone_sales_item(it: &SalesItem) -> (r: SalesItem)
    ensures
        r == *it,
{
    SalesItem {
        id: it.id.clone(),
        product_name: it.product_name.clone(),
        quantity: it.quantity,
        expiry: it.expiry.clone(),
    }
}

/// Whether the recorded items restate the given stock changes, line for
/// line: same product, same quantity, same expiry lot.
pub open spec fn sale_items_match(
    items: Seq<SalesItemV>,
    cs: Seq<crate::stock::StockChangeV>,
) -> bool {
    items.len() == cs.len() && forall|i: int|
        0 <= i < cs.len() ==> (#[trigger] items[i]).product_name == cs[i].name && items[i].quantity
            == cs[i].qty && items[i].expiry == cs[i].expiry_date
}

/// The statements that store a sale: the header first, then one insert per
/// item.
pub open spec fn sale_plan(header: SalesHeaderV, items: Seq<SalesItemV>) -> Seq<StatementV> {
    Seq::new(
        1 + items.len(),
        |i: int|
            if i == 0 {
                StatementV::InsertSalesHeader { header }
            } else {
                StatementV::InsertSalesItem { sale_id: header.id, item: items[i - 1] }
            },
    )
}

/// Builds the in-memory record and the statements for one sale. The item
/// identifiers are drawn fresh and are not otherwise constrained.
fn build_sale(sale_id: String, date: String, changes: &Vec<StockChange>, note_text: String) -> (r: (
    SaleRecord,
    Vec<Statement>,
))
    ensures
        r.0@.header.id == sale_id@,
        r.0@.header.date == date@,
        r.0@.header.note == Option::Some(note_text@),
        sale_items_match(r.0@.items, changes_view(changes@)),
        stmts_view(r.1@) == sale_plan(r.0@.header, r.0@.items),
{
    let ghost cs = changes_view(changes@);
    let header = SalesHeader { id: sale_id, date, note: Option::Some(note_text) };
    let mut items: Vec<SalesItem> = Vec::new();
    let mut stmts: Vec<Statement> = Vec::new();
    stmts.push(Statement::InsertSalesHeader { header: clone_sales_header(&header) });
    let n = changes.len();
    let mut i: usize = 0;
    proof {
        assert(stmts_view(stmts@) =~= sale_plan(header@, sale_items_view(items@)));
    }
    while i < n
        invariant
            i <= n,
            n == changes@.len(),
            cs == changes_view(changes@),
            items@.len() == i,
            sale_items_match(sale_items_view(items@), cs.subrange(0, i as int)),
            stmts_view(stmts@) == sale_plan(header@, sale_items_view(items@)),
        decreases n - i,
    {
        let c = &changes[i];
        let item = SalesItem {
            id: fresh_id(),
            product_name: c.name.clone(),
            quantity: c.qty,
            expiry: c.expiry_date.clone(),
        };
        let ghost items_pre = items@;
        let ghost stmts_pre = stmts@;
        stmts.push(Statement::InsertSalesItem { sale_id: header.id.clone(), item: clone_sales_item(&item) });
        items.push(item);
        proof {
            assert(cs[i as int] == changes@[i as int]@);
            assert(stmts_view(stmts_pre).len() == stmts_pre.len());
            assert(sale_plan(header@, sale_items_view(items_pre)).len() == 1 + items_pre.len());
            assert(stmts_pre.len() == 1 + items_pre.len());
            assert(items_pre.len() == i as int);
            assert(items@ == items_pre.push(item));
            assert(stmts@.len() == stmts_pre.len() + 1);
            assert forall|j: int| 0 <= j < i as int + 1 implies (#[trigger] sale_items_view(
                items@,
            )[j]).product_name == cs.subrange(0, i as int + 1)[j].name && sale_items_view(
                items@,
            )[j].quantity == cs.subrange(0, i as int + 1)[j].qty && sale_items_view(
                items@,
            )[j].expiry == cs.subrange(0, i as int + 1)[j].expiry_date by {
                if j < i as int {
                    assert(items@[j] == items_pre[j]);
                    assert(sale_items_view(items_pre)[j] == items_pre[j]@);
                    assert(cs.subrange(0, i as int)[j] == cs[j]);
                }
            }
            assert(sale_items_match(sale_items_view(items@), cs.subrange(0, i as int + 1)));
            assert forall|j: int| 0 <= j < stmts@.len() implies stmts_view(stmts@)[j] == sale_plan(
                header@,
                sale_items_view(items@),
            )[j] by {
                if j < stmts_pre.len() {
                    assert(stmts@[j] == stmts_pre[j]);
                    assert(stmts_view(stmts_pre)[j] == stmts_pre[j]@);
                    if j > 0 {
                        assert(sale_items_view(items_pre)[j - 1] == sale_items_view(items@)[j - 1]);
                    }
                }
            }
            assert(stmts_view(stmts@) =~= sale_plan(header@, sale_items_view(items@)));
        }
        i = i + 1;
    }
    proof {
        assert(cs.subrange(0, n as int) =~= cs);
    }
    (SaleRecord { header, items }, stmts)
}

impl Ledger {
    /// Records a sale under a caller-supplied identifier and date: a new
    /// header and one item per change. Pure bookkeeping — the stock is not
    /// touched. Fails exactly when the identifier is already taken, and
    /// then changes nothing.
    pub fn add_sale_with_id(
        &mut self,
        sale_id: String,
        date: String,
        changes: &Vec<StockChange>,
        note: Option<String>,
    ) -> (r: Result<Vec<Statement>, LedgerError>)
        requires
            old(self).wf(),
        ensures
            final (self).wf(),
            final (self)@.products == old(self)@.products,
            final (self)@.stock == old(self)@.stock,
            final (self)@.loans == old(self)@.loans,
            match r {
                Result::Ok(stmts) => {
                    &&& !has_sale(old(self)@.sales, sale_id@)
                    &&& final (self)@.sales.len() == old(self)@.sales.len() + 1
                    &&& final (self)@.sales == old(self)@.sales.push(final (self)@.sales.last())
                    &&& final (self)@.sales.last().header.id == sale_id@
                    &&& final (self)@.sales.last().header.date == date@
                    &&& final (self)@.sales.last().header.note == Option::Some(
                        match note {
                            Option::None => Seq::<char>::empty(),
                            Option::Some(s) => s@,
                        },
                    )
                    &&& sale_items_match(final (self)@.sales.last().items, changes_view(changes@))
                    &&& stmts_view(stmts@) == sale_plan(
                        final (self)@.sales.last().header,
                        final (self)@.sales.last().items,
                    )
                },
                Result::Err(e) => {
                    &&& final (self)@.sales == old(self)@.sales
                    &&& e@ == (LedgerErrorV::DuplicateId { id: sale_id@ })
                    &&& has_sale(old(self)@.sales, sale_id@)
                },
            },
    {
        if self.find_sale(&sale_id).is_some() {
            return Result::Err(LedgerError::DuplicateId { id: sale_id });
        }
        let note_text = match note {
            Option::Some(s) => s,
            Option::None => String::new(),
        };
        let (rec, stmts) = build_sale(sale_id, date, changes, note_text);
        let ghost sales_pre = self@.sales;
        let ghost recv = rec@;
        self.sales.push(rec);
        proof {
            assert(sales_view(self.sales@) =~= sales_pre.push(recv));
            assert forall|i: int, j: int|
                0 <= i < j < self@.sales.len() implies self@.sales[i].header.id
                != self@.sales[j].header.id by {
                if j < sales_pre.len() {
                    assert(self@.sales[i] == sales_pre[i] && self@.sales[j] == sales_pre[j]);
                } else {
                    assert(self@.sales[i] == sales_pre[i]);
                    assert(self@.sales[j] == recv);
                    if sales_pre[i].header.id == recv.header.id {
                        assert(has_sale(sales_pre, recv.header.id));
                    }
                }
            }
        }
        Result::Ok(stmts)
    }

    /// Records a sale of the given stock decreases under a fresh identifier
    /// and today's date. Pure bookkeeping — the stock is not touched. The
    /// identifier is random: if it happens to collide with a recorded sale,
    /// the call fails and changes nothing.
    pub fn add_sale(&mut self, changes: &Vec<StockChange>, note: Option<String>) -> (r: Result<
        Vec<Statement>,
        LedgerError,
    >)
        requires
            old(self).wf(),
        ensures
            final (self).wf(),
            final (self)@.products == old(self)@.products,
            final (self)@.stock == old(self)@.stock,
            final (self)@.loans == old(self)@.loans,
            match r {
                Result::Ok(stmts) => {
                    &&& final (self)@.sales.len() == old(self)@.sales.len() + 1
                    &&& final (self)@.sales == old(self)@.sales.push(final (self)@.sales.last())
                    &&& !has_sale(old(self)@.sales, final (self)@.sales.last().header.id)
                    &&& final (self)@.sales.last().header.note == Option::Some(
                        match note {
                            Option::None => Seq::<char>::empty(),
                            Option::Some(s) => s@,
                        },
                    )
                    &&& sale_items_match(final (self)@.sales.last().items, changes_view(changes@))
                    &&& stmts_view(stmts@) == sale_plan(
                        final (self)@.sales.last().header,
                        final (self)@.sales.last().items,
                    )
                },
                Result::Err(e) => {
                    &&& final (self)@.sales == old(self)@.sales
                    &&& e@ matches LedgerErrorV::DuplicateId { id } && has_sale(
                        old(self)@.sales,
                        id,
                    )
                },
            },
    {
        let id = fresh_id();
        let date = today_string();
        self.add_sale_with_id(id, date, changes, note)
    }

    /// Deletes a sale and its items. The statements delete the items
    /// before the header, so no orphaned item can survive; a missing
    /// identifier deletes nothing and is not an error. No stock
    /// adjustment is reversed.
    pub fn delete_sale(&mut self, sale_id: &String) -> (r: Vec<Statement>)
        requires
            old(self).wf(),
        ensures
            final (self).wf(),
            final (self)@.products == old(self)@.products,
            final (self)@.stock == old(self)@.stock,
            final (self)@.loans == old(self)@.loans,
            final (self)@.sales == crate::ledger::remove_sale(old(self)@.sales, sale_id@),
            !has_sale(final (self)@.sales, sale_id@),
            stmts_view(r@) == seq![
                StatementV::DeleteSalesItems { sale_id: sale_id@ },
                StatementV::DeleteSalesHeader { sale_id: sale_id@ },
            ],
    {
        proof {
            crate::ledger::lemma_remove_sale(old(self)@.sales, sale_id@);
        }
        let ghost ss0 = self@.sales;
        match self.find_sale(sale_id) {
            Option::Some(k) => {
                proof {
                    let k2 = crate::ledger::sale_idx(ss0, sale_id@);
                    assert(0 <= k2 < ss0.len() && ss0[k2].header.id == sale_id@);
                    if k2 != k as int {
                        assert(ss0[k2].header.id == ss0[k as int].header.id);
                    }
                    ss0.remove_ensures(k as int);
                }
                self.sales.remove(k);
                proof {
                    assert(sales_view(self.sales@) =~= ss0.remove(
                        crate::ledger::sale_idx(ss0, sale_id@),
                    ));
                }
            },
            Option::None => {},
        }
        let mut stmts: Vec<Statement> = Vec::new();
        stmts.push(Statement::DeleteSalesItems { sale_id: sale_id.clone() });
        stmts.push(Statement::DeleteSalesHeader { sale_id: sale_id.clone() });
        proof {
            assert(stmts_view(stmts@) =~= seq![
                StatementV::DeleteSalesItems { sale_id: sale_id@ },
                StatementV::DeleteSalesHeader { sale_id: sale_id@ },
            ]);
        }
        stmts
    }
}

/// The first sale item naming a product that does not exist, as its error.
pub open spec fn first_missing_sale_product(ps: Seq<ProductV>, items: Seq<SalesItemV>) -> Option<
    LedgerErrorV,
>
    decreases items.len(),
{
    if items.len() == 0 {
        Option::None
    } else if !has_product(ps, items[0].product_name) {
        Option::Some(LedgerErrorV::MissingProduct { name: items[0].product_name })
    } else {
        first_missing_sale_product(ps, items.drop_first())
    }
}

/// The stored form of a sale header: the note normalized, everything else
/// as given.
pub open spec fn normalize_sales_header(h: SalesHeaderV) -> SalesHeaderV {
    SalesHeaderV { id: h.id, date: h.date, note: norm_text(h.note) }
}

/// The sales after a replacement, or the error: every product is
/// re-validated; an existing record is overwritten wholesale; a missing
/// record with no items is a harmless no-op, with items it is an error.
pub open spec fn update_sale_check(
    l: crate::ledger::LedgerV,
    header: SalesHeaderV,
    items: Seq<SalesItemV>,
) -> Result<Seq<SaleRecordV>, LedgerErrorV> {
    if first_missing_sale_product(l.products, items) is Some {
        Result::Err(first_missing_sale_product(l.products, items)->Some_0)
    } else if has_sale(l.sales, header.id) {
        Result::Ok(
            l.sales.update(
                crate::ledger::sale_idx(l.sales, header.id),
                SaleRecordV { header: normalize_sales_header(header), items },
            ),
        )
    } else if items.len() == 0 {
        Result::Ok(l.sales)
    } else {
        Result::Err(LedgerErrorV::MissingSale { id: header.id })
    }
}

/// One insert per item, under the header's identifier.
pub open spec fn sales_items_plan(sale_id: Seq<char>, items: Seq<SalesItemV>) -> Seq<StatementV> {
    Seq::new(items.len(), |i: int| StatementV::InsertSalesItem { sale_id, item: items[i] })
}

/// The plan of a replacement: overwrite the header, delete the old items,
/// insert the new ones.
pub open spec fn update_sale_plan(header: SalesHeaderV, items: Seq<SalesItemV>) -> Seq<
    StatementV,
> {
    seq![
        StatementV::UpdateSalesHeader { header },
        StatementV::DeleteSalesItems { sale_id: header.id },
    ] + sales_items_plan(header.id, items)
}

impl Ledger {
    /// Replaces a sale: re-validates the products, then overwrites the
    /// header row and replaces the whole item set. The stock is not
    /// touched.
    pub fn update_sale(&mut self, header: SalesHeader, items: Vec<SalesItem>) -> (r: Result<
        Vec<Statement>,
        LedgerError,
    >)
        requires
            old(self).wf(),
        ensures
            final (self).wf(),
            final (self)@.products == old(self)@.products,
            final (self)@.stock == old(self)@.stock,
            final (self)@.loans == old(self)@.loans,
            match r {
                Result::Ok(stmts) => update_sale_check(old(self)@, header@, sale_items_view(items@))
                    == Result::<Seq<SaleRecordV>, LedgerErrorV>::Ok(final (self)@.sales)
                    && stmts_view(stmts@) == update_sale_plan(
                    normalize_sales_header(header@),
                    sale_items_view(items@),
                ),
                Result::Err(e) => final (self)@.sales == old(self)@.sales && update_sale_check(
                    old(self)@,
                    header@,
                    sale_items_view(items@),
                ) == Result::<Seq<SaleRecordV>, LedgerErrorV>::Err(e@),
            },
    {
        let ghost l0 = self@;
        let ghost itemsv = sale_items_view(items@);
        let ghost hv = header@;
        let n = items.len();
        let mut i: usize = 0;
        proof {
            assert(itemsv.skip(0) =~= itemsv);
        }
        while i < n
            invariant
                i <= n,
                n == items@.len(),
                itemsv == sale_items_view(items@),
                *self == *old(self),
                l0 == old(self)@,
                old(self).wf(),
                hv == header@,
                first_missing_sale_product(l0.products, itemsv) == first_missing_sale_product(
                    l0.products,
                    itemsv.skip(i as int),
                ),
            decreases n - i,
        {
            proof {
                assert(itemsv.skip(i as int)[0] == itemsv[i as int]);
                assert(itemsv[i as int] == items@[i as int]@);
                assert(itemsv.skip(i as int).drop_first() =~= itemsv.skip(i as int + 1));
            }
            let it = &items[i];
            if !self.product_exists(&it.product_name) {
                return Result::Err(LedgerError::MissingProduct { name: it.product_name.clone() });
            }
            i = i + 1;
        }
        proof {
            assert(itemsv.skip(n as int) =~= Seq::<SalesItemV>::empty());
            assert(first_missing_sale_product(l0.products, itemsv) is None);
        }
        let found = self.find_sale(&header.id);
        if found.is_none() && items.len() > 0 {
            return Result::Err(LedgerError::MissingSale { id: header.id });
        }
        let norm_note = crate::text::normalize_opt_text(&header.note);
        let stored_header = SalesHeader { id: header.id, date: header.date, note: norm_note };
        proof {
            assert(stored_header@ == normalize_sales_header(hv));
        }
        let mut stmts: Vec<Statement> = Vec::new();
        stmts.push(Statement::UpdateSalesHeader { header: clone_sales_header(&stored_header) });
        stmts.push(Statement::DeleteSalesItems { sale_id: stored_header.id.clone() });
        let mut i: usize = 0;
        proof {
            assert(stmts_view(stmts@) =~= seq![
                StatementV::UpdateSalesHeader { header: normalize_sales_header(hv) },
                StatementV::DeleteSalesItems { sale_id: hv.id },
            ] + sales_items_plan(hv.id, itemsv.subrange(0, 0)));
        }
        while i < n
            invariant
                i <= n,
                n == items@.len(),
                itemsv == sale_items_view(items@),
                stored_header@ == normalize_sales_header(hv),
                stmts_view(stmts@) == seq![
                    StatementV::UpdateSalesHeader { header: normalize_sales_header(hv) },
                    StatementV::DeleteSalesItems { sale_id: hv.id },
                ] + sales_items_plan(hv.id, itemsv.subrange(0, i as int)),
            decreases n - i,
        {
            let ghost spre = stmts@;
            stmts.push(
                Statement::InsertSalesItem {
                    sale_id: stored_header.id.clone(),
                    item: clone_sales_item(&items[i]),
                },
            );
            proof {
                assert(itemsv[i as int] == items@[i as int]@);
                let full = seq![
                    StatementV::UpdateSalesHeader { header: normalize_sales_header(hv) },
                    StatementV::DeleteSalesItems { sale_id: hv.id },
                ] + sales_items_plan(hv.id, itemsv.subrange(0, i as int + 1));
                assert(stmts_view(spre).len() == spre.len());
                assert(spre.len() == 2 + i as int);
                assert forall|j: int| 0 <= j < stmts@.len() implies stmts_view(stmts@)[j]
                    == full[j] by {
                    if j < spre.len() {
                        assert(stmts@[j] == spre[j]);
                        assert(stmts_view(spre)[j] == spre[j]@);
                        if j > 1 {
                            assert(itemsv.subrange(0, i as int)[j - 2] == itemsv[j - 2]);
                            assert(itemsv.subrange(0, i as int + 1)[j - 2] == itemsv[j - 2]);
                        }
                    } else {
                        assert(itemsv.subrange(0, i as int + 1)[j - 2] == itemsv[j - 2]);
                    }
                }
                assert(stmts_view(stmts@) =~= full);
            }
            i = i + 1;
        }
        proof {
            assert(itemsv.subrange(0, n as int) =~= itemsv);
        }
        match found {
            Option::Some(k) => {
                proof {
                    let k2 = crate::ledger::sale_idx(l0.sales, hv.id);
                    assert(0 <= k2 < l0.sales.len() && l0.sales[k2].header.id == hv.id);
                    if k2 != k as int {
                        assert(l0.sales[k2].header.id == l0.sales[k as int].header.id);
                    }
                }
                let rec = SaleRecord { header: stored_header, items };
                let ghost recv = rec@;
                self.sales[k] = rec;
                proof {
                    assert(sales_view(self.sales@) =~= l0.sales.update(
                        crate::ledger::sale_idx(l0.sales, hv.id),
                        recv,
                    ));
                    assert(recv == (SaleRecordV {
                        header: normalize_sales_header(hv),
                        items: itemsv,
                    }));
                    assert forall|a: int, b: int|
                        0 <= a < b < self@.sales.len() implies self@.sales[a].header.id
                        != self@.sales[b].header.id by {
                        assert(self@.sales[a].header.id == l0.sales[a].header.id);
                        assert(self@.sales[b].header.id == l0.sales[b].header.id);
                    }
                }
            },
            Option::None => {},
        }
        Result::Ok(stmts)
    }
}

} // verus!
