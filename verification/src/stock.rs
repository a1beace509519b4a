//! Stock movements: the change rows the entry points take, the lot shape
//! the stock views report, and the three lot mutations — add, remove, set —
//! each applied to a whole batch atomically.

use vstd::prelude::*;

use crate::error::{LedgerError, LedgerErrorV};
use crate::gateway::{stmts_view, Statement, StatementV};
use crate::ledger::{
    clone_lots, find_lot_in, has_lot, has_product, has_sale, lot_idx, lot_matches, lot_qty,
    lots_view, qty_in, remove_lot, set_lot, lemma_remove_lot, lemma_set_lot, lot_keys_unique,
    stock_positive, stock_refs_products, Ledger, LotRow, LotV,
};
use crate::product::ProductV;
use crate::sales::{sale_items_match, sale_plan};

verus! {

/// One requested movement: a quantity to add to or remove from the
/// (product, expiry) lot.
#[derive(Debug, Clone, PartialEq)]
pub struct StockChange {
    pub name: String,
    pub expiry_date: String,
    pub qty: i64,
}

/// The mathematical value of a [`StockChange`].
pub struct StockChangeV {
    pub name: Seq<char>,
    pub expiry_date: Seq<char>,
    pub qty: int,
}

impl View for StockChange {
    type V = StockChangeV;

    open spec fn view(&self) -> StockChangeV {
        StockChangeV { name: self.name@, expiry_date: self.expiry_date@, qty: self.qty as int }
    }
}

/// What the per-product lot view reports: one expiry lot and its quantity.
#[derive(Debug, Clone, PartialEq)]
pub struct StockLot {
    pub expiry_date: String,
    pub qty: i64,
}

/// The views of a change vector.
pub open spec fn changes_view(v: Seq<StockChange>) -> Seq<StockChangeV> {
    Seq::new(v.len(), |i: int| v[i]@)
}

// ---------------------------------------------------------------------------
// What each batch does to the stock, one change at a time.
// ---------------------------------------------------------------------------
/// The stock after a batch of additions, or the first error: a change must
/// carry a positive quantity, name an existing product, and not push the
/// lot past the machine limit; it then adds onto the (name, expiry) lot.
pub open spec fn apply_add_stock(
    st: Seq<LotV>,
    ps: Seq<ProductV>,
    cs: Seq<StockChangeV>,
) -> Result<Seq<LotV>, LedgerErrorV>
    decreases cs.len(),
{
    if cs.len() == 0 {
        Result::Ok(st)
    } else {
        let c = cs[0];
        if c.qty <= 0 {
            Result::Err(LedgerErrorV::NonPositiveQuantity { name: c.name, qty: c.qty })
        } else if !has_product(ps, c.name) {
            Result::Err(LedgerErrorV::MissingProduct { name: c.name })
        } else if lot_qty(st, c.name, c.expiry_date) + c.qty > i64::MAX {
            Result::Err(LedgerErrorV::QuantityOverflow { name: c.name, expiry: c.expiry_date })
        } else {
            apply_add_stock(
                set_lot(st, c.name, c.expiry_date, lot_qty(st, c.name, c.expiry_date) + c.qty),
                ps,
                cs.drop_first(),
            )
        }
    }
}

/// The stock after a batch of removals, or the first error: a change must
/// carry a positive quantity and not exceed what the lot holds; it then
/// decrements the lot, deleting it when it reaches zero.
pub open spec fn apply_remove_stock(st: Seq<LotV>, cs: Seq<StockChangeV>) -> Result<
    Seq<LotV>,
    LedgerErrorV,
>
    decreases cs.len(),
{
    if cs.len() == 0 {
        Result::Ok(st)
    } else {
        let c = cs[0];
        let avail = lot_qty(st, c.name, c.expiry_date);
        if c.qty <= 0 {
            Result::Err(LedgerErrorV::NonPositiveQuantity { name: c.name, qty: c.qty })
        } else if avail <= 0 {
            Result::Err(LedgerErrorV::NoStock { name: c.name, expiry: c.expiry_date })
        } else if c.qty > avail {
            Result::Err(
                LedgerErrorV::InsufficientStock {
                    name: c.name,
                    expiry: c.expiry_date,
                    available: avail,
                    requested: c.qty,
                },
            )
        } else {
            let st2 = if avail - c.qty > 0 {
                set_lot(st, c.name, c.expiry_date, avail - c.qty)
            } else {
                remove_lot(st, c.name, c.expiry_date)
            };
            apply_remove_stock(st2, cs.drop_first())
        }
    }
}

/// The stock after one lot is set to an exact quantity, or the error: a
/// negative quantity is rejected, zero deletes the lot, and a positive
/// quantity overwrites (or creates) the lot of an existing product.
pub open spec fn apply_edit_stock(
    st: Seq<LotV>,
    ps: Seq<ProductV>,
    name: Seq<char>,
    expiry: Seq<char>,
    q: int,
) -> Result<Seq<LotV>, LedgerErrorV> {
    if q < 0 {
        Result::Err(LedgerErrorV::NegativeQuantity)
    } else if q == 0 {
        Result::Ok(remove_lot(st, name, expiry))
    } else if !has_product(ps, name) {
        Result::Err(LedgerErrorV::MissingProduct { name })
    } else {
        Result::Ok(set_lot(st, name, expiry, q))
    }
}

// ---------------------------------------------------------------------------
// The statements each batch hands to the gateway.
// ---------------------------------------------------------------------------
/// One insert-or-add upsert per change.
pub open spec fn add_stock_plan(cs: Seq<StockChangeV>) -> Seq<StatementV> {
    Seq::new(
        cs.len(),
        |i: int|
            StatementV::UpsertLotAdd {
                name: cs[i].name,
                expiry: cs[i].expiry_date,
                delta: cs[i].qty,
            },
    )
}

/// Per change, a negative upsert followed by the delete of a drained lot.
pub open spec fn remove_stock_plan(cs: Seq<StockChangeV>) -> Seq<StatementV> {
    Seq::new(
        2 * cs.len(),
        |i: int|
            if i % 2 == 0 {
                StatementV::UpsertLotAdd {
                    name: cs[i / 2].name,
                    expiry: cs[i / 2].expiry_date,
                    delta: -cs[i / 2].qty,
                }
            } else {
                StatementV::DeleteLotIfEmpty { name: cs[i / 2].name, expiry: cs[i / 2].expiry_date }
            },
    )
}

/// A delete for quantity zero, an exact upsert otherwise.
pub open spec fn edit_stock_plan(name: Seq<char>, expiry: Seq<char>, q: int) -> Seq<StatementV> {
    if q == 0 {
        seq![StatementV::DeleteLot { name, expiry }]
    } else {
        seq![StatementV::UpsertLotSet { name, expiry, qty: q }]
    }
}

impl Ledger {
    /// Adds a batch of stock movements: each change increments its
    /// (name, expiry) lot, creating it if absent. The whole batch applies
    /// atomically — any rejected change leaves the ledger untouched.
    pub fn add_stock(&mut self, changes: &Vec<StockChange>) -> (r: Result<
        Vec<Statement>,
        LedgerError,
    >)
        requires
            old(self).wf(),
        ensures
            final (self).wf(),
            final (self)@.products == old(self)@.products,
            final (self)@.loans == old(self)@.loans,
            final (self)@.sales == old(self)@.sales,
            match r {
                Result::Ok(stmts) => apply_add_stock(
                    old(self)@.stock,
                    old(self)@.products,
                    changes_view(changes@),
                ) == Result::<Seq<LotV>, LedgerErrorV>::Ok(final (self)@.stock) && stmts_view(
                    stmts@,
                ) == add_stock_plan(changes_view(changes@)),
                Result::Err(e) => final (self)@.stock == old(self)@.stock && apply_add_stock(
                    old(self)@.stock,
                    old(self)@.products,
                    changes_view(changes@),
                ) == Result::<Seq<LotV>, LedgerErrorV>::Err(e@),
            },
    {
        let ghost cs = changes_view(changes@);
        let mut st = clone_lots(&self.stock);
        let mut stmts: Vec<Statement> = Vec::new();
        let n = changes.len();
        let mut i: usize = 0;
        proof {
            assert(cs.skip(0) =~= cs);
            assert(stmts_view(stmts@) =~= add_stock_plan(cs.subrange(0, 0)));
        }
        while i < n
            invariant
                i <= n,
                n == changes@.len(),
                cs == changes_view(changes@),
                *self == *old(self),
                old(self).wf(),
                lot_keys_unique(lots_view(st@)),
                stock_positive(lots_view(st@)),
                stock_refs_products(lots_view(st@), old(self)@.products),
                apply_add_stock(old(self)@.stock, old(self)@.products, cs) == apply_add_stock(
                    lots_view(st@),
                    old(self)@.products,
                    cs.skip(i as int),
                ),
                stmts_view(stmts@) == add_stock_plan(cs.subrange(0, i as int)),
            decreases n - i,
        {
            let c = &changes[i];
            proof {
                assert(cs.skip(i as int)[0] == cs[i as int]);
                assert(cs[i as int] == changes@[i as int]@);
                assert(cs.skip(i as int).drop_first() =~= cs.skip(i as int + 1));
            }
            if c.qty <= 0 {
                return Result::Err(
                    LedgerError::NonPositiveQuantity { name: c.name.clone(), qty: c.qty },
                );
            }
            if !self.product_exists(&c.name) {
                return Result::Err(LedgerError::MissingProduct { name: c.name.clone() });
            }
            let cur = qty_in(&st, &c.name, &c.expiry_date);
            proof {
                crate::ledger::lemma_lot_qty_nonneg(lots_view(st@), c.name@, c.expiry_date@);
            }
            if cur > i64::MAX - c.qty {
                return Result::Err(
                    LedgerError::QuantityOverflow {
                        name: c.name.clone(),
                        expiry: c.expiry_date.clone(),
                    },
                );
            }
            let newq = cur + c.qty;
            let ghost stv = lots_view(st@);
            proof {
                lemma_set_lot(stv, c.name@, c.expiry_date@, newq as int);
            }
            let row = LotRow { name: c.name.clone(), expiry: c.expiry_date.clone(), qty: newq };
            match find_lot_in(&st, &c.name, &c.expiry_date) {
                Option::Some(k) => {
                    proof {
                        let k2 = lot_idx(stv, c.name@, c.expiry_date@);
                        assert(0 <= k2 < stv.len() && lot_matches(stv[k2], c.name@, c.expiry_date@));
                        if k2 != k as int {
                            assert(stv[k2].name == stv[k as int].name && stv[k2].expiry
                                == stv[k as int].expiry);
                        }
                    }
                    st[k] = row;
                    proof {
                        assert(lots_view(st@) =~= stv.update(
                            lot_idx(stv, c.name@, c.expiry_date@),
                            row@,
                        ));
                    }
                },
                Option::None => {
                    st.push(row);
                    proof {
                        assert(lots_view(st@) =~= stv.push(row@));
                    }
                },
            }
            proof {
                let newst = lots_view(st@);
                assert(row@ == (LotV { name: c.name@, expiry: c.expiry_date@, qty: newq as int }));
                assert(newst == set_lot(stv, c.name@, c.expiry_date@, newq as int));
                assert forall|j: int| 0 <= j < newst.len() implies newst[j].qty > 0 by {
                    if newst[j] != row@ {
                        assert(stv.contains(newst[j]));
                        let w = choose|w: int| 0 <= w < stv.len() && stv[w] == newst[j];
                        assert(stv[w].qty > 0);
                    }
                }
                assert forall|j: int| 0 <= j < newst.len() implies has_product(
                    old(self)@.products,
                    newst[j].name,
                ) by {
                    if newst[j] != row@ {
                        assert(stv.contains(newst[j]));
                        let w = choose|w: int| 0 <= w < stv.len() && stv[w] == newst[j];
                        assert(has_product(old(self)@.products, stv[w].name));
                    }
                }
                assert(apply_add_stock(stv, old(self)@.products, cs.skip(i as int))
                    == apply_add_stock(newst, old(self)@.products, cs.skip(i as int + 1)));
            }
            let stmt = Statement::UpsertLotAdd {
                name: c.name.clone(),
                expiry: c.expiry_date.clone(),
                delta: c.qty,
            };
            let ghost stmts_pre = stmts@;
            stmts.push(stmt);
            proof {
                let full = add_stock_plan(cs.subrange(0, i as int + 1));
                assert(stmts_view(stmts_pre).len() == stmts_pre.len());
                assert(add_stock_plan(cs.subrange(0, i as int)).len() == i as int);
                assert(stmts_pre.len() == i as int);
                assert(stmts@ == stmts_pre.push(stmt));
                assert forall|j: int| 0 <= j < stmts@.len() implies stmts_view(stmts@)[j]
                    == full[j] by {
                    assert(cs.subrange(0, i as int + 1)[j] == cs[j]);
                    if j < i as int {
                        assert(stmts@[j] == stmts_pre[j]);
                        assert(stmts_view(stmts_pre)[j] == stmts_pre[j]@);
                        assert(cs.subrange(0, i as int)[j] == cs[j]);
                    }
                }
                assert(stmts_view(stmts@) =~= full);
            }
            i = i + 1;
        }
        proof {
            assert(cs.skip(n as int) =~= Seq::<StockChangeV>::empty());
            assert(cs.subrange(0, n as int) =~= cs);
        }
        self.stock = st;
        Result::Ok(stmts)
    }

    /// Removes a batch of stock movements: each change decrements its
    /// (name, expiry) lot, deleting a lot driven to zero. A change that
    /// asks for more than the lot holds is rejected, and the whole batch
    /// applies atomically — any rejected change leaves the ledger
    /// untouched. With `mark_as_sale`, the removed quantities are also
    /// recorded as a sale under a fresh identifier and today's date.
    pub fn remove_stock(&mut self, changes: &Vec<StockChange>, mark_as_sale: bool) -> (r: Result<
        Vec<Statement>,
        LedgerError,
    >)
        requires
            old(self).wf(),
        ensures
            final (self).wf(),
            final (self)@.products == old(self)@.products,
            final (self)@.loans == old(self)@.loans,
            match r {
                Result::Ok(stmts) => {
                    &&& apply_remove_stock(old(self)@.stock, changes_view(changes@))
                        == Result::<Seq<LotV>, LedgerErrorV>::Ok(final (self)@.stock)
                    &&& (mark_as_sale ==> {
                        &&& final (self)@.sales.len() == old(self)@.sales.len() + 1
                        &&& final (self)@.sales == old(self)@.sales.push(final (self)@.sales.last())
                        &&& !has_sale(old(self)@.sales, final (self)@.sales.last().header.id)
                        &&& final (self)@.sales.last().header.note == Option::Some(
                            Seq::<char>::empty(),
                        )
                        &&& sale_items_match(
                            final (self)@.sales.last().items,
                            changes_view(changes@),
                        )
                        &&& stmts_view(stmts@) == remove_stock_plan(changes_view(changes@))
                            + sale_plan(
                            final (self)@.sales.last().header,
                            final (self)@.sales.last().items,
                        )
                    })
                    &&& (!mark_as_sale ==> final (self)@.sales == old(self)@.sales && stmts_view(
                        stmts@,
                    ) == remove_stock_plan(changes_view(changes@)))
                },
                Result::Err(e) => {
                    &&& final (self)@.stock == old(self)@.stock
                    &&& final (self)@.sales == old(self)@.sales
                    &&& (apply_remove_stock(old(self)@.stock, changes_view(changes@))
                        == Result::<Seq<LotV>, LedgerErrorV>::Err(e@) || (mark_as_sale
                        && apply_remove_stock(old(self)@.stock, changes_view(changes@)) is Ok && (e@
                        matches LedgerErrorV::DuplicateId { id } && has_sale(
                        old(self)@.sales,
                        id,
                    ))))
                },
            },
    {
        let ghost cs = changes_view(changes@);
        let mut st = clone_lots(&self.stock);
        let mut stmts: Vec<Statement> = Vec::new();
        let n = changes.len();
        let mut i: usize = 0;
        proof {
            assert(cs.skip(0) =~= cs);
            assert(stmts_view(stmts@) =~= remove_stock_plan(cs.subrange(0, 0)));
        }
        while i < n
            invariant
                i <= n,
                n == changes@.len(),
                cs == changes_view(changes@),
                *self == *old(self),
                old(self).wf(),
                lot_keys_unique(lots_view(st@)),
                stock_positive(lots_view(st@)),
                stock_refs_products(lots_view(st@), old(self)@.products),
                apply_remove_stock(old(self)@.stock, cs) == apply_remove_stock(
                    lots_view(st@),
                    cs.skip(i as int),
                ),
                stmts_view(stmts@) == remove_stock_plan(cs.subrange(0, i as int)),
            decreases n - i,
        {
            let c = &changes[i];
            proof {
                assert(cs.skip(i as int)[0] == cs[i as int]);
                assert(cs[i as int] == changes@[i as int]@);
                assert(cs.skip(i as int).drop_first() =~= cs.skip(i as int + 1));
            }
            if c.qty <= 0 {
                return Result::Err(
                    LedgerError::NonPositiveQuantity { name: c.name.clone(), qty: c.qty },
                );
            }
            let avail = qty_in(&st, &c.name, &c.expiry_date);
            if avail <= 0 {
                return Result::Err(
                    LedgerError::NoStock { name: c.name.clone(), expiry: c.expiry_date.clone() },
                );
            }
            if c.qty > avail {
                return Result::Err(
                    LedgerError::InsufficientStock {
                        name: c.name.clone(),
                        expiry: c.expiry_date.clone(),
                        available: avail,
                        requested: c.qty,
                    },
                );
            }
            let newq = avail - c.qty;
            let ghost stv = lots_view(st@);
            proof {
                assert(has_lot(stv, c.name@, c.expiry_date@));
            }
            let k = find_lot_in(&st, &c.name, &c.expiry_date).unwrap();
            proof {
                let k2 = lot_idx(stv, c.name@, c.expiry_date@);
                assert(0 <= k2 < stv.len() && lot_matches(stv[k2], c.name@, c.expiry_date@));
                if k2 != k as int {
                    assert(stv[k2].name == stv[k as int].name && stv[k2].expiry
                        == stv[k as int].expiry);
                }
            }
            if newq > 0 {
                proof {
                    lemma_set_lot(stv, c.name@, c.expiry_date@, newq as int);
                }
                let row = LotRow { name: c.name.clone(), expiry: c.expiry_date.clone(), qty: newq };
                st[k] = row;
                proof {
                    let newst = lots_view(st@);
                    assert(newst =~= stv.update(lot_idx(stv, c.name@, c.expiry_date@), row@));
                    assert(newst == set_lot(stv, c.name@, c.expiry_date@, newq as int));
                    assert forall|j: int| 0 <= j < newst.len() implies newst[j].qty > 0 by {
                        if newst[j] != row@ {
                            assert(stv.contains(newst[j]));
                            let w = choose|w: int| 0 <= w < stv.len() && stv[w] == newst[j];
                            assert(stv[w].qty > 0);
                        }
                    }
                    assert forall|j: int| 0 <= j < newst.len() implies has_product(
                        old(self)@.products,
                        newst[j].name,
                    ) by {
                        if newst[j] == row@ {
                            assert(row@.name == stv[k as int].name);
                            assert(has_product(old(self)@.products, stv[k as int].name));
                        } else {
                            assert(stv.contains(newst[j]));
                            let w = choose|w: int| 0 <= w < stv.len() && stv[w] == newst[j];
                            assert(has_product(old(self)@.products, stv[w].name));
                        }
                    }
                }
            } else {
                proof {
                    lemma_remove_lot(stv, c.name@, c.expiry_date@);
                    stv.remove_ensures(k as int);
                }
                st.remove(k);
                proof {
                    let newst = lots_view(st@);
                    assert(newst =~= stv.remove(lot_idx(stv, c.name@, c.expiry_date@)));
                    assert(newst == remove_lot(stv, c.name@, c.expiry_date@));
                    assert forall|j: int| 0 <= j < newst.len() implies newst[j].qty > 0
                        && has_product(old(self)@.products, newst[j].name) by {
                        assert(stv.contains(newst[j]));
                        let w = choose|w: int| 0 <= w < stv.len() && stv[w] == newst[j];
                        assert(stv[w].qty > 0);
                        assert(has_product(old(self)@.products, stv[w].name));
                    }
                }
            }
            proof {
                assert(apply_remove_stock(stv, cs.skip(i as int)) == apply_remove_stock(
                    lots_view(st@),
                    cs.skip(i as int + 1),
                ));
            }
            let s1 = Statement::UpsertLotAdd {
                name: c.name.clone(),
                expiry: c.expiry_date.clone(),
                delta: -c.qty,
            };
            let s2 = Statement::DeleteLotIfEmpty {
                name: c.name.clone(),
                expiry: c.expiry_date.clone(),
            };
            let ghost stmts_pre = stmts@;
            stmts.push(s1);
            stmts.push(s2);
            proof {
                assert(stmts_view(stmts_pre).len() == stmts_pre.len());
                assert(remove_stock_plan(cs.subrange(0, i as int)).len() == 2 * i);
                assert(stmts_pre.len() == 2 * i);
                let full = remove_stock_plan(cs.subrange(0, i as int + 1));
                assert(full.len() == 2 * (i as int + 1));
                assert forall|j: int| 0 <= j < stmts@.len() implies stmts_view(stmts@)[j]
                    == full[j] by {
                    assert(0 <= j / 2 <= i as int);
                    assert(cs.subrange(0, i as int + 1)[j / 2] == cs[j / 2]);
                    if j < 2 * i {
                        assert(0 <= j / 2 < i as int);
                        assert(stmts@[j] == stmts_pre[j]);
                        assert(stmts_view(stmts_pre)[j] == stmts_pre[j]@);
                        assert(cs.subrange(0, i as int)[j / 2] == cs[j / 2]);
                    } else if j == 2 * i {
                        assert(stmts@[j] == s1);
                        assert(j / 2 == i as int && j % 2 == 0);
                    } else {
                        assert(j == 2 * i + 1);
                        assert(stmts@[j] == s2);
                        assert(j / 2 == i as int && j % 2 == 1);
                    }
                }
                assert(stmts_view(stmts@) =~= full);
            }
            i = i + 1;
        }
        proof {
            assert(cs.skip(n as int) =~= Seq::<StockChangeV>::empty());
            assert(cs.subrange(0, n as int) =~= cs);
        }
        if mark_as_sale {
            let mut sale_stmts = match self.add_sale(changes, Option::None) {
                Result::Ok(s) => s,
                Result::Err(e) => {
                    return Result::Err(e);
                },
            };
            self.stock = st;
            let ghost stmts_pre = stmts@;
            let ghost sale_pre = sale_stmts@;
            stmts.append(&mut sale_stmts);
            proof {
                assert(stmts@ == stmts_pre + sale_pre);
                let lhs = stmts_view(stmts@);
                let rhs = stmts_view(stmts_pre) + stmts_view(sale_pre);
                assert forall|j: int| 0 <= j < lhs.len() implies lhs[j] == rhs[j] by {
                    if j < stmts_pre.len() {
                        assert(stmts@[j] == stmts_pre[j]);
                        assert(stmts_view(stmts_pre)[j] == stmts_pre[j]@);
                    } else {
                        assert(stmts@[j] == sale_pre[j - stmts_pre.len()]);
                        assert(stmts_view(sale_pre)[j - stmts_pre.len()] == sale_pre[j
                            - stmts_pre.len()]@);
                    }
                }
                assert(stmts_view(stmts@) =~= rhs);
            }
            Result::Ok(stmts)
        } else {
            self.stock = st;
            Result::Ok(stmts)
        }
    }

    /// Sets one (name, expiry) lot to an exact quantity: a negative value
    /// is rejected, zero deletes the lot, a positive value overwrites or
    /// creates it (the product must then exist).
    pub fn edit_stock(&mut self, name: &String, expiry_date: &String, quantity: i64) -> (r: Result<
        Vec<Statement>,
        LedgerError,
    >)
        requires
            old(self).wf(),
        ensures
            final (self).wf(),
            final (self)@.products == old(self)@.products,
            final (self)@.loans == old(self)@.loans,
            final (self)@.sales == old(self)@.sales,
            match r {
                Result::Ok(stmts) => apply_edit_stock(
                    old(self)@.stock,
                    old(self)@.products,
                    name@,
                    expiry_date@,
                    quantity as int,
                ) == Result::<Seq<LotV>, LedgerErrorV>::Ok(final (self)@.stock) && stmts_view(
                    stmts@,
                ) == edit_stock_plan(name@, expiry_date@, quantity as int),
                Result::Err(e) => final (self)@.stock == old(self)@.stock && apply_edit_stock(
                    old(self)@.stock,
                    old(self)@.products,
                    name@,
                    expiry_date@,
                    quantity as int,
                ) == Result::<Seq<LotV>, LedgerErrorV>::Err(e@),
            },
    {
        if quantity < 0 {
            return Result::Err(LedgerError::NegativeQuantity);
        }
        let ghost stv = self@.stock;
        let mut stmts: Vec<Statement> = Vec::new();
        if quantity == 0 {
            proof {
                lemma_remove_lot(stv, name@, expiry_date@);
            }
            match find_lot_in(&self.stock, name, expiry_date) {
                Option::Some(k) => {
                    proof {
                        let k2 = lot_idx(stv, name@, expiry_date@);
                        assert(0 <= k2 < stv.len() && lot_matches(stv[k2], name@, expiry_date@));
                        if k2 != k as int {
                            assert(stv[k2].name == stv[k as int].name && stv[k2].expiry
                                == stv[k as int].expiry);
                        }
                        stv.remove_ensures(k as int);
                    }
                    self.stock.remove(k);
                    proof {
                        let newst = lots_view(self.stock@);
                        assert(newst =~= stv.remove(lot_idx(stv, name@, expiry_date@)));
                        assert(newst == remove_lot(stv, name@, expiry_date@));
                        assert forall|j: int| 0 <= j < newst.len() implies newst[j].qty > 0
                            && has_product(old(self)@.products, newst[j].name) by {
                            assert(stv.contains(newst[j]));
                            let w = choose|w: int| 0 <= w < stv.len() && stv[w] == newst[j];
                            assert(stv[w].qty > 0);
                            assert(has_product(old(self)@.products, stv[w].name));
                        }
                    }
                },
                Option::None => {
                    proof {
                        assert(remove_lot(stv, name@, expiry_date@) == stv);
                    }
                },
            }
            stmts.push(Statement::DeleteLot { name: name.clone(), expiry: expiry_date.clone() });
            proof {
                assert(stmts_view(stmts@) =~= edit_stock_plan(name@, expiry_date@, 0));
            }
            Result::Ok(stmts)
        } else {
            if !self.product_exists(name) {
                return Result::Err(LedgerError::MissingProduct { name: name.clone() });
            }
            proof {
                lemma_set_lot(stv, name@, expiry_date@, quantity as int);
            }
            let row = LotRow { name: name.clone(), expiry: expiry_date.clone(), qty: quantity };
            match find_lot_in(&self.stock, name, expiry_date) {
                Option::Some(k) => {
                    proof {
                        let k2 = lot_idx(stv, name@, expiry_date@);
                        assert(0 <= k2 < stv.len() && lot_matches(stv[k2], name@, expiry_date@));
                        if k2 != k as int {
                            assert(stv[k2].name == stv[k as int].name && stv[k2].expiry
                                == stv[k as int].expiry);
                        }
                    }
                    self.stock[k] = row;
                    proof {
                        assert(lots_view(self.stock@) =~= stv.update(
                            lot_idx(stv, name@, expiry_date@),
                            row@,
                        ));
                    }
                },
                Option::None => {
                    self.stock.push(row);
                    proof {
                        assert(lots_view(self.stock@) =~= stv.push(row@));
                    }
                },
            }
            proof {
                let newst = lots_view(self.stock@);
                assert(row@ == (LotV { name: name@, expiry: expiry_date@, qty: quantity as int }));
                assert(newst == set_lot(stv, name@, expiry_date@, quantity as int));
                assert forall|j: int| 0 <= j < newst.len() implies newst[j].qty > 0 && has_product(
                    old(self)@.products,
                    newst[j].name,
                ) by {
                    if newst[j] != row@ {
                        assert(stv.contains(newst[j]));
                        let w = choose|w: int| 0 <= w < stv.len() && stv[w] == newst[j];
                        assert(stv[w].qty > 0);
                        assert(has_product(old(self)@.products, stv[w].name));
                    }
                }
            }
            stmts.push(
                Statement::UpsertLotSet {
                    name: name.clone(),
                    expiry: expiry_date.clone(),
                    qty: quantity,
                },
            );
            proof {
                assert(stmts_view(stmts@) =~= edit_stock_plan(name@, expiry_date@, quantity as int));
            }
            Result::Ok(stmts)
        }
    }
}

// ---------------------------------------------------------------------------
// Laws of the stock mutations.
// ---------------------------------------------------------------------------
/// A removal that asks for more than the lot holds always fails (and a
/// failed batch leaves the ledger unchanged, by the operation's contract).
pub proof fn lemma_remove_exceeding_fails(st: Seq<LotV>, c: StockChangeV)
    requires
        c.qty > lot_qty(st, c.name, c.expiry_date),
    ensures
        apply_remove_stock(st, seq![c]) is Err,
{
    assert(seq![c][0] == c);
}

/// Adding a quantity to a lot and then removing the same quantity returns
/// the lot to its prior state: its prior quantity if it held stock, absence
/// if it did not; every other lot is untouched.
pub proof fn lemma_add_then_remove_restores(st: Seq<LotV>, ps: Seq<ProductV>, c: StockChangeV)
    requires
        lot_keys_unique(st),
        stock_positive(st),
        c.qty > 0,
        has_product(ps, c.name),
        lot_qty(st, c.name, c.expiry_date) + c.qty <= i64::MAX,
    ensures
        apply_add_stock(st, ps, seq![c]) is Ok,
        apply_remove_stock(apply_add_stock(st, ps, seq![c])->Ok_0, seq![c]) is Ok,
        ({
            let st2 = apply_remove_stock(apply_add_stock(st, ps, seq![c])->Ok_0, seq![c])->Ok_0;
            &&& lot_qty(st2, c.name, c.expiry_date) == lot_qty(st, c.name, c.expiry_date)
            &&& has_lot(st2, c.name, c.expiry_date) == has_lot(st, c.name, c.expiry_date)
            &&& forall|n2: Seq<char>, e2: Seq<char>|
                !(n2 == c.name && e2 == c.expiry_date) ==> #[trigger] lot_qty(st2, n2, e2)
                    == lot_qty(st, n2, e2) && has_lot(st2, n2, e2) == has_lot(st, n2, e2)
        }),
{
    let q0 = lot_qty(st, c.name, c.expiry_date);
    crate::ledger::lemma_lot_qty_nonneg(st, c.name, c.expiry_date);
    assert(seq![c][0] == c);
    assert(seq![c].drop_first() =~= Seq::<StockChangeV>::empty());
    let st1 = set_lot(st, c.name, c.expiry_date, q0 + c.qty);
    lemma_set_lot(st, c.name, c.expiry_date, q0 + c.qty);
    assert(apply_add_stock(st1, ps, Seq::<StockChangeV>::empty()) == Result::<
        Seq<LotV>,
        LedgerErrorV,
    >::Ok(st1));
    assert(apply_add_stock(st, ps, seq![c]) == Result::<Seq<LotV>, LedgerErrorV>::Ok(st1));
    assert(lot_qty(st1, c.name, c.expiry_date) == q0 + c.qty);
    let st2e = if q0 > 0 {
        set_lot(st1, c.name, c.expiry_date, q0)
    } else {
        remove_lot(st1, c.name, c.expiry_date)
    };
    assert(apply_remove_stock(st2e, Seq::<StockChangeV>::empty()) == Result::<
        Seq<LotV>,
        LedgerErrorV,
    >::Ok(st2e));
    assert(apply_remove_stock(st1, seq![c]) == Result::<Seq<LotV>, LedgerErrorV>::Ok(st2e));
    let st2 = apply_remove_stock(st1, seq![c])->Ok_0;
    assert(st2 == st2e);
    if q0 > 0 {
        lemma_set_lot(st1, c.name, c.expiry_date, q0);
        assert(has_lot(st, c.name, c.expiry_date));
    } else {
        lemma_remove_lot(st1, c.name, c.expiry_date);
        if has_lot(st, c.name, c.expiry_date) {
            let k = lot_idx(st, c.name, c.expiry_date);
            assert(0 <= k < st.len() && lot_matches(st[k], c.name, c.expiry_date));
            assert(st[k].qty > 0);
        }
    }
    assert forall|n2: Seq<char>, e2: Seq<char>| !(n2 == c.name && e2 == c.expiry_date) implies #[trigger] lot_qty(
        st2,
        n2,
        e2,
    ) == lot_qty(st, n2, e2) && has_lot(st2, n2, e2) == has_lot(st, n2, e2) by {
        assert(lot_qty(st1, n2, e2) == lot_qty(st, n2, e2));
        assert(has_lot(st1, n2, e2) == has_lot(st, n2, e2));
        assert(lot_qty(st2, n2, e2) == lot_qty(st1, n2, e2));
        assert(has_lot(st2, n2, e2) == has_lot(st1, n2, e2));
    }
}

/// Setting a lot to zero removes its row; setting it afterwards to a
/// positive quantity recreates it with exactly that quantity.
pub proof fn lemma_set_zero_then_set_recreates(
    st: Seq<LotV>,
    ps: Seq<ProductV>,
    name: Seq<char>,
    expiry: Seq<char>,
    q: int,
)
    requires
        lot_keys_unique(st),
        q > 0,
        has_product(ps, name),
    ensures
        apply_edit_stock(st, ps, name, expiry, 0) is Ok,
        !has_lot(apply_edit_stock(st, ps, name, expiry, 0)->Ok_0, name, expiry),
        apply_edit_stock(apply_edit_stock(st, ps, name, expiry, 0)->Ok_0, ps, name, expiry, q)
            is Ok,
        has_lot(
            apply_edit_stock(
                apply_edit_stock(st, ps, name, expiry, 0)->Ok_0,
                ps,
                name,
                expiry,
                q,
            )->Ok_0,
            name,
            expiry,
        ),
        lot_qty(
            apply_edit_stock(
                apply_edit_stock(st, ps, name, expiry, 0)->Ok_0,
                ps,
                name,
                expiry,
                q,
            )->Ok_0,
            name,
            expiry,
        ) == q,
{
    lemma_remove_lot(st, name, expiry);
    let st1 = remove_lot(st, name, expiry);
    lemma_set_lot(st1, name, expiry, q);
}

} // verus!
