//! The ledger model: products, stock lots keyed by (product name, expiry),
//! and the loan and sale records derived from them.
//!
//! The model is the state the database rows realize. Its well-formedness —
//! unique keys, strictly positive lot quantities, every lot referencing an
//! existing product — is established by the constructor and preserved by
//! every operation.

use vstd::prelude::*;

use crate::loan::{LoanHeader, LoanHeaderV, LoanItem, LoanItemV};
use crate::product::{Product, ProductV};
use crate::sales::{SalesHeader, SalesHeaderV, SalesItem, SalesItemV};
use crate::text::str_eq;

verus! {

/// One stock row: the quantity of a product in one expiry lot.
#[derive(Debug, Clone, PartialEq)]
pub struct LotRow {
    pub name: String,
    pub expiry: String,
    pub qty: i64,
}

/// The mathematical value of a [`LotRow`].
pub struct LotV {
    pub name: Seq<char>,
    pub expiry: Seq<char>,
    pub qty: int,
}

impl View for LotRow {
    type V = LotV;

    open spec fn view(&self) -> LotV {
        LotV { name: self.name@, expiry: self.expiry@, qty: self.qty as int }
    }
}

/// A loan header together with its items.
#[derive(Debug, Clone, PartialEq)]
pub struct LoanRecord {
    pub header: LoanHeader,
    pub items: Vec<LoanItem>,
}

/// The mathematical value of a [`LoanRecord`].
pub struct LoanRecordV {
    pub header: LoanHeaderV,
    pub items: Seq<LoanItemV>,
}

impl View for LoanRecord {
    type V = LoanRecordV;

    open spec fn view(&self) -> LoanRecordV {
        LoanRecordV { header: self.header@, items: loan_items_view(self.items@) }
    }
}

/// A sale header together with its items.
#[derive(Debug, Clone, PartialEq)]
pub struct SaleRecord {
    pub header: SalesHeader,
    pub items: Vec<SalesItem>,
}

/// The mathematical value of a [`SaleRecord`].
pub struct SaleRecordV {
    pub header: SalesHeaderV,
    pub items: Seq<SalesItemV>,
}

impl View for SaleRecord {
    type V = SaleRecordV;

    open spec fn view(&self) -> SaleRecordV {
        SaleRecordV { header: self.header@, items: sale_items_view(self.items@) }
    }
}

/// The whole ledger state.
#[derive(Debug, Clone)]
pub struct Ledger {
    pub products: Vec<Product>,
    pub stock: Vec<LotRow>,
    pub loans: Vec<LoanRecord>,
    pub sales: Vec<SaleRecord>,
}

/// The mathematical value of a [`Ledger`].
pub struct LedgerV {
    pub products: Seq<ProductV>,
    pub stock: Seq<LotV>,
    pub loans: Seq<LoanRecordV>,
    pub sales: Seq<SaleRecordV>,
}

/// The views of a product vector.
pub open spec fn products_view(v: Seq<Product>) -> Seq<ProductV> {
    Seq::new(v.len(), |i: int| v[i]@)
}

/// The views of a lot vector.
pub open spec fn lots_view(v: Seq<LotRow>) -> Seq<LotV> {
    Seq::new(v.len(), |i: int| v[i]@)
}

/// The views of a loan record vector.
pub open spec fn loans_view(v: Seq<LoanRecord>) -> Seq<LoanRecordV> {
    Seq::new(v.len(), |i: int| v[i]@)
}

/// The views of a sale record vector.
pub open spec fn sales_view(v: Seq<SaleRecord>) -> Seq<SaleRecordV> {
    Seq::new(v.len(), |i: int| v[i]@)
}

/// The views of a loan item vector.
pub open spec fn loan_items_view(v: Seq<LoanItem>) -> Seq<LoanItemV> {
    Seq::new(v.len(), |i: int| v[i]@)
}

/// The views of a sale item vector.
pub open spec fn sale_items_view(v: Seq<SalesItem>) -> Seq<SalesItemV> {
    Seq::new(v.len(), |i: int| v[i]@)
}

impl View for Ledger {
    type V = LedgerV;

    open spec fn view(&self) -> LedgerV {
        LedgerV {
            products: products_view(self.products@),
            stock: lots_view(self.stock@),
            loans: loans_view(self.loans@),
            sales: sales_view(self.sales@),
        }
    }
}

// ---------------------------------------------------------------------------
// Lookups over the model.
// ---------------------------------------------------------------------------
/// Whether a product with this name exists.
pub open spec fn has_product(ps: Seq<ProductV>, name: Seq<char>) -> bool {
    exists|i: int| 0 <= i < ps.len() && ps[i].name == name
}

/// Whether product names are pairwise distinct.
pub open spec fn product_names_unique(ps: Seq<ProductV>) -> bool {
    forall|i: int, j: int| 0 <= i < j < ps.len() ==> ps[i].name != ps[j].name
}

/// Whether a lot row carries this (name, expiry) key.
pub open spec fn lot_matches(l: LotV, name: Seq<char>, expiry: Seq<char>) -> bool {
    l.name == name && l.expiry == expiry
}

/// Whether a lot with this key exists.
pub open spec fn has_lot(st: Seq<LotV>, name: Seq<char>, expiry: Seq<char>) -> bool {
    exists|i: int| 0 <= i < st.len() && lot_matches(st[i], name, expiry)
}

/// The index of the lot with this key (meaningful only when it exists).
pub open spec fn lot_idx(st: Seq<LotV>, name: Seq<char>, expiry: Seq<char>) -> int {
    choose|i: int| 0 <= i < st.len() && lot_matches(st[i], name, expiry)
}

/// The quantity this lot holds; an absent lot holds nothing.
pub open spec fn lot_qty(st: Seq<LotV>, name: Seq<char>, expiry: Seq<char>) -> int {
    if has_lot(st, name, expiry) {
        st[lot_idx(st, name, expiry)].qty
    } else {
        0
    }
}

/// Whether lot keys are pairwise distinct.
pub open spec fn lot_keys_unique(st: Seq<LotV>) -> bool {
    forall|i: int, j: int|
        0 <= i < j < st.len() ==> !(st[i].name == st[j].name && st[i].expiry == st[j].expiry)
}

/// Whether every lot quantity is strictly positive.
pub open spec fn stock_positive(st: Seq<LotV>) -> bool {
    forall|i: int| 0 <= i < st.len() ==> st[i].qty > 0
}

/// Whether every lot names an existing product.
pub open spec fn stock_refs_products(st: Seq<LotV>, ps: Seq<ProductV>) -> bool {
    forall|i: int| 0 <= i < st.len() ==> has_product(ps, st[i].name)
}

/// Whether a loan with this header identifier exists.
pub open spec fn has_loan(ls: Seq<LoanRecordV>, id: Seq<char>) -> bool {
    exists|i: int| 0 <= i < ls.len() && ls[i].header.id == id
}

/// The index of the loan with this identifier.
pub open spec fn loan_idx(ls: Seq<LoanRecordV>, id: Seq<char>) -> int {
    choose|i: int| 0 <= i < ls.len() && ls[i].header.id == id
}

/// Whether loan identifiers are pairwise distinct.
pub open spec fn loan_ids_unique(ls: Seq<LoanRecordV>) -> bool {
    forall|i: int, j: int| 0 <= i < j < ls.len() ==> ls[i].header.id != ls[j].header.id
}

/// Whether a sale with this header identifier exists.
pub open spec fn has_sale(ss: Seq<SaleRecordV>, id: Seq<char>) -> bool {
    exists|i: int| 0 <= i < ss.len() && ss[i].header.id == id
}

/// The index of the sale with this identifier.
pub open spec fn sale_idx(ss: Seq<SaleRecordV>, id: Seq<char>) -> int {
    choose|i: int| 0 <= i < ss.len() && ss[i].header.id == id
}

/// Whether sale identifiers are pairwise distinct.
pub open spec fn sale_ids_unique(ss: Seq<SaleRecordV>) -> bool {
    forall|i: int, j: int| 0 <= i < j < ss.len() ==> ss[i].header.id != ss[j].header.id
}

// ---------------------------------------------------------------------------
// The two primitive stock edits.
// ---------------------------------------------------------------------------
/// The stock with the (name, expiry) lot set to exactly `q`: updated in
/// place when present, appended when absent.
pub open spec fn set_lot(st: Seq<LotV>, name: Seq<char>, expiry: Seq<char>, q: int) -> Seq<LotV> {
    if has_lot(st, name, expiry) {
        st.update(lot_idx(st, name, expiry), LotV { name, expiry, qty: q })
    } else {
        st.push(LotV { name, expiry, qty: q })
    }
}

/// The stock with the (name, expiry) lot removed, if present.
pub open spec fn remove_lot(st: Seq<LotV>, name: Seq<char>, expiry: Seq<char>) -> Seq<LotV> {
    if has_lot(st, name, expiry) {
        st.remove(lot_idx(st, name, expiry))
    } else {
        st
    }
}

/// What `set_lot` does, stated over lookups: the named lot now holds `q`,
/// every other key is untouched, and every row is either the new one or a
/// row of the old stock.
pub proof fn lemma_set_lot(st: Seq<LotV>, name: Seq<char>, expiry: Seq<char>, q: int)
    requires
        lot_keys_unique(st),
    ensures
        has_lot(set_lot(st, name, expiry, q), name, expiry),
        lot_qty(set_lot(st, name, expiry, q), name, expiry) == q,
        lot_keys_unique(set_lot(st, name, expiry, q)),
        set_lot(st, name, expiry, q).len() == if has_lot(st, name, expiry) {
            st.len()
        } else {
            st.len() + 1
        },
        forall|n2: Seq<char>, e2: Seq<char>|
            !(n2 == name && e2 == expiry) ==> #[trigger] has_lot(set_lot(st, name, expiry, q), n2, e2)
                == has_lot(st, n2, e2) && lot_qty(set_lot(st, name, expiry, q), n2, e2) == lot_qty(
                st,
                n2,
                e2,
            ),
        forall|i: int|
            0 <= i < set_lot(st, name, expiry, q).len() ==> #[trigger] set_lot(st, name, expiry, q)[i]
                == (LotV { name, expiry, qty: q }) || st.contains(set_lot(st, name, expiry, q)[i]),
{
    let r = set_lot(st, name, expiry, q);
    let v = LotV { name, expiry, qty: q };
    if has_lot(st, name, expiry) {
        let k = lot_idx(st, name, expiry);
        assert(0 <= k < st.len() && lot_matches(st[k], name, expiry));
        assert(r == st.update(k, v));
        assert(lot_matches(r[k], name, expiry));
        assert(has_lot(r, name, expiry));
        // every index other than k is unchanged, and only index k carries the key
        assert forall|i: int| 0 <= i < r.len() && i != k implies r[i] == st[i] by {}
        assert forall|i: int| 0 <= i < st.len() && lot_matches(st[i], name, expiry) implies i == k
        by {
            if i != k {
                assert(st[i].name == st[k].name && st[i].expiry == st[k].expiry);
            }
        }
        let k2 = lot_idx(r, name, expiry);
        assert(0 <= k2 < r.len() && lot_matches(r[k2], name, expiry));
        if k2 != k {
            assert(r[k2] == st[k2]);
            assert(k2 == k);
        }
        assert(lot_qty(r, name, expiry) == q);
        assert(lot_keys_unique(r));
        assert forall|n2: Seq<char>, e2: Seq<char>| !(n2 == name && e2 == expiry) implies #[trigger] has_lot(
            r,
            n2,
            e2,
        ) == has_lot(st, n2, e2) && lot_qty(r, n2, e2) == lot_qty(st, n2, e2) by {
            if has_lot(st, n2, e2) {
                let w = lot_idx(st, n2, e2);
                assert(0 <= w < st.len() && lot_matches(st[w], n2, e2));
                assert(w != k);
                assert(lot_matches(r[w], n2, e2));
                assert(has_lot(r, n2, e2));
            }
            if has_lot(r, n2, e2) {
                let w = lot_idx(r, n2, e2);
                assert(0 <= w < r.len() && lot_matches(r[w], n2, e2));
                assert(w != k);
                assert(lot_matches(st[w], n2, e2));
                assert(has_lot(st, n2, e2));
                let w2 = lot_idx(st, n2, e2);
                if w2 != w {
                    assert(st[w2].name == st[w].name && st[w2].expiry == st[w].expiry);
                }
                assert(lot_qty(r, n2, e2) == lot_qty(st, n2, e2));
            }
        }
        assert forall|i: int| 0 <= i < r.len() implies #[trigger] r[i] == v || st.contains(r[i]) by {
            if i != k {
                assert(r[i] == st[i]);
            }
        }
    } else {
        assert(r == st.push(v));
        assert(lot_matches(r[st.len() as int], name, expiry));
        assert(has_lot(r, name, expiry));
        assert forall|i: int| 0 <= i < st.len() implies !lot_matches(st[i], name, expiry) by {
            if lot_matches(st[i], name, expiry) {
                assert(has_lot(st, name, expiry));
            }
        }
        let k2 = lot_idx(r, name, expiry);
        assert(0 <= k2 < r.len() && lot_matches(r[k2], name, expiry));
        if k2 != st.len() as int {
            assert(r[k2] == st[k2]);
            assert(has_lot(st, name, expiry));
        }
        assert(lot_qty(r, name, expiry) == q);
        assert(lot_keys_unique(r));
        assert forall|n2: Seq<char>, e2: Seq<char>| !(n2 == name && e2 == expiry) implies #[trigger] has_lot(
            r,
            n2,
            e2,
        ) == has_lot(st, n2, e2) && lot_qty(r, n2, e2) == lot_qty(st, n2, e2) by {
            if has_lot(st, n2, e2) {
                let w = lot_idx(st, n2, e2);
                assert(lot_matches(r[w], n2, e2));
                assert(has_lot(r, n2, e2));
            }
            if has_lot(r, n2, e2) {
                let w = lot_idx(r, n2, e2);
                assert(w != st.len() as int);
                assert(lot_matches(st[w], n2, e2));
                assert(has_lot(st, n2, e2));
                let w2 = lot_idx(st, n2, e2);
                if w2 != w {
                    assert(st[w2].name == st[w].name && st[w2].expiry == st[w].expiry);
                }
                assert(lot_qty(r, n2, e2) == lot_qty(st, n2, e2));
            }
        }
        assert forall|i: int| 0 <= i < r.len() implies #[trigger] r[i] == v || st.contains(r[i]) by {
            if i != st.len() as int {
                assert(r[i] == st[i]);
                assert(st.contains(r[i]));
            }
        }
    }
}

/// What `remove_lot` does, stated over lookups: the named lot is gone,
/// every other key is untouched, and every remaining row was a row of the
/// old stock.
pub proof fn lemma_remove_lot(st: Seq<LotV>, name: Seq<char>, expiry: Seq<char>)
    requires
        lot_keys_unique(st),
    ensures
        !has_lot(remove_lot(st, name, expiry), name, expiry),
        lot_qty(remove_lot(st, name, expiry), name, expiry) == 0,
        lot_keys_unique(remove_lot(st, name, expiry)),
        remove_lot(st, name, expiry).len() == if has_lot(st, name, expiry) {
            st.len() - 1
        } else {
            st.len() as int
        },
        forall|n2: Seq<char>, e2: Seq<char>|
            !(n2 == name && e2 == expiry) ==> #[trigger] has_lot(remove_lot(st, name, expiry), n2, e2)
                == has_lot(st, n2, e2) && lot_qty(remove_lot(st, name, expiry), n2, e2) == lot_qty(
                st,
                n2,
                e2,
            ),
        forall|i: int|
            0 <= i < remove_lot(st, name, expiry).len() ==> st.contains(
                #[trigger] remove_lot(st, name, expiry)[i],
            ),
{
    let r = remove_lot(st, name, expiry);
    if has_lot(st, name, expiry) {
        let k = lot_idx(st, name, expiry);
        assert(0 <= k < st.len() && lot_matches(st[k], name, expiry));
        assert(r == st.remove(k));
        st.remove_ensures(k);
        assert forall|i: int| 0 <= i < st.len() && lot_matches(st[i], name, expiry) implies i == k
        by {
            if i != k {
                assert(st[i].name == st[k].name && st[i].expiry == st[k].expiry);
            }
        }
        // every row of r is a row of st at a shifted index
        assert forall|i: int| 0 <= i < r.len() implies st.contains(#[trigger] r[i]) by {
            if i < k {
                assert(r[i] == st[i]);
            } else {
                assert(r[i] == st[i + 1]);
            }
        }
        assert forall|i: int| 0 <= i < r.len() implies !lot_matches(r[i], name, expiry) by {
            if i < k {
                assert(r[i] == st[i]);
            } else {
                assert(r[i] == st[i + 1]);
            }
        }
        assert(!has_lot(r, name, expiry));
        assert forall|i: int, j: int| 0 <= i < j < r.len() implies !(r[i].name == r[j].name
            && r[i].expiry == r[j].expiry) by {
            let i0 = if i < k {
                i
            } else {
                i + 1
            };
            let j0 = if j < k {
                j
            } else {
                j + 1
            };
            assert(r[i] == st[i0]);
            assert(r[j] == st[j0]);
        }
        assert forall|n2: Seq<char>, e2: Seq<char>| !(n2 == name && e2 == expiry) implies #[trigger] has_lot(
            r,
            n2,
            e2,
        ) == has_lot(st, n2, e2) && lot_qty(r, n2, e2) == lot_qty(st, n2, e2) by {
            if has_lot(st, n2, e2) {
                let w = lot_idx(st, n2, e2);
                assert(0 <= w < st.len() && lot_matches(st[w], n2, e2));
                assert(w != k);
                if w < k {
                    assert(r[w] == st[w]);
                    assert(has_lot(r, n2, e2));
                } else {
                    assert(r[w - 1] == st[w]);
                    assert(lot_matches(r[w - 1], n2, e2));
                    assert(has_lot(r, n2, e2));
                }
            }
            if has_lot(r, n2, e2) {
                let w = lot_idx(r, n2, e2);
                let w0 = if w < k {
                    w
                } else {
                    w + 1
                };
                assert(r[w] == st[w0]);
                assert(has_lot(st, n2, e2));
                let w2 = lot_idx(st, n2, e2);
                if w2 != w0 {
                    assert(st[w2].name == st[w0].name && st[w2].expiry == st[w0].expiry);
                }
                assert(lot_qty(r, n2, e2) == lot_qty(st, n2, e2));
            }
        }
    } else {
        assert(r == st);
        assert forall|i: int| 0 <= i < r.len() implies st.contains(#[trigger] r[i]) by {}
    }
}

/// The index of the product with this name (meaningful only when it
/// exists).
pub open spec fn product_idx(ps: Seq<ProductV>, name: Seq<char>) -> int {
    choose|i: int| 0 <= i < ps.len() && ps[i].name == name
}

/// The products with the row of this name removed, if present.
pub open spec fn remove_product(ps: Seq<ProductV>, name: Seq<char>) -> Seq<ProductV> {
    if has_product(ps, name) {
        ps.remove(product_idx(ps, name))
    } else {
        ps
    }
}

/// What `remove_product` does: the row is gone, names stay unique, every
/// other name is untouched, and every remaining row was a row before.
pub proof fn lemma_remove_product(ps: Seq<ProductV>, name: Seq<char>)
    requires
        product_names_unique(ps),
    ensures
        !has_product(remove_product(ps, name), name),
        product_names_unique(remove_product(ps, name)),
        remove_product(ps, name).len() == if has_product(ps, name) {
            ps.len() - 1
        } else {
            ps.len() as int
        },
        forall|n2: Seq<char>|
            n2 != name ==> #[trigger] has_product(remove_product(ps, name), n2) == has_product(
                ps,
                n2,
            ),
{
    let r = remove_product(ps, name);
    if has_product(ps, name) {
        let k = product_idx(ps, name);
        assert(0 <= k < ps.len() && ps[k].name == name);
        ps.remove_ensures(k);
        assert forall|i: int| 0 <= i < ps.len() && ps[i].name == name implies i == k by {}
        assert forall|i: int| 0 <= i < r.len() implies r[i] == (if i < k {
            ps[i]
        } else {
            ps[i + 1]
        }) by {}
        assert forall|i: int| 0 <= i < r.len() implies r[i].name != name by {}
        assert(!has_product(r, name));
        assert forall|i: int, j: int| 0 <= i < j < r.len() implies r[i].name != r[j].name by {
            let i0 = if i < k {
                i
            } else {
                i + 1
            };
            let j0 = if j < k {
                j
            } else {
                j + 1
            };
            assert(r[i] == ps[i0] && r[j] == ps[j0]);
        }
        assert forall|n2: Seq<char>| n2 != name implies #[trigger] has_product(r, n2)
            == has_product(ps, n2) by {
            if has_product(ps, n2) {
                let w = product_idx(ps, n2);
                assert(0 <= w < ps.len() && ps[w].name == n2);
                if w < k {
                    assert(r[w] == ps[w]);
                } else {
                    assert(r[w - 1] == ps[w]);
                }
            }
            if has_product(r, n2) {
                let w = product_idx(r, n2);
                assert(0 <= w < r.len() && r[w].name == n2);
                let w0 = if w < k {
                    w
                } else {
                    w + 1
                };
                assert(r[w] == ps[w0]);
            }
        }
    }
}

/// The loans with the record of this identifier removed, if present.
pub open spec fn remove_loan(ls: Seq<LoanRecordV>, id: Seq<char>) -> Seq<LoanRecordV> {
    if has_loan(ls, id) {
        ls.remove(loan_idx(ls, id))
    } else {
        ls
    }
}

/// What `remove_loan` does: the record is gone, identifiers stay unique,
/// every other identifier is untouched.
pub proof fn lemma_remove_loan(ls: Seq<LoanRecordV>, id: Seq<char>)
    requires
        loan_ids_unique(ls),
    ensures
        !has_loan(remove_loan(ls, id), id),
        loan_ids_unique(remove_loan(ls, id)),
        remove_loan(ls, id).len() == if has_loan(ls, id) {
            ls.len() - 1
        } else {
            ls.len() as int
        },
        forall|id2: Seq<char>|
            id2 != id ==> #[trigger] has_loan(remove_loan(ls, id), id2) == has_loan(ls, id2),
{
    let r = remove_loan(ls, id);
    if has_loan(ls, id) {
        let k = loan_idx(ls, id);
        assert(0 <= k < ls.len() && ls[k].header.id == id);
        ls.remove_ensures(k);
        assert forall|i: int| 0 <= i < ls.len() && ls[i].header.id == id implies i == k by {}
        assert forall|i: int| 0 <= i < r.len() implies r[i] == (if i < k {
            ls[i]
        } else {
            ls[i + 1]
        }) by {}
        assert forall|i: int| 0 <= i < r.len() implies r[i].header.id != id by {}
        assert(!has_loan(r, id));
        assert forall|i: int, j: int| 0 <= i < j < r.len() implies r[i].header.id
            != r[j].header.id by {
            let i0 = if i < k {
                i
            } else {
                i + 1
            };
            let j0 = if j < k {
                j
            } else {
                j + 1
            };
            assert(r[i] == ls[i0] && r[j] == ls[j0]);
        }
        assert forall|id2: Seq<char>| id2 != id implies #[trigger] has_loan(r, id2) == has_loan(
            ls,
            id2,
        ) by {
            if has_loan(ls, id2) {
                let w = loan_idx(ls, id2);
                assert(0 <= w < ls.len() && ls[w].header.id == id2);
                if w < k {
                    assert(r[w] == ls[w]);
                } else {
                    assert(r[w - 1] == ls[w]);
                }
            }
            if has_loan(r, id2) {
                let w = loan_idx(r, id2);
                assert(0 <= w < r.len() && r[w].header.id == id2);
                let w0 = if w < k {
                    w
                } else {
                    w + 1
                };
                assert(r[w] == ls[w0]);
            }
        }
    }
}

/// The sales with the record of this identifier removed, if present.
pub open spec fn remove_sale(ss: Seq<SaleRecordV>, id: Seq<char>) -> Seq<SaleRecordV> {
    if has_sale(ss, id) {
        ss.remove(sale_idx(ss, id))
    } else {
        ss
    }
}

/// What `remove_sale` does: the record is gone, identifiers stay unique,
/// every other identifier is untouched.
pub proof fn lemma_remove_sale(ss: Seq<SaleRecordV>, id: Seq<char>)
    requires
        sale_ids_unique(ss),
    ensures
        !has_sale(remove_sale(ss, id), id),
        sale_ids_unique(remove_sale(ss, id)),
        remove_sale(ss, id).len() == if has_sale(ss, id) {
            ss.len() - 1
        } else {
            ss.len() as int
        },
        forall|id2: Seq<char>|
            id2 != id ==> #[trigger] has_sale(remove_sale(ss, id), id2) == has_sale(ss, id2),
{
    let r = remove_sale(ss, id);
    if has_sale(ss, id) {
        let k = sale_idx(ss, id);
        assert(0 <= k < ss.len() && ss[k].header.id == id);
        ss.remove_ensures(k);
        assert forall|i: int| 0 <= i < ss.len() && ss[i].header.id == id implies i == k by {}
        assert forall|i: int| 0 <= i < r.len() implies r[i] == (if i < k {
            ss[i]
        } else {
            ss[i + 1]
        }) by {}
        assert forall|i: int| 0 <= i < r.len() implies r[i].header.id != id by {}
        assert(!has_sale(r, id));
        assert forall|i: int, j: int| 0 <= i < j < r.len() implies r[i].header.id
            != r[j].header.id by {
            let i0 = if i < k {
                i
            } else {
                i + 1
            };
            let j0 = if j < k {
                j
            } else {
                j + 1
            };
            assert(r[i] == ss[i0] && r[j] == ss[j0]);
        }
        assert forall|id2: Seq<char>| id2 != id implies #[trigger] has_sale(r, id2) == has_sale(
            ss,
            id2,
        ) by {
            if has_sale(ss, id2) {
                let w = sale_idx(ss, id2);
                assert(0 <= w < ss.len() && ss[w].header.id == id2);
                if w < k {
                    assert(r[w] == ss[w]);
                } else {
                    assert(r[w - 1] == ss[w]);
                }
            }
            if has_sale(r, id2) {
                let w = sale_idx(r, id2);
                assert(0 <= w < r.len() && r[w].header.id == id2);
                let w0 = if w < k {
                    w
                } else {
                    w + 1
                };
                assert(r[w] == ss[w0]);
            }
        }
    }
}

// ---------------------------------------------------------------------------
// The ledger itself.
// ---------------------------------------------------------------------------
impl Ledger {
    /// Well-formedness: unique product names, unique lot keys, strictly
    /// positive lot quantities, every lot referencing an existing product,
    /// and unique loan and sale identifiers.
    pub open spec fn wf(&self) -> bool {
        &&& product_names_unique(self@.products)
        &&& lot_keys_unique(self@.stock)
        &&& stock_positive(self@.stock)
        &&& stock_refs_products(self@.stock, self@.products)
        &&& loan_ids_unique(self@.loans)
        &&& sale_ids_unique(self@.sales)
    }

    /// An empty ledger.
    pub fn new() -> (r: Ledger)
        ensures
            r.wf(),
            r@.products.len() == 0,
            r@.stock.len() == 0,
            r@.loans.len() == 0,
            r@.sales.len() == 0,
    {
        Ledger { products: Vec::new(), stock: Vec::new(), loans: Vec::new(), sales: Vec::new() }
    }

    /// Finds the position of a product by name.
    pub fn find_product(&self, name: &String) -> (r: Option<usize>)
        ensures
            match r {
                Option::Some(i) => i < self@.products.len() && self@.products[i as int].name
                    == name@ && has_product(self@.products, name@),
                Option::None => !has_product(self@.products, name@),
            },
    {
        let n = self.products.len();
        let mut i: usize = 0;
        while i < n
            invariant
                i <= n,
                n == self@.products.len(),
                forall|j: int| 0 <= j < i ==> self@.products[j].name != name@,
            decreases n - i,
        {
            if str_eq(self.products[i].name.as_str(), name.as_str()) {
                return Option::Some(i);
            }
            i = i + 1;
        }
        Option::None
    }

    /// Whether a product with this name exists.
    pub fn product_exists(&self, name: &String) -> (r: bool)
        ensures
            r == has_product(self@.products, name@),
    {
        self.find_product(name).is_some()
    }

    /// Finds the position of the (name, expiry) lot.
    pub fn find_lot(&self, name: &String, expiry: &String) -> (r: Option<usize>)
        ensures
            match r {
                Option::Some(i) => i < self@.stock.len() && lot_matches(
                    self@.stock[i as int],
                    name@,
                    expiry@,
                ) && has_lot(self@.stock, name@, expiry@),
                Option::None => !has_lot(self@.stock, name@, expiry@),
            },
    {
        find_lot_in(&self.stock, name, expiry)
    }

    /// The quantity the (name, expiry) lot currently holds; an absent lot
    /// holds nothing.
    pub fn current_qty(&self, name: &String, expiry: &String) -> (r: i64)
        requires
            self.wf(),
        ensures
            r == lot_qty(self@.stock, name@, expiry@),
    {
        qty_in(&self.stock, name, expiry)
    }

    /// Finds the position of a loan by header identifier.
    pub fn find_loan(&self, id: &String) -> (r: Option<usize>)
        ensures
            match r {
                Option::Some(i) => i < self@.loans.len() && self@.loans[i as int].header.id == id@
                    && has_loan(self@.loans, id@),
                Option::None => !has_loan(self@.loans, id@),
            },
    {
        let n = self.loans.len();
        let mut i: usize = 0;
        while i < n
            invariant
                i <= n,
                n == self@.loans.len(),
                forall|j: int| 0 <= j < i ==> self@.loans[j].header.id != id@,
            decreases n - i,
        {
            if str_eq(self.loans[i].header.id.as_str(), id.as_str()) {
                return Option::Some(i);
            }
            i = i + 1;
        }
        Option::None
    }

    /// Finds the position of a sale by header identifier.
    pub fn find_sale(&self, id: &String) -> (r: Option<usize>)
        ensures
            match r {
                Option::Some(i) => i < self@.sales.len() && self@.sales[i as int].header.id == id@
                    && has_sale(self@.sales, id@),
                Option::None => !has_sale(self@.sales, id@),
            },
    {
        let n = self.sales.len();
        let mut i: usize = 0;
        while i < n
            invariant
                i <= n,
                n == self@.sales.len(),
                forall|j: int| 0 <= j < i ==> self@.sales[j].header.id != id@,
            decreases n - i,
        {
            if str_eq(self.sales[i].header.id.as_str(), id.as_str()) {
                return Option::Some(i);
            }
            i = i + 1;
        }
        Option::None
    }
}

/// Finds the position of the (name, expiry) lot in a lot vector.
pub fn find_lot_in(stock: &Vec<LotRow>, name: &String, expiry: &String) -> (r: Option<usize>)
    ensures
        match r {
            Option::Some(i) => i < stock@.len() && lot_matches(
                lots_view(stock@)[i as int],
                name@,
                expiry@,
            ) && has_lot(lots_view(stock@), name@, expiry@),
            Option::None => !has_lot(lots_view(stock@), name@, expiry@),
        },
{
    let n = stock.len();
    let mut i: usize = 0;
    while i < n
        invariant
            i <= n,
            n == stock@.len(),
            forall|j: int| 0 <= j < i ==> !lot_matches(lots_view(stock@)[j], name@, expiry@),
        decreases n - i,
    {
        if str_eq(stock[i].name.as_str(), name.as_str()) && str_eq(
            stock[i].expiry.as_str(),
            expiry.as_str(),
        ) {
            proof {
                assert(lots_view(stock@)[i as int] == stock@[i as int]@);
                assert(lot_matches(lots_view(stock@)[i as int], name@, expiry@));
            }
            return Option::Some(i);
        }
        i = i + 1;
    }
    Option::None
}

/// The quantity the (name, expiry) lot holds in a lot vector with unique
/// keys; an absent lot holds nothing.
pub fn qty_in(stock: &Vec<LotRow>, name: &String, expiry: &String) -> (r: i64)
    requires
        lot_keys_unique(lots_view(stock@)),
    ensures
        r == lot_qty(lots_view(stock@), name@, expiry@),
{
    match find_lot_in(stock, name, expiry) {
        Option::Some(i) => {
            proof {
                let st = lots_view(stock@);
                let k = lot_idx(st, name@, expiry@);
                assert(0 <= k < st.len() && lot_matches(st[k], name@, expiry@));
                if k != i as int {
                    assert(st[k].name == st[i as int].name && st[k].expiry == st[i as int].expiry);
                }
            }
            stock[i].qty
        },
        Option::None => 0,
    }
}

/// An exact copy of a lot row.
pub fn clone_lot(l: &LotRow) -> (r: LotRow)
    ensures
        r == *l,
{
    LotRow { name: l.name.clone(), expiry: l.expiry.clone(), qty: l.qty }
}

/// An exact copy of a lot vector.
pub fn clone_lots(v: &Vec<LotRow>) -> (r: Vec<LotRow>)
    ensures
        r@ == v@,
{
    let n = v.len();
    let mut r: Vec<LotRow> = Vec::new();
    let mut i: usize = 0;
    while i < n
        invariant
            i <= n,
            n == v@.len(),
            r@ == v@.subrange(0, i as int),
        decreases n - i,
    {
        r.push(clone_lot(&v[i]));
        proof {
            assert(v@.subrange(0, (i + 1) as int) =~= v@.subrange(0, i as int).push(v@[i as int]));
        }
        i = i + 1;
    }
    proof {
        assert(v@.subrange(0, n as int) =~= v@);
    }
    r
}

/// In stock whose quantities are all positive, no lookup is negative.
pub proof fn lemma_lot_qty_nonneg(st: Seq<LotV>, name: Seq<char>, expiry: Seq<char>)
    requires
        stock_positive(st),
    ensures
        lot_qty(st, name, expiry) >= 0,
{
    if has_lot(st, name, expiry) {
        let k = lot_idx(st, name, expiry);
        assert(0 <= k < st.len() && lot_matches(st[k], name, expiry));
    }
}

/// Every lot of a well-formed ledger holds a strictly positive quantity:
/// no quantity is ever observed negative (or zero — a drained lot is
/// deleted instead).
pub proof fn lemma_stock_never_negative(l: &Ledger)
    requires
        l.wf(),
    ensures
        forall|i: int| 0 <= i < l@.stock.len() ==> l@.stock[i].qty > 0,
        forall|n: Seq<char>, e: Seq<char>| #[trigger] lot_qty(l@.stock, n, e) >= 0,
{
    assert forall|n: Seq<char>, e: Seq<char>| #[trigger] lot_qty(l@.stock, n, e) >= 0 by {
        if has_lot(l@.stock, n, e) {
            let k = lot_idx(l@.stock, n, e);
            assert(0 <= k < l@.stock.len() && lot_matches(l@.stock[k], n, e));
        }
    }
}

} // verus!
