//! Products: the catalogue rows that stock lots and transaction items
//! reference by name, and the product operations — add, update (with the
//! rename cascade to stock), delete (blocked while referenced).

use vstd::prelude::*;

use crate::error::{LedgerError, LedgerErrorV};
use crate::gateway::{stmts_view, Statement, StatementV};
use crate::ledger::{
    has_product, lemma_remove_product, lots_view, product_idx, products_view, remove_product,
    Ledger, LoanRecordV, LotRow, LotV, SaleRecordV,
};
use crate::text::{norm_text, normalize_opt_text, opt_view, str_eq};

verus! {

/// A catalogue entry. The picture is carried as an opaque encoded text; the
/// ledger never looks inside it.
#[derive(Debug, Clone, PartialEq)]
pub struct Product {
    pub name: String,
    pub price: Option<i64>,
    pub picture: Option<String>,
    pub kind: Option<String>,
}

/// The mathematical value of a [`Product`].
pub struct ProductV {
    pub name: Seq<char>,
    pub price: Option<int>,
    pub picture: Option<Seq<char>>,
    pub kind: Option<Seq<char>>,
}

impl View for Product {
    type V = ProductV;

    open spec fn view(&self) -> ProductV {
        ProductV {
            name: self.name@,
            price: match self.price {
                Option::None => Option::None,
                Option::Some(p) => Option::Some(p as int),
            },
            picture: match self.picture {
                Option::None => Option::None,
                Option::Some(ref s) => Option::Some(s@),
            },
            kind: match self.kind {
                Option::None => Option::None,
                Option::Some(ref s) => Option::Some(s@),
            },
        }
    }
}

/// The stored form of a product: an absent or empty picture becomes
/// `None`, the type tag is normalized like any optional text, name and
/// price stand as given.
pub open spec fn normalize_product(p: ProductV) -> ProductV {
    ProductV {
        name: p.name,
        price: p.price,
        picture: match p.picture {
            Option::None => Option::None,
            Option::Some(s) => if s.len() == 0 {
                Option::None
            } else {
                Option::Some(s)
            },
        },
        kind: norm_text(p.kind),
    }
}

/// Normalizes a product for storage.
fn normalize_product_exec(p: Product) -> (r: Product)
    ensures
        r@ == normalize_product(p@),
{
    Product {
        name: p.name,
        price: p.price,
        picture: match p.picture {
            Option::None => Option::None,
            Option::Some(s) => if s.as_str().is_empty() {
                Option::None
            } else {
                Option::Some(s)
            },
        },
        kind: normalize_opt_text(&p.kind),
    }
}

/// An exact copy of a product.
pub fn clone_product(p: &Product) -> (r: Product)
    ensures
        r == *p,
{
    Product {
        name: p.name.clone(),
        price: p.price,
        picture: crate::text::clone_opt_string(&p.picture),
        kind: crate::text::clone_opt_string(&p.kind),
    }
}

/// The stock after a product rename: every lot of the old name carries
/// the new one, everything else stands.
pub open spec fn rename_stock(st: Seq<LotV>, oldn: Seq<char>, newn: Seq<char>) -> Seq<LotV> {
    Seq::new(
        st.len(),
        |i: int|
            if st[i].name == oldn {
                LotV { name: newn, expiry: st[i].expiry, qty: st[i].qty }
            } else {
                st[i]
            },
    )
}

/// Whether any stock lot references this product.
pub open spec fn stock_uses_product(st: Seq<LotV>, name: Seq<char>) -> bool {
    exists|i: int| 0 <= i < st.len() && st[i].name == name
}

/// Whether any loan item references this product.
pub open spec fn loans_use_product(ls: Seq<LoanRecordV>, name: Seq<char>) -> bool {
    exists|i: int, j: int|
        0 <= i < ls.len() && 0 <= j < ls[i].items.len() && ls[i].items[j].product_name == name
}

/// Whether any sale item references this product.
pub open spec fn sales_use_product(ss: Seq<SaleRecordV>, name: Seq<char>) -> bool {
    exists|i: int, j: int|
        0 <= i < ss.len() && 0 <= j < ss[i].items.len() && ss[i].items[j].product_name == name
}

/// The products and the stock after a product update, or the error: the
/// row to change must exist; a rename must not take a taken name; a
/// rename cascades to the stock lots.
pub open spec fn update_product_check(
    l: crate::ledger::LedgerV,
    p: ProductV,
    old_name: Option<Seq<char>>,
) -> Result<(Seq<ProductV>, Seq<LotV>), LedgerErrorV> {
    let oldn = match old_name {
        Option::None => p.name,
        Option::Some(o) => o,
    };
    let renaming = p.name != oldn;
    if !has_product(l.products, oldn) {
        Result::Err(LedgerErrorV::MissingProduct { name: oldn })
    } else if renaming && has_product(l.products, p.name) {
        Result::Err(LedgerErrorV::DuplicateProduct { name: p.name })
    } else {
        Result::Ok(
            (
                l.products.update(product_idx(l.products, oldn), normalize_product(p)),
                if renaming {
                    rename_stock(l.stock, oldn, p.name)
                } else {
                    l.stock
                },
            ),
        )
    }
}

/// The single statement of a product update.
pub open spec fn update_product_plan(p: ProductV, old_name: Option<Seq<char>>) -> Seq<StatementV> {
    let oldn = match old_name {
        Option::None => p.name,
        Option::Some(o) => o,
    };
    seq![
        StatementV::UpdateProduct {
            old_name: oldn,
            product: normalize_product(p),
            rename: p.name != oldn,
        },
    ]
}

/// The products after a deletion, or the error: a product still referenced
/// by a stock lot or a transaction item cannot be deleted; deleting an
/// absent name is a harmless no-op.
pub open spec fn delete_product_check(l: crate::ledger::LedgerV, name: Seq<char>) -> Result<
    Seq<ProductV>,
    LedgerErrorV,
> {
    if stock_uses_product(l.stock, name) || loans_use_product(l.loans, name) || sales_use_product(
        l.sales,
        name,
    ) {
        Result::Err(LedgerErrorV::ProductInUse { name })
    } else {
        Result::Ok(remove_product(l.products, name))
    }
}

/// Whether a stored price agrees with a price the caller expects: no
/// expectation always agrees, an expectation only with exactly that value.
pub fn price_matches(expected: Option<i64>, actual: Option<i64>) -> (r: bool)
    ensures
        r == match expected {
            Option::None => true,
            Option::Some(e) => actual == Option::Some(e),
        },
{
    match expected {
        Option::None => true,
        Option::Some(e) => match actual {
            Option::None => false,
            Option::Some(a) => a == e,
        },
    }
}

impl Ledger {
    /// Whether any stock lot references this product.
    fn stock_uses(&self, name: &String) -> (r: bool)
        ensures
            r == stock_uses_product(self@.stock, name@),
    {
        let n = self.stock.len();
        let mut i: usize = 0;
        while i < n
            invariant
                i <= n,
                n == self@.stock.len(),
                forall|j: int| 0 <= j < i ==> (#[trigger] self@.stock[j]).name != name@,
            decreases n - i,
        {
            if str_eq(self.stock[i].name.as_str(), name.as_str()) {
                proof {
                    assert(self@.stock[i as int].name == name@);
                }
                return true;
            }
            i = i + 1;
        }
        false
    }

    /// Whether any loan item references this product.
    fn loans_use(&self, name: &String) -> (r: bool)
        ensures
            r == loans_use_product(self@.loans, name@),
    {
        let n = self.loans.len();
        let mut i: usize = 0;
        while i < n
            invariant
                i <= n,
                n == self@.loans.len(),
                forall|a: int, b: int|
                    0 <= a < i && 0 <= b < self@.loans[a].items.len()
                        ==> (#[trigger] self@.loans[a].items[b]).product_name != name@,
            decreases n - i,
        {
            let items = &self.loans[i].items;
            let m = items.len();
            let mut j: usize = 0;
            while j < m
                invariant
                    j <= m,
                    i < n,
                    n == self@.loans.len(),
                    m == self@.loans[i as int].items.len(),
                    items@ == self.loans@[i as int].items@,
                    forall|b: int| 0 <= b < j ==> self@.loans[i as int].items[b].product_name != name@,
                    forall|a: int, b: int|
                        0 <= a < i && 0 <= b < self@.loans[a].items.len()
                            ==> (#[trigger] self@.loans[a].items[b]).product_name != name@,
                decreases m - j,
            {
                if str_eq(items[j].product_name.as_str(), name.as_str()) {
                    proof {
                        assert(self@.loans[i as int].items[j as int].product_name == name@);
                    }
                    return true;
                }
                j = j + 1;
            }
            i = i + 1;
        }
        false
    }

    /// Whether any sale item references this product.
    fn sales_use(&self, name: &String) -> (r: bool)
        ensures
            r == sales_use_product(self@.sales, name@),
    {
        let n = self.sales.len();
        let mut i: usize = 0;
        while i < n
            invariant
                i <= n,
                n == self@.sales.len(),
                forall|a: int, b: int|
                    0 <= a < i && 0 <= b < self@.sales[a].items.len()
                        ==> (#[trigger] self@.sales[a].items[b]).product_name != name@,
            decreases n - i,
        {
            let items = &self.sales[i].items;
            let m = items.len();
            let mut j: usize = 0;
            while j < m
                invariant
                    j <= m,
                    i < n,
                    n == self@.sales.len(),
                    m == self@.sales[i as int].items.len(),
                    items@ == self.sales@[i as int].items@,
                    forall|b: int| 0 <= b < j ==> self@.sales[i as int].items[b].product_name != name@,
                    forall|a: int, b: int|
                        0 <= a < i && 0 <= b < self@.sales[a].items.len()
                            ==> (#[trigger] self@.sales[a].items[b]).product_name != name@,
                decreases m - j,
            {
                if str_eq(items[j].product_name.as_str(), name.as_str()) {
                    proof {
                        assert(self@.sales[i as int].items[j as int].product_name == name@);
                    }
                    return true;
                }
                j = j + 1;
            }
            i = i + 1;
        }
        false
    }

    /// Adds a product under a name not yet taken.
    pub fn add_product(&mut self, product: Product) -> (r: Result<Vec<Statement>, LedgerError>)
        requires
            old(self).wf(),
        ensures
            final (self).wf(),
            final (self)@.stock == old(self)@.stock,
            final (self)@.loans == old(self)@.loans,
            final (self)@.sales == old(self)@.sales,
            match r {
                Result::Ok(stmts) => {
                    &&& !has_product(old(self)@.products, product@.name)
                    &&& final (self)@.products == old(self)@.products.push(
                        normalize_product(product@),
                    )
                    &&& stmts_view(stmts@) == seq![
                        StatementV::InsertProduct { product: normalize_product(product@) },
                    ]
                },
                Result::Err(e) => {
                    &&& final (self)@.products == old(self)@.products
                    &&& e@ == (LedgerErrorV::DuplicateProduct { name: product@.name })
                    &&& has_product(old(self)@.products, product@.name)
                },
            },
    {
        if self.product_exists(&product.name) {
            return Result::Err(LedgerError::DuplicateProduct { name: product.name });
        }
        let norm = normalize_product_exec(product);
        let stmt = Statement::InsertProduct { product: clone_product(&norm) };
        let ghost ps0 = self@.products;
        let ghost normv = norm@;
        self.products.push(norm);
        proof {
            assert(products_view(self.products@) =~= ps0.push(normv));
            assert forall|a: int, b: int|
                0 <= a < b < self@.products.len() implies self@.products[a].name
                != self@.products[b].name by {
                if b < ps0.len() {
                    assert(self@.products[a] == ps0[a] && self@.products[b] == ps0[b]);
                } else {
                    assert(self@.products[a] == ps0[a]);
                    assert(self@.products[b] == normv);
                    if ps0[a].name == normv.name {
                        assert(has_product(ps0, normv.name));
                    }
                }
            }
            assert forall|j: int| 0 <= j < self@.stock.len() implies has_product(
                self@.products,
                (#[trigger] self@.stock[j]).name,
            ) by {
                assert(has_product(ps0, self@.stock[j].name));
                let w = product_idx(ps0, self@.stock[j].name);
                assert(0 <= w < ps0.len() && ps0[w].name == self@.stock[j].name);
                assert(self@.products[w] == ps0[w]);
            }
        }
        let mut stmts: Vec<Statement> = Vec::new();
        stmts.push(stmt);
        proof {
            assert(stmts_view(stmts@) =~= seq![StatementV::InsertProduct { product: normv }]);
        }
        Result::Ok(stmts)
    }

    /// Updates a product row: price, picture and type tag are overwritten,
    /// and a rename — rejected when the new name is taken — cascades to
    /// the stock lots referencing the old name. Transaction items keep the
    /// name they were recorded under.
    pub fn update_product(&mut self, product: Product, old_name: Option<String>) -> (r: Result<
        Vec<Statement>,
        LedgerError,
    >)
        requires
            old(self).wf(),
        ensures
            final (self).wf(),
            final (self)@.loans == old(self)@.loans,
            final (self)@.sales == old(self)@.sales,
            match r {
                Result::Ok(stmts) => update_product_check(old(self)@, product@, opt_view(old_name))
                    == Result::<(Seq<ProductV>, Seq<LotV>), LedgerErrorV>::Ok(
                    (final (self)@.products, final (self)@.stock),
                ) && stmts_view(stmts@) == update_product_plan(product@, opt_view(old_name)),
                Result::Err(e) => {
                    &&& final (self)@.products == old(self)@.products
                    &&& final (self)@.stock == old(self)@.stock
                    &&& update_product_check(old(self)@, product@, opt_view(old_name))
                        == Result::<(Seq<ProductV>, Seq<LotV>), LedgerErrorV>::Err(e@)
                },
            },
    {
        let ghost l0 = self@;
        let ghost pv = product@;
        let ghost onv = opt_view(old_name);
        let prior = match old_name {
            Option::Some(o) => o,
            Option::None => product.name.clone(),
        };
        let ghost oldn = prior@;
        proof {
            assert(oldn == match onv {
                Option::None => pv.name,
                Option::Some(o) => o,
            });
        }
        let k = match self.find_product(&prior) {
            Option::Some(k) => k,
            Option::None => {
                return Result::Err(LedgerError::MissingProduct { name: prior });
            },
        };
        let renaming = !str_eq(product.name.as_str(), prior.as_str());
        if renaming {
            if self.product_exists(&product.name) {
                return Result::Err(LedgerError::DuplicateProduct { name: product.name });
            }
        }
        let norm = normalize_product_exec(product);
        let ghost normv = norm@;
        let new_name = norm.name.clone();
        let stmt = Statement::UpdateProduct {
            old_name: prior.clone(),
            product: clone_product(&norm),
            rename: renaming,
        };
        proof {
            let k2 = product_idx(l0.products, oldn);
            assert(0 <= k2 < l0.products.len() && l0.products[k2].name == oldn);
            if k2 != k as int {
                assert(l0.products[k2].name == l0.products[k as int].name);
            }
        }
        self.products[k] = norm;
        let ghost newps = l0.products.update(product_idx(l0.products, oldn), normv);
        proof {
            assert(products_view(self.products@) =~= newps);
            assert forall|a: int, b: int|
                0 <= a < b < newps.len() implies newps[a].name != newps[b].name by {
                if a != k as int && b != k as int {
                    assert(newps[a] == l0.products[a] && newps[b] == l0.products[b]);
                } else {
                    let other = if a == k as int {
                        b
                    } else {
                        a
                    };
                    assert(newps[other] == l0.products[other]);
                    assert(newps[k as int].name == pv.name);
                    if renaming {
                        if l0.products[other].name == pv.name {
                            assert(has_product(l0.products, pv.name));
                        }
                    } else {
                        assert(pv.name == oldn);
                        assert(l0.products[k as int].name == oldn);
                    }
                }
            }
            // every old name still resolves, and the new name resolves at k
            assert forall|x: Seq<char>|
                has_product(l0.products, x) && x != oldn implies has_product(newps, x) by {
                let w = product_idx(l0.products, x);
                assert(0 <= w < l0.products.len() && l0.products[w].name == x);
                if w == k as int {
                    assert(l0.products[k as int].name == oldn);
                }
                assert(newps[w] == l0.products[w]);
            }
            assert(newps[k as int].name == pv.name);
            assert(has_product(newps, pv.name));
        }
        if renaming {
            let ghost st0 = l0.stock;
            proof {
                assert(lots_view(self.stock@) == st0);
                // no lot carries the new name yet
                assert forall|j: int| 0 <= j < st0.len() implies (#[trigger] st0[j]).name
                    != pv.name by {
                    if st0[j].name == pv.name {
                        assert(has_product(l0.products, st0[j].name));
                    }
                }
            }
            let n = self.stock.len();
            let mut i: usize = 0;
            while i < n
                invariant
                    i <= n,
                    n == self@.stock.len(),
                    self@.stock.len() == st0.len(),
                    products_view(self.products@) == newps,
                    crate::ledger::loans_view(self.loans@) == l0.loans,
                    crate::ledger::sales_view(self.sales@) == l0.sales,
                    new_name@ == pv.name,
                    prior@ == oldn,
                    forall|j: int|
                        0 <= j < i ==> #[trigger] self@.stock[j] == rename_stock(
                            st0,
                            oldn,
                            pv.name,
                        )[j],
                    forall|j: int| i <= j < n ==> #[trigger] self@.stock[j] == st0[j],
                decreases n - i,
            {
                proof {
                    assert(self@.stock[i as int] == st0[i as int]);
                }
                let ghost pre = self@.stock;
                let ghost prevec = self.stock@;
                if str_eq(self.stock[i].name.as_str(), prior.as_str()) {
                    proof {
                        assert(st0[i as int].name == oldn);
                    }
                    let expiry = self.stock[i].expiry.clone();
                    let qty = self.stock[i].qty;
                    self.stock[i] = LotRow { name: new_name.clone(), expiry, qty };
                    proof {
                        assert(self@.stock[i as int].name == pv.name);
                        assert(self@.stock[i as int].expiry == st0[i as int].expiry);
                        assert(self@.stock[i as int].qty == st0[i as int].qty);
                        assert(self@.stock[i as int] == rename_stock(st0, oldn, pv.name)[i as int]);
                        assert forall|j: int| 0 <= j < n && j != i as int implies #[trigger] self@.stock[j]
                            == pre[j] by {
                            assert(self.stock@[j] == prevec[j]);
                            assert(self@.stock[j] == self.stock@[j]@);
                            assert(pre[j] == prevec[j]@);
                        }
                    }
                } else {
                    proof {
                        assert(st0[i as int].name != oldn);
                        assert(self@.stock[i as int] == rename_stock(st0, oldn, pv.name)[i as int]);
                    }
                }
                i = i + 1;
            }
            proof {
                let newst = rename_stock(st0, oldn, pv.name);
                assert(lots_view(self.stock@) =~= newst);
                // keys stay unique
                assert forall|a: int, b: int|
                    0 <= a < b < newst.len() implies !(newst[a].name == newst[b].name
                    && newst[a].expiry == newst[b].expiry) by {
                    assert(st0[a].name != pv.name && st0[b].name != pv.name);
                    if st0[a].name == oldn && st0[b].name == oldn {
                        assert(!(st0[a].name == st0[b].name && st0[a].expiry == st0[b].expiry));
                    }
                }
                // every lot still names a product
                assert forall|j: int| 0 <= j < newst.len() implies has_product(
                    newps,
                    (#[trigger] newst[j]).name,
                ) by {
                    if st0[j].name == oldn {
                        assert(newst[j].name == pv.name);
                    } else {
                        assert(newst[j] == st0[j]);
                        assert(has_product(l0.products, st0[j].name));
                        assert(st0[j].name != oldn);
                        assert(has_product(newps, st0[j].name));
                    }
                }
                assert forall|j: int| 0 <= j < newst.len() implies (#[trigger] newst[j]).qty
                    > 0 by {
                    assert(st0[j].qty > 0);
                }
            }
        } else {
            proof {
                // the stock is untouched and every reference still resolves
                assert forall|j: int| 0 <= j < self@.stock.len() implies has_product(
                    newps,
                    (#[trigger] self@.stock[j]).name,
                ) by {
                    assert(has_product(l0.products, self@.stock[j].name));
                    if self@.stock[j].name != oldn {
                        assert(has_product(newps, self@.stock[j].name));
                    } else {
                        assert(pv.name == oldn);
                    }
                }
            }
        }
        let mut stmts: Vec<Statement> = Vec::new();
        stmts.push(stmt);
        proof {
            assert(stmts_view(stmts@) =~= update_product_plan(pv, onv));
        }
        Result::Ok(stmts)
    }

    /// Deletes a product, unless a stock lot or a transaction item still
    /// references it; deleting an absent name is a harmless no-op.
    pub fn delete_product(&mut self, name: &String) -> (r: Result<Vec<Statement>, LedgerError>)
        requires
            old(self).wf(),
        ensures
            final (self).wf(),
            final (self)@.stock == old(self)@.stock,
            final (self)@.loans == old(self)@.loans,
            final (self)@.sales == old(self)@.sales,
            match r {
                Result::Ok(stmts) => delete_product_check(old(self)@, name@) == Result::<
                    Seq<ProductV>,
                    LedgerErrorV,
                >::Ok(final (self)@.products) && stmts_view(stmts@) == seq![
                    StatementV::DeleteProduct { name: name@ },
                ],
                Result::Err(e) => final (self)@.products == old(self)@.products
                    && delete_product_check(old(self)@, name@) == Result::<
                    Seq<ProductV>,
                    LedgerErrorV,
                >::Err(e@),
            },
    {
        if self.stock_uses(name) || self.loans_use(name) || self.sales_use(name) {
            return Result::Err(LedgerError::ProductInUse { name: name.clone() });
        }
        let ghost l0 = self@;
        proof {
            lemma_remove_product(l0.products, name@);
        }
        match self.find_product(name) {
            Option::Some(k) => {
                proof {
                    let k2 = product_idx(l0.products, name@);
                    assert(0 <= k2 < l0.products.len() && l0.products[k2].name == name@);
                    if k2 != k as int {
                        assert(l0.products[k2].name == l0.products[k as int].name);
                    }
                    l0.products.remove_ensures(k as int);
                }
                self.products.remove(k);
                proof {
                    assert(products_view(self.products@) =~= l0.products.remove(
                        product_idx(l0.products, name@),
                    ));
                    assert forall|j: int| 0 <= j < self@.stock.len() implies has_product(
                        self@.products,
                        (#[trigger] self@.stock[j]).name,
                    ) by {
                        assert(has_product(l0.products, self@.stock[j].name));
                        if self@.stock[j].name == name@ {
                            assert(stock_uses_product(l0.stock, name@));
                        }
                        assert(has_product(
                            crate::ledger::remove_product(l0.products, name@),
                            self@.stock[j].name,
                        ));
                    }
                }
            },
            Option::None => {},
        }
        let mut stmts: Vec<Statement> = Vec::new();
        stmts.push(Statement::DeleteProduct { name: name.clone() });
        proof {
            assert(stmts_view(stmts@) =~= seq![StatementV::DeleteProduct { name: name@ }]);
        }
        Result::Ok(stmts)
    }
}

} // verus!
