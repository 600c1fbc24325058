//! Operational alerts: products that run low and gallons that expire soon.

use crate::instant::Instant;
use crate::records::{ClientGallon, Product};
use crate::window::{Bound, ReportWindow};
use vstd::prelude::*;

verus! {

/// A product with less stock than this is low.
pub const LOW_STOCK_THRESHOLD: i32 = 10;

/// How far ahead the expiry alert looks: thirty days, in nanoseconds.
pub const EXPIRY_HORIZON_NANOS: i128 = 2_592_000_000_000_000;

/// Whether the product's stock is under the threshold.
pub open spec fn is_low_stock(product: Product) -> bool {
    product.stock_quantity < LOW_STOCK_THRESHOLD
}

/// Whether an expiry falls in the thirty days from `now` on, both ends included.
pub open spec fn expires_soon(expiry: int, now: int) -> bool {
    now <= expiry <= now + EXPIRY_HORIZON_NANOS
}

/// How many of the products are low on stock.
pub open spec fn low_stock_count(products: Seq<Product>) -> nat {
    products.filter(|p: Product| is_low_stock(p)).len()
}

/// How many of the gallons expire in the thirty days from `now` on.
pub open spec fn expiring_count(gallons: Seq<ClientGallon>, now: int) -> nat {
    gallons.filter(|g: ClientGallon| expires_soon(g.expiration_date@, now)).len()
}

/// The two alert counts of a dashboard.
#[derive(Clone, Copy, Debug, PartialEq, Eq)]
pub struct Alerts {
    pub low_stock: u64,
    pub expiring: u64,
}

impl Alerts {
    /// The number shown on the dashboard: both counts together.
    pub fn total(&self) -> (r: u128)
        ensures
            r == self.low_stock + self.expiring,
    {
        self.low_stock as u128 + self.expiring as u128
    }
}

/// Whether the product counts towards the low-stock alert.
pub fn low_on_stock(product: &Product) -> (r: bool)
    ensures
        r == is_low_stock(*product),
{
    product.stock_quantity < LOW_STOCK_THRESHOLD
}

/// Whether a gallon with this expiry counts towards the expiry alert at `now`.
pub fn expiring_soon(expiry: &Instant, now: &Instant) -> (r: bool)
    ensures
        r == expires_soon(expiry@, now@),
{
    let at: i128 = expiry.to_nanos();
    let from: i128 = now.to_nanos();
    from <= at && at - from <= EXPIRY_HORIZON_NANOS
}

/// The window that the expiry alert scans at `now`: from `now` to thirty days
/// later, both included.
pub fn expiry_window(now: Instant) -> (r: ReportWindow)
    ensures
        r.wf(),
        r.spec_start()@ == now@,
        r.spec_end()@ == now@ + EXPIRY_HORIZON_NANOS,
        forall|t: int| r.holds(t) == expires_soon(t, now@),
{
    let from: i128 = now.to_nanos();
    ReportWindow::between(Bound::at(&now), Bound::within(from + EXPIRY_HORIZON_NANOS))
}

/// Counts the products that are low on stock and the gallons that expire in
/// the thirty days from `now` on. `now` is read once by the caller, so every
/// row is held against the same instant.
pub fn evaluate_alerts(products: &Vec<Product>, gallons: &Vec<ClientGallon>, now: Instant) -> (r:
    Alerts)
    ensures
        r.low_stock == low_stock_count(products@),
        r.expiring == expiring_count(gallons@, now@),
{
    let ghost low = |p: Product| is_low_stock(p);
    let ghost soon = |g: ClientGallon| expires_soon(g.expiration_date@, now@);
    let mut low_stock: u64 = 0;
    let mut i: usize = 0;
    assert(products@.take(0) =~= Seq::<Product>::empty());
    assert(Seq::<Product>::empty().filter(low).len() == 0) by {
        Seq::<Product>::empty().lemma_filter_len(low);
    }
    while i < products.len()
        invariant
            i <= products@.len(),
            low_stock == products@.take(i as int).filter(low).len(),
            low_stock <= i,
            low == |p: Product| is_low_stock(p),
        decreases products@.len() - i,
    {
        proof {
            assert(products@.take(i + 1) =~= products@.take(i as int).push(products@[i as int]));
            products@.take(i as int).lemma_filter_len_push(low, products@[i as int]);
        }
        if low_on_stock(&products[i]) {
            low_stock = low_stock + 1;
        }
        i = i + 1;
    }
    assert(products@.take(products@.len() as int) =~= products@);
    let mut expiring: u64 = 0;
    let mut j: usize = 0;
    assert(gallons@.take(0) =~= Seq::<ClientGallon>::empty());
    assert(Seq::<ClientGallon>::empty().filter(soon).len() == 0) by {
        Seq::<ClientGallon>::empty().lemma_filter_len(soon);
    }
    while j < gallons.len()
        invariant
            j <= gallons@.len(),
            expiring == gallons@.take(j as int).filter(soon).len(),
            expiring <= j,
            soon == |g: ClientGallon| expires_soon(g.expiration_date@, now@),
            low_stock == low_stock_count(products@),
        decreases gallons@.len() - j,
    {
        proof {
            assert(gallons@.take(j + 1) =~= gallons@.take(j as int).push(gallons@[j as int]));
            gallons@.take(j as int).lemma_filter_len_push(soon, gallons@[j as int]);
        }
        if expiring_soon(&gallons[j].expiration_date, &now) {
            expiring = expiring + 1;
        }
        j = j + 1;
    }
    assert(gallons@.take(gallons@.len() as int) =~= gallons@);
    Alerts { low_stock, expiring }
}

} // verus!
