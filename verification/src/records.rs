//! The rows that reports are computed from, as plain values.

use crate::instant::Instant;
use vstd::prelude::*;

verus! {

/// One sale. Money is counted in cents.
#[derive(Clone, Debug, PartialEq, Eq)]
pub struct Sale {
    pub id: i32,
    /// The client who bought; that client may since have been deleted.
    pub client_id: i32,
    /// The line items as stored, passed through unread.
    pub items: String,
    pub total_cents: u64,
    pub payment_method: String,
    pub created_at: Instant,
}

/// A client, as far as reports name one.
#[derive(Clone, Debug, PartialEq, Eq)]
pub struct Client {
    pub id: i32,
    pub name: String,
}

/// A product, as far as stock alerts look at one.
#[derive(Clone, Copy, Debug, PartialEq, Eq)]
pub struct Product {
    pub id: i32,
    pub stock_quantity: i32,
}

/// A returnable gallon held by a client.
#[derive(Clone, Debug, PartialEq, Eq)]
pub struct ClientGallon {
    pub id: i32,
    pub client_id: i32,
    pub brand: String,
    pub expiration_date: Instant,
}

} // verus!
