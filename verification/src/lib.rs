//! Verified valuation core of a personal portfolio tracker.
//!
//! The library keeps an investor's ledger — registered assets (government
//! bonds and exchange-traded funds), their daily price observations, and the
//! buy/sell trades of each portfolio — and answers two questions about it:
//! what is held and what is it worth as of a date (`positions::position`),
//! and what has the portfolio been worth day by day since the first trade
//! (`amounts::run`).
//!
//! Dates are calendar day numbers. Monetary values are exact scaled
//! integers: the caller fixes one decimal scale for quantities and one for
//! prices, and every sum and product the library computes is exact in those
//! units; rounding for display is the caller's concern.

use vstd::prelude::*;

pub mod amounts;
pub mod assets;
pub mod cookies;
pub mod env;
pub mod positions;
pub mod prices;
pub mod trades;
pub mod transactions;

verus! {

/// Largest price, in scaled units, that a price observation or a trade may
/// carry. Together with `MAX_QUANTITY` and `MAX_TRADES` it keeps every
/// accumulated value inside `i128`.
pub const MAX_PRICE: i64 = 10_000_000_000_000;

/// Largest magnitude of a trade quantity, in scaled units.
pub const MAX_QUANTITY: i64 = 10_000_000_000_000;

/// Largest number of trades a ledger may hold.
pub const MAX_TRADES: usize = 100_000;

} // verus!
