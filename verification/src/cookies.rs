//! The session identity a caller presents.
//!
//! The surrounding service identifies an investor's portfolio by a numeric
//! id carried in a session cookie; the library deals only in the id
//! itself, and this type is its carrier.

use vstd::prelude::*;

verus! {

/// The portfolio a request speaks for.
#[derive(Clone, Copy, PartialEq, Eq, Structural, Debug)]
pub struct PortfolioId(pub i32);

} // verus!
