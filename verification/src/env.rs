//! The configuration a deployment hands the service at start-up.

use vstd::prelude::*;

verus! {

/// The three settings the surrounding service is started with: where its
/// database lives, which client origin it serves, and the cookie domain.
#[derive(Clone, Debug)]
pub struct Env {
    pub database_url: String,
    pub client_url: String,
    pub domain: String,
}

} // verus!
