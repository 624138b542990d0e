//! The registry of semantic verification checks. The checks themselves
//! interpret document payloads and live with the surrounding application;
//! the registry names what a verifying visitor runs.

use vstd::prelude::*;
use crate::lits;

verus! {

/// The names of the checks a verifying visitor runs over each advisory.
pub fn init_csaf_security_advisory_verifying_visitor() -> (r: Vec<Vec<u8>>)
    ensures
        r@.len() == 1,
        r@[0]@ == lits::spec_product_tree_check(),
{
    let mut out: Vec<Vec<u8>> = Vec::new();
    out.push(lits::product_tree_check());
    out
}

} // verus!
