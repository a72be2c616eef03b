//! The constant-time admin credential check.
//!
//! The store performs no authorization itself; it only offers the
//! timing-safe equality test that the excluded HTTP layer gates the
//! mutators with.

use vstd::prelude::*;

use crate::record::Config;

verus! {

/// Relies on subtle::ConstantTimeEq for byte slices: `ct_eq` is true
/// exactly when the two byte strings are equal, compared in constant
/// time; equal UTF-8 bytes mean equal strings.
#[verifier::external_body]
fn constant_time_str_eq(a: &str, b: &str) -> (r: bool)
    ensures
        r == (a@ == b@),
{
    bool::from(subtle::ConstantTimeEq::ct_eq(a.as_bytes(), b.as_bytes()))
}

impl Config {
    /// Checks a supplied admin credential against the stored one, in
    /// constant time: true exactly when they are equal.
    pub fn check_password(&self, given: &str) -> (ok: bool)
        ensures
            ok == (given@ == self.admin_password@),
    {
        constant_time_str_eq(given, self.admin_password.as_str())
    }
}

} // verus!
