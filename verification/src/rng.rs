//! Trusted access to the process's random number generator.

use vstd::prelude::*;
use rand::Rng;

verus! {

/// Every character is an ASCII letter or digit.
pub open spec fn alphanumeric(s: Seq<char>) -> bool {
    forall|i: int|
        0 <= i < s.len() ==> ('0' <= s[i] && s[i] <= '9') || ('a' <= s[i] && s[i] <= 'z') || (
        'A' <= s[i] && s[i] <= 'Z')
}

/// Relies on rand's thread-local generator sampling the `Alphanumeric`
/// distribution: ten bytes drawn from `A`-`Z`, `a`-`z` and `0`-`9`, which
/// form a ten-character alphanumeric ASCII string. The result is random,
/// so nothing more is promised of it.
#[verifier::external_body]
pub(crate) fn fresh_token() -> (r: String)
    ensures
        r@.len() == 10,
        alphanumeric(r@),
{
    let bytes: Vec<u8> = rand::thread_rng()
        .sample_iter(&rand::distributions::Alphanumeric)
        .take(10)
        .collect();
    String::from_utf8(bytes).unwrap()
}

/// Relies on rand's `Rng::gen_range` over `0..n`: an index drawn below
/// `n`. The empty range, on which it would panic, is ruled out, and which
/// index comes out is chance, so only the bound is promised.
#[verifier::external_body]
pub(crate) fn rand_index(n: usize) -> (r: usize)
    requires
        n > 0,
    ensures
        r < n,
{
    rand::thread_rng().gen_range(0..n)
}

} // verus!
