//! Trial-division primality: the predicate that decides which spiral cells
//! are marked on the rendered image.

use vstd::prelude::*;

verus! {

/// A number is prime here exactly when it is at least 2 and no candidate
/// divisor `d` with `2 <= d <= n / 2` divides it evenly. Trial division up to
/// half of `n`, inclusive, is the authoritative semantics.
pub open spec fn is_prime_spec(n: int) -> bool {
    n >= 2 && forall|d: int| 2 <= d <= n / 2 ==> #[trigger] (n % d) != 0
}

/// Decides primality of `n` by trial division over every candidate divisor
/// in `[2, n / 2]`.
pub fn is_prime(n: usize) -> (r: bool)
    ensures
        r == is_prime_spec(n as int),
{
    if n == 0 || n == 1 {
        return false;
    }
    let mut d: usize = 2;
    while d <= n / 2
        invariant
            n >= 2,
            2 <= d,
            forall|q: int| 2 <= q < d ==> #[trigger] (n as int % q) != 0,
        decreases n / 2 + 1 - d,
    {
        if n % d == 0 {
            return false;
        }
        d = d + 1;
    }
    true
}

} // verus!
