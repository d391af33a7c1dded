//! Places on a ring: counting that goes round from the last place to the first.

use vstd::prelude::*;

verus! {

/// The index that `i` stands for on a ring of `n` places.
pub open spec fn wrap(i: int, n: int) -> int {
    i % n
}

/// On a ring of `n` places, one step below 0 is the last place, and one step
/// past the last place is 0.
pub proof fn lemma_wrap(i: int, n: int)
    requires
        n > 0,
        -1 <= i <= n,
    ensures
        wrap(i, n) == if i < 0 {
            n - 1
        } else if i == n {
            0
        } else {
            i
        },
{
    if i < 0 {
        assert((-1int) % n == n - 1) by (nonlinear_arith)
            requires
                n > 0,
        ;
    } else if i == n {
        assert(n % n == 0) by (nonlinear_arith)
            requires
                n > 0,
        ;
    } else {
        assert(i % n == i) by (nonlinear_arith)
            requires
                0 <= i < n,
        ;
    }
}

} // verus!
