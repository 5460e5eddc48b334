//! Integer division helpers with floor and ceiling rounding.
use vstd::prelude::*;
use vstd::arithmetic::div_mod::{lemma_fundamental_div_mod, lemma_fundamental_div_mod_converse};

verus! {

/// `n / d` rounded towards negative infinity.
pub fn floor_div(n: i128, d: i128) -> (r: i128)
    requires
        d > 0,
        n > i128::MIN,
    ensures
        r == n / d,
        n >= 0 ==> 0 <= r <= n,
        n < 0 ==> n <= r < 0,
{
    if n >= 0 {
        proof {
            lemma_fundamental_div_mod(n as int, d as int);
            let q = n as int / d as int;
            assert(0 <= q <= n) by (nonlinear_arith)
                requires
                    n == d * q + (n as int % d as int),
                    0 <= (n as int % d as int) < d,
                    n >= 0,
                    d >= 1,
            ;
        }
        n / d
    } else {
        let m: i128 = -n;
        let t: i128 = (m - 1) / d + 1;
        proof {
            let tt = (m - 1) as int / d as int;
            lemma_fundamental_div_mod((m - 1) as int, d as int);
            let rr = (m - 1) as int % d as int;
            assert((m - 1) == d * tt + rr);
            assert(0 <= rr < d);
            assert(0 <= tt <= m - 1) by (nonlinear_arith)
                requires
                    m - 1 == d * tt + rr,
                    0 <= rr < d,
                    m >= 1,
                    d >= 1,
            ;
            assert(n == (-(tt + 1)) * d + (d - 1 - rr)) by (nonlinear_arith)
                requires
                    m - 1 == d * tt + rr,
                    n == -m,
            ;
            lemma_fundamental_div_mod_converse(n as int, d as int, -(tt + 1), d - 1 - rr);
        }
        -t
    }
}

/// `n / d` rounded towards positive infinity.
pub open spec fn ceil_div(n: int, d: int) -> int {
    -((-n) / d)
}

/// `n / d` rounded towards positive infinity.
pub fn ceil_div_exec(n: i128, d: i128) -> (r: i128)
    requires
        d > 0,
        n > i128::MIN,
    ensures
        r == ceil_div(n as int, d as int),
{
    -floor_div(-n, d)
}

} // verus!
