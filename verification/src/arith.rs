//! Alignment arithmetic on addresses.
use vstd::prelude::*;

verus! {

/// The least multiple of `m` that is at least `x`.
pub open spec fn align_up(x: u64, m: u64) -> int {
    if x % m == 0 {
        x as int
    } else {
        x + (m - x % m)
    }
}

/// The greatest multiple of `m` that is at most `x`.
pub open spec fn align_down(x: u64, m: u64) -> int {
    (x / m) * m
}

/// `align_up` is a multiple of `m`, at least `x` and less than `x + m`, and
/// no multiple of `m` between `x` and it is smaller.
pub proof fn lemma_align_up(x: u64, m: u64)
    requires
        m > 0,
    ensures
        align_up(x, m) % (m as int) == 0,
        x <= align_up(x, m) < x + m,
        forall|y: int| x <= y && #[trigger] (y % (m as int)) == 0 ==> align_up(x, m) <= y,
{
    let q = x as int / m as int;
    let r = x as int % m as int;
    vstd::arithmetic::div_mod::lemma_fundamental_div_mod(x as int, m as int);
    vstd::arithmetic::div_mod::lemma_mod_bound(x as int, m as int);
    assert(x as int == m * q + r);
    if r == 0 {
    } else {
        assert(align_up(x, m) == m * (q + 1)) by (nonlinear_arith)
            requires
                x as int == m * q + r,
                align_up(x, m) == x + (m - r),
        ;
        vstd::arithmetic::div_mod::lemma_mod_multiples_basic(q + 1, m as int);
        assert((q + 1) * m == m * (q + 1)) by (nonlinear_arith);
    }
    assert forall|y: int| x <= y && #[trigger] (y % (m as int)) == 0 implies align_up(x, m) <= y by {
        vstd::arithmetic::div_mod::lemma_fundamental_div_mod(y, m as int);
        let qy = y / m as int;
        assert(y == m * qy);
        if r != 0 {
            assert(qy >= q + 1) by (nonlinear_arith)
                requires
                    y == m * qy,
                    x as int == m * q + r,
                    0 < r < m,
                    x <= y,
            ;
            assert(m * qy >= m * (q + 1)) by (nonlinear_arith)
                requires
                    qy >= q + 1,
                    m > 0,
            ;
            assert(align_up(x, m) == m * (q + 1)) by (nonlinear_arith)
                requires
                    x as int == m * q + r,
                    align_up(x, m) == x + (m - r),
            ;
        }
    }
}

/// `align_down` is a multiple of `m`, at most `x` and more than `x - m`.
pub proof fn lemma_align_down(x: u64, m: u64)
    requires
        m > 0,
    ensures
        align_down(x, m) % (m as int) == 0,
        x - m < align_down(x, m) <= x,
        align_down(x, m) >= 0,
{
    let q = x as int / m as int;
    vstd::arithmetic::div_mod::lemma_fundamental_div_mod(x as int, m as int);
    vstd::arithmetic::div_mod::lemma_mod_bound(x as int, m as int);
    vstd::arithmetic::div_mod::lemma_mod_multiples_basic(q, m as int);
    assert(q >= 0) by (nonlinear_arith)
        requires
            q == x as int / m as int,
            m > 0,
            x >= 0,
    ;
    assert(q * m >= 0) by (nonlinear_arith)
        requires
            q >= 0,
            m > 0,
    ;
    assert(q * m == m * q) by (nonlinear_arith);
}

/// `x / m * m`: the start of the `m`-aligned block holding `x`.
pub fn round_down(x: u64, m: u64) -> (r: u64)
    requires
        m > 0,
    ensures
        r == align_down(x, m),
{
    proof {
        lemma_align_down(x, m);
    }
    x / m * m
}

} // verus!
