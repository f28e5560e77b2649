//! Rounding and alignment.

use vstd::arithmetic::div_mod::lemma_add_mod_noop;
use vstd::arithmetic::div_mod::lemma_fundamental_div_mod;
use vstd::arithmetic::div_mod::lemma_mod_bound;
use vstd::arithmetic::div_mod::lemma_mod_self_0;
use vstd::arithmetic::div_mod::lemma_small_mod;
use vstd::arithmetic::power2::pow2;
use vstd::prelude::*;

verus! {

/// The least multiple of `a` that is not below `x`.
pub open spec fn align_up(x: int, a: int) -> int {
    if x % a == 0 {
        x
    } else {
        x + a - x % a
    }
}

/// `n` is a power of two.
pub open spec fn is_power_of_two(n: int) -> bool {
    exists|e: nat| n == #[trigger] pow2(e)
}

/// `align_up` rounds up, to a multiple, by less than one step.
pub proof fn lemma_align_up(x: int, a: int)
    requires
        a > 0,
    ensures
        x <= align_up(x, a) < x + a,
        align_up(x, a) % a == 0,
{
    lemma_mod_bound(x, a);
    if x % a != 0 {
        let r = x % a;
        lemma_add_mod_noop(x, a - r, a);
        lemma_small_mod(r as nat, a as nat);
        lemma_small_mod((a - r) as nat, a as nat);
        assert((x + (a - r)) % a == (r + (a - r)) % a);
        lemma_mod_self_0(a);
    }
}

/// No multiple of `a` lies between `x` and `align_up(x, a)`.
pub proof fn lemma_align_up_least(x: int, a: int, m: int)
    requires
        a > 0,
        m >= x,
        m % a == 0,
    ensures
        align_up(x, a) <= m,
{
    lemma_mod_bound(x, a);
    lemma_fundamental_div_mod(x, a);
    lemma_fundamental_div_mod(m, a);
    let qx = x / a;
    let qm = m / a;
    if x % a != 0 && m < align_up(x, a) {
        assert(m == a * qm);
        assert(x == a * qx + x % a);
        assert(a * qm > a * qx);
        assert(a * qm < a * qx + a);
        assert(qm > qx) by (nonlinear_arith)
            requires
                a > 0,
                a * qm > a * qx,
        ;
        assert(a * qm >= a * (qx + 1)) by (nonlinear_arith)
            requires
                a > 0,
                qm >= qx + 1,
        ;
        assert(a * (qx + 1) == a * qx + a) by (nonlinear_arith);
    }
}

/// The least multiple of `a` at or above `x`, where it can be represented.
pub fn checked_align_up(x: u64, a: u64) -> (r: Option<u64>)
    requires
        a > 0,
    ensures
        r == (if align_up(x as int, a as int) <= u64::MAX {
            Some(align_up(x as int, a as int) as u64)
        } else {
            None::<u64>
        }),
{
    let rem: u64 = x % a;
    if rem == 0 {
        Some(x)
    } else {
        x.checked_add(a - rem)
    }
}

/// Rounding up gives the one multiple that is not below the number and less than a step above.
pub proof fn law_rounding_up(x: int, a: int, m: int)
    requires
        a > 0,
    ensures
        align_up(x, a) == m <==> m % a == 0 && x <= m < x + a,
{
    lemma_align_up(x, a);
    if m % a == 0 && x <= m < x + a {
        lemma_align_up_least(x, a, m);
        let n = align_up(x, a);
        lemma_fundamental_div_mod(m, a);
        lemma_fundamental_div_mod(n, a);
        let qm = m / a;
        let qn = n / a;
        assert(qm == qn) by (nonlinear_arith)
            requires
                a > 0,
                m == a * qm,
                n == a * qn,
                n <= m < n + a,
        ;
    }
}

} // verus!
