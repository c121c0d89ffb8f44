//! Powers of two, as ring and FFT sizes use them.
use vstd::prelude::*;

verus! {

/// `n` is a power of two (1, 2, 4, ...).
pub open spec fn is_pow2(n: nat) -> bool
    decreases n,
{
    if n == 0 {
        false
    } else if n == 1 {
        true
    } else if n % 2 == 1 {
        false
    } else {
        is_pow2(n / 2)
    }
}

/// A power of two divides every power of two that is at least as large.
pub proof fn lemma_pow2_divides(c: nat, m: nat)
    requires
        is_pow2(c),
        is_pow2(m),
        c <= m,
    ensures
        m % c == 0,
    decreases c,
{
    if c > 1 {
        assert(m > 1);
        lemma_pow2_divides((c / 2) as nat, (m / 2) as nat);
        let q = (m / 2) / (c / 2);
        assert((m / 2) == q * (c / 2)) by (nonlinear_arith)
            requires
                (m / 2) % (c / 2) == 0,
                c / 2 > 0,
                q == (m / 2) / (c / 2),
        ;
        assert(m == q * c) by (nonlinear_arith)
            requires
                m / 2 == q * (c / 2),
                m % 2 == 0,
                c % 2 == 0,
        ;
        assert(m % c == 0) by (nonlinear_arith)
            requires
                m == q * c,
                c > 0,
        ;
    }
}

/// 2^32 is a power of two.
pub proof fn lemma_pow2_u32_range()
    ensures
        is_pow2(0x1_0000_0000),
{
    reveal_with_fuel(is_pow2, 34);
}

/// Whether `n` is a power of two.
pub fn is_power_of_two(n: usize) -> (b: bool)
    ensures
        b == is_pow2(n as nat),
{
    if n == 0 {
        return false;
    }
    let mut p: usize = 1;
    while p < n
        invariant
            is_pow2(p as nat),
            1 <= p,
            n > 0,
            p == 1 || (p / 2 < n && p % 2 == 0),
        decreases usize::MAX - p,
    {
        if p > usize::MAX / 2 {
            proof {
                if is_pow2(n as nat) {
                    lemma_pow2_divides(p as nat, n as nat);
                    assert(n >= 2 * p) by (nonlinear_arith)
                        requires
                            n % p == 0,
                            n > p,
                            p > 0,
                    ;
                }
            }
            return false;
        }
        proof {
            assert(is_pow2((2 * p) as nat)) by {
                assert((2 * p) as nat / 2 == p);
            }
            if is_pow2(n as nat) {
                lemma_pow2_divides(p as nat, n as nat);
                assert(n >= 2 * p) by (nonlinear_arith)
                    requires
                        n % p == 0,
                        n > p,
                        p > 0,
                ;
            }
        }
        p = p * 2;
    }
    proof {
        if is_pow2(n as nat) && p != n {
            assert(p > 1);
            assert(is_pow2((p / 2) as nat));
            lemma_pow2_divides((p / 2) as nat, n as nat);
            assert(n >= 2 * (p / 2)) by (nonlinear_arith)
                requires
                    n % (p / 2) == 0,
                    n > p / 2,
                    p / 2 > 0,
            ;
        }
    }
    p == n
}

/// 2^30 is a power of two.
proof fn lemma_pow2_2_30()
    ensures
        is_pow2(0x4000_0000),
{
    reveal_with_fuel(is_pow2, 32);
}

/// The smallest power of two that is at least `n` (1 for 0).
pub fn power_of_two_at_least(n: usize) -> (p: usize)
    requires
        n <= 0x4000_0000,
    ensures
        is_pow2(p as nat),
        p >= n,
        p == 1 || p / 2 < n,
        p <= 0x4000_0000,
{
    let mut p: usize = 1;
    proof {
        lemma_pow2_2_30();
    }
    while p < n
        invariant
            is_pow2(p as nat),
            1 <= p <= 0x4000_0000,
            n <= 0x4000_0000,
            p == 1 || p / 2 < n,
        decreases 0x4000_0000 - p,
    {
        proof {
            lemma_pow2_2_30();
            lemma_pow2_divides(p as nat, 0x4000_0000);
            assert(2 * p <= 0x4000_0000) by (nonlinear_arith)
                requires
                    0x4000_0000int % (p as int) == 0,
                    0x4000_0000 > p,
                    p > 0,
            ;
            assert(is_pow2((2 * p) as nat)) by {
                assert((2 * p) as nat / 2 == p);
            }
        }
        p = p * 2;
    }
    p
}

} // verus!
