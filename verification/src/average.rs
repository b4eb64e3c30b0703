use vstd::prelude::*;

use vstd::arithmetic::div_mod::{
    lemma_fundamental_div_mod, lemma_fundamental_div_mod_converse_div,
    lemma_fundamental_div_mod_converse_mod,
};
use vstd::arithmetic::power2::{lemma2_to64, lemma2_to64_rest, lemma_pow2_adds, pow2};

verus! {

/// Exponent field of a non-negative single-precision bit pattern.
pub open spec fn exp_field(bits: u32) -> int {
    bits as int / 0x80_0000
}

/// Significand of a normal single-precision bit pattern, with the implicit
/// leading bit made explicit.
pub open spec fn sig_field(bits: u32) -> int {
    bits as int % 0x80_0000 + 0x80_0000
}

/// `bits` is the IEEE-754 single-precision pattern of a non-negative normal
/// number within half an ulp of the ratio `n / d` (or exactly zero when the
/// numerator is zero).
///
/// A pattern with exponent field `e` and significand `m` denotes
/// `m * 2^(e - 150)`, so the half-ulp bound reads
/// `|n / d - m * 2^(e - 150)| <= 2^(e - 151)`; multiplying through by
/// `d * 2^(151 - e)` states it over integers alone.
pub open spec fn rounds_ratio(bits: u32, n: int, d: int) -> bool {
    if n == 0 {
        bits == 0
    } else {
        let scale = (151 - exp_field(bits)) as nat;
        &&& 79 <= exp_field(bits) <= 127
        &&& 2 * sig_field(bits) * d - d <= n * pow2(scale) <= 2 * sig_field(bits) * d + d
    }
}

/// Rounds the ratio `n / d` (a value in [0, 1]) to the nearest IEEE-754
/// single-precision number and returns its bit pattern.
///
/// The container header stores channel averages in this encoding.
pub fn ratio_to_bits(n: u64, d: u64) -> (bits: u32)
    requires
        1 <= d < 0x1_0000_0000_0000u64,
        n <= d,
    ensures
        rounds_ratio(bits, n as int, d as int),
{
    if n == 0 {
        return 0;
    }
    proof {
        lemma2_to64();
    }
    let mut s: u32 = 0;
    let mut shifted: u64 = n;
    while shifted < d
        invariant
            1 <= d < 0x1_0000_0000_0000u64,
            1 <= n <= d,
            shifted == n * pow2(s as nat),
            1 <= shifted < 2 * d,
            s <= 48,
        decreases 2 * d - shifted,
    {
        proof {
            lemma_pow2_adds(s as nat, 1);
            lemma2_to64();
            lemma2_to64_rest();
            assert(n * pow2((s + 1) as nat) == 2 * (n * pow2(s as nat))) by (nonlinear_arith)
                requires
                    pow2((s + 1) as nat) == pow2(s as nat) * 2,
            ;
            assert(s < 48) by {
                if s == 48 {
                    assert(n * pow2(48) >= pow2(48)) by (nonlinear_arith)
                        requires
                            n >= 1,
                            pow2(48) >= 1,
                    ;
                }
            }
        }
        shifted = 2 * shifted;
        s = s + 1;
    }
    // Now d <= shifted == n * 2^s < 2 * d: the significand of n / d is
    // shifted / d, a value in [1, 2).
    let wide: u128 = (shifted as u128) * 0x100_0000;
    let num: u128 = wide + (d as u128);
    let m: u128 = num / (2 * (d as u128));
    proof {
        lemma_fundamental_div_mod(num as int, 2 * d as int);
    }
    let ghost r: int = num as int % (2 * d as int);
    proof {
        assert(0x80_0000 <= m <= 0x100_0000) by (nonlinear_arith)
            requires
                num == shifted * 0x100_0000 + d,
                num == 2 * d * m + r,
                0 <= r < 2 * d,
                d <= shifted,
                shifted < 2 * d,
                1 <= d,
        ;
        // Connect the fixed-point computation back to n * 2^(s + 24).
        lemma_pow2_adds(s as nat, 24);
        assert(n * pow2((s + 24) as nat) == shifted * 0x100_0000) by (nonlinear_arith)
            requires
                pow2((s + 24) as nat) == pow2(s as nat) * 0x100_0000,
                shifted == n * pow2(s as nat),
        ;
        // Half-ulp bound at scale s + 24 for significand m.
        assert(2 * m * d - d <= n * pow2((s + 24) as nat) <= 2 * m * d + d) by (nonlinear_arith)
            requires
                num == n * pow2((s + 24) as nat) + d,
                num == 2 * d * m + r,
                0 <= r < 2 * d,
        ;
    }
    if m == 0x100_0000 {
        // The significand rounded up to 2.0: renormalize one binade up.
        proof {
            assert(s >= 1) by {
                if s == 0 {
                    // Then n == d, whose significand is exactly 1.0 and
                    // cannot round up to 2.0.
                    assert(pow2(0) == 1);
                    assert(shifted == n && n == d);
                    lemma_fundamental_div_mod_converse_div(num as int, 2 * d as int, 0x80_0000,
                        d as int);
                    assert(m == 0x80_0000);
                }
            }
            lemma_pow2_adds((s - 1) as nat, 24);
            lemma_pow2_adds((s - 1) as nat, 25);
            lemma_pow2_adds(s as nat, 24);
            // n * 2^(s + 24) == 2 * (n * 2^(s + 23)).
            assert(n * pow2((s + 24) as nat) == 2 * (n * pow2((s + 23) as nat)))
                by (nonlinear_arith)
                requires
                    pow2((s + 24) as nat) == pow2((s - 1) as nat) * 0x200_0000,
                    pow2((s + 23) as nat) == pow2((s - 1) as nat) * 0x100_0000,
            ;
            assert((s + 23) as nat == ((s - 1) + 24) as nat);
        }
        let e: u32 = 128 - s;
        let bits: u32 = e * 0x80_0000;
        proof {
            lemma_fundamental_div_mod_converse_div(bits as int, 0x80_0000, e as int, 0);
            lemma_fundamental_div_mod_converse_mod(bits as int, 0x80_0000, e as int, 0);
            assert(exp_field(bits) == e && sig_field(bits) == 0x80_0000);
            assert((151 - exp_field(bits)) as nat == (s + 23) as nat);
            let t = n * pow2((s + 23) as nat);
            assert(2 * t == n * pow2((s + 24) as nat));
            assert(2 * 0x100_0000 * d - d <= n * pow2((s + 24) as nat) <= 2 * 0x100_0000 * d
                + d) by (nonlinear_arith)
                requires
                    2 * m * d - d <= n * pow2((s + 24) as nat) <= 2 * m * d + d,
                    m == 0x100_0000,
            ;
            assert(0x200_0000 * d - d <= 2 * t <= 0x200_0000 * d + d);
            assert(2 * sig_field(bits) * d - d <= t <= 2 * sig_field(bits) * d + d)
                by (nonlinear_arith)
                requires
                    sig_field(bits) == 0x80_0000,
                    0x200_0000 * d - d <= 2 * t <= 0x200_0000 * d + d,
                    1 <= d,
            ;
        }
        bits
    } else {
        let e: u32 = 127 - s;
        let f: u32 = (m as u32) - 0x80_0000;
        let bits: u32 = e * 0x80_0000 + f;
        proof {
            lemma_fundamental_div_mod_converse_div(bits as int, 0x80_0000, e as int, f as int);
            lemma_fundamental_div_mod_converse_mod(bits as int, 0x80_0000, e as int, f as int);
            assert(sig_field(bits) == m);
            assert((151 - exp_field(bits)) as nat == (s + 24) as nat);
        }
        bits
    }
}

} // verus!
