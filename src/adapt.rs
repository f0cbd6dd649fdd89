use vstd::arithmetic::power2::{lemma2_to64, lemma2_to64_rest, lemma_pow2_strictly_increases, lemma_pow2_unfold, pow2};
use vstd::prelude::*;

verus! {

/// The schedule's test: the rejection streak exceeds `2^shrinks × rate`.
pub open spec fn shrink_is_due(streak: u64, shrinks: u32, rate: u64) -> bool {
    streak as int > pow2(shrinks as nat) * rate
}

/// `max` scaled by `num / den` and truncated, kept above `min`.
pub open spec fn shrunk_max(max: u32, min: u32, num: u32, den: u32) -> int {
    let m = (max as int * num as int) / den as int;
    if m <= min { min + 1 } else { m }
}

/// A shrink never raises `max` and keeps it above `min`.
pub proof fn lemma_shrunk_max_bounds(max: u32, min: u32, num: u32, den: u32)
    requires
        min < max,
        num < den,
    ensures
        (max as int * num as int) / den as int <= max,
        min < shrunk_max(max, min, num, den) <= max,
{
    assert(max as int * num as int <= max as int * den as int) by (nonlinear_arith)
        requires
            num < den,
            0 <= max,
    ;
    vstd::arithmetic::div_mod::lemma_div_is_ordered(
        max as int * num as int,
        max as int * den as int,
        den as int,
    );
    vstd::arithmetic::div_mod::lemma_div_multiples_vanish(max as int, den as int);
    assert(max as int * den as int == den as int * max as int) by (nonlinear_arith);
}

/// Whether the size range is due to shrink after `streak` rejections beyond
/// the commits, having shrunk `shrinks` times already.
pub fn shrink_due(streak: u64, shrinks: u32, rate: u64) -> (r: bool)
    requires
        rate > 0,
    ensures
        r == shrink_is_due(streak, shrinks, rate),
        r ==> shrinks < 64,
{
    if shrinks >= 64 {
        proof {
            lemma2_to64();
            if shrinks > 64 {
                lemma_pow2_strictly_increases(64, shrinks as nat);
            }
            assert(pow2(shrinks as nat) * rate >= pow2(shrinks as nat)) by (nonlinear_arith)
                requires
                    rate >= 1,
            ;
        }
        return false;
    }
    let mut t: u128 = 1;
    let mut j: u32 = 0;
    proof {
        lemma2_to64();
    }
    while j < shrinks
        invariant
            j <= shrinks < 64,
            t as int == pow2(j as nat),
            t <= 0x8000_0000_0000_0000,
        decreases shrinks - j,
    {
        proof {
            lemma_pow2_unfold((j + 1) as nat);
            lemma2_to64();
            if j + 1 < 63 {
                lemma_pow2_strictly_increases((j + 1) as nat, 63);
            } else {
                assert((j + 1) as nat == 63nat);
            }
            lemma2_to64_rest();
            assert(pow2((j + 1) as nat) <= 0x8000_0000_0000_0000);
        }
        t = t * 2;
        j = j + 1;
    }
    assert(t * (rate as u128) <= 0x8000_0000_0000_0000 * 0xFFFF_FFFF_FFFF_FFFFu128) by (nonlinear_arith)
        requires
            t <= 0x8000_0000_0000_0000,
            rate <= 0xFFFF_FFFF_FFFF_FFFFu64,
    ;
    (streak as u128) > t * (rate as u128)
}

/// Shrinks `max` by the ratio `num / den` (truncating), then lifts it back
/// to `min + 1` if it fell to `min` or below.
pub fn shrink_max(max: u32, min: u32, num: u32, den: u32) -> (r: u32)
    requires
        min < max,
        num < den,
    ensures
        r as int == shrunk_max(max, min, num, den),
        min < r <= max,
{
    assert((max as u64) * (num as u64) <= 0xFFFF_FFFF * 0xFFFF_FFFFu64) by (nonlinear_arith)
        requires
            max <= 0xFFFF_FFFFu32,
            num <= 0xFFFF_FFFFu32,
    ;
    let m: u64 = ((max as u64) * (num as u64)) / (den as u64);
    proof {
        lemma_shrunk_max_bounds(max, min, num, den);
    }
    if m <= min as u64 {
        min + 1
    } else {
        m as u32
    }
}

} // verus!
