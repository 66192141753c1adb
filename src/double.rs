//! Reading an IEEE-754 double, given by its bit pattern, as an integer.
use vstd::prelude::*;
use vstd::arithmetic::power2::{
    pow2, lemma_pow2_unfold, lemma_pow2_adds, lemma_pow2_pos, lemma_pow2_strictly_increases,
    lemma2_to64, lemma2_to64_rest,
};

verus! {

pub open spec fn sign_of(bits: u64) -> int {
    bits as int / 0x8000_0000_0000_0000
}

pub open spec fn exponent_of(bits: u64) -> int {
    (bits as int / 0x10_0000_0000_0000) % 2048
}

pub open spec fn fraction_of(bits: u64) -> int {
    bits as int % 0x10_0000_0000_0000
}

pub open spec fn clamp_i64(v: int) -> int {
    if v > i64::MAX {
        i64::MAX as int
    } else if v < i64::MIN {
        i64::MIN as int
    } else {
        v
    }
}

/// The double with bit pattern `bits`, truncated toward zero, saturated to
/// the range of `i64`; a NaN gives 0.
pub open spec fn double_trunc(bits: u64) -> int {
    let e = exponent_of(bits);
    let f = fraction_of(bits);
    if e == 2047 {
        if f != 0 {
            0
        } else if sign_of(bits) == 0 {
            i64::MAX as int
        } else {
            i64::MIN as int
        }
    } else if e < 1023 {
        0
    } else {
        let m = f + 0x10_0000_0000_0000;
        let mag = if e >= 1075 {
            m * (pow2((e - 1075) as nat) as int)
        } else {
            m / (pow2((1075 - e) as nat) as int)
        };
        clamp_i64(if sign_of(bits) == 0 { mag } else { -mag })
    }
}

fn pow2_u64(k: u64) -> (r: u64)
    requires
        k < 64,
    ensures
        r as nat == pow2(k as nat),
{
    let mut r: u64 = 1;
    let mut i: u64 = 0;
    proof {
        lemma2_to64();
    }
    while i < k
        invariant
            i <= k < 64,
            r as nat == pow2(i as nat),
        decreases k - i,
    {
        proof {
            lemma_pow2_unfold((i + 1) as nat);
            lemma_pow2_strictly_increases(i as nat, 63);
            lemma2_to64_rest();
        }
        r = r * 2;
        i = i + 1;
    }
    r
}

/// The double with bit pattern `bits` as an integer, truncated toward zero
/// and saturated as Rust's conversion to `i64` does.
pub fn truncate_double(bits: u64) -> (r: i64)
    ensures
        r as int == double_trunc(bits),
{
    let sign = bits / 0x8000_0000_0000_0000;
    let e = (bits / 0x10_0000_0000_0000) % 2048;
    let f = bits % 0x10_0000_0000_0000;
    if e == 2047 {
        if f != 0 {
            0
        } else if sign == 0 {
            i64::MAX
        } else {
            i64::MIN
        }
    } else if e < 1023 {
        0
    } else if e >= 1086 {
        proof {
            let m = f + 0x10_0000_0000_0000;
            lemma_pow2_adds(11, (e - 1086) as nat);
            lemma_pow2_pos((e - 1086) as nat);
            lemma2_to64();
            let p = pow2((e - 1075) as nat);
            assert(p >= 2048);
            assert(m * p >= 0x10_0000_0000_0000 * 2048) by (nonlinear_arith)
                requires m >= 0x10_0000_0000_0000, p >= 2048;
        }
        if sign == 0 {
            i64::MAX
        } else {
            i64::MIN
        }
    } else {
        let m: u64 = f + 0x10_0000_0000_0000;
        let mag: u64 = if e >= 1075 {
            let p = pow2_u64(e - 1075);
            proof {
                if e < 1085 {
                    lemma_pow2_strictly_increases((e - 1075) as nat, 10);
                }
                lemma2_to64();
                assert(m * p < 0x20_0000_0000_0000 * 1024) by (nonlinear_arith)
                    requires m < 0x20_0000_0000_0000, 0 < p <= 1024;
            }
            m * p
        } else {
            let p = pow2_u64(1075 - e);
            proof {
                lemma_pow2_pos((1075 - e) as nat);
                assert(m / p <= m) by (nonlinear_arith)
                    requires p > 0;
            }
            m / p
        };
        assert(mag < 0x8000_0000_0000_0000);
        if sign == 0 {
            mag as i64
        } else {
            -(mag as i64)
        }
    }
}

} // verus!
