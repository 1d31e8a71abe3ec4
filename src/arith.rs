//! Integer percentages and fixed-point rate arithmetic, rounded toward zero
//! and capped symmetrically at the range of `i128`.
use vstd::prelude::*;
use vstd::arithmetic::div_mod::{lemma_fundamental_div_mod, lemma_fundamental_div_mod_converse};

verus! {

/// `v` limited to `-i128::MAX ..= i128::MAX`.
pub open spec fn clamp_i128(v: int) -> int {
    if v > i128::MAX {
        i128::MAX as int
    } else if v < -(i128::MAX as int) {
        -(i128::MAX as int)
    } else {
        v
    }
}

/// Percentages are fixed-point in hundredths of a percent: 5025 is 50.25%.
pub const PERCENT_SCALE: u64 = 100;

/// One hundred percent at `PERCENT_SCALE`.
pub const FULL_PERCENT: u64 = 10_000;

/// `v * mult / div`, rounded toward zero and capped.
pub open spec fn scaled(v: int, mult: int, div: int) -> int {
    if v >= 0 {
        clamp_i128(v * mult / div)
    } else {
        -clamp_i128((-v) * mult / div)
    }
}

proof fn lemma_split(part: int, mult: int, div: int)
    requires
        part >= 0,
        mult >= 0,
        div > 0,
    ensures
        part * mult / div == (part / div) * mult + (part % div) * mult / div,
        part / div >= 0,
        0 <= part % div < div,
        0 <= (part % div) * mult / div <= mult,
{
    let q = part / div;
    let r = part % div;
    lemma_fundamental_div_mod(part, div);
    let s = (r * mult) / div;
    let t = (r * mult) % div;
    lemma_fundamental_div_mod(r * mult, div);
    assert(part * mult == (q * mult + s) * div + t) by (nonlinear_arith)
        requires
            part == div * q + r,
            r * mult == div * s + t,
    ;
    lemma_fundamental_div_mod_converse(part * mult, div, q * mult + s, t);
    assert(q >= 0) by (nonlinear_arith)
        requires
            part == div * q + r,
            0 <= r < div,
            part >= 0,
    ;
    assert(0 <= s <= mult) by (nonlinear_arith)
        requires
            r * mult == div * s + t,
            0 <= r < div,
            0 <= t < div,
            mult >= 0,
    ;
}

/// `part * mult / div` for a non-negative `part`, rounded down and capped.
fn scaled_nonneg(part: u128, mult: u64, div: u64) -> (r: i128)
    requires
        part <= i128::MAX,
        div > 0,
    ensures
        r == clamp_i128(part as int * mult as int / div as int),
        r >= 0,
{
    let q = part / (div as u128);
    let rem = part % (div as u128);
    proof {
        lemma_split(part as int, mult as int, div as int);
        assert(rem * mult < 0x1_0000_0000_0000_0000 * 0x1_0000_0000_0000_0000) by (nonlinear_arith)
            requires
                rem < div,
                div <= 0xffff_ffff_ffff_ffff,
                mult <= 0xffff_ffff_ffff_ffff,
        ;
    }
    let low = (rem * (mult as u128)) / (div as u128);
    match q.checked_mul(mult as u128) {
        Some(high) => match high.checked_add(low) {
            Some(v) => if v > i128::MAX as u128 {
                i128::MAX
            } else {
                v as i128
            },
            None => i128::MAX,
        },
        None => i128::MAX,
    }
}

/// `v * mult / div`, rounded toward zero and capped.
pub fn scale(v: i128, mult: u64, div: u64) -> (r: i128)
    requires
        v > i128::MIN,
        div > 0,
    ensures
        r == scaled(v as int, mult as int, div as int),
        -i128::MAX <= r <= i128::MAX,
{
    if v >= 0 {
        scaled_nonneg(v as u128, mult, div)
    } else {
        let m = -v;
        -scaled_nonneg(m as u128, mult, div)
    }
}

/// `part` as a percentage of `whole` (at `PERCENT_SCALE`), rounded toward
/// zero and capped; zero when `whole` is zero.
pub open spec fn percent_of(part: int, whole: int) -> int {
    if whole > 0 {
        scaled(part, FULL_PERCENT as int, whole)
    } else if whole < 0 {
        scaled(-part, FULL_PERCENT as int, -whole)
    } else {
        0
    }
}

/// `part` as a percentage of `whole`, as `percent_of` says.
pub fn percent(part: i128, whole: i64) -> (r: i128)
    requires
        part > i128::MIN,
    ensures
        r == percent_of(part as int, whole as int),
{
    if whole > 0 {
        scale(part, FULL_PERCENT, whole as u64)
    } else if whole < 0 {
        let w = (-(whole as i128)) as u64;
        scale(-part, FULL_PERCENT, w)
    } else {
        0
    }
}

/// `floor(rem * FULL_PERCENT / whole)` for `rem < whole`, by repeated addition.
fn small_percent(rem: u128, whole: u128) -> (r: u128)
    requires
        rem < whole,
        whole <= i128::MAX,
    ensures
        r == rem as int * FULL_PERCENT as int / whole as int,
        r <= FULL_PERCENT,
{
    let mut acc: u128 = 0;
    let mut count: u128 = 0;
    let mut k: u128 = 0;
    while k < 10_000
        invariant
            k <= 10_000,
            rem < whole <= i128::MAX,
            acc < whole,
            count <= k,
            k * rem == count * whole + acc,
        decreases 10_000 - k,
    {
        let ghost c0 = count;
        if acc >= whole - rem {
            acc = acc - (whole - rem);
            count = count + 1;
        } else {
            acc = acc + rem;
        }
        proof {
            assert((k + 1) * rem == k * rem + rem) by (nonlinear_arith);
            assert((c0 + 1) * whole == c0 * whole + whole) by (nonlinear_arith);
        }
        k = k + 1;
    }
    proof {
        lemma_fundamental_div_mod_converse(rem * 10_000, whole as int, count as int, acc as int);
    }
    count
}

/// `part` as a percentage of a positive `whole` (at `PERCENT_SCALE`), rounded
/// toward zero and capped.
pub fn share_percent(part: i128, whole: i128) -> (r: i128)
    requires
        part > i128::MIN,
        whole > 0,
    ensures
        r == scaled(part as int, FULL_PERCENT as int, whole as int),
{
    let m: u128 = if part >= 0 {
        part as u128
    } else {
        (-part) as u128
    };
    let w = whole as u128;
    let q = m / w;
    let rem = m % w;
    proof {
        lemma_split(m as int, FULL_PERCENT as int, whole as int);
    }
    let low = small_percent(rem, w);
    let mag: i128 = match q.checked_mul(FULL_PERCENT as u128) {
        Some(high) => match high.checked_add(low) {
            Some(v) => if v > i128::MAX as u128 {
                i128::MAX
            } else {
                v as i128
            },
            None => i128::MAX,
        },
        None => i128::MAX,
    };
    if part >= 0 {
        mag
    } else {
        -mag
    }
}

/// `a + b`, capped.
pub fn capped_add(a: i128, b: i128) -> (r: i128)
    requires
        a > i128::MIN,
        b > i128::MIN,
    ensures
        r == clamp_i128(a + b),
{
    if b >= 0 {
        if a > i128::MAX - b {
            i128::MAX
        } else {
            a + b
        }
    } else {
        if a < -i128::MAX - b {
            -i128::MAX
        } else {
            a + b
        }
    }
}

} // verus!
