//! Binary32 words.
//!
//! Coordinates are stored as IEEE-754 single-precision bit patterns held in
//! `u32`. The library never does arithmetic on them. It orders them, and it
//! produces the words of small natural numbers; this module says what both
//! mean and proves that the code agrees.

use vstd::arithmetic::power2::{
    lemma2_to64, lemma_pow2_adds, lemma_pow2_pos, lemma_pow2_strictly_increases,
    lemma_pow2_unfold, pow2,
};
use vstd::prelude::*;

verus! {

/// The word of `0.0`.
pub const ZERO: u32 = 0;

/// The word of `1.0`.
pub const ONE: u32 = 0x3F80_0000;

/// The sign bit. Words from here on are negative.
pub const SIGN_BIT: u32 = 0x8000_0000;

/// The word of positive infinity. A larger magnitude is a NaN.
pub const INFINITY: u32 = 0x7F80_0000;

/// Two to the number of fraction bits: the bit that a normal number leaves
/// out of its fraction field.
pub const HIDDEN_BIT: u32 = 0x80_0000;

/// Naturals below this bound have an exact word.
pub const EXACT_RANGE: u32 = 0x100_0000;

/// Whether the sign bit of `w` is set.
pub open spec fn is_negative(w: u32) -> bool {
    w >= SIGN_BIT
}

/// The word without its sign bit: exponent field and fraction field.
pub open spec fn magnitude(w: u32) -> int {
    if w >= SIGN_BIT {
        w - SIGN_BIT
    } else {
        w as int
    }
}

/// Whether `w` is not a number.
pub open spec fn is_nan(w: u32) -> bool {
    magnitude(w) > INFINITY
}

/// The absolute value that a magnitude stands for, in units of `2^-149`.
///
/// With exponent field `e` and fraction field `f`, a subnormal (`e == 0`)
/// is `f * 2^-149` and a normal number is `(2^23 + f) * 2^(e - 150)`.
/// Infinity is given the value that the same rule yields, which lies above
/// every finite value.
pub open spec fn scaled_magnitude(m: int) -> int {
    let e = m / HIDDEN_BIT as int;
    let f = m % HIDDEN_BIT as int;
    if e == 0 {
        f
    } else {
        (HIDDEN_BIT + f) * pow2((e - 1) as nat)
    }
}

/// The value of a word that is not a NaN, in units of `2^-149`.
pub open spec fn scaled_value(w: u32) -> int {
    if is_negative(w) {
        -scaled_magnitude(magnitude(w))
    } else {
        scaled_magnitude(magnitude(w))
    }
}

/// The order of binary32: `a < b`. A NaN is not below anything and nothing
/// is below it; the two zeros are equal.
pub open spec fn less_than(a: u32, b: u32) -> bool {
    &&& !is_nan(a)
    &&& !is_nan(b)
    &&& scaled_value(a) < scaled_value(b)
}

/// `w` is the word of the natural number `n`: a finite word with a clear
/// sign bit whose value is `n`.
pub open spec fn encodes_nat(w: u32, n: nat) -> bool {
    &&& w < INFINITY
    &&& scaled_value(w) == n * pow2(149)
}

/// The word of the natural number `n`, for `n` below [`EXACT_RANGE`].
pub open spec fn nat_word(n: nat) -> u32 {
    choose|w: u32| encodes_nat(w, n)
}

/// A larger magnitude stands for a larger absolute value.
pub proof fn lemma_scaled_magnitude_increases(m1: int, m2: int)
    requires
        0 <= m1 < m2,
    ensures
        0 <= scaled_magnitude(m1) < scaled_magnitude(m2),
{
    let h = HIDDEN_BIT as int;
    let e1 = m1 / h;
    let f1 = m1 % h;
    let e2 = m2 / h;
    let f2 = m2 % h;
    assert(e1 <= e2 && (e1 == e2 ==> f1 < f2)) by {
        assert(m1 == h * e1 + f1 && m2 == h * e2 + f2);
    }
    if e1 == 0 {
        if e2 != 0 {
            lemma_pow2_pos((e2 - 1) as nat);
            assert((h + f2) * pow2((e2 - 1) as nat) >= h) by (nonlinear_arith)
                requires
                    f2 >= 0,
                    h > 0,
                    pow2((e2 - 1) as nat) >= 1,
            ;
        }
    } else if e1 == e2 {
        lemma_pow2_pos((e1 - 1) as nat);
        assert(0 <= (h + f1) * pow2((e1 - 1) as nat) < (h + f2) * pow2((e1 - 1) as nat))
            by (nonlinear_arith)
            requires
                0 <= f1 < f2,
                h > 0,
                pow2((e1 - 1) as nat) >= 1,
        ;
    } else {
        let low_scale = pow2((e1 - 1) as nat);
        let high_scale = pow2((e2 - 1) as nat);
        lemma_pow2_pos((e1 - 1) as nat);
        lemma_pow2_unfold(e1 as nat);
        if e1 < e2 - 1 {
            lemma_pow2_strictly_increases(e1 as nat, (e2 - 1) as nat);
        }
        assert(0 <= (h + f1) * low_scale < (h + f2) * high_scale) by (nonlinear_arith)
            requires
                0 <= f1 < h,
                0 <= f2,
                h > 0,
                low_scale >= 1,
                high_scale >= 2 * low_scale,
        ;
    }
}

/// A natural number has at most one word.
pub proof fn lemma_word_is_unique(w1: u32, w2: u32, n: nat)
    requires
        encodes_nat(w1, n),
        encodes_nat(w2, n),
    ensures
        w1 == w2,
{
    if w1 < w2 {
        lemma_scaled_magnitude_increases(w1 as int, w2 as int);
    } else if w2 < w1 {
        lemma_scaled_magnitude_increases(w2 as int, w1 as int);
    }
}

/// The word of `1.0` is the word of the natural number one.
pub proof fn lemma_one_is_nat_word()
    ensures
        ONE == nat_word(1),
{
    lemma2_to64();
    assert(ONE as int / HIDDEN_BIT as int == 127 && ONE as int % HIDDEN_BIT as int == 0);
    lemma_pow2_adds(23, 126);
    assert(encodes_nat(ONE, 1));
    lemma_word_is_unique(ONE, nat_word(1), 1);
}

/// The word of `0.0` is the word of the natural number zero.
pub proof fn lemma_zero_is_nat_word()
    ensures
        ZERO == nat_word(0),
{
    assert(encodes_nat(ZERO, 0));
    lemma_word_is_unique(ZERO, nat_word(0), 0);
}

/// Whether `a < b` in the order of binary32.
pub fn lt(a: u32, b: u32) -> (below: bool)
    ensures
        below == less_than(a, b),
{
    let a_magnitude = if a >= SIGN_BIT { a - SIGN_BIT } else { a };
    let b_magnitude = if b >= SIGN_BIT { b - SIGN_BIT } else { b };
    if a_magnitude > INFINITY || b_magnitude > INFINITY {
        return false;
    }
    proof {
        if a_magnitude < b_magnitude {
            lemma_scaled_magnitude_increases(a_magnitude as int, b_magnitude as int);
        } else if b_magnitude < a_magnitude {
            lemma_scaled_magnitude_increases(b_magnitude as int, a_magnitude as int);
        }
        if 0 < a_magnitude {
            lemma_scaled_magnitude_increases(0, a_magnitude as int);
        }
        if 0 < b_magnitude {
            lemma_scaled_magnitude_increases(0, b_magnitude as int);
        }
    }
    if a >= SIGN_BIT {
        if b >= SIGN_BIT {
            b_magnitude < a_magnitude
        } else {
            a_magnitude != 0 || b_magnitude != 0
        }
    } else {
        if b >= SIGN_BIT {
            false
        } else {
            a_magnitude < b_magnitude
        }
    }
}

/// The word of a natural number below [`EXACT_RANGE`].
pub fn word_of(n: u32) -> (w: u32)
    requires
        n < EXACT_RANGE,
    ensures
        encodes_nat(w, n as nat),
        w == nat_word(n as nat),
{
    if n == 0 {
        proof {
            lemma_zero_is_nat_word();
        }
        return ZERO;
    }
    let mut m: u32 = n;
    let mut e: u32 = 150;
    proof {
        lemma2_to64();
        assert(n * pow2(0) == n);
    }
    while m < HIDDEN_BIT
        invariant
            0 < n < EXACT_RANGE,
            0 < m < EXACT_RANGE,
            127 <= e <= 150,
            m == n * pow2((150 - e) as nat),
        decreases e,
    {
        proof {
            let k = (150 - e) as nat;
            lemma_pow2_unfold(k + 1);
            assert(n * pow2(k + 1) == 2 * (n * pow2(k))) by (nonlinear_arith)
                requires
                    pow2(k + 1) == 2 * pow2(k),
            ;
            if e == 127 {
                lemma2_to64();
                assert(n * pow2(23) >= pow2(23)) by (nonlinear_arith)
                    requires
                        n >= 1,
                ;
            }
        }
        m = m * 2;
        e = e - 1;
    }
    let w = e * HIDDEN_BIT + (m - HIDDEN_BIT);
    proof {
        let shift = (150 - e) as nat;
        let rest = (e - 1) as nat;
        assert(w as int / HIDDEN_BIT as int == e && w as int % HIDDEN_BIT as int == m - HIDDEN_BIT);
        lemma_pow2_adds(shift, rest);
        assert(m * pow2(rest) == n * pow2(149)) by (nonlinear_arith)
            requires
                m == n * pow2(shift),
                pow2(149) == pow2(shift) * pow2(rest),
        ;
        assert(encodes_nat(w, n as nat));
        lemma_word_is_unique(w, nat_word(n as nat), n as nat);
    }
    w
}

} // verus!
