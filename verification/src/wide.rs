//! Natural numbers of up to 384 bits, for sums of squares that 128 bits do
//! not hold.

use vstd::prelude::*;

verus! {

/// Two to the power of 64: what one half of a limb counts up to.
pub const HALF_LIMB: u128 = 0x1_0000_0000_0000_0000;

/// Two to the power of 128: what one limb counts up to.
pub open spec fn limb() -> int {
    0x1_0000_0000_0000_0000_0000_0000_0000_0000int
}

/// Two to the power of 256: what two limbs count up to.
pub open spec fn two_limbs() -> int {
    0x1_0000_0000_0000_0000_0000_0000_0000_0000_0000_0000_0000_0000_0000_0000_0000_0000int
}

/// Two to the power of 384: what three limbs count up to.
pub open spec fn three_limbs() -> int {
    0x1_0000_0000_0000_0000_0000_0000_0000_0000_0000_0000_0000_0000_0000_0000_0000_0000_0000_0000_0000_0000_0000_0000_0000_0000int
}

/// A natural number below two to the power of 384, in three limbs of 128
/// bits: `low + mid * 2^128 + high * 2^256`.
#[derive(Clone, Copy, Debug, PartialEq, Eq, Structural)]
pub struct Wide {
    pub low: u128,
    pub mid: u128,
    pub high: u128,
}

impl Wide {
    /// The number that the limbs stand for.
    pub open spec fn value(self) -> nat {
        (self.low + self.mid * limb() + self.high * two_limbs()) as nat
    }

    /// The limbs of a number below two to the power of 384.
    pub open spec fn of(v: nat) -> Wide {
        Wide {
            low: (v % (limb() as nat)) as u128,
            mid: ((v / (limb() as nat)) % (limb() as nat)) as u128,
            high: (v / (two_limbs() as nat)) as u128,
        }
    }

    /// The number zero.
    pub fn zero() -> (zero: Wide)
        ensures
            zero.value() == 0,
            zero == Wide::of(0),
    {
        Wide { low: 0, mid: 0, high: 0 }
    }

    /// The sum of `self` and the square of `d`.
    pub(crate) fn add_square(self, d: u128) -> (sum: Wide)
        requires
            self.value() + d * d < three_limbs(),
        ensures
            sum.value() == self.value() + d * d,
    {
        let (square_low, square_high) = square(d);
        let (low, carry_low) = add_carry(self.low, square_low);
        let (mid, carry_mid) = add_carry(self.mid, square_high);
        let (mid, carry_up) = add_carry(mid, carry_low);
        Wide { low, mid, high: self.high + carry_mid + carry_up }
    }
}

/// A number has one set of limbs only.
pub proof fn lemma_limbs_are_unique(w: Wide)
    ensures
        Wide::of(w.value()) == w,
        w.value() < three_limbs(),
{
    let v = w.value() as int;
    let l = limb();
    let upper = w.mid + w.high * l;
    assert(v == w.low + upper * l);
    assert(v % l == w.low && v / l == upper) by {
        vstd::arithmetic::div_mod::lemma_fundamental_div_mod_converse(v, l, upper, w.low as int);
    }
    assert(upper % l == w.mid && upper / l == w.high) by {
        vstd::arithmetic::div_mod::lemma_fundamental_div_mod_converse(
            upper,
            l,
            w.high as int,
            w.mid as int,
        );
    }
    assert(v == w.mid as int * l + w.low + w.high as int * two_limbs());
    assert(v / two_limbs() == w.high) by {
        vstd::arithmetic::div_mod::lemma_fundamental_div_mod_converse(
            v,
            two_limbs(),
            w.high as int,
            w.mid as int * l + w.low,
        );
    }
}

/// The sum of two limbs: its low limb, and what is carried to the next.
fn add_carry(x: u128, y: u128) -> (sum: (u128, u128))
    ensures
        sum.0 + sum.1 * limb() == x + y,
        sum.1 <= 1,
{
    if x <= u128::MAX - y {
        (x + y, 0)
    } else {
        (x - (u128::MAX - y) - 1, 1)
    }
}

/// The square of a limb: its low limb and its high limb.
fn square(d: u128) -> (product: (u128, u128))
    ensures
        product.0 + product.1 * limb() == d * d,
{
    let high_half = d / HALF_LIMB;
    let low_half = d % HALF_LIMB;
    assert(high_half * high_half <= 0xffff_ffff_ffff_fffe_0000_0000_0000_0001
        && high_half * low_half <= 0xffff_ffff_ffff_fffe_0000_0000_0000_0001
        && low_half * low_half <= 0xffff_ffff_ffff_fffe_0000_0000_0000_0001) by (nonlinear_arith)
        requires
            high_half <= 0xffff_ffff_ffff_ffff,
            low_half <= 0xffff_ffff_ffff_ffff,
    ;
    let low_square = low_half * low_half;
    let cross = high_half * low_half;
    let high_square = high_half * high_half;
    assert(d * d == high_square * limb() + 2 * cross * HALF_LIMB + low_square)
        by (nonlinear_arith)
        requires
            d == high_half * 0x1_0000_0000_0000_0000 + low_half,
            HALF_LIMB == 0x1_0000_0000_0000_0000,
            limb() == 0x1_0000_0000_0000_0000 * 0x1_0000_0000_0000_0000,
            low_square == low_half * low_half,
            cross == high_half * low_half,
            high_square == high_half * high_half,
    ;
    // Twice the cross product, a half limb up: it reaches over both limbs.
    let cross_high = cross / HALF_LIMB;
    let cross_low = cross % HALF_LIMB;
    let doubled = 2 * cross_low;
    let doubled_high = doubled / HALF_LIMB;
    let doubled_low = doubled % HALF_LIMB;
    let (low, carry) = add_carry(low_square, doubled_low * HALF_LIMB);
    (low, high_square + 2 * cross_high + doubled_high + carry)
}

} // verus!
