//! The screen-coordinate conversion rule, held exactly.
//!
//! A point is drawn at `conv(value, max_value, scale) = scale * value /
//! max_value` plus a margin.  The rule is kept here over exact fractions, so
//! its algebra — `conv(0, m, s) = 0` and `conv(m, m, s) = s` for every nonzero
//! `m` — is provable; the host shell evaluates the same rule in its own
//! floating point when it draws.

use vstd::prelude::*;

verus! {

/// An exact fraction `num / den`.
#[derive(Clone, Copy, PartialEq, Eq, Structural, Debug)]
pub struct Frac {
    pub num: i64,
    pub den: i64,
}

/// Mathematical model of a fraction: unbounded numerator and denominator.
pub struct FracV {
    pub num: int,
    pub den: int,
}

impl View for Frac {
    type V = FracV;

    open spec fn view(&self) -> FracV {
        FracV { num: self.num as int, den: self.den as int }
    }
}

pub open spec fn frac_wf(f: FracV) -> bool {
    f.den != 0
}

/// Two fractions stand for the same rational number.
pub open spec fn frac_eq(f: FracV, g: FracV) -> bool {
    f.num * g.den == g.num * f.den
}

/// `scale * value / max_value` as one exact fraction.
pub open spec fn spec_conv(value: FracV, max_value: FracV, scale: FracV) -> FracV {
    FracV {
        num: scale.num * value.num * max_value.den,
        den: scale.den * value.den * max_value.num,
    }
}

/// Converts a value from fractal space into screen space: `scale * value /
/// max_value`, exactly.  The bound on the inputs keeps the products inside a
/// machine word.
pub fn conv(value: Frac, max_value: Frac, scale: Frac) -> (r: Frac)
    requires
        value.den != 0,
        max_value.den != 0,
        max_value.num != 0,
        scale.den != 0,
        -1048576 <= value.num <= 1048576,
        -1048576 <= value.den <= 1048576,
        -1048576 <= max_value.num <= 1048576,
        -1048576 <= max_value.den <= 1048576,
        -1048576 <= scale.num <= 1048576,
        -1048576 <= scale.den <= 1048576,
    ensures
        r@ == spec_conv(value@, max_value@, scale@),
        frac_wf(r@),
{
    proof {
        lemma_three_product_bound(scale@.num, value@.num, max_value@.den);
        lemma_three_product_bound(scale@.den, value@.den, max_value@.num);
        assert(scale@.den * value@.den * max_value@.num != 0) by (nonlinear_arith)
            requires
                scale@.den != 0,
                value@.den != 0,
                max_value@.num != 0,
        ;
    }
    Frac { num: scale.num * value.num * max_value.den, den: scale.den * value.den * max_value.num }
}

/// Bounds the product of three values of at most a megabyte's magnitude.
proof fn lemma_three_product_bound(x: int, y: int, z: int)
    by (nonlinear_arith)
    requires
        -1048576 <= x <= 1048576,
        -1048576 <= y <= 1048576,
        -1048576 <= z <= 1048576,
    ensures
        -1152921504606846976 <= x * y <= 1152921504606846976,
        -1152921504606846976 <= x * y * z <= 1152921504606846976,
{
}

/// Converting the zero value gives zero, whatever the nonzero maximum and the
/// scale.
pub proof fn lemma_conv_zero(value: FracV, max_value: FracV, scale: FracV)
    requires
        frac_wf(value),
        frac_wf(max_value),
        frac_wf(scale),
        max_value.num != 0,
        value.num == 0,
    ensures
        frac_eq(spec_conv(value, max_value, scale), (FracV { num: 0, den: 1 })),
{
    assert(scale.num * value.num * max_value.den == 0) by (nonlinear_arith)
        requires
            value.num == 0,
    ;
}

/// Converting the maximum itself gives exactly the scale, for every nonzero
/// maximum.
pub proof fn lemma_conv_whole(max_value: FracV, scale: FracV)
    requires
        frac_wf(max_value),
        frac_wf(scale),
        max_value.num != 0,
    ensures
        frac_eq(spec_conv(max_value, max_value, scale), scale),
{
    assert((scale.num * max_value.num * max_value.den) * scale.den == scale.num * (scale.den
        * max_value.den * max_value.num)) by (nonlinear_arith);
}

} // verus!
