//! Fixed-point arithmetic for the smoothing filters.
//!
//! Fractions such as a smoothing weight are held as parts per million, and a
//! smoothed quantity is held in millionths of its unit. Every operation rounds
//! in a stated way, so a filter's value is an exact function of its inputs.

use vstd::prelude::*;

verus! {

/// One whole, in parts per million. Also the number of millionths in a unit.
pub const PPM: u32 = 1_000_000;

/// The largest value a filter holds: `u64::MAX` units, in millionths.
pub const MICRO_LIMIT: u128 = 18_446_744_073_709_551_615_000_000;

/// `units` in millionths.
pub open spec fn to_micro(units: int) -> int {
    units * 1_000_000
}

/// The whole number of units nearest to `micro` millionths; a half rounds up.
pub open spec fn round_micro(micro: int) -> int {
    (micro + 500_000) / 1_000_000
}

/// The part `ratio_ppm` of `amount`, rounded down.
pub open spec fn portion(amount: int, ratio_ppm: int) -> int {
    amount * ratio_ppm / 1_000_000
}

/// The weighted mean `alpha * sample + (1 - alpha) * prev` of two values in
/// millionths, with the weight `alpha` in parts per million, rounded to the
/// nearest millionth (a half rounds up).
pub open spec fn blend(alpha_ppm: int, sample_micro: int, prev_micro: int) -> int {
    (alpha_ppm * sample_micro + (1_000_000 - alpha_ppm) * prev_micro + 500_000) / 1_000_000
}

/// The value of an exponential moving average after it has seen `sample`
/// units: the first sample seeds it, each later one is blended in.
pub open spec fn ema_next(alpha_ppm: int, prev: Option<int>, sample: int) -> int {
    match prev {
        None => to_micro(sample),
        Some(p) => blend(alpha_ppm, to_micro(sample), p),
    }
}

/// A weighted mean lies between the two values it is taken of.
pub proof fn lemma_blend_between(alpha_ppm: int, sample_micro: int, prev_micro: int)
    requires
        0 <= alpha_ppm <= 1_000_000,
    ensures
        sample_micro <= prev_micro ==> sample_micro <= blend(alpha_ppm, sample_micro, prev_micro)
            <= prev_micro,
        prev_micro <= sample_micro ==> prev_micro <= blend(alpha_ppm, sample_micro, prev_micro)
            <= sample_micro,
{
    let beta = 1_000_000 - alpha_ppm;
    let sum = alpha_ppm * sample_micro + beta * prev_micro;
    if sample_micro <= prev_micro {
        assert(alpha_ppm * sample_micro <= alpha_ppm * prev_micro) by (nonlinear_arith)
            requires
                0 <= alpha_ppm,
                sample_micro <= prev_micro,
        ;
        assert(beta * sample_micro <= beta * prev_micro) by (nonlinear_arith)
            requires
                0 <= beta,
                sample_micro <= prev_micro,
        ;
        assert(alpha_ppm * sample_micro + beta * sample_micro == 1_000_000 * sample_micro)
            by (nonlinear_arith)
            requires
                beta == 1_000_000 - alpha_ppm,
        ;
        assert(alpha_ppm * prev_micro + beta * prev_micro == 1_000_000 * prev_micro)
            by (nonlinear_arith)
            requires
                beta == 1_000_000 - alpha_ppm,
        ;
    } else {
        assert(alpha_ppm * prev_micro <= alpha_ppm * sample_micro) by (nonlinear_arith)
            requires
                0 <= alpha_ppm,
                prev_micro <= sample_micro,
        ;
        assert(beta * prev_micro <= beta * sample_micro) by (nonlinear_arith)
            requires
                0 <= beta,
                prev_micro <= sample_micro,
        ;
        assert(alpha_ppm * sample_micro + beta * sample_micro == 1_000_000 * sample_micro)
            by (nonlinear_arith)
            requires
                beta == 1_000_000 - alpha_ppm,
        ;
        assert(alpha_ppm * prev_micro + beta * prev_micro == 1_000_000 * prev_micro)
            by (nonlinear_arith)
            requires
                beta == 1_000_000 - alpha_ppm,
        ;
    }
}

/// A weighted mean is off the exact value `alpha * sample + (1 - alpha) *
/// prev` by half a millionth at most. The exact value is stated times one
/// million, to stay within whole numbers.
pub proof fn lemma_blend_nearest(alpha_ppm: int, sample_micro: int, prev_micro: int)
    ensures
        ({
            let exact = alpha_ppm * sample_micro + (1_000_000 - alpha_ppm) * prev_micro;
            exact - 500_000 < 1_000_000 * blend(alpha_ppm, sample_micro, prev_micro) <= exact
                + 500_000
        }),
{
}

/// Rounding to whole units is off by half a unit at most.
pub proof fn lemma_round_nearest(micro: int)
    ensures
        micro - 500_000 < to_micro(round_micro(micro)) <= micro + 500_000,
{
}

/// Blending a value with itself leaves it unchanged.
pub proof fn lemma_blend_same(alpha_ppm: int, value_micro: int)
    requires
        0 <= alpha_ppm <= 1_000_000,
    ensures
        blend(alpha_ppm, value_micro, value_micro) == value_micro,
{
    lemma_blend_between(alpha_ppm, value_micro, value_micro);
}

/// An exponential moving average over non-negative samples.
///
/// The weight of a new sample is `alpha` parts per million. The average holds
/// no value until the first sample, which it takes over as it is.
pub struct Ema {
    alpha_ppm: u32,
    micro: Option<u128>,
}

impl Ema {
    /// The weight of a new sample, in parts per million.
    pub closed spec fn alpha(&self) -> int {
        self.alpha_ppm as int
    }

    /// The average in millionths, `None` before the first sample.
    pub closed spec fn value(&self) -> Option<int> {
        match self.micro {
            None => None,
            Some(m) => Some(m as int),
        }
    }

    /// The weight is at most one whole, and the average is within range.
    pub closed spec fn wf(&self) -> bool {
        &&& self.alpha_ppm <= PPM
        &&& self.micro matches Some(m) ==> m <= MICRO_LIMIT
    }

    /// What `rounded` returns: the average in whole units, 0 while unseeded.
    pub open spec fn rounded_value(&self) -> int {
        match self.value() {
            None => 0,
            Some(m) => round_micro(m),
        }
    }

    /// A well-formed average holds no negative value and none above the limit.
    pub proof fn lemma_value_range(&self)
        requires
            self.wf(),
        ensures
            0 <= self.alpha() <= 1_000_000,
            self.value() matches Some(m) ==> 0 <= m <= MICRO_LIMIT,
            0 <= self.rounded_value() <= u64::MAX,
    {
    }

    /// An average without a value.
    pub fn new(alpha_ppm: u32) -> (ema: Ema)
        requires
            alpha_ppm <= PPM,
        ensures
            ema.wf(),
            ema.alpha() == alpha_ppm,
            ema.value() is None,
    {
        Ema { alpha_ppm, micro: None }
    }

    /// Takes `sample` into the average.
    pub fn observe(&mut self, sample: u64)
        requires
            old(self).wf(),
        ensures
            final(self).wf(),
            final(self).alpha() == old(self).alpha(),
            final(self).value() == Some(ema_next(old(self).alpha(), old(self).value(), sample as int)),
    {
        let sample_micro: u128 = sample as u128 * 1_000_000;
        match self.micro {
            None => {
                self.micro = Some(sample_micro);
            },
            Some(prev) => {
                let alpha: u128 = self.alpha_ppm as u128;
                let beta: u128 = 1_000_000 - alpha;
                proof {
                    lemma_blend_between(alpha as int, sample_micro as int, prev as int);
                    assert(alpha * sample_micro <= 1_000_000 * MICRO_LIMIT) by (nonlinear_arith)
                        requires
                            0 <= alpha <= 1_000_000,
                            0 <= sample_micro <= MICRO_LIMIT,
                    ;
                    assert(beta * prev <= 1_000_000 * MICRO_LIMIT) by (nonlinear_arith)
                        requires
                            0 <= beta <= 1_000_000,
                            0 <= prev <= MICRO_LIMIT,
                    ;
                }
                let sum: u128 = alpha * sample_micro + beta * prev + 500_000;
                self.micro = Some(sum / 1_000_000);
            },
        }
    }

    /// The average in whole units, rounded to the nearest; 0 before the first
    /// sample.
    pub fn rounded(&self) -> (units: u64)
        requires
            self.wf(),
        ensures
            units == self.rounded_value(),
    {
        match self.micro {
            None => 0,
            Some(m) => ((m + 500_000) / 1_000_000) as u64,
        }
    }

    /// Whether the average has seen a sample.
    pub fn is_seeded(&self) -> (seeded: bool)
        ensures
            seeded == self.value().is_some(),
    {
        self.micro.is_some()
    }
}

} // verus!
