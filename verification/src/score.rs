//! The three-valued score algebra of the engine.
//!
//! A score is `Win`, `Loss`, or a finite numeric value. Numeric values are
//! exact fixed-point numbers: `Numeric(v)` stands for the real number
//! `v / SCALE`. Two numeric scores compare equal when they differ by at most
//! `TOLERANCE` fixed-point units (0.01), so that rounding noise inside the
//! position evaluator does not perturb tie-breaking. `Win` and `Loss` are
//! absorbing under addition, except that summing them with each other
//! neutralises to `Numeric(0)`.

use vstd::prelude::*;

verus! {

use core::cmp::Ordering;

/// Fixed-point scale: `Numeric(v)` stands for the real number `v / SCALE`.
pub const SCALE: i128 = 100_000_000;

/// Comparison tolerance in fixed-point units: 0.01 of a score point.
pub const TOLERANCE: i128 = 1_000_000;

#[derive(Debug, Clone, Copy)]
pub enum Score {
    Numeric(i128),
    Win,
    Loss,
}

/// Truncating division (rounding toward zero), for a positive divisor.
pub open spec fn div_trunc(x: int, d: int) -> int
    recommends
        d > 0,
{
    if x >= 0 {
        x / d
    } else {
        -((-x) / d)
    }
}

impl Score {
    /// The three-way comparison of the algebra:
    /// `Loss < Numeric(_) < Win`, and two numeric values are equal
    /// when they differ by at most `TOLERANCE`.
    pub open spec fn cmp_spec(self, other: Score) -> Ordering {
        match self {
            Score::Win => match other {
                Score::Win => Ordering::Equal,
                _ => Ordering::Greater,
            },
            Score::Numeric(x) => match other {
                Score::Win => Ordering::Less,
                Score::Numeric(y) => {
                    if x - y < -TOLERANCE {
                        Ordering::Less
                    } else if x - y > TOLERANCE {
                        Ordering::Greater
                    } else {
                        Ordering::Equal
                    }
                },
                Score::Loss => Ordering::Greater,
            },
            Score::Loss => match other {
                Score::Loss => Ordering::Equal,
                _ => Ordering::Less,
            },
        }
    }

    pub open spec fn eq_spec_fn(self, other: Score) -> bool {
        self.cmp_spec(other) == Ordering::Equal
    }

    pub open spec fn lt_spec(self, other: Score) -> bool {
        self.cmp_spec(other) == Ordering::Less
    }

    pub open spec fn gt_spec(self, other: Score) -> bool {
        self.cmp_spec(other) == Ordering::Greater
    }

    /// Addition: numeric values add exactly; `Win` and `Loss` absorb
    /// everything except their opposite, which neutralises to `Numeric(0)`.
    pub open spec fn plus_spec(self, other: Score) -> Score {
        match self {
            Score::Win => match other {
                Score::Loss => Score::Numeric(0),
                _ => Score::Win,
            },
            Score::Numeric(x) => match other {
                Score::Win => Score::Win,
                Score::Numeric(y) => Score::Numeric((x + y) as i128),
                Score::Loss => Score::Loss,
            },
            Score::Loss => match other {
                Score::Win => Score::Numeric(0),
                _ => Score::Loss,
            },
        }
    }

    /// Whether the exact sum of two scores stays within the fixed-point range.
    pub open spec fn plus_in_range(self, other: Score) -> bool {
        match (self, other) {
            (Score::Numeric(x), Score::Numeric(y)) => i128::MIN <= x + y <= i128::MAX,
            _ => true,
        }
    }

    /// Multiplication by the rational constant `num / den`: the numeric value
    /// is multiplied exactly and rounded toward zero; a positive constant
    /// keeps `Win` and `Loss`, a negative one swaps them.
    pub open spec fn times_frac_spec(self, num: int, den: int) -> Score
        recommends
            den > 0,
    {
        match self {
            Score::Numeric(v) => Score::Numeric(div_trunc(v * num, den) as i128),
            Score::Win => if num > 0 {
                Score::Win
            } else {
                Score::Loss
            },
            Score::Loss => if num > 0 {
                Score::Loss
            } else {
                Score::Win
            },
        }
    }

    /// Whether multiplying by `num` stays within the fixed-point range.
    pub open spec fn times_in_range(self, num: int) -> bool {
        match self {
            Score::Numeric(v) => i128::MIN <= v * num <= i128::MAX,
            _ => true,
        }
    }

    pub open spec fn minus_spec(self, other: Score) -> Score {
        self.plus_spec(other.times_frac_spec(-1, 1))
    }

    /// The absolute value: anything not strictly greater than `Numeric(0)`
    /// is multiplied by `-1`. In particular `abs(Loss) == Win`, and a numeric
    /// value within the tolerance of zero is always flipped, so that
    /// `abs(Numeric(-k))` is exactly `Numeric(k)` for every `k >= 0`.
    pub open spec fn abs_spec(self) -> Score {
        if self.gt_spec(Score::Numeric(0)) {
            self
        } else {
            self.times_frac_spec(-1, 1)
        }
    }

    /// A score is finished when it is `Win` or `Loss`.
    pub open spec fn is_finished_spec(self) -> bool {
        match self {
            Score::Numeric(_) => false,
            _ => true,
        }
    }

    /// Three-way comparison with the tolerance-based total order.
    pub fn compare(&self, other: &Score) -> (r: Ordering)
        ensures
            r == self.cmp_spec(*other),
    {
        match self {
            Score::Win => match other {
                Score::Win => Ordering::Equal,
                _ => Ordering::Greater,
            },
            Score::Numeric(x) => match other {
                Score::Win => Ordering::Less,
                Score::Numeric(y) => {
                    match x.checked_sub(*y) {
                        Some(dif) => {
                            if dif < -TOLERANCE {
                                Ordering::Less
                            } else if dif > TOLERANCE {
                                Ordering::Greater
                            } else {
                                Ordering::Equal
                            }
                        },
                        None => {
                            // the exact difference overflows i128, so its
                            // magnitude is far beyond the tolerance
                            if *x < *y {
                                Ordering::Less
                            } else {
                                Ordering::Greater
                            }
                        },
                    }
                },
                Score::Loss => Ordering::Greater,
            },
            Score::Loss => match other {
                Score::Loss => Ordering::Equal,
                _ => Ordering::Less,
            },
        }
    }

    /// The greater of two scores under the tolerance-based order.
    pub fn max<'a>(one: &'a Score, other: &'a Score) -> (r: &'a Score)
        ensures
            r == if one.gt_spec(*other) {
                one
            } else {
                other
            },
    {
        if matches!(one.compare(other), Ordering::Greater) {
            one
        } else {
            other
        }
    }

    /// The lesser of two scores under the tolerance-based order.
    pub fn min<'a>(one: &'a Score, other: &'a Score) -> (r: &'a Score)
        ensures
            r == if one.lt_spec(*other) {
                one
            } else {
                other
            },
    {
        if matches!(one.compare(other), Ordering::Less) {
            one
        } else {
            other
        }
    }

    /// Addition in the score algebra.
    pub fn plus(self, other: Score) -> (r: Score)
        requires
            self.plus_in_range(other),
        ensures
            r == self.plus_spec(other),
    {
        match self {
            Score::Win => match other {
                Score::Loss => Score::Numeric(0),
                _ => Score::Win,
            },
            Score::Numeric(x) => match other {
                Score::Win => Score::Win,
                Score::Numeric(y) => Score::Numeric(x + y),
                Score::Loss => Score::Loss,
            },
            Score::Loss => match other {
                Score::Win => Score::Numeric(0),
                _ => Score::Loss,
            },
        }
    }

    /// Multiplication by the rational constant `num / den`.
    pub fn times_frac(self, num: i128, den: i128) -> (r: Score)
        requires
            den > 0,
            self.times_in_range(num as int),
        ensures
            r == self.times_frac_spec(num as int, den as int),
    {
        match self {
            Score::Numeric(v) => {
                let prod: i128 = v * num;
                proof {
                    if prod >= 0 {
                        vstd::arithmetic::div_mod::lemma_div_nonincreasing(prod as int, den as int);
                        vstd::arithmetic::div_mod::lemma_div_pos_is_pos(prod as int, den as int);
                    } else {
                        vstd::arithmetic::div_mod::lemma_div_nonincreasing(
                            (-(prod as int)),
                            den as int,
                        );
                        vstd::arithmetic::div_mod::lemma_div_pos_is_pos(
                            (-(prod as int)),
                            den as int,
                        );
                    }
                }
                let q: i128 = prod.checked_div(den).unwrap();
                Score::Numeric(q)
            },
            Score::Win => if num > 0 {
                Score::Win
            } else {
                Score::Loss
            },
            Score::Loss => if num > 0 {
                Score::Loss
            } else {
                Score::Win
            },
        }
    }

    /// Subtraction: `a - b` is `a + (b * -1)`.
    pub fn minus(self, other: Score) -> (r: Score)
        requires
            other.times_in_range(-1),
            self.plus_in_range(other.times_frac_spec(-1, 1)),
        ensures
            r == self.minus_spec(other),
    {
        self.plus(other.times_frac(-1, 1))
    }

    /// The absolute value under the tolerance-based order.
    pub fn abs(&self) -> (r: Score)
        requires
            self.times_in_range(-1),
        ensures
            r == self.abs_spec(),
    {
        if matches!(self.compare(&Score::Numeric(0)), Ordering::Greater) {
            *self
        } else {
            self.times_frac(-1, 1)
        }
    }

    /// Whether the game is decided: the score is `Win` or `Loss`.
    pub fn is_finished(&self) -> (r: bool)
        ensures
            r == self.is_finished_spec(),
    {
        match self {
            Score::Numeric(_) => false,
            _ => true,
        }
    }

    /// The numeric score `num / den`, as an exactly rounded fixed-point value.
    pub fn from_frac(num: i64, den: i64) -> (r: Score)
        requires
            den > 0,
        ensures
            r == Score::Numeric(div_trunc(num * SCALE, den as int) as i128),
    {
        let scaled: i128 = (num as i128) * SCALE;
        proof {
            if scaled >= 0 {
                vstd::arithmetic::div_mod::lemma_div_nonincreasing(scaled as int, den as int);
                vstd::arithmetic::div_mod::lemma_div_pos_is_pos(scaled as int, den as int);
            } else {
                vstd::arithmetic::div_mod::lemma_div_nonincreasing((-(scaled as int)), den as int);
                vstd::arithmetic::div_mod::lemma_div_pos_is_pos((-(scaled as int)), den as int);
            }
        }
        let q: i128 = scaled.checked_div(den as i128).unwrap();
        Score::Numeric(q)
    }
}

impl PartialEq for Score {
    fn eq(&self, other: &Score) -> (r: bool) {
        matches!(self.compare(other), Ordering::Equal)
    }
}

impl vstd::std_specs::cmp::PartialEqSpecImpl for Score {
    open spec fn obeys_eq_spec() -> bool {
        true
    }

    open spec fn eq_spec(&self, other: &Score) -> bool {
        self.eq_spec_fn(*other)
    }
}

impl PartialOrd for Score {
    fn partial_cmp(&self, other: &Score) -> (r: Option<Ordering>) {
        Some(self.compare(other))
    }
}

impl vstd::std_specs::cmp::PartialOrdSpecImpl for Score {
    open spec fn obeys_partial_cmp_spec() -> bool {
        true
    }

    open spec fn partial_cmp_spec(&self, other: &Score) -> Option<Ordering> {
        Some(self.cmp_spec(*other))
    }
}

/// Law: adding `Numeric(0)` leaves every score unchanged.
pub proof fn lemma_plus_zero(s: Score)
    ensures
        s.plus_spec(Score::Numeric(0)) == s,
{
}

/// Law: `Win` and `Loss` neutralise each other under addition.
pub proof fn lemma_win_plus_loss()
    ensures
        Score::Win.plus_spec(Score::Loss) == Score::Numeric(0),
        Score::Loss.plus_spec(Score::Win) == Score::Numeric(0),
{
}

/// Law: `Win` is above and `Loss` below every finite score.
pub proof fn lemma_win_loss_extremes(k: i128)
    ensures
        Score::Win.gt_spec(Score::Numeric(k)),
        Score::Numeric(k).gt_spec(Score::Loss),
        Score::Numeric(k).lt_spec(Score::Win),
        Score::Loss.lt_spec(Score::Numeric(k)),
{
}

/// Law: two numeric scores are equal exactly when they differ by at most
/// the tolerance.
pub proof fn lemma_numeric_eq_iff_within_tolerance(a: i128, b: i128)
    ensures
        Score::Numeric(a).eq_spec_fn(Score::Numeric(b)) <==> -TOLERANCE <= a - b <= TOLERANCE,
{
}

/// Law: the absolute value of a non-positive numeric score is its exact
/// negation: `abs(Numeric(-k)) == Numeric(k)` for every `k >= 0`.
pub proof fn lemma_abs_of_negated(k: i128)
    requires
        k >= 0,
    ensures
        Score::Numeric((-k) as i128).abs_spec() == Score::Numeric(k),
{
    assert(div_trunc(-k * -1, 1) == k) by {
        vstd::arithmetic::div_mod::lemma_div_basics_1(k as int);
    }
}

/// Law: multiplication by `-1` swaps `Win` and `Loss`.
pub proof fn lemma_times_negative_swaps()
    ensures
        Score::Win.times_frac_spec(-1, 1) == Score::Loss,
        Score::Loss.times_frac_spec(-1, 1) == Score::Win,
{
}

} // verus!
