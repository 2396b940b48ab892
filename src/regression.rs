use vstd::prelude::*;

use crate::stats::{sum_of, sum_sq_of, Ratio};

verus! {

/// The largest number of points that `fit` takes: the products of its sums
/// stay within 128 bits, so slope and intercept are exact.
pub const MAX_FIT_VALUES: usize = 65535;

#[derive(Clone, Copy, Debug, PartialEq, Eq, Structural)]
pub enum RegressionError {
    LengthMismatch,
    EmptyInput,
    DegenerateInput,
}

/// The line `y = intercept + slope * x`. Both fractions share one positive
/// denominator.
#[derive(Clone, Copy, Debug, PartialEq, Eq, Structural)]
pub struct RegressionModel {
    pub slope: Ratio,
    pub intercept: Ratio,
}

/// Bound on the absolute value of a slope numerator that `fit` returns.
pub open spec fn slope_bound() -> int {
    (2 * 0xffff * 0xffff * 0x4000_0000_0000_0000) as int
}

/// Bound on the absolute value of an intercept numerator that `fit` returns.
pub open spec fn intercept_bound() -> int {
    (2 * 0xffff * 0xffff * 0x4000_0000_0000_0000 * 0x8000_0000) as int
}

impl RegressionModel {
    pub open spec fn wf(self) -> bool {
        &&& self.slope.den > 0
        &&& self.intercept.den == self.slope.den
        &&& -slope_bound() <= self.slope.num <= slope_bound()
        &&& -intercept_bound() <= self.intercept.num <= intercept_bound()
    }
}

pub open spec fn sum_prod_of(x: Seq<i32>, y: Seq<i32>) -> int
    decreases x.len(),
{
    if x.len() == 0 || y.len() == 0 {
        0
    } else {
        sum_prod_of(x.drop_last(), y.drop_last()) + x.last() * y.last()
    }
}

/// `n * sum(x^2) - sum(x)^2`: `n^2` times the population variance of `x`.
/// Where it is zero, no line can be fitted.
pub open spec fn spread_x(x: Seq<i32>) -> int {
    x.len() * sum_sq_of(x) - sum_of(x) * sum_of(x)
}

/// `n * sum(x * y) - sum(x) * sum(y)`: the numerator of the least-squares slope
/// `cov(x, y) / var(x)` over the denominator `spread_x(x)`.
pub open spec fn slope_numerator(x: Seq<i32>, y: Seq<i32>) -> int {
    x.len() * sum_prod_of(x, y) - sum_of(x) * sum_of(y)
}

/// `sum(y) * sum(x^2) - sum(x) * sum(x * y)`: the numerator of the
/// least-squares intercept `mean(y) - slope * mean(x)` over `spread_x(x)`.
pub open spec fn intercept_numerator(x: Seq<i32>, y: Seq<i32>) -> int {
    sum_of(y) * sum_sq_of(x) - sum_of(x) * sum_prod_of(x, y)
}

/// `m` is the least-squares line through the points `(x[i], y[i])`.
pub open spec fn is_least_squares_fit(x: Seq<i32>, y: Seq<i32>, m: RegressionModel) -> bool {
    &&& m.slope.num == slope_numerator(x, y)
    &&& m.intercept.num == intercept_numerator(x, y)
    &&& m.slope.den == spread_x(x)
    &&& m.intercept.den == spread_x(x)
}

proof fn lemma_mul_bound(a: int, b: int, ba: int, bb: int)
    requires
        -ba <= a <= ba,
        -bb <= b <= bb,
    ensures
        -(ba * bb) <= a * b <= ba * bb,
{
    assert(-(ba * bb) <= a * b <= ba * bb) by (nonlinear_arith)
        requires
            -ba <= a <= ba,
            -bb <= b <= bb,
    ;
}

/// `sum((x[i] - a)^2)`, written out, is never negative.
proof fn lemma_squared_deviations(s: Seq<i32>, a: int)
    ensures
        sum_sq_of(s) - 2 * a * sum_of(s) + s.len() * a * a >= 0,
    decreases s.len(),
{
    if s.len() > 0 {
        let t = s.drop_last();
        let b = s.last() as int;
        lemma_squared_deviations(t, a);
        let q = sum_sq_of(t);
        let p = sum_of(t);
        let n = t.len() as int;
        assert((q + b * b) - 2 * a * (p + b) + (n + 1) * a * a == (q - 2 * a * p + n * a * a) + (b
            - a) * (b - a)) by (nonlinear_arith);
        assert((b - a) * (b - a) >= 0) by (nonlinear_arith);
    }
}

/// The spread of `x` is never negative.
proof fn lemma_spread_nonnegative(s: Seq<i32>)
    ensures
        spread_x(s) >= 0,
    decreases s.len(),
{
    if s.len() > 0 {
        let t = s.drop_last();
        let b = s.last() as int;
        lemma_spread_nonnegative(t);
        lemma_squared_deviations(t, b);
        let q = sum_sq_of(t);
        let p = sum_of(t);
        let n = t.len() as int;
        assert((n + 1) * (q + b * b) - (p + b) * (p + b) == (n * q - p * p) + (q - 2 * b * p + n * b
            * b)) by (nonlinear_arith);
    }
}

/// The sums of `x`, of `y`, of `x^2` and of `x * y`.
fn moments(x: &Vec<i32>, y: &Vec<i32>) -> (r: (i128, i128, i128, i128))
    requires
        x.len() == y.len(),
        x.len() <= MAX_FIT_VALUES,
    ensures
        r.0 == sum_of(x@),
        r.1 == sum_of(y@),
        r.2 == sum_sq_of(x@),
        r.3 == sum_prod_of(x@, y@),
        -(0xffff * 0x8000_0000) <= r.0 <= 0xffff * 0x8000_0000,
        -(0xffff * 0x8000_0000) <= r.1 <= 0xffff * 0x8000_0000,
        0 <= r.2 <= 0xffff * 0x4000_0000_0000_0000,
        -(0xffff * 0x4000_0000_0000_0000) <= r.3 <= 0xffff * 0x4000_0000_0000_0000,
{
    let mut sx: i128 = 0;
    let mut sy: i128 = 0;
    let mut sxx: i128 = 0;
    let mut sxy: i128 = 0;
    let mut i: usize = 0;
    while i < x.len()
        invariant
            i <= x.len() == y.len() <= MAX_FIT_VALUES,
            sx == sum_of(x@.subrange(0, i as int)),
            sy == sum_of(y@.subrange(0, i as int)),
            sxx == sum_sq_of(x@.subrange(0, i as int)),
            sxy == sum_prod_of(x@.subrange(0, i as int), y@.subrange(0, i as int)),
            -(i as int) * 0x8000_0000 <= sx <= i as int * 0x8000_0000,
            -(i as int) * 0x8000_0000 <= sy <= i as int * 0x8000_0000,
            0 <= sxx <= i as int * 0x4000_0000_0000_0000,
            -(i as int) * 0x4000_0000_0000_0000 <= sxy <= i as int * 0x4000_0000_0000_0000,
        decreases x.len() - i,
    {
        let a = x[i];
        let b = y[i];
        proof {
            assert(x@.subrange(0, i + 1).drop_last() =~= x@.subrange(0, i as int));
            assert(y@.subrange(0, i + 1).drop_last() =~= y@.subrange(0, i as int));
            lemma_mul_bound(a as int, a as int, 0x8000_0000, 0x8000_0000);
            lemma_mul_bound(a as int, b as int, 0x8000_0000, 0x8000_0000);
            assert(0 <= a * a) by (nonlinear_arith);
        }
        sx = sx + a as i128;
        sy = sy + b as i128;
        sxx = sxx + (a as i128) * (a as i128);
        sxy = sxy + (a as i128) * (b as i128);
        i = i + 1;
    }
    proof {
        assert(x@.subrange(0, x.len() as int) =~= x@);
        assert(y@.subrange(0, y.len() as int) =~= y@);
    }
    (sx, sy, sxx, sxy)
}

/// Fits `y = intercept + slope * x` by ordinary least squares:
/// `slope = cov(x, y) / var(x)` and `intercept = mean(y) - slope * mean(x)`,
/// both exact.
pub fn fit(x: &Vec<i32>, y: &Vec<i32>) -> (r: Result<RegressionModel, RegressionError>)
    requires
        x.len() <= MAX_FIT_VALUES,
    ensures
        x.len() != y.len() <==> r == Err::<RegressionModel, RegressionError>(
            RegressionError::LengthMismatch,
        ),
        x.len() == y.len() && x.len() == 0 <==> r == Err::<RegressionModel, RegressionError>(
            RegressionError::EmptyInput,
        ),
        x.len() == y.len() && x.len() > 0 && spread_x(x@) == 0 <==> r == Err::<
            RegressionModel,
            RegressionError,
        >(RegressionError::DegenerateInput),
        r matches Ok(m) ==> m.wf() && is_least_squares_fit(x@, y@, m),
{
    if x.len() != y.len() {
        return Err(RegressionError::LengthMismatch);
    }
    if x.len() == 0 {
        return Err(RegressionError::EmptyInput);
    }
    let n = x.len();
    let (sx, sy, sxx, sxy) = moments(x, y);
    let ghost b31: int = (0xffff * 0x8000_0000) as int;
    let ghost b62: int = (0xffff * 0x4000_0000_0000_0000) as int;
    proof {
        lemma_mul_bound(n as int, sxx as int, 0xffff, b62);
        lemma_mul_bound(sx as int, sx as int, b31, b31);
        lemma_mul_bound(n as int, sxy as int, 0xffff, b62);
        lemma_mul_bound(sx as int, sy as int, b31, b31);
        lemma_mul_bound(sy as int, sxx as int, b31, b62);
        lemma_mul_bound(sx as int, sxy as int, b31, b62);
        lemma_spread_nonnegative(x@);
    }
    let spread = (n as i128) * sxx - sx * sx;
    if spread == 0 {
        return Err(RegressionError::DegenerateInput);
    }
    let slope_num = (n as i128) * sxy - sx * sy;
    let intercept_num = sy * sxx - sx * sxy;
    Ok(
        RegressionModel {
            slope: Ratio { num: slope_num, den: spread },
            intercept: Ratio { num: intercept_num, den: spread },
        },
    )
}

/// The value of the line at `x`: `intercept + slope * x`, exact.
pub fn predict(model: &RegressionModel, x: i32) -> (r: Ratio)
    requires
        model.wf(),
    ensures
        r.num == model.intercept.num + model.slope.num * x,
        r.den == model.slope.den,
{
    proof {
        lemma_mul_bound(model.slope.num as int, x as int, slope_bound(), 0x8000_0000);
    }
    Ratio { num: model.intercept.num + model.slope.num * (x as i128), den: model.slope.den }
}

/// A fitted line passes through the point of means: at the mean of `x` it
/// gives the mean of `y`. With `n` points and `d` the model's denominator,
/// `(intercept + slope * sum(x) / n)` equals `sum(y) / n`, which over the
/// common denominator `n * d` reads as below.
pub proof fn lemma_prediction_at_mean(x: Seq<i32>, y: Seq<i32>, m: RegressionModel)
    requires
        x.len() == y.len(),
        x.len() > 0,
        is_least_squares_fit(x, y, m),
    ensures
        m.intercept.num * x.len() + m.slope.num * sum_of(x) == sum_of(y) * m.slope.den,
{
    lemma_least_squares_through_means(x, y);
}

/// The least-squares numerators over any points satisfy
/// `intercept_numerator * n + slope_numerator * sum(x) == sum(y) * spread_x`:
/// the line passes through the point of means.
pub proof fn lemma_least_squares_through_means(x: Seq<i32>, y: Seq<i32>)
    ensures
        intercept_numerator(x, y) * x.len() + slope_numerator(x, y) * sum_of(x) == sum_of(y)
            * spread_x(x),
{
    let n = x.len() as int;
    let sx = sum_of(x);
    let sy = sum_of(y);
    let sxx = sum_sq_of(x);
    let sxy = sum_prod_of(x, y);
    assert((sy * sxx - sx * sxy) * n + (n * sxy - sx * sy) * sx == sy * (n * sxx - sx * sx))
        by (nonlinear_arith);
}

} // verus!
