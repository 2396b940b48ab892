use vstd::prelude::*;

verus! {

/// The largest number of values whose variance this crate computes. Sums
/// of squares of that many `i32` values, times their count, stay within 128
/// bits, so the variances are exact.
pub const MAX_VALUES: usize = 0xffff_ffff;

/// An exact fraction `num / den`.
#[derive(Clone, Copy, Debug, PartialEq, Eq, Structural)]
pub struct Ratio {
    pub num: i128,
    pub den: i128,
}

impl Ratio {
    /// `self <= other` as numbers (both denominators positive).
    pub open spec fn le(self, other: Ratio) -> bool {
        self.num * other.den <= other.num * self.den
    }

    /// The whole number `k` as a fraction.
    pub open spec fn of_int(k: int) -> Ratio {
        Ratio { num: k as i128, den: 1 }
    }
}

#[derive(Clone, Copy, Debug, PartialEq, Eq, Structural)]
pub enum StatsError {
    EmptyInput,
}

/// Mean, median, population variance, minimum and maximum of a sequence.
/// The population standard deviation is the square root of `variance`.
#[derive(Clone, Copy, Debug, PartialEq, Eq, Structural)]
pub struct Summary {
    pub mean: Ratio,
    pub median: Ratio,
    pub variance: Ratio,
    pub min: i32,
    pub max: i32,
}

pub open spec fn sum_of(s: Seq<i32>) -> int
    decreases s.len(),
{
    if s.len() == 0 {
        0
    } else {
        sum_of(s.drop_last()) + s.last()
    }
}

pub open spec fn sum_sq_of(s: Seq<i32>) -> int
    decreases s.len(),
{
    if s.len() == 0 {
        0
    } else {
        sum_sq_of(s.drop_last()) + s.last() * s.last()
    }
}

pub open spec fn is_sorted(s: Seq<i32>) -> bool {
    forall|i: int, j: int| 0 <= i <= j < s.len() ==> s[i] <= s[j]
}

/// `m` occurs in `s` and no element of `s` is smaller.
pub open spec fn is_min_of(s: Seq<i32>, m: i32) -> bool {
    s.contains(m) && forall|i: int| 0 <= i < s.len() ==> m <= s[i]
}

/// `m` occurs in `s` and no element of `s` is larger.
pub open spec fn is_max_of(s: Seq<i32>, m: i32) -> bool {
    s.contains(m) && forall|i: int| 0 <= i < s.len() ==> s[i] <= m
}

/// The arithmetic mean `sum / n`.
pub open spec fn mean_of(s: Seq<i32>) -> Ratio {
    Ratio { num: sum_of(s) as i128, den: s.len() as i128 }
}

/// The population variance `(n * sum(x^2) - sum(x)^2) / n^2`,
/// which equals `sum((x - mean)^2) / n`.
pub open spec fn population_variance_of(s: Seq<i32>) -> Ratio {
    Ratio {
        num: (s.len() * sum_sq_of(s) - sum_of(s) * sum_of(s)) as i128,
        den: (s.len() * s.len()) as i128,
    }
}

/// The sample variance `(n * sum(x^2) - sum(x)^2) / (n * (n - 1))`,
/// which equals `sum((x - mean)^2) / (n - 1)`.
pub open spec fn sample_variance_of(s: Seq<i32>) -> Ratio {
    Ratio {
        num: (s.len() * sum_sq_of(s) - sum_of(s) * sum_of(s)) as i128,
        den: (s.len() * (s.len() - 1)) as i128,
    }
}

/// The median of a sorted non-empty sequence: its middle element, or the
/// average of the two middle elements when the length is even.
pub open spec fn median_of_sorted(s: Seq<i32>) -> Ratio {
    let mid = (s.len() / 2) as int;
    if s.len() % 2 == 0 {
        Ratio { num: (s[mid - 1] + s[mid]) as i128, den: 2 }
    } else {
        Ratio { num: s[mid] as i128, den: 1 }
    }
}

/// `s` sorted ascending: the same values, in order.
pub open spec fn is_sorted_version(v: Seq<i32>, s: Seq<i32>) -> bool {
    is_sorted(s) && s.to_multiset() == v.to_multiset()
}

/// The median of `v`: the median of its sorted version.
pub open spec fn is_median_of(v: Seq<i32>, m: Ratio) -> bool {
    exists|s: Seq<i32>| is_sorted_version(v, s) && m == median_of_sorted(s)
}

/// `s` holds the mean, median, population variance, minimum and maximum of `v`.
pub open spec fn is_summary_of(v: Seq<i32>, s: Summary) -> bool {
    &&& s.mean == mean_of(v)
    &&& is_median_of(v, s.median)
    &&& s.variance == population_variance_of(v)
    &&& is_min_of(v, s.min)
    &&& is_max_of(v, s.max)
}

/// Relies on slice::sort_unstable: the slice ends up in ascending order and
/// holds the same values as before.
#[verifier::external_body]
fn sort_ascending(v: &mut Vec<i32>)
    ensures
        is_sorted(final(v)@),
        final(v)@.to_multiset() == old(v)@.to_multiset(),
{
    v.sort_unstable();
}

proof fn lemma_square_bounds(x: i32)
    ensures
        0 <= x * x <= 0x4000_0000_0000_0000,
{
    assert(0 <= x * x <= 0x4000_0000_0000_0000) by (nonlinear_arith)
        requires
            -0x8000_0000 <= x <= 0x7fff_ffff,
    ;
}

/// The sum of the values and the sum of their squares.
fn sums(values: &Vec<i32>) -> (r: (i128, i128))
    ensures
        r.0 == sum_of(values@),
        r.1 == sum_sq_of(values@),
        -(values.len() as int) * 0x8000_0000 <= r.0 <= values.len() as int * 0x8000_0000,
        0 <= r.1 <= values.len() as int * 0x4000_0000_0000_0000,
{
    let mut s: i128 = 0;
    let mut sq: i128 = 0;
    let mut i: usize = 0;
    while i < values.len()
        invariant
            i <= values.len() <= usize::MAX,
            s == sum_of(values@.subrange(0, i as int)),
            sq == sum_sq_of(values@.subrange(0, i as int)),
            -(i as int) * 0x8000_0000 <= s <= i as int * 0x8000_0000,
            0 <= sq <= i as int * 0x4000_0000_0000_0000,
        decreases values.len() - i,
    {
        let x = values[i];
        proof {
            assert(values@.subrange(0, i + 1).drop_last() =~= values@.subrange(0, i as int));
            lemma_square_bounds(x);
        }
        s = s + x as i128;
        sq = sq + (x as i128) * (x as i128);
        i = i + 1;
    }
    proof {
        assert(values@.subrange(0, values.len() as int) =~= values@);
    }
    (s, sq)
}

/// `n * sq - s * s`, the numerator of both variances.
fn spread_numerator(n: usize, s: i128, sq: i128) -> (r: i128)
    requires
        n <= MAX_VALUES,
        -(n as int) * 0x8000_0000 <= s <= n as int * 0x8000_0000,
        0 <= sq <= n as int * 0x4000_0000_0000_0000,
    ensures
        r == n * sq - s * s,
{
    proof {
        assert(0 <= n * sq <= 0x1_0000_0000 * 0x1_0000_0000 * 0x4000_0000_0000_0000)
            by (nonlinear_arith)
            requires
                0 <= n <= 0xffff_ffff,
                0 <= sq <= n * 0x4000_0000_0000_0000,
        ;
        assert(0 <= s * s <= 0x1_0000_0000 * 0x8000_0000 * 0x1_0000_0000 * 0x8000_0000)
            by (nonlinear_arith)
            requires
                0 <= n <= 0xffff_ffff,
                -n * 0x8000_0000 <= s <= n * 0x8000_0000,
        ;
    }
    (n as i128) * sq - s * s
}

/// The arithmetic mean, as an exact fraction.
pub fn mean(values: &Vec<i32>) -> (r: Result<Ratio, StatsError>)
    ensures
        values.len() == 0 <==> r == Err::<Ratio, StatsError>(StatsError::EmptyInput),
        values.len() > 0 ==> r == Ok::<Ratio, StatsError>(mean_of(values@)),
{
    if values.len() == 0 {
        return Err(StatsError::EmptyInput);
    }
    let (s, _) = sums(values);
    Ok(Ratio { num: s, den: values.len() as i128 })
}

/// The population variance (divisor `n`), as an exact fraction.
pub fn population_variance(values: &Vec<i32>) -> (r: Result<Ratio, StatsError>)
    requires
        values.len() <= MAX_VALUES,
    ensures
        values.len() == 0 <==> r == Err::<Ratio, StatsError>(StatsError::EmptyInput),
        values.len() > 0 ==> r == Ok::<Ratio, StatsError>(population_variance_of(values@)),
{
    if values.len() == 0 {
        return Err(StatsError::EmptyInput);
    }
    let (s, sq) = sums(values);
    let n = values.len();
    let num = spread_numerator(n, s, sq);
    proof {
        assert(n * n <= 0xffff_ffff * 0xffff_ffff) by (nonlinear_arith)
            requires
                0 <= n <= 0xffff_ffff,
        ;
    }
    Ok(Ratio { num, den: (n as i128) * (n as i128) })
}

/// The sample variance (divisor `n - 1`), as an exact fraction. It needs at
/// least two values.
pub fn sample_variance(values: &Vec<i32>) -> (r: Result<Ratio, StatsError>)
    requires
        values.len() <= MAX_VALUES,
    ensures
        values.len() < 2 <==> r == Err::<Ratio, StatsError>(StatsError::EmptyInput),
        values.len() >= 2 ==> r == Ok::<Ratio, StatsError>(sample_variance_of(values@)),
{
    if values.len() < 2 {
        return Err(StatsError::EmptyInput);
    }
    let (s, sq) = sums(values);
    let n = values.len();
    let num = spread_numerator(n, s, sq);
    proof {
        assert(n * (n - 1) <= 0xffff_ffff * 0xffff_ffff) by (nonlinear_arith)
            requires
                1 <= n <= 0xffff_ffff,
        ;
    }
    Ok(Ratio { num, den: (n as i128) * ((n - 1) as i128) })
}

/// The smallest value.
pub fn minimum(values: &Vec<i32>) -> (r: Result<i32, StatsError>)
    ensures
        values.len() == 0 <==> r == Err::<i32, StatsError>(StatsError::EmptyInput),
        r matches Ok(m) ==> is_min_of(values@, m),
{
    if values.len() == 0 {
        return Err(StatsError::EmptyInput);
    }
    let mut m = values[0];
    let mut i: usize = 1;
    assert(values@.subrange(0, 1)[0] == m);
    while i < values.len()
        invariant
            1 <= i <= values.len(),
            values@.subrange(0, i as int).contains(m),
            forall|k: int| 0 <= k < i ==> m <= values@[k],
        decreases values.len() - i,
    {
        if values[i] < m {
            m = values[i];
        }
        proof {
            let next = values@.subrange(0, i + 1);
            if m == values@[i as int] {
                assert(next[i as int] == m);
            } else {
                let w = choose|w: int| 0 <= w < i && values@.subrange(0, i as int)[w] == m;
                assert(next[w] == m);
            }
        }
        i = i + 1;
    }
    proof {
        assert(values@.subrange(0, values.len() as int) =~= values@);
    }
    Ok(m)
}

/// The largest value.
pub fn maximum(values: &Vec<i32>) -> (r: Result<i32, StatsError>)
    ensures
        values.len() == 0 <==> r == Err::<i32, StatsError>(StatsError::EmptyInput),
        r matches Ok(m) ==> is_max_of(values@, m),
{
    if values.len() == 0 {
        return Err(StatsError::EmptyInput);
    }
    let mut m = values[0];
    let mut i: usize = 1;
    assert(values@.subrange(0, 1)[0] == m);
    while i < values.len()
        invariant
            1 <= i <= values.len(),
            values@.subrange(0, i as int).contains(m),
            forall|k: int| 0 <= k < i ==> values@[k] <= m,
        decreases values.len() - i,
    {
        if values[i] > m {
            m = values[i];
        }
        proof {
            let next = values@.subrange(0, i + 1);
            if m == values@[i as int] {
                assert(next[i as int] == m);
            } else {
                let w = choose|w: int| 0 <= w < i && values@.subrange(0, i as int)[w] == m;
                assert(next[w] == m);
            }
        }
        i = i + 1;
    }
    proof {
        assert(values@.subrange(0, values.len() as int) =~= values@);
    }
    Ok(m)
}

/// The median of a sorted non-empty vector.
pub fn median_of_sorted_values(sorted: &Vec<i32>) -> (r: Ratio)
    requires
        sorted.len() > 0,
        is_sorted(sorted@),
    ensures
        r == median_of_sorted(sorted@),
{
    let n = sorted.len();
    let mid = n / 2;
    if n % 2 == 0 {
        Ratio { num: sorted[mid - 1] as i128 + sorted[mid] as i128, den: 2 }
    } else {
        Ratio { num: sorted[mid] as i128, den: 1 }
    }
}

/// The median: the middle value of the sorted values, or the average of the
/// two middle values when their number is even.
pub fn median(values: &Vec<i32>) -> (r: Result<Ratio, StatsError>)
    ensures
        values.len() == 0 <==> r == Err::<Ratio, StatsError>(StatsError::EmptyInput),
        r matches Ok(m) ==> is_median_of(values@, m),
{
    if values.len() == 0 {
        return Err(StatsError::EmptyInput);
    }
    let mut sorted = values.clone();
    sort_ascending(&mut sorted);
    proof {
        sorted@.to_multiset_ensures();
        values@.to_multiset_ensures();
        assert(sorted@.len() == values@.len());
    }
    let m = median_of_sorted_values(&sorted);
    proof {
        assert(is_sorted_version(values@, sorted@));
    }
    Ok(m)
}

/// Mean, median, population variance, minimum and maximum of the values.
pub fn summarize(values: &Vec<i32>) -> (r: Result<Summary, StatsError>)
    requires
        values.len() <= MAX_VALUES,
    ensures
        values.len() == 0 <==> r == Err::<Summary, StatsError>(StatsError::EmptyInput),
        r matches Ok(s) ==> is_summary_of(values@, s),
{
    let mean = match mean(values) {
        Ok(m) => m,
        Err(e) => return Err(e),
    };
    let median = match median(values) {
        Ok(m) => m,
        Err(e) => return Err(e),
    };
    let variance = match population_variance(values) {
        Ok(v) => v,
        Err(e) => return Err(e),
    };
    let min = match minimum(values) {
        Ok(m) => m,
        Err(e) => return Err(e),
    };
    let max = match maximum(values) {
        Ok(m) => m,
        Err(e) => return Err(e),
    };
    Ok(Summary { mean, median, variance, min, max })
}

proof fn lemma_sum_between(s: Seq<i32>, lo: int, hi: int)
    requires
        forall|i: int| 0 <= i < s.len() ==> lo <= #[trigger] s[i] <= hi,
    ensures
        s.len() * lo <= sum_of(s) <= s.len() * hi,
    decreases s.len(),
{
    if s.len() > 0 {
        let t = s.drop_last();
        assert forall|i: int| 0 <= i < t.len() implies lo <= #[trigger] t[i] <= hi by {
            assert(t[i] == s[i]);
        }
        lemma_sum_between(t, lo, hi);
        assert(s.len() * lo == t.len() * lo + lo) by (nonlinear_arith)
            requires
                s.len() == t.len() + 1,
        ;
        assert(s.len() * hi == t.len() * hi + hi) by (nonlinear_arith)
            requires
                s.len() == t.len() + 1,
        ;
    }
}

/// Of any non-empty sequence, the minimum is at most the median and the mean,
/// and both are at most the maximum.
pub proof fn lemma_summary_in_range(v: Seq<i32>, s: Summary)
    requires
        0 < v.len() <= usize::MAX,
        is_summary_of(v, s),
    ensures
        Ratio::of_int(s.min as int).le(s.median),
        s.median.le(Ratio::of_int(s.max as int)),
        Ratio::of_int(s.min as int).le(s.mean),
        s.mean.le(Ratio::of_int(s.max as int)),
{
    lemma_sum_between(v, s.min as int, s.max as int);
    lemma_sum_between(v, -0x8000_0000, 0x7fff_ffff);
    assert(v.len() * -0x8000_0000 >= 0xffff_ffff_ffff_ffff * -0x8000_0000) by (nonlinear_arith)
        requires
            v.len() <= 0xffff_ffff_ffff_ffff,
    ;
    assert(v.len() * 0x7fff_ffff <= 0xffff_ffff_ffff_ffff * 0x7fff_ffff) by (nonlinear_arith)
        requires
            v.len() <= 0xffff_ffff_ffff_ffff,
    ;
    let n = v.len() as int;
    let total = sum_of(v);
    assert(s.mean.num == total && s.mean.den == n);
    assert(s.min * n <= total * 1 && total * 1 <= s.max * n) by (nonlinear_arith)
        requires
            n * s.min <= total <= n * s.max,
    ;
    let sorted = choose|t: Seq<i32>| is_sorted_version(v, t) && s.median == median_of_sorted(t);
    sorted.to_multiset_ensures();
    v.to_multiset_ensures();
    assert(sorted.len() == v.len());
    let mid = (sorted.len() / 2) as int;
    assert(sorted.contains(sorted[mid]));
    assert(v.to_multiset().count(sorted[mid]) > 0);
    assert(v.contains(sorted[mid]));
    assert(s.min <= sorted[mid] <= s.max);
    if sorted.len() % 2 == 0 {
        assert(sorted.contains(sorted[mid - 1]));
        assert(v.to_multiset().count(sorted[mid - 1]) > 0);
        assert(v.contains(sorted[mid - 1]));
        assert(s.min <= sorted[mid - 1] <= s.max);
    }
}

} // verus!
