use vstd::prelude::*;

use crate::stats::{is_max_of, is_min_of, maximum, minimum, Ratio, StatsError};

verus! {

/// Lower bound of each bin, and how many values fell into it.
#[derive(Debug, PartialEq)]
pub struct HistogramData {
    pub bins: Vec<Ratio>,
    pub counts: Vec<usize>,
}

/// The values that are present, in order; absent ones are left out.
pub open spec fn present(s: Seq<Option<i32>>) -> Seq<i32>
    decreases s.len(),
{
    if s.len() == 0 {
        Seq::empty()
    } else {
        let p = present(s.drop_last());
        match s.last() {
            Some(x) => p.push(x),
            None => p,
        }
    }
}

pub open spec fn min_of(s: Seq<i32>) -> i32 {
    choose|m: i32| is_min_of(s, m)
}

pub open spec fn max_of(s: Seq<i32>) -> i32 {
    choose|m: i32| is_max_of(s, m)
}

/// The range that the bins cover: from the smallest to the largest value,
/// but never narrower than `min_width`.
pub open spec fn bin_span(s: Seq<i32>, min_width: int) -> int {
    let spread = max_of(s) - min_of(s);
    if spread < min_width {
        min_width
    } else {
        spread
    }
}

/// The bin of `x` among `k` bins of width `span / k` that start at `lo`;
/// values past the last bin (the maximum itself) land in the last bin.
pub open spec fn bin_index(x: int, lo: int, span: int, k: int) -> int {
    let q = (x - lo) * k / span;
    if q < k - 1 {
        q
    } else {
        k - 1
    }
}

/// How many of the values fall into each of the `k` bins.
pub open spec fn bin_counts(s: Seq<i32>, lo: int, span: int, k: int) -> Seq<int>
    decreases s.len(),
{
    if s.len() == 0 {
        Seq::new(k as nat, |j: int| 0)
    } else {
        let c = bin_counts(s.drop_last(), lo, span, k);
        let b = bin_index(s.last() as int, lo, span, k);
        c.update(b, c[b] + 1)
    }
}

/// Lower bound of bin `i`: `lo + i * span / k`.
pub open spec fn bin_lower_bounds(lo: int, span: int, k: int) -> Seq<Ratio> {
    Seq::new(k as nat, |i: int| Ratio { num: (lo * k + i * span) as i128, den: k as i128 })
}

/// The frequencies of a histogram of the present values in `k` bins.
pub open spec fn histogram_counts(values: Seq<Option<i32>>, k: int, min_width: int) -> Seq<int> {
    let p = present(values);
    bin_counts(p, min_of(p) as int, bin_span(p, min_width), k)
}

/// The bin lower bounds of a histogram of the present values in `k` bins.
pub open spec fn histogram_bins(values: Seq<Option<i32>>, k: int, min_width: int) -> Seq<Ratio> {
    let p = present(values);
    bin_lower_bounds(min_of(p) as int, bin_span(p, min_width), k)
}

pub open spec fn total(s: Seq<int>) -> int
    decreases s.len(),
{
    if s.len() == 0 {
        0
    } else {
        total(s.drop_last()) + s.last()
    }
}

/// The values that are present, in order.
pub fn present_values(values: &Vec<Option<i32>>) -> (r: Vec<i32>)
    ensures
        r@ == present(values@),
{
    let mut r: Vec<i32> = Vec::new();
    let mut i: usize = 0;
    while i < values.len()
        invariant
            i <= values.len(),
            r@ == present(values@.subrange(0, i as int)),
        decreases values.len() - i,
    {
        proof {
            assert(values@.subrange(0, i + 1).drop_last() =~= values@.subrange(0, i as int));
        }
        match values[i] {
            Some(x) => r.push(x),
            None => {},
        }
        i = i + 1;
    }
    proof {
        assert(values@.subrange(0, values.len() as int) =~= values@);
    }
    r
}

proof fn lemma_min_unique(s: Seq<i32>, m: i32)
    requires
        is_min_of(s, m),
    ensures
        min_of(s) == m,
{
    let c = min_of(s);
    assert(is_min_of(s, c));
    let i = choose|i: int| 0 <= i < s.len() && s[i] == c;
    let j = choose|j: int| 0 <= j < s.len() && s[j] == m;
    assert(m <= s[i] && c <= s[j]);
}

proof fn lemma_max_unique(s: Seq<i32>, m: i32)
    requires
        is_max_of(s, m),
    ensures
        max_of(s) == m,
{
    let c = max_of(s);
    assert(is_max_of(s, c));
    let i = choose|i: int| 0 <= i < s.len() && s[i] == c;
    let j = choose|j: int| 0 <= j < s.len() && s[j] == m;
    assert(s[i] <= m && s[j] <= c);
}

proof fn lemma_bin_counts_len(s: Seq<i32>, lo: int, span: int, k: int)
    requires
        k > 0,
        span > 0,
        forall|i: int| 0 <= i < s.len() ==> lo <= #[trigger] s[i],
    ensures
        bin_counts(s, lo, span, k).len() == k,
    decreases s.len(),
{
    if s.len() > 0 {
        let t = s.drop_last();
        assert forall|i: int| 0 <= i < t.len() implies lo <= #[trigger] t[i] by {
            assert(t[i] == s[i]);
        }
        lemma_bin_counts_len(t, lo, span, k);
    }
}

proof fn lemma_bin_index_range(x: int, lo: int, span: int, k: int)
    requires
        k > 0,
        span > 0,
        lo <= x,
    ensures
        0 <= bin_index(x, lo, span, k) < k,
{
    assert((x - lo) * k >= 0) by (nonlinear_arith)
        requires
            x - lo >= 0,
            k > 0,
    ;
    assert((x - lo) * k / span >= 0) by (nonlinear_arith)
        requires
            (x - lo) * k >= 0,
            span > 0,
    ;
}

/// A histogram of the present values in `bin_count` bins of equal width.
/// The bins start at the smallest value and together span the range up to
/// the largest one, or `min_width` where that range is narrower, so that
/// equal values still get bins of positive width. Absent values are left out.
pub fn histogram(values: &Vec<Option<i32>>, bin_count: usize, min_width: u32) -> (r: Result<
    HistogramData,
    StatsError,
>)
    requires
        bin_count > 0,
        min_width > 0,
    ensures
        present(values@).len() == 0 <==> r == Err::<HistogramData, StatsError>(
            StatsError::EmptyInput,
        ),
        r matches Ok(h) ==> {
            &&& h.bins@ == histogram_bins(values@, bin_count as int, min_width as int)
            &&& h.counts@.len() == bin_count
            &&& forall|j: int|
                0 <= j < bin_count ==> h.counts@[j] == #[trigger] histogram_counts(
                    values@,
                    bin_count as int,
                    min_width as int,
                )[j]
        },
{
    let p = present_values(values);
    let lo = match minimum(&p) {
        Ok(m) => m,
        Err(e) => return Err(e),
    };
    let hi = match maximum(&p) {
        Ok(m) => m,
        Err(e) => return Err(e),
    };
    proof {
        lemma_min_unique(p@, lo);
        lemma_max_unique(p@, hi);
    }
    let spread: i64 = hi as i64 - lo as i64;
    let span: i128 = if spread < min_width as i64 {
        min_width as i128
    } else {
        spread as i128
    };
    let k = bin_count as i128;
    let ghost lo_i = lo as int;
    proof {
        assert(span == bin_span(p@, min_width as int));
        assert(0 < span <= 0xffff_ffff);
    }

    let mut counts: Vec<usize> = Vec::new();
    let mut j: usize = 0;
    while j < bin_count
        invariant
            j <= bin_count,
            counts@.len() == j,
            forall|t: int| 0 <= t < j ==> counts@[t] == 0,
        decreases bin_count - j,
    {
        counts.push(0);
        j = j + 1;
    }
    proof {
        assert(bin_counts(p@.subrange(0, 0), lo_i, span as int, k as int) =~= Seq::new(
            bin_count as nat,
            |t: int| 0,
        ));
    }

    let mut i: usize = 0;
    while i < p.len()
        invariant
            i <= p.len(),
            k == bin_count,
            bin_count > 0,
            0 < span <= 0xffff_ffff,
            lo_i == lo,
            is_min_of(p@, lo),
            counts@.len() == bin_count,
            bin_counts(p@.subrange(0, i as int), lo_i, span as int, k as int).len() == bin_count,
            forall|t: int|
                0 <= t < bin_count ==> counts@[t] == #[trigger] bin_counts(
                    p@.subrange(0, i as int),
                    lo_i,
                    span as int,
                    k as int,
                )[t],
            forall|t: int| 0 <= t < bin_count ==> #[trigger] counts@[t] <= i,
        decreases p.len() - i,
    {
        let x = p[i];
        let ghost before = bin_counts(p@.subrange(0, i as int), lo_i, span as int, k as int);
        proof {
            assert(p@.subrange(0, i + 1).drop_last() =~= p@.subrange(0, i as int));
            assert(lo <= p@[i as int]);
            assert(0 <= (x - lo) * k <= 0xffff_ffff * 0xffff_ffff_ffff_ffff) by (nonlinear_arith)
                requires
                    0 <= x - lo <= 0xffff_ffff,
                    0 < k <= 0xffff_ffff_ffff_ffff,
            ;
            lemma_bin_index_range(x as int, lo_i, span as int, k as int);
        }
        let q: i128 = (x as i128 - lo as i128) * k / span;
        let b: usize = if q < k - 1 {
            q as usize
        } else {
            bin_count - 1
        };
        proof {
            assert(b == bin_index(x as int, lo_i, span as int, k as int));
        }
        let c = counts[b];
        counts.set(b, c + 1);
        i = i + 1;
        proof {
            let after = bin_counts(p@.subrange(0, i as int), lo_i, span as int, k as int);
            assert forall|u: int| 0 <= u < i implies lo <= #[trigger] p@.subrange(0, i as int)[u] by {
                assert(p@.subrange(0, i as int)[u] == p@[u]);
            }
            lemma_bin_counts_len(p@.subrange(0, i as int), lo_i, span as int, k as int);
            assert(after == before.update(b as int, before[b as int] + 1));
        }
    }
    proof {
        assert(p@.subrange(0, p.len() as int) =~= p@);
    }

    let mut bins: Vec<Ratio> = Vec::new();
    let mut t: usize = 0;
    while t < bin_count
        invariant
            t <= bin_count,
            k == bin_count,
            bin_count > 0,
            0 < span <= 0xffff_ffff,
            lo_i == lo,
            bins@ =~= bin_lower_bounds(lo_i, span as int, k as int).subrange(0, t as int),
        decreases bin_count - t,
    {
        proof {
            assert(-0x8000_0000 * 0xffff_ffff_ffff_ffff <= lo * k <= 0x8000_0000 * 0xffff_ffff_ffff_ffff) by (nonlinear_arith)
                requires
                    -0x8000_0000 <= lo <= 0x8000_0000,
                    0 < k <= 0xffff_ffff_ffff_ffff,
            ;
            assert(0 <= t * span <= 0xffff_ffff_ffff_ffff * 0xffff_ffff) by (nonlinear_arith)
                requires
                    0 <= t <= 0xffff_ffff_ffff_ffff,
                    0 < span <= 0xffff_ffff,
            ;
        }
        bins.push(Ratio { num: lo as i128 * k + t as i128 * span, den: k });
        t = t + 1;
    }
    Ok(HistogramData { bins, counts })
}

proof fn lemma_min_exists(s: Seq<i32>)
    requires
        s.len() > 0,
    ensures
        is_min_of(s, min_of(s)),
    decreases s.len(),
{
    if s.len() == 1 {
        assert(is_min_of(s, s[0]));
    } else {
        let t = s.drop_last();
        lemma_min_exists(t);
        let m = min_of(t);
        let w = choose|w: int| 0 <= w < t.len() && t[w] == m;
        if s.last() < m {
            assert(s[s.len() - 1] == s.last());
            assert forall|i: int| 0 <= i < s.len() implies s.last() <= s[i] by {
                if i < t.len() {
                    assert(s[i] == t[i]);
                    assert(m <= t[i]);
                }
            }
            assert(is_min_of(s, s.last()));
        } else {
            assert(s[w] == m);
            assert forall|i: int| 0 <= i < s.len() implies m <= s[i] by {
                if i < t.len() {
                    assert(s[i] == t[i]);
                }
            }
            assert(is_min_of(s, m));
        }
    }
}

proof fn lemma_total_zeros(k: nat)
    ensures
        total(Seq::new(k, |j: int| 0int)) == 0,
    decreases k,
{
    if k > 0 {
        assert(Seq::new(k, |j: int| 0int).drop_last() =~= Seq::new((k - 1) as nat, |j: int| 0int));
        lemma_total_zeros((k - 1) as nat);
    }
}

proof fn lemma_total_bump(c: Seq<int>, b: int)
    requires
        0 <= b < c.len(),
    ensures
        total(c.update(b, c[b] + 1)) == total(c) + 1,
    decreases c.len(),
{
    let u = c.update(b, c[b] + 1);
    if b < c.len() - 1 {
        assert(u.drop_last() =~= c.drop_last().update(b, c[b] + 1));
        lemma_total_bump(c.drop_last(), b);
    } else {
        assert(u.drop_last() =~= c.drop_last());
    }
}

proof fn lemma_total_bin_counts(s: Seq<i32>, lo: int, span: int, k: int)
    requires
        k > 0,
        span > 0,
        forall|i: int| 0 <= i < s.len() ==> lo <= #[trigger] s[i],
    ensures
        total(bin_counts(s, lo, span, k)) == s.len(),
    decreases s.len(),
{
    if s.len() == 0 {
        lemma_total_zeros(k as nat);
    } else {
        let t = s.drop_last();
        assert forall|i: int| 0 <= i < t.len() implies lo <= #[trigger] t[i] by {
            assert(t[i] == s[i]);
        }
        lemma_total_bin_counts(t, lo, span, k);
        lemma_bin_counts_len(t, lo, span, k);
        assert(lo <= s[s.len() - 1]);
        lemma_bin_index_range(s.last() as int, lo, span, k);
        lemma_total_bump(bin_counts(t, lo, span, k), bin_index(s.last() as int, lo, span, k));
    }
}

/// A histogram has exactly `bin_count` bins and frequencies, and the
/// frequencies add up to the number of values that are present.
pub proof fn lemma_histogram_accounts_for_every_value(
    values: Seq<Option<i32>>,
    bin_count: int,
    min_width: int,
)
    requires
        present(values).len() > 0,
        bin_count > 0,
        min_width > 0,
    ensures
        histogram_bins(values, bin_count, min_width).len() == bin_count,
        histogram_counts(values, bin_count, min_width).len() == bin_count,
        total(histogram_counts(values, bin_count, min_width)) == present(values).len(),
{
    let p = present(values);
    lemma_min_exists(p);
    let lo = min_of(p) as int;
    let span = bin_span(p, min_width);
    lemma_bin_counts_len(p, lo, span, bin_count);
    lemma_total_bin_counts(p, lo, span, bin_count);
}

/// Every present value falls in its bin: with `lo` the minimum, `span` the
/// range the bins cover and `k` the number of bins, bin `b` starts at
/// `lo + b * span / k`; the value is at or above the start of its bin and,
/// unless its bin is the last, below the start of the next.
pub proof fn lemma_value_in_its_bin(
    values: Seq<Option<i32>>,
    bin_count: int,
    min_width: int,
    i: int,
)
    requires
        bin_count > 0,
        min_width > 0,
        0 <= i < present(values).len(),
    ensures
        ({
            let p = present(values);
            let lo = min_of(p) as int;
            let span = bin_span(p, min_width);
            let b = bin_index(p[i] as int, lo, span, bin_count);
            &&& 0 <= b < bin_count
            &&& lo * bin_count + b * span <= p[i] * bin_count
            &&& b < bin_count - 1 ==> p[i] * bin_count < lo * bin_count + (b + 1) * span
        }),
{
    let p = present(values);
    lemma_min_exists(p);
    let lo = min_of(p) as int;
    let span = bin_span(p, min_width);
    let x = p[i] as int;
    let k = bin_count;
    assert(lo <= x);
    assert(span > 0);
    lemma_bin_index_range(x, lo, span, k);
    let a = (x - lo) * k;
    let q = a / span;
    vstd::arithmetic::div_mod::lemma_fundamental_div_mod(a, span);
    vstd::arithmetic::div_mod::lemma_mod_bound(a, span);
    let b = bin_index(x, lo, span, k);
    assert(b <= q);
    assert(b * span <= q * span) by (nonlinear_arith)
        requires
            b <= q,
            span > 0,
    ;
    assert(lo * k + b * span <= x * k) by (nonlinear_arith)
        requires
            b * span <= q * span,
            a == span * q + a % span,
            a % span >= 0,
            a == (x - lo) * k,
    ;
    if b < k - 1 {
        assert(b == q);
        assert(x * k < lo * k + (b + 1) * span) by (nonlinear_arith)
            requires
                b == q,
                a == span * q + a % span,
                a % span < span,
                a == (x - lo) * k,
        ;
    }
}

} // verus!
