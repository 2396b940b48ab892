use vstd::prelude::*;

use crate::histogram::{
    histogram, histogram_bins, histogram_counts, present, present_values, HistogramData,
};
use crate::regression::{
    fit, intercept_numerator, predict, slope_numerator, spread_x, RegressionError, MAX_FIT_VALUES,
};
use crate::regression::lemma_least_squares_through_means;
use crate::stats::{
    is_summary_of, lemma_summary_in_range, sum_of, summarize, Ratio, StatsError, Summary,
    MAX_VALUES,
};
use crate::table::{
    all_numeric, as_numbers, first_named, lemma_first_named_bounds, numeric_column, selected, values_where, ColumnError,
    Table,
};

verus! {

pub const SALARY_COLUMN: &'static str = "Yearly brutto salary (without bonus and stocks) in EUR";

pub const EXPERIENCE_COLUMN: &'static str = "Total years of experience";

pub const GENDER_COLUMN: &'static str = "Gender";

/// Number of bins of the salary distribution.
pub const DISTRIBUTION_BINS: usize = 10;

/// Narrowest range that the bins of a histogram cover: one whole unit, as
/// the table keeps numbers in hundredths.
pub const MIN_BIN_WIDTH: u32 = 100;

#[derive(Debug, PartialEq)]
pub enum QueryError {
    Column(ColumnError),
    Stats(StatsError),
    Regression(RegressionError),
    /// More values take part than the computation holds exactly
    /// (`MAX_VALUES`, or `MAX_FIT_VALUES` for a regression).
    TooManyValues,
}

/// Summaries of the salary and the experience columns.
#[derive(Clone, Copy, Debug, PartialEq, Eq, Structural)]
pub struct SummaryReport {
    pub salary: Summary,
    pub experience: Summary,
}

/// The column named `name` exists and holds no text.
pub open spec fn column_usable(t: Table, name: Seq<char>) -> bool {
    &&& first_named(t.columns@, name) < t.columns@.len()
    &&& all_numeric(t.columns@[first_named(t.columns@, name)].cells@)
}

/// The cells of the column named `name`, as numbers or nulls.
pub open spec fn column_numbers(t: Table, name: Seq<char>) -> Seq<Option<i32>> {
    as_numbers(t.columns@[first_named(t.columns@, name)].cells@)
}

/// The non-null numbers of the column named `name`, in row order.
pub open spec fn column_values(t: Table, name: Seq<char>) -> Seq<i32> {
    present(column_numbers(t, name))
}

/// `e` is the error of reading the column named `name` as numbers, and names
/// it: `ColumnNotFound` where no column has that name, `TypeMismatch` where
/// the column holds text.
pub open spec fn column_error_of(t: Table, name: Seq<char>, e: QueryError) -> bool {
    match e {
        QueryError::Column(ColumnError::ColumnNotFound(n)) => n@ == name && first_named(
            t.columns@,
            name,
        ) == t.columns@.len(),
        QueryError::Column(ColumnError::TypeMismatch(n)) => n@ == name && column_usable(t, name)
            == false && first_named(t.columns@, name) < t.columns@.len(),
        _ => false,
    }
}

/// What a histogram of `v` in `k` bins gives: `EmptyInput` where no value
/// is present, else the bins and frequencies of `histogram`.
pub open spec fn histogram_outcome(
    v: Seq<Option<i32>>,
    k: int,
    r: Result<HistogramData, QueryError>,
) -> bool {
    if present(v).len() == 0 {
        r == Err::<HistogramData, QueryError>(QueryError::Stats(StatsError::EmptyInput))
    } else {
        r matches Ok(h) && h.bins@ == histogram_bins(v, k, MIN_BIN_WIDTH as int) && h.counts@.len()
            == k && forall|j: int|
            0 <= j < k ==> h.counts@[j] == #[trigger] histogram_counts(
                v,
                k,
                MIN_BIN_WIDTH as int,
            )[j]
    }
}

/// What a histogram of the column named `name` in `k` bins gives.
pub open spec fn column_histogram_outcome(
    t: Table,
    name: Seq<char>,
    k: int,
    r: Result<HistogramData, QueryError>,
) -> bool {
    if !column_usable(t, name) {
        r matches Err(e) && column_error_of(t, name, e)
    } else {
        histogram_outcome(column_numbers(t, name), k, r)
    }
}

/// What the summaries of salary and experience give. The salary column is
/// read first.
pub open spec fn summary_outcome(t: Table, r: Result<SummaryReport, QueryError>) -> bool {
    let s = column_values(t, SALARY_COLUMN@);
    let e = column_values(t, EXPERIENCE_COLUMN@);
    if !column_usable(t, SALARY_COLUMN@) {
        r matches Err(err) && column_error_of(t, SALARY_COLUMN@, err)
    } else if !column_usable(t, EXPERIENCE_COLUMN@) {
        r matches Err(err) && column_error_of(t, EXPERIENCE_COLUMN@, err)
    } else if s.len() > MAX_VALUES || e.len() > MAX_VALUES {
        r == Err::<SummaryReport, QueryError>(QueryError::TooManyValues)
    } else if s.len() == 0 || e.len() == 0 {
        r == Err::<SummaryReport, QueryError>(QueryError::Stats(StatsError::EmptyInput))
    } else {
        r matches Ok(rep) && is_summary_of(s, rep.salary) && is_summary_of(e, rep.experience)
    }
}

/// What the scatter data give: years of experience and salaries. The
/// salary column is read first.
pub open spec fn scatter_outcome(t: Table, r: Result<(Vec<i32>, Vec<i32>), QueryError>) -> bool {
    if !column_usable(t, SALARY_COLUMN@) {
        r matches Err(err) && column_error_of(t, SALARY_COLUMN@, err)
    } else if !column_usable(t, EXPERIENCE_COLUMN@) {
        r matches Err(err) && column_error_of(t, EXPERIENCE_COLUMN@, err)
    } else {
        r matches Ok(p) && p.0@ == column_values(t, EXPERIENCE_COLUMN@) && p.1@ == column_values(
            t,
            SALARY_COLUMN@,
        )
    }
}

/// What the salary prediction for `experience` gives: the value of the
/// least-squares line at `experience` over the common denominator
/// `spread_x`, or the error of the first check that fails.
pub open spec fn prediction_outcome(t: Table, experience: int, r: Result<Ratio, QueryError>) -> bool {
    let x = column_values(t, EXPERIENCE_COLUMN@);
    let y = column_values(t, SALARY_COLUMN@);
    if !column_usable(t, SALARY_COLUMN@) {
        r matches Err(err) && column_error_of(t, SALARY_COLUMN@, err)
    } else if !column_usable(t, EXPERIENCE_COLUMN@) {
        r matches Err(err) && column_error_of(t, EXPERIENCE_COLUMN@, err)
    } else if x.len() > MAX_FIT_VALUES {
        r == Err::<Ratio, QueryError>(QueryError::TooManyValues)
    } else if x.len() != y.len() {
        r == Err::<Ratio, QueryError>(QueryError::Regression(RegressionError::LengthMismatch))
    } else if x.len() == 0 {
        r == Err::<Ratio, QueryError>(QueryError::Regression(RegressionError::EmptyInput))
    } else if spread_x(x) == 0 {
        r == Err::<Ratio, QueryError>(QueryError::Regression(RegressionError::DegenerateInput))
    } else {
        r matches Ok(p) && p.num == intercept_numerator(x, y) + slope_numerator(x, y) * experience
            && p.den == spread_x(x)
    }
}

fn column_error(table: &Table, name: &String, e: ColumnError) -> (r: QueryError)
    requires
        e.column()@ == name@,
        e is ColumnNotFound ==> first_named(table.columns@, name@) == table.columns@.len(),
        e is TypeMismatch ==> first_named(table.columns@, name@) < table.columns@.len() && !all_numeric(
            table.columns@[first_named(table.columns@, name@)].cells@,
        ),
    ensures
        r == QueryError::Column(e),
        column_error_of(*table, name@, r),
{
    QueryError::Column(e)
}

/// The numbers and nulls of the column named `name`.
pub fn column_cells(table: &Table, name: &String) -> (r: Result<Vec<Option<i32>>, QueryError>)
    ensures
        column_usable(*table, name@) <==> r is Ok,
        r matches Ok(v) ==> v@ == column_numbers(*table, name@),
        r matches Err(e) ==> column_error_of(*table, name@, e),
{
    proof {
        lemma_first_named_bounds(table.columns@, name@);
    }
    match numeric_column(table, name) {
        Ok(cells) => Ok(cells),
        Err(e) => Err(column_error(table, name, e)),
    }
}

/// The non-null numbers of the column named `name`.
pub fn column_present_values(table: &Table, name: &String) -> (r: Result<Vec<i32>, QueryError>)
    ensures
        column_usable(*table, name@) <==> r is Ok,
        r matches Ok(v) ==> v@ == column_values(*table, name@),
        r matches Err(e) ==> column_error_of(*table, name@, e),
{
    let cells = column_cells(table, name)?;
    Ok(present_values(&cells))
}

/// Summaries of non-null values, or the error that the first of them gives.
pub fn summarize_pair(salary: &Vec<i32>, experience: &Vec<i32>) -> (r: Result<SummaryReport, QueryError>)
    ensures
        salary.len() > MAX_VALUES || experience.len() > MAX_VALUES ==> r == Err::<
            SummaryReport,
            QueryError,
        >(QueryError::TooManyValues),
        salary.len() <= MAX_VALUES && experience.len() <= MAX_VALUES && (salary.len() == 0
            || experience.len() == 0) ==> r == Err::<SummaryReport, QueryError>(
            QueryError::Stats(StatsError::EmptyInput),
        ),
        0 < salary.len() <= MAX_VALUES && 0 < experience.len() <= MAX_VALUES ==> (r matches Ok(rep)
            && is_summary_of(salary@, rep.salary) && is_summary_of(experience@, rep.experience)),
{
    if salary.len() > MAX_VALUES || experience.len() > MAX_VALUES {
        return Err(QueryError::TooManyValues);
    }
    let salary = match summarize(salary) {
        Ok(s) => s,
        Err(e) => return Err(QueryError::Stats(e)),
    };
    let experience = match summarize(experience) {
        Ok(s) => s,
        Err(e) => return Err(QueryError::Stats(e)),
    };
    Ok(SummaryReport { salary, experience })
}

/// Mean, median, population variance, minimum and maximum of the non-null
/// salaries and of the non-null years of experience.
pub fn calculate_summary_statistics(table: &Table) -> (r: Result<SummaryReport, QueryError>)
    ensures
        summary_outcome(*table, r),
{
    let (experience, salary) = scatter_data(table)?;
    summarize_pair(&salary, &experience)
}

/// A histogram of the numbers and nulls `cells` in `bin_count` bins.
pub fn histogram_of_cells(cells: &Vec<Option<i32>>, bin_count: usize) -> (r: Result<
    HistogramData,
    QueryError,
>)
    requires
        bin_count > 0,
    ensures
        histogram_outcome(cells@, bin_count as int, r),
{
    match histogram(cells, bin_count, MIN_BIN_WIDTH) {
        Ok(h) => Ok(h),
        Err(e) => Err(QueryError::Stats(e)),
    }
}

/// A histogram of the non-null numbers of the column named `column_name`
/// in `bin_count` bins.
pub fn calculate_histogram(table: &Table, column_name: &String, bin_count: usize) -> (r: Result<
    HistogramData,
    QueryError,
>)
    requires
        bin_count > 0,
    ensures
        column_histogram_outcome(*table, column_name@, bin_count as int, r),
{
    let cells = column_cells(table, column_name)?;
    histogram_of_cells(&cells, bin_count)
}

/// The salary histogram in `DISTRIBUTION_BINS` bins.
pub fn calculate_distribution(table: &Table) -> (r: Result<HistogramData, QueryError>)
    ensures
        column_histogram_outcome(*table, SALARY_COLUMN@, DISTRIBUTION_BINS as int, r),
{
    calculate_histogram(table, &SALARY_COLUMN.to_owned(), DISTRIBUTION_BINS)
}

/// The numbers of the column named `value_name` in the rows where the
/// column named `category_name` holds `code`, nulls included.
pub open spec fn group_numbers(
    t: Table,
    value_name: Seq<char>,
    category_name: Seq<char>,
    code: Seq<char>,
) -> Seq<Option<i32>> {
    let v = column_numbers(t, value_name);
    let category = t.columns@[first_named(t.columns@, category_name)].cells@;
    selected(v, category, code, v.len() as int)
}

/// What `group_cells` gives: the value column's error, `ColumnNotFound`
/// naming the category column, or the group's numbers.
pub open spec fn group_outcome(
    t: Table,
    value_name: Seq<char>,
    category_name: Seq<char>,
    code: Seq<char>,
    r: Result<Vec<Option<i32>>, QueryError>,
) -> bool {
    if !column_usable(t, value_name) {
        r matches Err(e) && column_error_of(t, value_name, e)
    } else if first_named(t.columns@, category_name) == t.columns@.len() {
        r matches Err(e) && column_error_of(t, category_name, e)
    } else {
        r matches Ok(v) && v@ == group_numbers(t, value_name, category_name, code)
    }
}

/// The numbers of the column named `value_name` in the rows where the
/// column named `category_name` holds `code`.
pub fn group_cells(table: &Table, value_name: &String, category_name: &String, code: &String) -> (r:
    Result<Vec<Option<i32>>, QueryError>)
    requires
        table.wf(),
    ensures
        group_outcome(*table, value_name@, category_name@, code@, r),
{
    let cells = column_cells(table, value_name)?;
    proof {
        let c = first_named(table.columns@, value_name@);
        lemma_first_named_bounds(table.columns@, value_name@);
        assert(table.columns@[c].cells@.len() == table.row_count());
        lemma_first_named_bounds(table.columns@, category_name@);
    }
    match values_where(table, &cells, category_name, code) {
        Ok(g) => Ok(g),
        Err(e) => Err(column_error(table, category_name, e)),
    }
}

/// What a histogram of one group gives.
pub open spec fn partition_outcome(
    t: Table,
    value_name: Seq<char>,
    category_name: Seq<char>,
    code: Seq<char>,
    k: int,
    r: Result<HistogramData, QueryError>,
) -> bool {
    if !column_usable(t, value_name) {
        r matches Err(e) && column_error_of(t, value_name, e)
    } else if first_named(t.columns@, category_name) == t.columns@.len() {
        r matches Err(e) && column_error_of(t, category_name, e)
    } else {
        histogram_outcome(group_numbers(t, value_name, category_name, code), k, r)
    }
}

/// A histogram, in `bin_count` bins, of the numbers of the column named
/// `value_name` in the rows where the column named `category_name` holds
/// `code`. Each group gets bins of its own, from its own minimum and maximum.
pub fn partition_histogram(
    table: &Table,
    value_name: &String,
    category_name: &String,
    code: &String,
    bin_count: usize,
) -> (r: Result<HistogramData, QueryError>)
    requires
        table.wf(),
        bin_count > 0,
    ensures
        partition_outcome(*table, value_name@, category_name@, code@, bin_count as int, r),
{
    let group = group_cells(table, value_name, category_name, code)?;
    histogram_of_cells(&group, bin_count)
}

/// The non-null years of experience and the non-null salaries, for a
/// scatter plot.
pub fn scatter_data(table: &Table) -> (r: Result<(Vec<i32>, Vec<i32>), QueryError>)
    ensures
        scatter_outcome(*table, r),
{
    let salary = column_present_values(table, &SALARY_COLUMN.to_owned())?;
    let experience = column_present_values(table, &EXPERIENCE_COLUMN.to_owned())?;
    Ok((experience, salary))
}

/// The value at `experience` of the least-squares line through the points
/// `(x[i], y[i])`, or the error of the first check that fails.
pub fn predict_from(x: &Vec<i32>, y: &Vec<i32>, experience: i32) -> (r: Result<Ratio, QueryError>)
    ensures
        x.len() > MAX_FIT_VALUES ==> r == Err::<Ratio, QueryError>(QueryError::TooManyValues),
        x.len() <= MAX_FIT_VALUES && x.len() != y.len() ==> r == Err::<Ratio, QueryError>(
            QueryError::Regression(RegressionError::LengthMismatch),
        ),
        x.len() <= MAX_FIT_VALUES && x.len() == y.len() && x.len() == 0 ==> r == Err::<
            Ratio,
            QueryError,
        >(QueryError::Regression(RegressionError::EmptyInput)),
        0 < x.len() <= MAX_FIT_VALUES && x.len() == y.len() && spread_x(x@) == 0 ==> r == Err::<
            Ratio,
            QueryError,
        >(QueryError::Regression(RegressionError::DegenerateInput)),
        0 < x.len() <= MAX_FIT_VALUES && x.len() == y.len() && spread_x(x@) != 0 ==> (r matches Ok(p)
            && p.num == intercept_numerator(x@, y@) + slope_numerator(x@, y@) * experience && p.den
            == spread_x(x@)),
{
    if x.len() > MAX_FIT_VALUES {
        return Err(QueryError::TooManyValues);
    }
    match fit(x, y) {
        Ok(model) => Ok(predict(&model, experience)),
        Err(e) => Err(QueryError::Regression(e)),
    }
}

/// The salary that the least-squares line of salary over years of
/// experience gives for `experience` years.
pub fn predict_salary(table: &Table, experience: i32) -> (r: Result<Ratio, QueryError>)
    ensures
        prediction_outcome(*table, experience as int, r),
{
    let (x, y) = scatter_data(table)?;
    predict_from(&x, &y, experience)
}

/// A prediction depends on the table and the years of experience alone:
/// two predictions from one table for the same years both succeed or both
/// fail, and succeed with the same value.
pub proof fn lemma_prediction_is_determined(
    t: Table,
    experience: int,
    r1: Result<Ratio, QueryError>,
    r2: Result<Ratio, QueryError>,
)
    requires
        prediction_outcome(t, experience, r1),
        prediction_outcome(t, experience, r2),
    ensures
        r1 is Ok <==> r2 is Ok,
        r1 is Ok ==> r1 == r2,
{
}

/// In a summary that the statistics query gives, for salary and experience
/// alike, the minimum is at most the median and the mean, and both are at
/// most the maximum.
pub proof fn lemma_summary_report_in_range(t: Table, rep: SummaryReport)
    requires
        summary_outcome(t, Ok(rep)),
    ensures
        Ratio::of_int(rep.salary.min as int).le(rep.salary.median),
        rep.salary.median.le(Ratio::of_int(rep.salary.max as int)),
        Ratio::of_int(rep.salary.min as int).le(rep.salary.mean),
        rep.salary.mean.le(Ratio::of_int(rep.salary.max as int)),
        Ratio::of_int(rep.experience.min as int).le(rep.experience.median),
        rep.experience.median.le(Ratio::of_int(rep.experience.max as int)),
        Ratio::of_int(rep.experience.min as int).le(rep.experience.mean),
        rep.experience.mean.le(Ratio::of_int(rep.experience.max as int)),
{
    lemma_summary_in_range(column_values(t, SALARY_COLUMN@), rep.salary);
    lemma_summary_in_range(column_values(t, EXPERIENCE_COLUMN@), rep.experience);
}

/// The salary line passes through the point of means: where a prediction
/// succeeds, its value at `experience` is `(a + c * experience) / d`, and at
/// the mean experience `sum(x) / n` that is the mean salary `sum(y) / n`,
/// which over the common denominator reads as below.
pub proof fn lemma_salary_line_through_means(t: Table, experience: int, p: Ratio)
    requires
        prediction_outcome(t, experience, Ok(p)),
    ensures
        ({
            let x = column_values(t, EXPERIENCE_COLUMN@);
            let y = column_values(t, SALARY_COLUMN@);
            &&& p.num == intercept_numerator(x, y) + slope_numerator(x, y) * experience
            &&& p.den == spread_x(x)
            &&& intercept_numerator(x, y) * x.len() + slope_numerator(x, y) * sum_of(x) == sum_of(
                y,
            ) * p.den
        }),
{
    let x = column_values(t, EXPERIENCE_COLUMN@);
    let y = column_values(t, SALARY_COLUMN@);
    lemma_least_squares_through_means(x, y);
}

} // verus!
