use salary_analysis::analysis::{
    calculate_distribution, calculate_histogram, calculate_summary_statistics,
    partition_histogram, predict_salary, scatter_data, QueryError, EXPERIENCE_COLUMN,
    GENDER_COLUMN, SALARY_COLUMN,
};
use salary_analysis::histogram::{histogram, present_values};
use salary_analysis::regression::{fit, predict, RegressionError};
use salary_analysis::stats::MAX_VALUES;
use salary_analysis::shared::AppState;
use salary_analysis::stats::{
    maximum, mean, median, minimum, population_variance, sample_variance, summarize, Ratio,
    StatsError,
};
use salary_analysis::table::{
    clean_data, find_column, numeric_column, values_where, Cell, Column, ColumnError, Table,
};

fn same_value(r: Ratio, num: i128, den: i128) -> bool {
    r.den > 0 && r.num * den == num * r.den
}

fn number_column(name: &str, cells: Vec<Option<i32>>) -> Column {
    Column {
        name: name.to_string(),
        cells: cells.into_iter().map(|c| c.map(Cell::Number)).collect(),
    }
}

fn text_column(name: &str, cells: Vec<Option<&str>>) -> Column {
    Column {
        name: name.to_string(),
        cells: cells
            .into_iter()
            .map(|c| c.map(|s| Cell::Text(s.to_string())))
            .collect(),
    }
}

fn survey() -> Table {
    Table {
        columns: vec![
            number_column(
                EXPERIENCE_COLUMN,
                vec![Some(100), Some(200), Some(300), Some(400), Some(500)],
            ),
            number_column(
                SALARY_COLUMN,
                vec![Some(3_000_000), Some(3_500_000), Some(4_000_000), Some(4_500_000), Some(5_000_000)],
            ),
            text_column(GENDER_COLUMN, vec![Some("M"), Some("F"), Some("M"), Some("F"), Some("M")]),
        ],
    }
}

#[test]
fn fit_line_through_salaries() {
    let x = vec![1, 2, 3, 4, 5];
    let y = vec![30000, 35000, 40000, 45000, 50000];
    let m = fit(&x, &y).unwrap();
    assert!(same_value(m.slope, 5000, 1));
    assert!(same_value(m.intercept, 25000, 1));
    assert!(same_value(predict(&m, 6), 55000, 1));
}

#[test]
fn equal_values_fall_in_first_bin() {
    let h = histogram(&vec![Some(10), Some(10), Some(10)], 3, 1).unwrap();
    assert_eq!(h.counts, vec![3, 0, 0]);
    assert_eq!(h.bins.len(), 3);
    assert!(same_value(h.bins[0], 10, 1));
    assert!(same_value(h.bins[1], 31, 3));
    assert!(same_value(h.bins[2], 32, 3));
}

#[test]
fn empty_input_is_an_error() {
    assert_eq!(summarize(&vec![]), Err(StatsError::EmptyInput));
    assert_eq!(histogram(&vec![], 10, 1), Err(StatsError::EmptyInput));
    assert_eq!(histogram(&vec![None, None], 10, 1), Err(StatsError::EmptyInput));
    assert_eq!(mean(&vec![]), Err(StatsError::EmptyInput));
    assert_eq!(median(&vec![]), Err(StatsError::EmptyInput));
    assert_eq!(minimum(&vec![]), Err(StatsError::EmptyInput));
    assert_eq!(maximum(&vec![]), Err(StatsError::EmptyInput));
    assert_eq!(population_variance(&vec![]), Err(StatsError::EmptyInput));
    assert_eq!(sample_variance(&vec![7]), Err(StatsError::EmptyInput));
}

#[test]
fn constant_x_is_degenerate() {
    assert_eq!(fit(&vec![5, 5, 5], &vec![1, 2, 3]), Err(RegressionError::DegenerateInput));
}

#[test]
fn fit_rejects_bad_lengths() {
    assert_eq!(fit(&vec![1, 2], &vec![1]), Err(RegressionError::LengthMismatch));
    assert_eq!(fit(&vec![], &vec![]), Err(RegressionError::EmptyInput));
}

#[test]
fn median_of_even_and_odd_counts() {
    assert!(same_value(median(&vec![1, 2, 3, 4]).unwrap(), 5, 2));
    assert!(same_value(median(&vec![1, 2, 3]).unwrap(), 2, 1));
}

#[test]
fn median_sorts_first() {
    assert!(same_value(median(&vec![3, 1, 2]).unwrap(), 2, 1));
    assert!(same_value(median(&vec![9, -4, 7, 0]).unwrap(), 7, 2));
}

#[test]
fn mean_and_variances() {
    let v = vec![2, 4, 4, 4, 5, 5, 7, 9];
    assert!(same_value(mean(&v).unwrap(), 5, 1));
    assert!(same_value(population_variance(&v).unwrap(), 4, 1));
    assert!(same_value(sample_variance(&v).unwrap(), 32, 7));
    assert_eq!(minimum(&v), Ok(2));
    assert_eq!(maximum(&v), Ok(9));
}

#[test]
fn single_value_summary() {
    let s = summarize(&vec![42]).unwrap();
    assert!(same_value(s.mean, 42, 1));
    assert!(same_value(s.median, 42, 1));
    assert!(same_value(s.variance, 0, 1));
    assert_eq!(s.min, 42);
    assert_eq!(s.max, 42);
}

#[test]
fn summary_lies_between_min_and_max() {
    let v = vec![3, 1, 4, 1, 5, 9, 2, 6];
    let s = summarize(&v).unwrap();
    assert_eq!(s.min, 1);
    assert_eq!(s.max, 9);
    assert!(same_value(s.median, 7, 2));
    assert!(same_value(s.mean, 31, 8));
    for r in [s.median, s.mean] {
        assert!(s.min as i128 * r.den <= r.num);
        assert!(r.num <= s.max as i128 * r.den);
    }
}

#[test]
fn histogram_counts_every_present_value() {
    let values = vec![Some(0), None, Some(5), Some(10), Some(3), None, Some(10), Some(7)];
    let h = histogram(&values, 4, 1).unwrap();
    assert_eq!(h.bins.len(), 4);
    assert_eq!(h.counts.len(), 4);
    assert_eq!(h.counts.iter().sum::<usize>(), 6);
    assert_eq!(h.counts, vec![1, 1, 2, 2]);
    assert!(same_value(h.bins[1], 10, 4));
    assert!(same_value(h.bins[3], 30, 4));
}

#[test]
fn histogram_maximum_lands_in_last_bin() {
    let h = histogram(&vec![Some(0), Some(100)], 10, 1).unwrap();
    assert_eq!(h.counts, vec![1, 0, 0, 0, 0, 0, 0, 0, 0, 1]);
    assert!(same_value(h.bins[9], 90, 1));
}

#[test]
fn prediction_at_mean_gives_mean() {
    let x = vec![1, 2, 3];
    let y = vec![2, 4, 9];
    let m = fit(&x, &y).unwrap();
    assert!(same_value(predict(&m, 2), 5, 1));
}

#[test]
fn present_values_skip_nulls() {
    assert_eq!(present_values(&vec![None, Some(4), None, Some(-2)]), vec![4, -2]);
}

#[test]
fn cleaning_drops_rows_with_any_null() {
    let mut t = Table {
        columns: vec![
            number_column("a", vec![Some(1), None, Some(3), Some(4)]),
            text_column("b", vec![Some("x"), Some("y"), None, Some("z")]),
        ],
    };
    clean_data(&mut t);
    assert_eq!(t.columns.len(), 2);
    assert_eq!(t.columns[0].name, "a");
    assert_eq!(t.columns[0].cells, vec![Some(Cell::Number(1)), Some(Cell::Number(4))]);
    assert_eq!(
        t.columns[1].cells,
        vec![Some(Cell::Text("x".to_string())), Some(Cell::Text("z".to_string()))]
    );
    for c in &t.columns {
        assert!(c.cells.iter().all(|cell| cell.is_some()));
    }
}

#[test]
fn columns_by_name() {
    let t = survey();
    assert_eq!(find_column(&t, &SALARY_COLUMN.to_string()), Some(1));
    assert_eq!(find_column(&t, &"Age".to_string()), None);
    assert_eq!(
        numeric_column(&t, &"Age".to_string()),
        Err(ColumnError::ColumnNotFound("Age".to_string()))
    );
    assert_eq!(
        numeric_column(&t, &GENDER_COLUMN.to_string()),
        Err(ColumnError::TypeMismatch(GENDER_COLUMN.to_string()))
    );
    assert_eq!(
        numeric_column(&t, &EXPERIENCE_COLUMN.to_string()),
        Ok(vec![Some(100), Some(200), Some(300), Some(400), Some(500)])
    );
}

#[test]
fn values_of_one_category() {
    let t = survey();
    let salary = numeric_column(&t, &SALARY_COLUMN.to_string()).unwrap();
    let women = values_where(&t, &salary, &GENDER_COLUMN.to_string(), &"F".to_string()).unwrap();
    assert_eq!(women, vec![Some(3_500_000), Some(4_500_000)]);
}

#[test]
fn summary_statistics_of_table() {
    let rep = calculate_summary_statistics(&survey()).unwrap();
    assert!(same_value(rep.salary.mean, 4_000_000, 1));
    assert!(same_value(rep.salary.median, 4_000_000, 1));
    assert!(same_value(rep.salary.variance, 500_000_000_000, 1));
    assert_eq!(rep.salary.min, 3_000_000);
    assert_eq!(rep.experience.max, 500);
    assert!(same_value(rep.experience.variance, 20_000, 1));
}

#[test]
fn missing_column_is_reported() {
    let t = Table { columns: vec![number_column(SALARY_COLUMN, vec![Some(1)])] };
    assert_eq!(
        calculate_summary_statistics(&t),
        Err(QueryError::Column(ColumnError::ColumnNotFound(EXPERIENCE_COLUMN.to_string())))
    );
    assert_eq!(
        predict_salary(&t, 3),
        Err(QueryError::Column(ColumnError::ColumnNotFound(EXPERIENCE_COLUMN.to_string())))
    );
}

#[test]
fn too_many_values_are_refused() {
    let n = 65536;
    let t = Table {
        columns: vec![
            number_column(EXPERIENCE_COLUMN, vec![Some(1); n]),
            number_column(SALARY_COLUMN, vec![Some(2); n]),
        ],
    };
    let rep = calculate_summary_statistics(&t).unwrap();
    assert!(same_value(rep.salary.mean, 2, 1));
    assert!(same_value(rep.experience.variance, 0, 1));
    assert_eq!(predict_salary(&t, 1), Err(QueryError::TooManyValues));
}

#[test]
fn distribution_of_salaries() {
    let h = calculate_distribution(&survey()).unwrap();
    assert_eq!(h.counts, vec![1, 0, 1, 0, 0, 1, 0, 1, 0, 1]);
    assert!(same_value(h.bins[1], 3_200_000, 1));
    let h = calculate_histogram(&survey(), &EXPERIENCE_COLUMN.to_string(), 2).unwrap();
    assert_eq!(h.counts, vec![2, 3]);
    assert!(same_value(h.bins[1], 300, 1));
}

#[test]
fn distribution_by_gender() {
    let t = survey();
    let salary = SALARY_COLUMN.to_string();
    let gender = GENDER_COLUMN.to_string();
    let men = partition_histogram(&t, &salary, &gender, &"M".to_string(), 2).unwrap();
    assert_eq!(men.counts, vec![1, 2]);
    assert!(same_value(men.bins[0], 3_000_000, 1));
    assert!(same_value(men.bins[1], 4_000_000, 1));
    let women = partition_histogram(&t, &salary, &gender, &"F".to_string(), 2).unwrap();
    assert_eq!(women.counts, vec![1, 1]);
    assert!(same_value(women.bins[0], 3_500_000, 1));
    assert_eq!(
        partition_histogram(&t, &salary, &gender, &"D".to_string(), 2),
        Err(QueryError::Stats(StatsError::EmptyInput))
    );
}

#[test]
fn salary_prediction_from_table() {
    assert!(same_value(predict_salary(&survey(), 600).unwrap(), 5_500_000, 1));
    let (x, y) = scatter_data(&survey()).unwrap();
    assert_eq!(x, vec![100, 200, 300, 400, 500]);
    assert_eq!(y[4], 5_000_000);
}

#[test]
fn shared_state_serves_queries() {
    let state = AppState::new(survey());
    let rows = state.with_table(|t| t.columns[0].cells.len());
    assert_eq!(rows, 5);
    let rep = state.summary().unwrap();
    assert!(same_value(rep.salary.mean, 4_000_000, 1));
    assert!(same_value(state.predict_salary(0).unwrap(), 2_500_000, 1));
    let (x, _) = state.scatter_data().unwrap();
    assert_eq!(state.distribution().unwrap().counts, vec![1, 0, 1, 0, 0, 1, 0, 1, 0, 1]);
    assert_eq!(x.len(), 5);
    let men = state
        .partition_histogram(&SALARY_COLUMN.to_string(), &GENDER_COLUMN.to_string(), &"M".to_string(), 2)
        .unwrap();
    assert_eq!(men.counts, vec![1, 2]);
    assert!(same_value(state.predict_salary(600).unwrap(), 5_500_000, 1));
    assert_eq!(state.predict_salary(600), state.predict_salary(600));
    let empty = AppState::new(Table { columns: vec![] });
    assert_eq!(
        empty.summary(),
        Err(QueryError::Column(ColumnError::ColumnNotFound(SALARY_COLUMN.to_string())))
    );
    assert_eq!(
        empty.distribution(),
        Err(QueryError::Column(ColumnError::ColumnNotFound(SALARY_COLUMN.to_string())))
    );
}

#[test]
fn narrow_range_uses_whole_unit_bins() {
    let t = Table { columns: vec![number_column("v", vec![Some(100), Some(150), Some(120)])] };
    let h = calculate_histogram(&t, &"v".to_string(), 4).unwrap();
    assert_eq!(h.counts, vec![2, 0, 1, 0]);
    assert!(same_value(h.bins[1], 125, 1));
}

#[test]
fn value_on_a_boundary_starts_its_bin() {
    let h = histogram(&vec![Some(0), Some(5), Some(10), Some(4)], 2, 1).unwrap();
    assert_eq!(h.counts, vec![2, 2]);
    assert!(same_value(h.bins[1], 5, 1));
}

#[test]
fn text_column_is_a_type_mismatch() {
    let t = Table {
        columns: vec![
            text_column(SALARY_COLUMN, vec![Some("high")]),
            number_column(EXPERIENCE_COLUMN, vec![Some(100)]),
        ],
    };
    let expected = Err(QueryError::Column(ColumnError::TypeMismatch(SALARY_COLUMN.to_string())));
    assert_eq!(calculate_summary_statistics(&t), expected);
    assert_eq!(
        calculate_distribution(&t),
        Err(QueryError::Column(ColumnError::TypeMismatch(SALARY_COLUMN.to_string())))
    );
    assert_eq!(
        predict_salary(&t, 1),
        Err(QueryError::Column(ColumnError::TypeMismatch(SALARY_COLUMN.to_string())))
    );
}

#[test]
fn null_only_column_is_empty_input() {
    let t = Table {
        columns: vec![
            number_column(SALARY_COLUMN, vec![None, None]),
            number_column(EXPERIENCE_COLUMN, vec![Some(100), Some(200)]),
        ],
    };
    let empty = Err(QueryError::Stats(StatsError::EmptyInput));
    assert_eq!(calculate_summary_statistics(&t), empty);
    assert_eq!(calculate_distribution(&t), Err(QueryError::Stats(StatsError::EmptyInput)));
    assert_eq!(
        calculate_histogram(&t, &SALARY_COLUMN.to_string(), 3),
        Err(QueryError::Stats(StatsError::EmptyInput))
    );
    assert_eq!(
        predict_salary(&t, 1),
        Err(QueryError::Regression(RegressionError::LengthMismatch))
    );
}

#[test]
fn regression_errors_from_the_table() {
    let degenerate = Table {
        columns: vec![
            number_column(EXPERIENCE_COLUMN, vec![Some(500), Some(500), Some(500)]),
            number_column(SALARY_COLUMN, vec![Some(100), Some(200), Some(300)]),
        ],
    };
    assert_eq!(
        predict_salary(&degenerate, 400),
        Err(QueryError::Regression(RegressionError::DegenerateInput))
    );
    let empty = Table {
        columns: vec![
            number_column(EXPERIENCE_COLUMN, vec![]),
            number_column(SALARY_COLUMN, vec![]),
        ],
    };
    assert_eq!(
        predict_salary(&empty, 400),
        Err(QueryError::Regression(RegressionError::EmptyInput))
    );
}

#[test]
fn missing_category_is_reported() {
    let t = survey();
    assert_eq!(
        partition_histogram(&t, &SALARY_COLUMN.to_string(), &"Sex".to_string(), &"M".to_string(), 2),
        Err(QueryError::Column(ColumnError::ColumnNotFound("Sex".to_string())))
    );
}

#[test]
fn variance_bound_is_wide() {
    assert_eq!(MAX_VALUES, u32::MAX as usize);
    let v = vec![i32::MIN, i32::MAX];
    let var = population_variance(&v).unwrap();
    let spread = i32::MAX as i128 - i32::MIN as i128;
    assert!(same_value(var, spread * spread, 4));
    assert!(same_value(mean(&v).unwrap(), -1, 2));
}
