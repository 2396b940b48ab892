use vstd::prelude::*;
use vstd::rwlock::{RwLock, RwLockPredicate};

use crate::analysis::{
    column_cells, column_error_of, column_histogram_outcome, column_numbers, column_usable,
    group_cells, group_outcome, histogram_of_cells,
    partition_outcome, predict_from, prediction_outcome, scatter_data, scatter_outcome,
    summarize_pair, summary_outcome, QueryError, SummaryReport, DISTRIBUTION_BINS, SALARY_COLUMN,
};
use crate::histogram::HistogramData;
use crate::stats::Ratio;
use crate::table::Table;

verus! {

/// What the lock keeps true of the value it guards: it is `table`, the one
/// table of the state, and well formed.
pub struct HoldsTable {
    pub table: Table,
}

impl RwLockPredicate<Table> for HoldsTable {
    open spec fn inv(self, t: Table) -> bool {
        t == self.table && t.wf()
    }
}

/// The cleaned table, shared by many concurrent readers. Access goes through
/// `with_table`, which holds the lock only while the caller's function runs,
/// and no reference to the table outlives that call. The table never
/// changes after `new`.
pub struct AppState {
    lock: RwLock<Table, HoldsTable>,
}

impl AppState {
    /// The table that the state holds.
    pub closed spec fn table(&self) -> Table {
        self.lock.pred().table
    }

    /// The state is well formed: its table is.
    pub open spec fn wf(&self) -> bool {
        self.table().wf()
    }

    pub fn new(table: Table) -> (s: Self)
        requires
            table.wf(),
        ensures
            s.wf(),
            s.table() == table,
    {
        let ghost held = table;
        AppState { lock: RwLock::new(table, Ghost(HoldsTable { table: held })) }
    }

    /// Runs `f` on the state's table under a shared lock and returns what it
    /// returns.
    pub fn with_table<R, F: Fn(&Table) -> R>(&self, f: F) -> (r: R)
        requires
            self.wf(),
            f.requires((&self.table(),)),
        ensures
            f.ensures((&self.table(),), r),
    {
        let handle = self.lock.acquire_read();
        let t = handle.borrow();
        let r = f(t);
        handle.release_read();
        r
    }

    /// Copies out the years of experience and the salaries, for a scatter plot.
    pub fn scatter_data(&self) -> (r: Result<(Vec<i32>, Vec<i32>), QueryError>)
        requires
            self.wf(),
        ensures
            scatter_outcome(self.table(), r),
    {
        let copy_columns = |t: &Table| -> (r: Result<(Vec<i32>, Vec<i32>), QueryError>)
            ensures
                scatter_outcome(*t, r),
            { scatter_data(t) };
        self.with_table(copy_columns)
    }

    /// The salary histogram in `DISTRIBUTION_BINS` bins, computed after the
    /// lock is released.
    pub fn distribution(&self) -> (r: Result<HistogramData, QueryError>)
        requires
            self.wf(),
        ensures
            column_histogram_outcome(self.table(), SALARY_COLUMN@, DISTRIBUTION_BINS as int, r),
    {
        let copy_salaries = |t: &Table| -> (r: Result<Vec<Option<i32>>, QueryError>)
            ensures
                column_usable(*t, SALARY_COLUMN@) <==> r is Ok,
                r matches Ok(v) ==> v@ == column_numbers(*t, SALARY_COLUMN@),
                r matches Err(e) ==> column_error_of(*t, SALARY_COLUMN@, e),
            { column_cells(t, &SALARY_COLUMN.to_owned()) };
        let cells = self.with_table(copy_salaries)?;
        histogram_of_cells(&cells, DISTRIBUTION_BINS)
    }

    /// A histogram, in `bin_count` bins, of the numbers of the column named
    /// `value_name` in the rows where the column named `category_name` holds
    /// `code`; the group is copied out under the lock and binned after.
    pub fn partition_histogram(
        &self,
        value_name: &String,
        category_name: &String,
        code: &String,
        bin_count: usize,
    ) -> (r: Result<HistogramData, QueryError>)
        requires
            self.wf(),
            bin_count > 0,
        ensures
            partition_outcome(
                self.table(),
                value_name@,
                category_name@,
                code@,
                bin_count as int,
                r,
            ),
    {
        let copy_group = |t: &Table| -> (r: Result<Vec<Option<i32>>, QueryError>)
            requires
                t.wf(),
            ensures
                group_outcome(*t, value_name@, category_name@, code@, r),
            { group_cells(t, value_name, category_name, code) };
        let group = self.with_table(copy_group)?;
        histogram_of_cells(&group, bin_count)
    }

    /// Summaries of the salaries and of the years of experience, computed
    /// after the lock is released.
    pub fn summary(&self) -> (r: Result<SummaryReport, QueryError>)
        requires
            self.wf(),
        ensures
            summary_outcome(self.table(), r),
    {
        let (experience, salary) = self.scatter_data()?;
        summarize_pair(&salary, &experience)
    }

    /// The salary that the least-squares line of salary over years of
    /// experience gives for `experience` years, fitted anew from the table
    /// after the lock is released.
    pub fn predict_salary(&self, experience: i32) -> (r: Result<Ratio, QueryError>)
        requires
            self.wf(),
        ensures
            prediction_outcome(self.table(), experience as int, r),
    {
        let (x, y) = self.scatter_data()?;
        predict_from(&x, &y, experience)
    }
}

} // verus!
