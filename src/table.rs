use vstd::prelude::*;

verus! {

/// One value of a table: a number, in hundredths of the unit that the file
/// writes, or text.
#[derive(Debug, PartialEq)]
pub enum Cell {
    Number(i32),
    Text(String),
}

/// A named column; a `None` cell is a null.
#[derive(Debug, PartialEq)]
pub struct Column {
    pub name: String,
    pub cells: Vec<Option<Cell>>,
}

/// Named columns of equal length; row `r` is the `r`-th cell of every column.
#[derive(Debug, PartialEq)]
pub struct Table {
    pub columns: Vec<Column>,
}

#[derive(Debug, PartialEq)]
pub enum ColumnError {
    /// No column has the requested name.
    ColumnNotFound(String),
    /// The column holds text where a number is needed.
    TypeMismatch(String),
}

impl ColumnError {
    /// The name of the column that the error is about.
    pub open spec fn column(self) -> String {
        match self {
            ColumnError::ColumnNotFound(n) => n,
            ColumnError::TypeMismatch(n) => n,
        }
    }
}

impl Table {
    pub open spec fn row_count(self) -> nat {
        if self.columns@.len() == 0 {
            0
        } else {
            self.columns@[0].cells@.len()
        }
    }

    /// All columns have the same number of cells.
    pub open spec fn wf(self) -> bool {
        forall|c: int|
            0 <= c < self.columns@.len() ==> #[trigger] self.columns@[c].cells@.len()
                == self.row_count()
    }

    /// No column holds a null in row `r`.
    pub open spec fn row_complete(self, r: int) -> bool {
        forall|c: int| 0 <= c < self.columns@.len() ==> (#[trigger] self.columns@[c].cells@[r]) is Some
    }

    /// No cell of the table is null.
    pub open spec fn has_no_nulls(self) -> bool {
        forall|c: int, r: int|
            0 <= c < self.columns@.len() && 0 <= r < self.columns@[c].cells@.len() ==> (
            #[trigger] self.columns@[c].cells@[r]) is Some
    }

    /// The cells of column `c` in the rows `0..upto` that have no null.
    pub open spec fn complete_cells(self, c: int, upto: int) -> Seq<Option<Cell>>
        decreases upto,
    {
        if upto <= 0 {
            Seq::empty()
        } else {
            let before = self.complete_cells(c, upto - 1);
            if self.row_complete(upto - 1) {
                before.push(self.columns@[c].cells@[upto - 1])
            } else {
                before
            }
        }
    }

    /// This table with every row that holds a null in any column removed.
    pub open spec fn is_cleaned_from(self, old: Table) -> bool {
        &&& self.columns@.len() == old.columns@.len()
        &&& forall|c: int|
            0 <= c < self.columns@.len() ==> {
                &&& (#[trigger] self.columns@[c]).name == old.columns@[c].name
                &&& self.columns@[c].cells@ == old.complete_cells(c, old.row_count() as int)
            }
    }
}

/// Index of the first of `cols` named `name`, or `cols.len()` where none is.
pub open spec fn first_named(cols: Seq<Column>, name: Seq<char>) -> int
    decreases cols.len(),
{
    if cols.len() == 0 {
        0
    } else {
        let f = first_named(cols.drop_last(), name);
        if f < cols.len() - 1 {
            f
        } else if cols.last().name@ == name {
            cols.len() - 1
        } else {
            cols.len() as int
        }
    }
}

/// The numbers of a column, with `None` for a null (and for text).
pub open spec fn as_numbers(cells: Seq<Option<Cell>>) -> Seq<Option<i32>> {
    Seq::new(
        cells.len(),
        |r: int|
            match cells[r] {
                Some(Cell::Number(n)) => Some(n),
                _ => None,
            },
    )
}

/// No cell holds text.
pub open spec fn all_numeric(cells: Seq<Option<Cell>>) -> bool {
    forall|r: int| 0 <= r < cells.len() ==> !(#[trigger] cells[r] matches Some(Cell::Text(_)))
}

/// Whether `cell` holds exactly the text `code`.
pub open spec fn is_text(cell: Option<Cell>, code: Seq<char>) -> bool {
    match cell {
        Some(Cell::Text(s)) => s@ == code,
        _ => false,
    }
}

/// The entries of `values` at the rows `0..upto` where `category` holds `code`.
pub open spec fn selected(
    values: Seq<Option<i32>>,
    category: Seq<Option<Cell>>,
    code: Seq<char>,
    upto: int,
) -> Seq<Option<i32>>
    decreases upto,
{
    if upto <= 0 {
        Seq::empty()
    } else {
        let before = selected(values, category, code, upto - 1);
        if is_text(category[upto - 1], code) {
            before.push(values[upto - 1])
        } else {
            before
        }
    }
}

fn copy_cell(cell: &Option<Cell>) -> (r: Option<Cell>)
    ensures
        r == *cell,
{
    match cell {
        None => None,
        Some(Cell::Number(n)) => Some(Cell::Number(*n)),
        Some(Cell::Text(s)) => Some(Cell::Text(s.clone())),
    }
}

/// Whether no column holds a null in row `r`.
fn row_is_complete(table: &Table, r: usize) -> (b: bool)
    requires
        table.wf(),
        r < table.row_count(),
    ensures
        b == table.row_complete(r as int),
{
    let mut c: usize = 0;
    while c < table.columns.len()
        invariant
            table.wf(),
            r < table.row_count(),
            c <= table.columns@.len(),
            forall|k: int| 0 <= k < c ==> (#[trigger] table.columns@[k].cells@[r as int]) is Some,
        decreases table.columns.len() - c,
    {
        assert(table.columns@[c as int].cells@.len() == table.row_count());
        if table.columns[c].cells[r].is_none() {
            return false;
        }
        c = c + 1;
    }
    true
}

/// The cells of column `c` in the rows that `keep` marks.
fn kept_cells(table: &Table, c: usize, keep: &Vec<bool>) -> (r: Vec<Option<Cell>>)
    requires
        table.wf(),
        c < table.columns@.len(),
        keep@.len() == table.row_count(),
        forall|k: int| 0 <= k < keep@.len() ==> #[trigger] keep@[k] == table.row_complete(k),
    ensures
        r@ == table.complete_cells(c as int, table.row_count() as int),
{
    let n = keep.len();
    let mut out: Vec<Option<Cell>> = Vec::new();
    let mut r: usize = 0;
    assert(table.columns@[c as int].cells@.len() == table.row_count());
    while r < n
        invariant
            table.wf(),
            c < table.columns@.len(),
            n == keep@.len() == table.row_count(),
            table.columns@[c as int].cells@.len() == n,
            forall|k: int| 0 <= k < keep@.len() ==> #[trigger] keep@[k] == table.row_complete(k),
            r <= n,
            out@ == table.complete_cells(c as int, r as int),
        decreases n - r,
    {
        if keep[r] {
            let cell = copy_cell(&table.columns[c].cells[r]);
            out.push(cell);
        }
        r = r + 1;
    }
    out
}

/// A new table: `table` without every row that holds a null in any column,
/// so that no cell is null. Column names and order stay; the remaining rows
/// keep their order. `table` itself is left as it is.
pub fn clean(table: &Table) -> (r: Table)
    requires
        table.wf(),
    ensures
        r.wf(),
        r.has_no_nulls(),
        r.is_cleaned_from(*table),
{
    let rows: usize = if table.columns.len() == 0 {
        0
    } else {
        table.columns[0].cells.len()
    };
    let mut keep: Vec<bool> = Vec::new();
    let mut r: usize = 0;
    while r < rows
        invariant
            table.wf(),
            rows == table.row_count(),
            r <= rows,
            keep@.len() == r,
            forall|k: int| 0 <= k < r ==> #[trigger] keep@[k] == table.row_complete(k),
        decreases rows - r,
    {
        let b = row_is_complete(table, r);
        keep.push(b);
        r = r + 1;
    }
    let mut columns: Vec<Column> = Vec::new();
    let mut c: usize = 0;
    while c < table.columns.len()
        invariant
            table.wf(),
            keep@.len() == table.row_count(),
            forall|k: int| 0 <= k < keep@.len() ==> #[trigger] keep@[k] == table.row_complete(k),
            c <= table.columns@.len(),
            columns@.len() == c,
            forall|k: int|
                0 <= k < c ==> {
                    &&& (#[trigger] columns@[k]).name == table.columns@[k].name
                    &&& columns@[k].cells@ == table.complete_cells(k, table.row_count() as int)
                },
        decreases table.columns.len() - c,
    {
        let cells = kept_cells(table, c, &keep);
        let name = table.columns[c].name.clone();
        columns.push(Column { name, cells });
        c = c + 1;
    }
    let t = Table { columns };
    proof {
        lemma_cleaned_table(*table, t);
    }
    t
}

/// Replaces `table` by `clean(table)`.
pub fn clean_data(table: &mut Table)
    requires
        old(table).wf(),
    ensures
        final(table).wf(),
        final(table).has_no_nulls(),
        final(table).is_cleaned_from(*old(table)),
{
    let cleaned = clean(table);
    *table = cleaned;
}

proof fn lemma_complete_cells_props(t: Table, c: int, upto: int)
    requires
        t.wf(),
        0 <= c < t.columns@.len(),
        0 <= upto <= t.row_count(),
    ensures
        forall|k: int|
            0 <= k < t.complete_cells(c, upto).len() ==> (#[trigger] t.complete_cells(
                c,
                upto,
            )[k]) is Some,
        forall|d: int|
            0 <= d < t.columns@.len() ==> #[trigger] t.complete_cells(d, upto).len()
                == t.complete_cells(c, upto).len(),
    decreases upto,
{
    if upto > 0 {
        lemma_complete_cells_props(t, c, upto - 1);
        assert forall|d: int| 0 <= d < t.columns@.len() implies #[trigger] t.complete_cells(
            d,
            upto,
        ).len() == t.complete_cells(c, upto).len() by {
            lemma_complete_cells_props(t, d, upto - 1);
        }
        if t.row_complete(upto - 1) {
            assert(t.columns@[c].cells@[upto - 1] is Some);
        }
    }
}

proof fn lemma_cleaned_table(before: Table, after: Table)
    requires
        before.wf(),
        after.is_cleaned_from(before),
    ensures
        after.wf(),
        after.has_no_nulls(),
{
    let n = before.row_count() as int;
    if after.columns@.len() > 0 {
        lemma_complete_cells_props(before, 0, n);
        assert forall|c: int| 0 <= c < after.columns@.len() implies #[trigger] after.columns@[c].cells@.len()
            == after.row_count() by {
            lemma_complete_cells_props(before, c, n);
        }
        assert forall|c: int, r: int|
            0 <= c < after.columns@.len() && 0 <= r < after.columns@[c].cells@.len() implies (
            #[trigger] after.columns@[c].cells@[r]) is Some by {
            lemma_complete_cells_props(before, c, n);
        }
    }
}

/// `first_named` gives the index of a column with that name and no earlier
/// one has it, or the number of columns.
pub proof fn lemma_first_named_bounds(cols: Seq<Column>, name: Seq<char>)
    ensures
        0 <= first_named(cols, name) <= cols.len(),
        first_named(cols, name) < cols.len() ==> cols[first_named(cols, name)].name@ == name,
        forall|j: int| 0 <= j < first_named(cols, name) ==> (#[trigger] cols[j]).name@ != name,
    decreases cols.len(),
{
    if cols.len() > 0 {
        let t = cols.drop_last();
        lemma_first_named_bounds(t, name);
        assert forall|j: int| 0 <= j < first_named(cols, name) implies (#[trigger] cols[j]).name@
            != name by {
            if j < t.len() {
                assert(cols[j] == t[j]);
            }
        }
    }
}

/// The index of the first column named `name`, if there is one.
pub fn find_column(table: &Table, name: &String) -> (r: Option<usize>)
    ensures
        first_named(table.columns@, name@) == table.columns@.len() <==> r is None,
        r matches Some(i) ==> i == first_named(table.columns@, name@),
{
    let mut c: usize = 0;
    while c < table.columns.len()
        invariant
            c <= table.columns@.len(),
            forall|j: int| 0 <= j < c ==> (#[trigger] table.columns@[j]).name@ != name@,
        decreases table.columns.len() - c,
    {
        if table.columns[c].name == *name {
            proof {
                lemma_first_named_from(table.columns@, name@, c as int);
            }
            return Some(c);
        }
        c = c + 1;
    }
    proof {
        lemma_first_named_from(table.columns@, name@, table.columns@.len() as int);
    }
    None
}

/// With no column before `c` named `name`, and column `c` (if any) named so,
/// the first column named `name` is `c`.
proof fn lemma_first_named_from(cols: Seq<Column>, name: Seq<char>, c: int)
    requires
        0 <= c <= cols.len(),
        forall|j: int| 0 <= j < c ==> (#[trigger] cols[j]).name@ != name,
        c < cols.len() ==> cols[c].name@ == name,
    ensures
        first_named(cols, name) == c,
{
    lemma_first_named_bounds(cols, name);
    let f = first_named(cols, name);
    if f < c {
        assert(cols[f].name@ == name);
    } else if c < f {
        assert(cols[c].name@ == name);
    }
}

/// The numbers of the column named `name`, with `None` for each null.
pub fn numeric_column(table: &Table, name: &String) -> (r: Result<Vec<Option<i32>>, ColumnError>)
    ensures
        r matches Err(e) ==> e.column()@ == name@,
        first_named(table.columns@, name@) == table.columns@.len() <==> r matches Err(
            ColumnError::ColumnNotFound(_),
        ),
        r matches Err(ColumnError::TypeMismatch(_)) <==> (first_named(table.columns@, name@)
            < table.columns@.len() && !all_numeric(
            table.columns@[first_named(table.columns@, name@)].cells@,
        )),
        r matches Ok(v) ==> v@ == as_numbers(
            table.columns@[first_named(table.columns@, name@)].cells@,
        ),
{
    let c = match find_column(table, name) {
        Some(c) => c,
        None => return Err(ColumnError::ColumnNotFound(name.clone())),
    };
    let cells = &table.columns[c].cells;
    let mut out: Vec<Option<i32>> = Vec::new();
    let mut r: usize = 0;
    while r < cells.len()
        invariant
            r <= cells@.len(),
            out@ == as_numbers(cells@).subrange(0, r as int),
            forall|k: int| 0 <= k < r ==> !(#[trigger] cells@[k] matches Some(Cell::Text(_))),
            c < table.columns@.len(),
            c == first_named(table.columns@, name@),
            cells@ == table.columns@[c as int].cells@,
        decreases cells.len() - r,
    {
        match &cells[r] {
            None => out.push(None),
            Some(Cell::Number(n)) => out.push(Some(*n)),
            Some(Cell::Text(_)) => {
                assert(!all_numeric(cells@));
                return Err(ColumnError::TypeMismatch(name.clone()));
            },
        }
        r = r + 1;
        assert(out@ =~= as_numbers(cells@).subrange(0, r as int));
    }
    assert(out@ =~= as_numbers(cells@));
    Ok(out)
}

/// The entries of `values` at the rows where the column named
/// `category_name` holds exactly the text `code`.
pub fn values_where(
    table: &Table,
    values: &Vec<Option<i32>>,
    category_name: &String,
    code: &String,
) -> (r: Result<Vec<Option<i32>>, ColumnError>)
    requires
        table.wf(),
        values@.len() == table.row_count(),
    ensures
        first_named(table.columns@, category_name@) == table.columns@.len() <==> r is Err,
        r matches Err(e) ==> e is ColumnNotFound && e.column()@ == category_name@,
        r matches Ok(v) ==> v@ == selected(
            values@,
            table.columns@[first_named(table.columns@, category_name@)].cells@,
            code@,
            values@.len() as int,
        ),
{
    let c = match find_column(table, category_name) {
        Some(c) => c,
        None => return Err(ColumnError::ColumnNotFound(category_name.clone())),
    };
    let category = &table.columns[c].cells;
    assert(category@.len() == table.row_count());
    let mut out: Vec<Option<i32>> = Vec::new();
    let mut r: usize = 0;
    while r < values.len()
        invariant
            r <= values@.len() == category@.len(),
            out@ == selected(values@, category@, code@, r as int),
        decreases values.len() - r,
    {
        let hit = match &category[r] {
            Some(Cell::Text(s)) => *s == *code,
            _ => false,
        };
        if hit {
            out.push(values[r]);
        }
        r = r + 1;
    }
    Ok(out)
}

} // verus!
