use vstd::prelude::*;

use crate::table::{Cell, Column, Table};

verus! {

/// State of the record splitter: finished records, the fields of the
/// current record, the current field, whether a quoted field is open, and
/// whether a quote was just read inside it.
pub type SplitState = (Seq<Seq<Seq<char>>>, Seq<Seq<char>>, Seq<char>, bool, bool);

/// Closes the current record; a line with nothing on it adds no record.
pub open spec fn end_record(
    records: Seq<Seq<Seq<char>>>,
    fields: Seq<Seq<char>>,
    field: Seq<char>,
) -> Seq<Seq<Seq<char>>> {
    if fields.len() == 0 && field.len() == 0 {
        records
    } else {
        records.push(fields.push(field))
    }
}

/// One character outside quotes: `,` ends a field, a line feed ends a
/// record, a carriage return is dropped, a quote at the start of a field
/// opens a quoted field, anything else is kept.
pub open spec fn step_plain(s: SplitState, c: char) -> SplitState {
    let (records, fields, field, quoted, pending) = s;
    if c == ',' {
        (records, fields.push(field), Seq::empty(), false, false)
    } else if c == '\n' {
        (end_record(records, fields, field), Seq::empty(), Seq::empty(), false, false)
    } else if c == '\r' {
        (records, fields, field, false, false)
    } else if c == '"' && field.len() == 0 {
        (records, fields, field, true, false)
    } else {
        (records, fields, field.push(c), false, false)
    }
}

/// One character. Inside quotes everything is kept, and two quotes stand
/// for one; a quote followed by anything else closes the quoted field.
pub open spec fn step(s: SplitState, c: char) -> SplitState {
    let (records, fields, field, quoted, pending) = s;
    if quoted && pending {
        if c == '"' {
            (records, fields, field.push('"'), true, false)
        } else {
            step_plain((records, fields, field, false, false), c)
        }
    } else if quoted {
        if c == '"' {
            (records, fields, field, true, true)
        } else {
            (records, fields, field.push(c), true, false)
        }
    } else {
        step_plain(s, c)
    }
}

pub open spec fn split_run(text: Seq<char>) -> SplitState
    decreases text.len(),
{
    if text.len() == 0 {
        (Seq::empty(), Seq::empty(), Seq::empty(), false, false)
    } else {
        step(split_run(text.drop_last()), text.last())
    }
}

/// The records of a delimited text, each a sequence of fields.
pub open spec fn split_records(text: Seq<char>) -> Seq<Seq<Seq<char>>> {
    let s = split_run(text);
    end_record(s.0, s.1, s.2)
}

pub open spec fn fields_view(fields: Seq<Vec<char>>) -> Seq<Seq<char>> {
    fields.map_values(|f: Vec<char>| f@)
}

pub open spec fn records_view(records: Seq<Vec<Vec<char>>>) -> Seq<Seq<Seq<char>>> {
    records.map_values(|r: Vec<Vec<char>>| fields_view(r@))
}

fn push_field(fields: &mut Vec<Vec<char>>, field: Vec<char>)
    ensures
        fields_view(final(fields)@) == fields_view(old(fields)@).push(field@),
{
    fields.push(field);
    assert(fields_view(fields@) =~= fields_view(old(fields)@).push(field@));
}

fn close_record(records: &mut Vec<Vec<Vec<char>>>, fields: Vec<Vec<char>>, field: Vec<char>)
    ensures
        records_view(final(records)@) == end_record(
            records_view(old(records)@),
            fields_view(fields@),
            field@,
        ),
{
    if fields.len() == 0 && field.len() == 0 {
        return;
    }
    let mut fields = fields;
    push_field(&mut fields, field);
    records.push(fields);
    assert(records_view(records@) =~= records_view(old(records)@).push(fields_view(fields@)));
}

/// Splits a delimited text into records of fields: fields are separated by
/// commas and records by line feeds; a field may be quoted, and inside
/// quotes commas and line feeds are kept and two quotes stand for one.
pub fn split_text(text: &Vec<char>) -> (r: Vec<Vec<Vec<char>>>)
    ensures
        records_view(r@) == split_records(text@),
{
    let mut records: Vec<Vec<Vec<char>>> = Vec::new();
    let mut fields: Vec<Vec<char>> = Vec::new();
    let mut field: Vec<char> = Vec::new();
    let mut quoted = false;
    let mut pending = false;
    let mut i: usize = 0;
    assert(records_view(records@) =~= Seq::empty());
    assert(fields_view(fields@) =~= Seq::empty());
    while i < text.len()
        invariant
            i <= text@.len(),
            split_run(text@.subrange(0, i as int)) == (
                records_view(records@),
                fields_view(fields@),
                field@,
                quoted,
                pending,
            ),
        decreases text.len() - i,
    {
        let c = text[i];
        proof {
            assert(text@.subrange(0, i + 1).drop_last() =~= text@.subrange(0, i as int));
        }
        let plain = if quoted && pending {
            if c == '"' {
                field.push('"');
                pending = false;
                false
            } else {
                quoted = false;
                pending = false;
                true
            }
        } else if quoted {
            if c == '"' {
                pending = true;
            } else {
                field.push(c);
            }
            false
        } else {
            true
        };
        if plain {
            if c == ',' {
                let done = field;
                field = Vec::new();
                push_field(&mut fields, done);
            } else if c == '\n' {
                let done_fields = fields;
                let done = field;
                fields = Vec::new();
                field = Vec::new();
                close_record(&mut records, done_fields, done);
                assert(fields_view(fields@) =~= Seq::empty());
            } else if c == '\r' {
            } else if c == '"' && field.len() == 0 {
                quoted = true;
            } else {
                field.push(c);
            }
        }
        i = i + 1;
    }
    proof {
        assert(text@.subrange(0, text.len() as int) =~= text@);
    }
    close_record(&mut records, fields, field);
    records
}

/// State of the number reader: whole part, fraction digits kept (at most
/// three), how many were kept, whether the point was read, whether any digit
/// was read, and whether the text is still a decimal.
pub type NumberState = (int, int, int, bool, bool, bool);

pub open spec fn is_digit(c: char) -> bool {
    '0' <= c <= '9'
}

pub open spec fn number_step(s: NumberState, c: char) -> NumberState {
    let (whole, frac, kept, point, digit, ok) = s;
    if !ok {
        s
    } else if is_digit(c) {
        let d = c as int - '0' as int;
        if !point {
            (whole * 10 + d, frac, kept, point, true, ok)
        } else if kept < 3 {
            (whole, frac * 10 + d, kept + 1, point, true, ok)
        } else {
            (whole, frac, kept, point, true, ok)
        }
    } else if c == '.' && !point {
        (whole, frac, kept, true, digit, ok)
    } else {
        (whole, frac, kept, point, digit, false)
    }
}

pub open spec fn number_run(s: Seq<char>) -> NumberState
    decreases s.len(),
{
    if s.len() == 0 {
        (0, 0, 0, false, false, true)
    } else {
        number_step(number_run(s.drop_last()), s.last())
    }
}

/// The kept fraction digits in hundredths, rounded half away from zero on
/// the third digit (later digits cannot change that rounding).
pub open spec fn fraction_hundredths(frac: int, kept: int) -> int {
    if kept == 1 {
        frac * 10
    } else if kept == 3 {
        frac / 10 + if frac % 10 >= 5 {
            1int
        } else {
            0int
        }
    } else {
        frac
    }
}

/// The value, rounded to hundredths, of digits with at most one decimal
/// point and at least one digit; `None` where the text is no such decimal.
pub open spec fn unsigned_hundredths(s: Seq<char>) -> Option<int> {
    let (whole, frac, kept, point, digit, ok) = number_run(s);
    if ok && digit {
        Some(whole * 100 + fraction_hundredths(frac, kept))
    } else {
        None
    }
}

/// The value in hundredths of a decimal with an optional leading sign, such
/// as `-12.5` (which is `-1250`); `None` where the text is no decimal.
pub open spec fn hundredths(s: Seq<char>) -> Option<int> {
    if s.len() > 0 && s[0] == '-' {
        match unsigned_hundredths(s.drop_first()) {
            Some(v) => Some(-v),
            None => None,
        }
    } else if s.len() > 0 && s[0] == '+' {
        unsigned_hundredths(s.drop_first())
    } else {
        unsigned_hundredths(s)
    }
}

/// The text is a decimal, whatever its size.
pub open spec fn is_decimal(s: Seq<char>) -> bool {
    hundredths(s) is Some
}

/// `hundredths(s)` where it fits in an `i32`.
pub open spec fn number_of(s: Seq<char>) -> Option<i32> {
    match hundredths(s) {
        Some(v) => if i32::MIN <= v <= i32::MAX {
            Some(v as i32)
        } else {
            None
        },
        None => None,
    }
}

proof fn lemma_number_run_nonnegative(s: Seq<char>)
    ensures
        number_run(s).0 >= 0,
        number_run(s).1 >= 0,
        0 <= number_run(s).2 <= 3,
        number_run(s).2 == 0 ==> number_run(s).1 == 0,
        number_run(s).2 == 1 ==> number_run(s).1 < 10,
        number_run(s).2 == 2 ==> number_run(s).1 < 100,
        number_run(s).2 == 3 ==> number_run(s).1 < 1000,
    decreases s.len(),
{
    if s.len() > 0 {
        lemma_number_run_nonnegative(s.drop_last());
    }
}

/// Once a prefix is no decimal, no longer text is one either.
proof fn lemma_not_a_number_stays(s: Seq<char>, k: int)
    requires
        0 <= k <= s.len(),
        !number_run(s.subrange(0, k)).5,
    ensures
        !number_run(s).5,
    decreases s.len() - k,
{
    if k < s.len() {
        assert(s.subrange(0, k + 1).drop_last() =~= s.subrange(0, k));
        lemma_not_a_number_stays(s, k + 1);
    } else {
        assert(s.subrange(0, k) =~= s);
    }
}

/// Reads `chars[start..]` as an unsigned decimal: whether it is one, and its
/// value in hundredths where that is at most ten billion.
fn unsigned_number(chars: &Vec<char>, start: usize) -> (r: (bool, Option<i64>))
    requires
        start <= chars@.len(),
    ensures
        ({
            let v = unsigned_hundredths(chars@.subrange(start as int, chars@.len() as int));
            &&& r.0 == v is Some
            &&& r.1 matches Some(x) ==> v == Some(x as int) && 0 <= x < 20_000_000_000
            &&& r.0 && r.1 is None ==> v.unwrap() > 10_000_000_000
            &&& !r.0 ==> r.1 is None
        }),
{
    let mut whole: i64 = 0;
    let mut big = false;
    let mut frac: i64 = 0;
    let mut kept: i64 = 0;
    let mut point = false;
    let mut digit = false;
    let mut i: usize = start;
    while i < chars.len()
        invariant
            start <= i <= chars@.len(),
            ({
                let st = number_run(chars@.subrange(start as int, i as int));
                &&& st.1 == frac && st.2 == kept && st.3 == point && st.4 == digit && st.5
                &&& big ==> st.0 > 100_000_000
                &&& !big ==> st.0 == whole && 0 <= whole <= 100_000_000
            }),
        decreases chars.len() - i,
    {
        let c = chars[i];
        proof {
            assert(chars@.subrange(start as int, i + 1).drop_last() =~= chars@.subrange(
                start as int,
                i as int,
            ));
            lemma_number_run_nonnegative(chars@.subrange(start as int, i as int));
        }
        if '0' <= c && c <= '9' {
            let d = (c as u32 - '0' as u32) as i64;
            if !point {
                if !big {
                    whole = whole * 10 + d;
                    if whole > 100_000_000 {
                        big = true;
                    }
                }
            } else if kept < 3 {
                frac = frac * 10 + d;
                kept = kept + 1;
            }
            digit = true;
        } else if c == '.' && !point {
            point = true;
        } else {
            proof {
                let whole_text = chars@.subrange(start as int, chars@.len() as int);
                assert(chars@.subrange(start as int, i + 1) =~= whole_text.subrange(
                    0,
                    i + 1 - start,
                ));
                lemma_not_a_number_stays(whole_text, i + 1 - start);
            }
            return (false, None);
        }
        i = i + 1;
    }
    proof {
        lemma_number_run_nonnegative(chars@.subrange(start as int, i as int));
    }
    if !digit {
        return (false, None);
    }
    if big {
        return (true, None);
    }
    let scaled = if kept == 1 {
        frac * 10
    } else if kept == 3 {
        frac / 10 + if frac % 10 >= 5 {
            1
        } else {
            0
        }
    } else {
        frac
    };
    (true, Some(whole * 100 + scaled))
}

/// Reads a field as a decimal: whether it is one, and its value in
/// hundredths where that fits in an `i32`.
pub fn read_number(field: &Vec<char>) -> (r: (bool, Option<i32>))
    ensures
        r.0 == is_decimal(field@),
        r.1 == number_of(field@),
{
    let negative = field.len() > 0 && field[0] == '-';
    let signed_plus = field.len() > 0 && field[0] == '+';
    let start: usize = if negative || signed_plus {
        1
    } else {
        0
    };
    let u = unsigned_number(field, start);
    proof {
        if negative || signed_plus {
            assert(field@.subrange(1, field@.len() as int) =~= field@.drop_first());
        } else {
            assert(field@.subrange(0, field@.len() as int) =~= field@);
        }
    }
    let (valid, value) = u;
    match value {
        None => (valid, None),
        Some(v) => {
            let signed = if negative {
                -v
            } else {
                v
            };
            if signed < i32::MIN as i64 || signed > i32::MAX as i64 {
                (valid, None)
            } else {
                (valid, Some(signed as i32))
            }
        },
    }
}

/// The number, in hundredths, that a field holds, where it is a decimal that
/// fits in an `i32`.
pub fn parse_number(field: &Vec<char>) -> (r: Option<i32>)
    ensures
        r == number_of(field@),
{
    read_number(field).1
}

/// How many data records, at most, decide whether a column is numeric.
pub const INFER_ROWS: usize = 10_000;

#[derive(Debug, PartialEq)]
pub enum IngestError {
    /// The file could not be read.
    NotFound(String),
    /// The record with this index (the header is record 0) does not have as
    /// many fields as the header.
    MalformedRow(usize),
    /// The text holds no header.
    EmptyFile,
    /// The field of the record with the first index, in the numeric column
    /// with the second, is a decimal too large for an `i32` in hundredths
    /// (more than 21,474,836.47 in size), or, past the first `INFER_ROWS`
    /// data records, no decimal at all.
    BadNumber(usize, usize),
}

/// Column `j` is numeric: each non-empty field of it among the first
/// `INFER_ROWS` data records is a decimal, whatever its size.
pub open spec fn column_is_numeric(records: Seq<Seq<Seq<char>>>, j: int) -> bool {
    forall|r: int|
        1 <= r < records.len() && r <= INFER_ROWS ==> (#[trigger] records[r][j]).len() == 0
            || is_decimal(records[r][j])
}

/// The field of record `r` in column `j` can be kept: it is empty, or the
/// column is text, or it is a decimal that fits an `i32` in hundredths.
pub open spec fn field_fits(records: Seq<Seq<Seq<char>>>, r: int, j: int) -> bool {
    records[r][j].len() == 0 || !column_is_numeric(records, j) || number_of(records[r][j]) is Some
}

/// Record `r` has as many fields as the header.
pub open spec fn record_fits(records: Seq<Seq<Seq<char>>>, r: int) -> bool {
    records[r].len() == records[0].len()
}

/// There is a header, and every data record has its width.
pub open spec fn records_shaped(records: Seq<Seq<Seq<char>>>) -> bool {
    &&& records.len() > 0
    &&& forall|r: int| 1 <= r < records.len() ==> #[trigger] record_fits(records, r)
}

/// The records are shaped and every field of them can be kept.
pub open spec fn records_load(records: Seq<Seq<Seq<char>>>) -> bool {
    &&& records_shaped(records)
    &&& forall|r: int, j: int|
        1 <= r < records.len() && 0 <= j < records[0].len() ==> #[trigger] field_fits(records, r, j)
}

/// The cell that `field` becomes in a column that is numeric or not: a null
/// exactly where the field is empty.
pub open spec fn cell_from(cell: Option<Cell>, field: Seq<char>, numeric: bool) -> bool {
    match cell {
        None => field.len() == 0,
        Some(Cell::Number(n)) => numeric && field.len() > 0 && number_of(field) == Some(n),
        Some(Cell::Text(s)) => !numeric && field.len() > 0 && s@ == field,
    }
}

/// `t` is the table of `records`: one column per header field, named by it,
/// with one cell per data record; empty fields are nulls.
pub open spec fn table_of(records: Seq<Seq<Seq<char>>>, t: Table) -> bool {
    &&& t.columns@.len() == records[0].len()
    &&& forall|j: int|
        0 <= j < t.columns@.len() ==> {
            &&& (#[trigger] t.columns@[j]).name@ == records[0][j]
            &&& t.columns@[j].cells@.len() == records.len() - 1
            &&& forall|r: int|
                0 <= r < records.len() - 1 ==> cell_from(
                    #[trigger] t.columns@[j].cells@[r],
                    records[r + 1][j],
                    column_is_numeric(records, j),
                )
        }
}

/// Relies on String's FromIterator<char>: the string holds the characters
/// in order.
#[verifier::external_body]
fn string_from_chars(chars: &Vec<char>) -> (r: String)
    ensures
        r@ == chars@,
{
    String::from_iter(chars.iter())
}

/// Whether column `j` of well-shaped records is numeric.
fn infer_numeric(records: &Vec<Vec<Vec<char>>>, j: usize) -> (b: bool)
    requires
        records@.len() > 0,
        forall|r: int| 0 <= r < records@.len() ==> j < (#[trigger] records@[r])@.len(),
    ensures
        b == column_is_numeric(records_view(records@), j as int),
{
    let ghost rv = records_view(records@);
    let mut r: usize = 1;
    while r < records.len() && r <= INFER_ROWS
        invariant
            1 <= r <= records@.len(),
            r <= INFER_ROWS + 1,
            rv == records_view(records@),
            forall|k: int| 0 <= k < records@.len() ==> j < (#[trigger] records@[k])@.len(),
            forall|k: int|
                1 <= k < r ==> (#[trigger] rv[k][j as int]).len() == 0 || is_decimal(
                    rv[k][j as int],
                ),
        decreases records.len() - r,
    {
        let field = &records[r][j];
        assert(rv[r as int][j as int] == field@);
        if field.len() > 0 && !read_number(field).0 {
            return false;
        }
        r = r + 1;
    }
    true
}

/// Reads a delimited text whose first record is the header into a table.
/// A column is numeric where each non-empty field of it among the first
/// `INFER_ROWS` data records is a decimal (an optional sign, digits and at
/// most one point; no exponent); its numbers are kept in hundredths, rounded
/// half away from zero. Other columns keep their fields as text. Empty
/// fields, and only they, become nulls. It fails on a text without a header
/// (`EmptyFile`), on a record of the wrong width (`MalformedRow`), and on a
/// field of a numeric column that is too large for an `i32` in hundredths or,
/// past the inferred records, no decimal (`BadNumber`, naming record and
/// column).
pub fn parse_table(text: &Vec<char>) -> (r: Result<Table, IngestError>)
    ensures
        split_records(text@).len() == 0 <==> r == Err::<Table, IngestError>(IngestError::EmptyFile),
        records_load(split_records(text@)) <==> r is Ok,
        r matches Ok(t) ==> t.wf() && table_of(split_records(text@), t),
        split_records(text@).len() > 0 && !records_shaped(split_records(text@)) ==> r matches Err(
            IngestError::MalformedRow(_),
        ),
        r matches Err(IngestError::MalformedRow(k)) ==> 1 <= k < split_records(text@).len()
            && !record_fits(split_records(text@), k as int),
        records_shaped(split_records(text@)) && !records_load(split_records(text@)) ==> r matches Err(
            IngestError::BadNumber(_, _),
        ),
        r matches Err(IngestError::BadNumber(k, c)) ==> records_shaped(split_records(text@)) && 1
            <= k < split_records(text@).len() && c < split_records(text@)[0].len()
            && !field_fits(split_records(text@), k as int, c as int),
{
    let records = split_text(text);
    let ghost rv = records_view(records@);
    assert(rv.len() == records@.len());
    if records.len() == 0 {
        return Err(IngestError::EmptyFile);
    }
    let width = records[0].len();
    let mut r: usize = 1;
    while r < records.len()
        invariant
            1 <= r <= records@.len(),
            width == records@[0]@.len(),
            rv == records_view(records@),
            rv == split_records(text@),
            forall|k: int| 0 <= k < r ==> (#[trigger] records@[k])@.len() == width,
        decreases records.len() - r,
    {
        if records[r].len() != width {
            assert(rv[r as int].len() == records@[r as int]@.len());
            assert(!record_fits(rv, r as int));
            return Err(IngestError::MalformedRow(r));
        }
        r = r + 1;
    }
    let mut numeric: Vec<bool> = Vec::new();
    let mut j: usize = 0;
    while j < width
        invariant
            j <= width == records@[0]@.len(),
            records@.len() > 0,
            rv == records_view(records@),
            rv == split_records(text@),
            forall|k: int| 0 <= k < records@.len() ==> (#[trigger] records@[k])@.len() == width,
            numeric@.len() == j,
            forall|c: int| 0 <= c < j ==> #[trigger] numeric@[c] == column_is_numeric(rv, c),
        decreases width - j,
    {
        let b = infer_numeric(&records, j);
        numeric.push(b);
        j = j + 1;
    }
    let mut columns: Vec<Column> = Vec::new();
    let mut j: usize = 0;
    while j < width
        invariant
            j <= width == records@[0]@.len(),
            records@.len() > 0,
            rv == records_view(records@),
            rv == split_records(text@),
            forall|k: int| 0 <= k < records@.len() ==> (#[trigger] records@[k])@.len() == width,
            numeric@.len() == width,
            forall|c: int| 0 <= c < width ==> #[trigger] numeric@[c] == column_is_numeric(rv, c),
            columns@.len() == j,
            forall|c: int|
                0 <= c < j ==> {
                    &&& (#[trigger] columns@[c]).name@ == rv[0][c]
                    &&& columns@[c].cells@.len() == rv.len() - 1
                    &&& forall|k: int|
                        0 <= k < rv.len() - 1 ==> cell_from(
                            #[trigger] columns@[c].cells@[k],
                            rv[k + 1][c],
                            column_is_numeric(rv, c),
                        )
                },
        decreases width - j,
    {
        let name = string_from_chars(&records[0][j]);
        let mut cells: Vec<Option<Cell>> = Vec::new();
        let mut r: usize = 1;
        while r < records.len()
            invariant
                1 <= r <= records@.len(),
                records@.len() > 0,
                j < width == records@[0]@.len(),
                rv == records_view(records@),
                rv == split_records(text@),
                forall|k: int| 0 <= k < records@.len() ==> (#[trigger] records@[k])@.len() == width,
                numeric@.len() == width,
                forall|c: int|
                    0 <= c < width ==> #[trigger] numeric@[c] == column_is_numeric(rv, c),
                cells@.len() == r - 1,
                forall|k: int|
                    0 <= k < r - 1 ==> cell_from(
                        #[trigger] cells@[k],
                        rv[k + 1][j as int],
                        column_is_numeric(rv, j as int),
                    ),
            decreases records.len() - r,
        {
            let field = &records[r][j];
            assert(rv[r as int][j as int] == field@);
            let cell = if field.len() == 0 {
                None
            } else if numeric[j] {
                match parse_number(field) {
                    Some(n) => Some(Cell::Number(n)),
                    None => {
                        proof {
                            assert forall|k: int| 1 <= k < rv.len() implies #[trigger] record_fits(
                                rv,
                                k,
                            ) by {
                                assert(records@[k]@.len() == width);
                            }
                            assert(!field_fits(rv, r as int, j as int));
                        }
                        return Err(IngestError::BadNumber(r, j));
                    },
                }
            } else {
                Some(Cell::Text(string_from_chars(field)))
            };
            cells.push(cell);
            r = r + 1;
        }
        columns.push(Column { name, cells });
        j = j + 1;
    }
    let t = Table { columns };
    proof {
        assert forall|k: int| 1 <= k < rv.len() implies #[trigger] record_fits(rv, k) by {
            assert(records@[k]@.len() == width);
        }
        assert forall|k: int, c: int| 1 <= k < rv.len() && 0 <= c < rv[0].len() implies #[trigger] field_fits(
            rv,
            k,
            c,
        ) by {
            assert(cell_from(t.columns@[c].cells@[k - 1], rv[k][c], column_is_numeric(rv, c)));
        }
        if t.columns@.len() > 0 {
            assert forall|c: int| 0 <= c < t.columns@.len() implies #[trigger] t.columns@[c].cells@.len()
                == t.row_count() by {}
        }
    }
    Ok(t)
}

} // verus!
