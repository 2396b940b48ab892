use salary_analysis::loader::{parse_number, parse_table, read_number, split_text, IngestError};
use salary_analysis::table::{clean, clean_data, Cell, Table};

fn chars(s: &str) -> Vec<char> {
    s.chars().collect()
}

fn fields(record: &[Vec<char>]) -> Vec<String> {
    record.iter().map(|f| f.iter().collect()).collect()
}

fn text(s: &str) -> Option<Cell> {
    Some(Cell::Text(s.to_string()))
}

#[test]
fn splits_plain_and_quoted_fields() {
    let records = split_text(&chars("a,b,c\r\n1,\"x, \"\"y\"\"\",\n\n2,\"multi\nline\",z"));
    assert_eq!(records.len(), 3);
    assert_eq!(fields(&records[0]), vec!["a", "b", "c"]);
    assert_eq!(fields(&records[1]), vec!["1", "x, \"y\"", ""]);
    assert_eq!(fields(&records[2]), vec!["2", "multi\nline", "z"]);
}

#[test]
fn numbers_in_hundredths() {
    assert_eq!(parse_number(&chars("42")), Some(4200));
    assert_eq!(parse_number(&chars("-12.5")), Some(-1250));
    assert_eq!(parse_number(&chars("3.14159")), Some(314));
    assert_eq!(parse_number(&chars("2.675")), Some(268));
    assert_eq!(parse_number(&chars("2.6749")), Some(267));
    assert_eq!(parse_number(&chars("-0.005")), Some(-1));
    assert_eq!(parse_number(&chars("21474836.475")), None);
    assert_eq!(parse_number(&chars(".5")), Some(50));
    assert_eq!(parse_number(&chars("7.")), Some(700));
    assert_eq!(parse_number(&chars("")), None);
    assert_eq!(parse_number(&chars("-")), None);
    assert_eq!(parse_number(&chars("+3.5")), Some(350));
    assert_eq!(parse_number(&chars("+-3")), None);
    assert_eq!(parse_number(&chars("1.2.3")), None);
    assert_eq!(parse_number(&chars("12a")), None);
    assert_eq!(parse_number(&chars("21474836.47")), Some(i32::MAX));
    assert_eq!(parse_number(&chars("21474836.48")), None);
    assert_eq!(parse_number(&chars("-21474836.48")), Some(i32::MIN));
    assert_eq!(parse_number(&chars("99999999999999999999")), None);
}

#[test]
fn loads_typed_columns() {
    let t = parse_table(&chars("Age,Gender,Salary\n30,M,50000\n,F,62000.5\n41,,\n")).unwrap();
    assert_eq!(t.columns.len(), 3);
    assert_eq!(t.columns[0].name, "Age");
    assert_eq!(t.columns[0].cells, vec![Some(Cell::Number(3000)), None, Some(Cell::Number(4100))]);
    assert_eq!(t.columns[1].cells, vec![text("M"), text("F"), None]);
    assert_eq!(
        t.columns[2].cells,
        vec![Some(Cell::Number(5_000_000)), Some(Cell::Number(6_200_050)), None]
    );
}

#[test]
fn text_anywhere_makes_a_text_column() {
    let t = parse_table(&chars("id,code\n1,10\n2,n/a\n")).unwrap();
    assert_eq!(t.columns[1].cells, vec![text("10"), text("n/a")]);
    assert_eq!(t.columns[0].cells, vec![Some(Cell::Number(100)), Some(Cell::Number(200))]);
}

#[test]
fn ragged_record_is_malformed() {
    assert_eq!(parse_table(&chars("a,b\n1,2\n3\n")), Err(IngestError::MalformedRow(2)));
    assert_eq!(parse_table(&chars("a,b\n1,2,3\n")), Err(IngestError::MalformedRow(1)));
}

#[test]
fn no_header_is_an_empty_file() {
    assert_eq!(parse_table(&chars("")), Err(IngestError::EmptyFile));
    assert_eq!(parse_table(&chars("\n\r\n")), Err(IngestError::EmptyFile));
}

#[test]
fn header_only_gives_empty_columns() {
    let t = parse_table(&chars("a,b\n")).unwrap();
    assert_eq!(t.columns.len(), 2);
    assert!(t.columns[1].cells.is_empty());
}

#[test]
fn text_past_the_inferred_rows_is_a_bad_number() {
    let mut s = String::from("n\n");
    for _ in 0..10_000 {
        s.push_str("1\n");
    }
    s.push_str("oops\n");
    assert_eq!(parse_table(&chars(&s)), Err(IngestError::BadNumber(10_001, 0)));
}

#[test]
fn large_decimal_is_a_bad_number_not_text() {
    assert_eq!(parse_table(&chars("a\n99999999\n")), Err(IngestError::BadNumber(1, 0)));
    assert_eq!(parse_table(&chars("a,b\nx,1\ny,-30000000\n")), Err(IngestError::BadNumber(2, 1)));
}

#[test]
fn exponent_notation_is_text() {
    let t = parse_table(&chars("a\n1e5\n")).unwrap();
    assert_eq!(t.columns[0].cells, vec![text("1e5")]);
}

#[test]
fn decimals_are_read_apart_from_their_size() {
    assert_eq!(read_number(&chars("99999999")), (true, None));
    assert_eq!(read_number(&chars("-12.5")), (true, Some(-1250)));
    assert_eq!(read_number(&chars("12,5")), (false, None));
    assert_eq!(read_number(&chars("")), (false, None));
}

#[test]
fn load_then_clean() {
    let mut t: Table = parse_table(&chars("x,y\n1,a\n,b\n3,\n4,d\n")).unwrap();
    clean_data(&mut t);
    assert_eq!(t.columns[0].cells, vec![Some(Cell::Number(100)), Some(Cell::Number(400))]);
    assert_eq!(t.columns[1].cells, vec![text("a"), text("d")]);
}

#[test]
fn clean_returns_a_new_table() {
    let t: Table = parse_table(&chars("x,y\n1,a\n,b\n")).unwrap();
    let c = clean(&t);
    assert_eq!(c.columns[0].cells, vec![Some(Cell::Number(100))]);
    assert_eq!(t.columns[0].cells.len(), 2);
}
