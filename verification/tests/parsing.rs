use spectra_reader::parser::{parse_parameter_table, parse_raw_pairs};
use spectra_reader::records::IngestError;

#[test]
fn parameter_table_two_rows_in_order() {
    let content = "a,x0,w,bias\n2.0,1550.0,10.0,0.1\n3.5,1545.5,8.0,0.2\n";
    let recs = parse_parameter_table(content).unwrap();
    assert_eq!(recs.len(), 2);
    assert_eq!(recs[0].a, "2.0");
    assert_eq!(recs[0].x0, "1550.0");
    assert_eq!(recs[0].w, "10.0");
    assert_eq!(recs[0].bias, "0.1");
    assert_eq!(recs[1].a, "3.5");
    assert_eq!(recs[1].x0, "1545.5");
    assert_eq!(recs[1].w, "8.0");
    assert_eq!(recs[1].bias, "0.2");
}

#[test]
fn parameter_table_header_only_is_empty_not_error() {
    let recs = parse_parameter_table("a,x0,w,bias\n").unwrap();
    assert_eq!(recs.len(), 0);
    let recs = parse_parameter_table("a,x0,w,bias").unwrap();
    assert_eq!(recs.len(), 0);
}

#[test]
fn parameter_table_empty_input_is_empty() {
    let recs = parse_parameter_table("").unwrap();
    assert_eq!(recs.len(), 0);
}

#[test]
fn parameter_table_malformed_row_reports_row_after_header() {
    let content = "a,x0,w,bias\n1.0,2.0,3.0,4.0\n1.0,2.0,abc,4.0\n";
    let err = parse_parameter_table(content).unwrap_err();
    assert_eq!(err, IngestError::MalformedRecord { row: 2, col: 3 });
    let err = parse_parameter_table("a,x0,w,bias\n1.0,2.0,abc,4.0").unwrap_err();
    assert_eq!(err, IngestError::MalformedRecord { row: 1, col: 3 });
}

#[test]
fn parameter_table_missing_field_reports_first_missing_column() {
    let err = parse_parameter_table("a,x0,w,bias\n1.0,2.0,3.0").unwrap_err();
    assert_eq!(err, IngestError::MalformedRecord { row: 1, col: 4 });
}

#[test]
fn parameter_table_extra_field_reports_column_past_arity() {
    let err = parse_parameter_table("a,x0,w,bias\n1.0,2.0,3.0,4.0,5.0").unwrap_err();
    assert_eq!(err, IngestError::MalformedRecord { row: 1, col: 5 });
}

#[test]
fn parameter_table_fails_fast_on_first_bad_row() {
    let err = parse_parameter_table("a,x0,w,bias\nx,2.0,3.0,4.0\nnot,even,close,").unwrap_err();
    assert_eq!(err, IngestError::MalformedRecord { row: 1, col: 1 });
    let err = parse_parameter_table("a,x0,w,bias\n1.0,2.0,3.0,4.0\n1.0,oops,3.0,4.0").unwrap_err();
    assert_eq!(err, IngestError::MalformedRecord { row: 2, col: 2 });
}

#[test]
fn parameter_table_skips_blank_lines_and_keeps_row_numbers() {
    let content = "a,x0,w,bias\n\n2.0,1550.0,10.0,0.1\n";
    let recs = parse_parameter_table(content).unwrap();
    assert_eq!(recs.len(), 1);
    assert_eq!(recs[0].a, "2.0");
    let err = parse_parameter_table("a,x0,w,bias\n\nbroken").unwrap_err();
    assert_eq!(err, IngestError::MalformedRecord { row: 2, col: 1 });
}

#[test]
fn parameter_table_reads_crlf_endings() {
    let content = "a,x0,w,bias\r\n2.0,1550.0,10.0,0.1\r\n";
    let recs = parse_parameter_table(content).unwrap();
    assert_eq!(recs.len(), 1);
    assert_eq!(recs[0].bias, "0.1");
}

#[test]
fn parameter_table_accepts_signs_and_exponents() {
    let content = "a,x0,w,bias\n-2.0,+1.55e3,1E1,.5\n";
    let recs = parse_parameter_table(content).unwrap();
    assert_eq!(recs.len(), 1);
    assert_eq!(recs[0].a, "-2.0");
    assert_eq!(recs[0].x0, "+1.55e3");
    assert_eq!(recs[0].w, "1E1");
    assert_eq!(recs[0].bias, ".5");
}

#[test]
fn raw_pairs_counts_nonempty_lines() {
    let content = "1550.0;0.5\n1551.0;0.6\n\n1552.0;0.7\n";
    let pts = parse_raw_pairs(content).unwrap();
    assert_eq!(pts.len(), 3);
    assert_eq!(pts[0].wavelength, "1550.0");
    assert_eq!(pts[0].transmission, "0.5");
    assert_eq!(pts[2].wavelength, "1552.0");
    assert_eq!(pts[2].transmission, "0.7");
}

#[test]
fn raw_pairs_empty_input_is_empty() {
    let pts = parse_raw_pairs("").unwrap();
    assert_eq!(pts.len(), 0);
}

#[test]
fn raw_pairs_has_no_header_row() {
    let err = parse_raw_pairs("wavelength;transmission\n1550.0;0.5\n").unwrap_err();
    assert_eq!(err, IngestError::MalformedRecord { row: 1, col: 1 });
}

#[test]
fn raw_pairs_wrong_field_count() {
    let err = parse_raw_pairs("1.0;2.0;3.0").unwrap_err();
    assert_eq!(err, IngestError::MalformedRecord { row: 1, col: 3 });
    let err = parse_raw_pairs("1.0").unwrap_err();
    assert_eq!(err, IngestError::MalformedRecord { row: 1, col: 2 });
}

#[test]
fn raw_pairs_non_numeric_field() {
    let err = parse_raw_pairs("1550.0;0.5\n1551.0;low").unwrap_err();
    assert_eq!(err, IngestError::MalformedRecord { row: 2, col: 2 });
}
