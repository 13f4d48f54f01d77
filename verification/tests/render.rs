use spectra_reader::parser::{parse_parameter_table, parse_raw_pairs};
use spectra_reader::records::IngestError;
use spectra_reader::render::{render_pairs, render_records, usize_to_string};

#[test]
fn spells_numbers_in_decimal() {
    assert_eq!(usize_to_string(0), "0");
    assert_eq!(usize_to_string(7), "7");
    assert_eq!(usize_to_string(10), "10");
    assert_eq!(usize_to_string(1550), "1550");
    assert_eq!(usize_to_string(40907), "40907");
}

#[test]
fn renders_pairs_with_one_based_ranks() {
    let pts = parse_raw_pairs("1550.0;0.5\n1551.25;0.6\n").unwrap();
    let lines = render_pairs(&pts);
    assert_eq!(lines.len(), 2);
    assert_eq!(lines[0], "1: 1550.0, 0.5");
    assert_eq!(lines[1], "2: 1551.25, 0.6");
}

#[test]
fn renders_records_field_by_field() {
    let recs = parse_parameter_table("a,x0,w,bias\n2.0,1550.0,10.0,0.1\n").unwrap();
    let lines = render_records(&recs);
    assert_eq!(lines.len(), 1);
    assert_eq!(lines[0], "a: 2.0, x0: 1550.0, w: 10.0, bias: 0.1");
}

#[test]
fn error_messages_name_row_and_column() {
    let err = IngestError::MalformedRecord { row: 12, col: 4 };
    assert_eq!(err.message(), "malformed record at row 12, column 4");
    assert_eq!(
        IngestError::SourceUnavailable.message(),
        "could not read the input source"
    );
}
