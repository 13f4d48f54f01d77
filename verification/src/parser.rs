//! Parsing delimited spectrum files into records.
//!
//! A parameter table is comma-separated with one header line (skipped) and
//! four number columns per data row; a raw-pairs file is semicolon-separated
//! with two number columns per row and no header.  Lines with nothing on
//! them are skipped; any other malformed row aborts the whole parse, so a
//! caller never sees partial results.
use vstd::prelude::*;
use crate::grammar::{check_float_literal, is_float_literal};
use crate::records::{IngestError, Record, SpectrumPoint};
use crate::text::{lemma_lines_of_len, lines_of, split_lines, split_on, split_str};

verus! {

/// The character views of a vector of fields.
pub open spec fn field_views(fs: Seq<String>) -> Seq<Seq<char>> {
    fs.map_values(|f: String| f@)
}

/// The fields of `l` split at `d` are exactly `arity` many, every one a
/// decimal floating-point literal.
pub open spec fn row_ok(l: Seq<char>, d: char, arity: int) -> bool {
    let fs = split_on(l, d);
    fs.len() == arity && forall|j: int| 0 <= j < fs.len() ==> is_float_literal(#[trigger] fs[j])
}

/// The 1-based column reported for a malformed row, scanning from field
/// `j`: the first field that is missing or fails the number grammar, or one
/// past `arity` when extra fields follow `arity` sound ones.
pub open spec fn bad_col_from(fs: Seq<Seq<char>>, arity: int, j: int) -> int
    decreases arity - j,
{
    if j >= arity {
        arity + 1
    } else if j >= fs.len() || !is_float_literal(fs[j]) {
        j + 1
    } else {
        bad_col_from(fs, arity, j + 1)
    }
}

/// The 1-based column a malformed row is reported with.
pub open spec fn first_bad_col(l: Seq<char>, d: char, arity: int) -> int {
    bad_col_from(split_on(l, d), arity, 0)
}

/// A line counts as a data row when anything is on it.
pub open spec fn is_data_line(l: Seq<char>) -> bool {
    l.len() > 0
}

/// The non-empty members of `ls`, in order.
pub open spec fn data_lines(ls: Seq<Seq<char>>) -> Seq<Seq<char>> {
    ls.filter(|l: Seq<char>| is_data_line(l))
}

proof fn lemma_data_lines_push(ls: Seq<Seq<char>>, x: Seq<char>)
    ensures
        is_data_line(x) ==> data_lines(ls.push(x)) == data_lines(ls).push(x),
        !is_data_line(x) ==> data_lines(ls.push(x)) == data_lines(ls),
{
    reveal(Seq::filter);
    assert(ls.push(x).drop_last() =~~= ls);
}

proof fn lemma_data_lines_empty()
    ensures
        data_lines(Seq::<Seq<char>>::empty()) == Seq::<Seq<char>>::empty(),
{
    reveal(Seq::filter);
}

/// Scans up to `arity` fields and reports the first bad 1-based column, or
/// `None` when the row is exactly `arity` sound number fields.
fn first_bad_field(fields: &Vec<String>, arity: usize) -> (r: Option<usize>)
    requires
        1 <= arity <= 8,
    ensures
        match r {
            None => field_views(fields@).len() == arity && forall|j: int|
                0 <= j < arity ==> is_float_literal(#[trigger] field_views(fields@)[j]),
            Some(col) => !(field_views(fields@).len() == arity && forall|j: int|
                0 <= j < arity ==> is_float_literal(#[trigger] field_views(fields@)[j])) && col
                == bad_col_from(field_views(fields@), arity as int, 0),
        },
{
    let ghost fs = field_views(fields@);
    let mut j: usize = 0;
    while j < arity
        invariant
            j <= arity <= 8,
            fs == field_views(fields@),
            forall|k: int| 0 <= k < j ==> k < fs.len() && is_float_literal(#[trigger] fs[k]),
            bad_col_from(fs, arity as int, 0) == bad_col_from(fs, arity as int, j as int),
        decreases arity - j,
    {
        if j >= fields.len() {
            assert(bad_col_from(fs, arity as int, j as int) == j + 1);
            return Some(j + 1);
        }
        proof {
            assert(fs[j as int] == fields@[j as int]@);
        }
        let ok = check_float_literal(fields[j].as_str());
        if !ok {
            assert(bad_col_from(fs, arity as int, j as int) == j + 1);
            return Some(j + 1);
        }
        proof {
            assert(bad_col_from(fs, arity as int, j as int) == bad_col_from(
                fs,
                arity as int,
                j + 1,
            ));
        }
        j = j + 1;
    }
    if fields.len() > arity {
        assert(bad_col_from(fs, arity as int, arity as int) == arity + 1);
        return Some(arity + 1);
    }
    proof {
        assert(is_float_literal(fs[arity - 1]));
        assert(fs.len() == arity);
    }
    None
}

/// A parsed record carries the split fields of its line, in column order.
pub open spec fn record_matches_line(rec: Record, l: Seq<char>) -> bool {
    let fs = split_on(l, ',');
    &&& rec.a@ == fs[0]
    &&& rec.x0@ == fs[1]
    &&& rec.w@ == fs[2]
    &&& rec.bias@ == fs[3]
}

/// A parsed point carries the split fields of its line, in column order.
pub open spec fn point_matches_line(p: SpectrumPoint, l: Seq<char>) -> bool {
    let fs = split_on(l, ';');
    &&& p.wavelength@ == fs[0]
    &&& p.transmission@ == fs[1]
}

fn parse_param_row(line: &str) -> (r: Result<Record, usize>)
    ensures
        match r {
            Ok(rec) => row_ok(line@, ',', 4) && record_matches_line(rec, line@) && rec.wf(),
            Err(col) => !row_ok(line@, ',', 4) && col == first_bad_col(line@, ',', 4),
        },
{
    let fields = split_str(line, ',');
    proof {
        assert(field_views(fields@) =~~= split_on(line@, ','));
    }
    match first_bad_field(&fields, 4) {
        Some(col) => Err(col),
        None => Ok(
            Record {
                a: fields[0].clone(),
                x0: fields[1].clone(),
                w: fields[2].clone(),
                bias: fields[3].clone(),
            },
        ),
    }
}

fn parse_pair_row(line: &str) -> (r: Result<SpectrumPoint, usize>)
    ensures
        match r {
            Ok(p) => row_ok(line@, ';', 2) && point_matches_line(p, line@) && p.wf(),
            Err(col) => !row_ok(line@, ';', 2) && col == first_bad_col(line@, ';', 2),
        },
{
    let fields = split_str(line, ';');
    proof {
        assert(field_views(fields@) =~~= split_on(line@, ';'));
    }
    match first_bad_field(&fields, 2) {
        Some(col) => Err(col),
        None => Ok(
            SpectrumPoint { wavelength: fields[0].clone(), transmission: fields[1].clone() },
        ),
    }
}

/// Every data row after the header splits into four number fields.
pub open spec fn param_table_ok(s: Seq<char>) -> bool {
    forall|k: int|
        1 <= k < lines_of(s).len() && is_data_line(#[trigger] lines_of(s)[k]) ==> row_ok(
            lines_of(s)[k],
            ',',
            4,
        )
}

/// The data rows of a parameter table: every line after the header with
/// anything on it, in file order.
pub open spec fn param_data_lines(s: Seq<char>) -> Seq<Seq<char>> {
    data_lines(lines_of(s).drop_first())
}

pub open spec fn param_parse_ok(s: Seq<char>, recs: Seq<Record>) -> bool {
    &&& param_table_ok(s)
    &&& recs.len() == param_data_lines(s).len()
    &&& forall|i: int|
        0 <= i < recs.len() ==> record_matches_line(#[trigger] recs[i], param_data_lines(s)[i])
            && recs[i].wf()
}

/// The error reports the offending row counted 1-based after the header:
/// the line at file index `row`, with the header at index 0.
pub open spec fn param_parse_err(s: Seq<char>, e: IngestError) -> bool {
    match e {
        IngestError::MalformedRecord { row, col } => {
            let ls = lines_of(s);
            &&& 1 <= row < ls.len()
            &&& is_data_line(ls[row as int])
            &&& !row_ok(ls[row as int], ',', 4)
            &&& forall|j: int|
                1 <= j < row && is_data_line(#[trigger] ls[j]) ==> row_ok(ls[j], ',', 4)
            &&& col == first_bad_col(ls[row as int], ',', 4)
        },
        _ => false,
    }
}

/// Parses a comma-separated parameter table: one header line, skipped, then
/// one record per non-empty line.  Fails fast on the first malformed row,
/// reporting its 1-based row after the header and 1-based column, and
/// returns no partial results.
pub fn parse_parameter_table(content: &str) -> (r: Result<Vec<Record>, IngestError>)
    ensures
        match r {
            Ok(recs) => param_parse_ok(content@, recs@),
            Err(e) => param_parse_err(content@, e),
        },
        r is Ok <==> param_table_ok(content@),
{
    let lines = split_lines(content);
    let ghost ls = lines_of(content@);
    let mut recs: Vec<Record> = Vec::new();
    let mut k: usize = 1;
    proof {
        lemma_lines_of_len(content@);
        assert(ls.subrange(1, 1) =~~= Seq::<Seq<char>>::empty());
        lemma_data_lines_empty();
    }
    while k < lines.len()
        invariant
            1 <= k <= lines@.len(),
            lines@.len() == ls.len(),
            forall|i: int| 0 <= i < ls.len() ==> lines@[i]@ == ls[i],
            ls == lines_of(content@),
            forall|j: int|
                1 <= j < k && is_data_line(#[trigger] ls[j]) ==> row_ok(ls[j], ',', 4),
            recs@.len() == data_lines(ls.subrange(1, k as int)).len(),
            forall|i: int|
                0 <= i < recs@.len() ==> record_matches_line(
                    #[trigger] recs@[i],
                    data_lines(ls.subrange(1, k as int))[i],
                ) && recs@[i].wf(),
        decreases lines@.len() - k,
    {
        let line = &lines[k];
        proof {
            assert(ls.subrange(1, k + 1) =~~= ls.subrange(1, k as int).push(ls[k as int]));
            lemma_data_lines_push(ls.subrange(1, k as int), ls[k as int]);
        }
        if !line.as_str().is_empty() {
            match parse_param_row(line.as_str()) {
                Ok(rec) => {
                    recs.push(rec);
                },
                Err(col) => {
                    proof {
                        assert(!param_table_ok(content@)) by {
                            assert(is_data_line(lines_of(content@)[k as int]));
                            assert(!row_ok(lines_of(content@)[k as int], ',', 4));
                        }
                    }
                    return Err(IngestError::MalformedRecord { row: k, col });
                },
            }
        }
        k = k + 1;
    }
    proof {
        assert(ls.subrange(1, ls.len() as int) =~~= ls.drop_first());
    }
    Ok(recs)
}

/// Every row of a raw-pairs file splits into two number fields.
pub open spec fn pair_table_ok(s: Seq<char>) -> bool {
    forall|k: int|
        0 <= k < lines_of(s).len() && is_data_line(#[trigger] lines_of(s)[k]) ==> row_ok(
            lines_of(s)[k],
            ';',
            2,
        )
}

/// The data rows of a raw-pairs file: every line with anything on it, in
/// file order.
pub open spec fn pair_data_lines(s: Seq<char>) -> Seq<Seq<char>> {
    data_lines(lines_of(s))
}

pub open spec fn pair_parse_ok(s: Seq<char>, pts: Seq<SpectrumPoint>) -> bool {
    &&& pair_table_ok(s)
    &&& pts.len() == pair_data_lines(s).len()
    &&& forall|i: int|
        0 <= i < pts.len() ==> point_matches_line(#[trigger] pts[i], pair_data_lines(s)[i])
            && pts[i].wf()
}

pub open spec fn pair_parse_err(s: Seq<char>, e: IngestError) -> bool {
    match e {
        IngestError::MalformedRecord { row, col } => {
            let ls = lines_of(s);
            &&& 0 <= row - 1 < ls.len()
            &&& is_data_line(ls[row - 1])
            &&& !row_ok(ls[row - 1], ';', 2)
            &&& forall|j: int|
                0 <= j < row - 1 && is_data_line(#[trigger] ls[j]) ==> row_ok(ls[j], ';', 2)
            &&& col == first_bad_col(ls[row - 1], ';', 2)
        },
        _ => false,
    }
}

/// Parses a semicolon-separated raw-pairs file: no header, one measured
/// point per non-empty line.  Fails fast on the first malformed row,
/// reporting its 1-based line and column, and returns no partial results.
pub fn parse_raw_pairs(content: &str) -> (r: Result<Vec<SpectrumPoint>, IngestError>)
    ensures
        match r {
            Ok(pts) => pair_parse_ok(content@, pts@),
            Err(e) => pair_parse_err(content@, e),
        },
        r is Ok <==> pair_table_ok(content@),
{
    let lines = split_lines(content);
    let ghost ls = lines_of(content@);
    let mut pts: Vec<SpectrumPoint> = Vec::new();
    let mut k: usize = 0;
    proof {
        assert(ls.subrange(0, 0) =~~= Seq::<Seq<char>>::empty());
        lemma_data_lines_empty();
    }
    while k < lines.len()
        invariant
            k <= lines@.len(),
            lines@.len() == ls.len(),
            forall|i: int| 0 <= i < ls.len() ==> lines@[i]@ == ls[i],
            ls == lines_of(content@),
            forall|j: int|
                0 <= j < k && is_data_line(#[trigger] ls[j]) ==> row_ok(ls[j], ';', 2),
            pts@.len() == data_lines(ls.subrange(0, k as int)).len(),
            forall|i: int|
                0 <= i < pts@.len() ==> point_matches_line(
                    #[trigger] pts@[i],
                    data_lines(ls.subrange(0, k as int))[i],
                ) && pts@[i].wf(),
        decreases lines@.len() - k,
    {
        let line = &lines[k];
        proof {
            assert(ls.subrange(0, k + 1) =~~= ls.subrange(0, k as int).push(ls[k as int]));
            lemma_data_lines_push(ls.subrange(0, k as int), ls[k as int]);
        }
        if !line.as_str().is_empty() {
            match parse_pair_row(line.as_str()) {
                Ok(p) => {
                    pts.push(p);
                },
                Err(col) => {
                    proof {
                        assert(!pair_table_ok(content@)) by {
                            assert(is_data_line(lines_of(content@)[k as int]));
                            assert(!row_ok(lines_of(content@)[k as int], ';', 2));
                        }
                    }
                    return Err(IngestError::MalformedRecord { row: k + 1, col });
                },
            }
        }
        k = k + 1;
    }
    proof {
        assert(ls.subrange(0, ls.len() as int) =~~= ls);
    }
    Ok(pts)
}

} // verus!
