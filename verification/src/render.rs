//! Rendering parsed records and errors into report lines.
use vstd::prelude::*;
use crate::records::{IngestError, Record, SpectrumPoint};

verus! {

/// The character a single decimal digit prints as.
pub open spec fn digit_char(d: nat) -> char {
    if d == 0 {
        '0'
    } else if d == 1 {
        '1'
    } else if d == 2 {
        '2'
    } else if d == 3 {
        '3'
    } else if d == 4 {
        '4'
    } else if d == 5 {
        '5'
    } else if d == 6 {
        '6'
    } else if d == 7 {
        '7'
    } else if d == 8 {
        '8'
    } else {
        '9'
    }
}

/// The decimal spelling of `n`, most significant digit first, no sign and no
/// leading zero except for `n == 0` itself.
pub open spec fn dec_str(n: nat) -> Seq<char>
    decreases n,
{
    if n < 10 {
        seq![digit_char(n)]
    } else {
        dec_str(n / 10).push(digit_char(n % 10))
    }
}

fn digit_to_str(d: usize) -> (s: &'static str)
    requires
        d < 10,
    ensures
        s@ == seq![digit_char(d as nat)],
{
    if d == 0 {
        proof {
            reveal_strlit("0");
        }
        assert("0"@ =~= seq![digit_char(0)]);
        "0"
    } else if d == 1 {
        proof {
            reveal_strlit("1");
        }
        assert("1"@ =~= seq![digit_char(1)]);
        "1"
    } else if d == 2 {
        proof {
            reveal_strlit("2");
        }
        assert("2"@ =~= seq![digit_char(2)]);
        "2"
    } else if d == 3 {
        proof {
            reveal_strlit("3");
        }
        assert("3"@ =~= seq![digit_char(3)]);
        "3"
    } else if d == 4 {
        proof {
            reveal_strlit("4");
        }
        assert("4"@ =~= seq![digit_char(4)]);
        "4"
    } else if d == 5 {
        proof {
            reveal_strlit("5");
        }
        assert("5"@ =~= seq![digit_char(5)]);
        "5"
    } else if d == 6 {
        proof {
            reveal_strlit("6");
        }
        assert("6"@ =~= seq![digit_char(6)]);
        "6"
    } else if d == 7 {
        proof {
            reveal_strlit("7");
        }
        assert("7"@ =~= seq![digit_char(7)]);
        "7"
    } else if d == 8 {
        proof {
            reveal_strlit("8");
        }
        assert("8"@ =~= seq![digit_char(8)]);
        "8"
    } else {
        proof {
            reveal_strlit("9");
        }
        assert("9"@ =~= seq![digit_char(9)]);
        "9"
    }
}

/// Spells `n` in decimal.
pub fn usize_to_string(n: usize) -> (s: String)
    ensures
        s@ == dec_str(n as nat),
    decreases n,
{
    if n < 10 {
        String::from_str(digit_to_str(n))
    } else {
        let mut s = usize_to_string(n / 10);
        s.append(digit_to_str(n % 10));
        s
    }
}

/// The report line of the `i`-th measured point (0-based): its 1-based rank,
/// then the two fields, in the shape `rank: wavelength, transmission`.
pub open spec fn pair_line(i: nat, p: SpectrumPoint) -> Seq<char> {
    dec_str(i + 1) + ": "@ + p.wavelength@ + ", "@ + p.transmission@
}

/// The report line of a parameter record, naming each field in column
/// order.
pub open spec fn record_line(rec: Record) -> Seq<char> {
    "a: "@ + rec.a@ + ", x0: "@ + rec.x0@ + ", w: "@ + rec.w@ + ", bias: "@ + rec.bias@
}

/// Renders the report lines for a list of measured points, one line per
/// point, numbered from 1 in order.
pub fn render_pairs(pts: &Vec<SpectrumPoint>) -> (lines: Vec<String>)
    ensures
        lines@.len() == pts@.len(),
        forall|i: int| 0 <= i < pts@.len() ==> lines@[i]@ == pair_line(i as nat, pts@[i]),
{
    let mut lines: Vec<String> = Vec::new();
    let mut i: usize = 0;
    while i < pts.len()
        invariant
            i <= pts@.len(),
            lines@.len() == i,
            forall|k: int| 0 <= k < i ==> lines@[k]@ == pair_line(k as nat, pts@[k]),
        decreases pts@.len() - i,
    {
        let mut s = usize_to_string(i + 1);
        s.append(": ");
        s.append(pts[i].wavelength.as_str());
        s.append(", ");
        s.append(pts[i].transmission.as_str());
        lines.push(s);
        i = i + 1;
    }
    lines
}

/// Renders the report lines for a list of parameter records, one line per
/// record in order.
pub fn render_records(recs: &Vec<Record>) -> (lines: Vec<String>)
    ensures
        lines@.len() == recs@.len(),
        forall|i: int| 0 <= i < recs@.len() ==> lines@[i]@ == record_line(recs@[i]),
{
    let mut lines: Vec<String> = Vec::new();
    let mut i: usize = 0;
    while i < recs.len()
        invariant
            i <= recs@.len(),
            lines@.len() == i,
            forall|k: int| 0 <= k < i ==> lines@[k]@ == record_line(recs@[k]),
        decreases recs@.len() - i,
    {
        let mut s = String::from_str("a: ");
        s.append(recs[i].a.as_str());
        s.append(", x0: ");
        s.append(recs[i].x0.as_str());
        s.append(", w: ");
        s.append(recs[i].w.as_str());
        s.append(", bias: ");
        s.append(recs[i].bias.as_str());
        lines.push(s);
        i = i + 1;
    }
    lines
}

/// The diagnostic text of an ingestion error.
pub open spec fn error_text(e: IngestError) -> Seq<char> {
    match e {
        IngestError::SourceUnavailable => "could not read the input source"@,
        IngestError::MalformedRecord { row, col } => "malformed record at row "@ + dec_str(
            row as nat,
        ) + ", column "@ + dec_str(col as nat),
    }
}

impl IngestError {
    /// The human-readable diagnostic a caller reports for this error.
    pub fn message(&self) -> (s: String)
        ensures
            s@ == error_text(*self),
    {
        match self {
            IngestError::SourceUnavailable => String::from_str("could not read the input source"),
            IngestError::MalformedRecord { row, col } => {
                let mut s = String::from_str("malformed record at row ");
                let r = usize_to_string(*row);
                s.append(r.as_str());
                s.append(", column ");
                let c = usize_to_string(*col);
                s.append(c.as_str());
                s
            },
        }
    }
}

} // verus!
