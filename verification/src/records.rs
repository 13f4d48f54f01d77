//! The record shapes read from spectrum files, and the errors of reading
//! them.
use vstd::prelude::*;
use crate::grammar::is_float_literal;

verus! {

/// One row of a parameter table: attenuation intensity `a`, resonant
/// wavelength `x0`, full width at half maximum `w`, and insertion-loss
/// `bias`, in the fixed column order of the file.  Each field keeps the
/// validated decimal literal exactly as the file spelled it, so a caller can
/// turn it into whatever numeric type evaluates the models.
#[derive(Debug)]
pub struct Record {
    pub a: String,
    pub x0: String,
    pub w: String,
    pub bias: String,
}

impl Record {
    /// Every field spells a decimal floating-point number.
    pub open spec fn wf(self) -> bool {
        &&& is_float_literal(self.a@)
        &&& is_float_literal(self.x0@)
        &&& is_float_literal(self.w@)
        &&& is_float_literal(self.bias@)
    }
}

/// One measured sample of a spectrum: a wavelength and the transmission read
/// there, as the two fields of a raw-pairs row.
#[derive(Debug)]
pub struct SpectrumPoint {
    pub wavelength: String,
    pub transmission: String,
}

impl SpectrumPoint {
    /// Both fields spell decimal floating-point numbers.
    pub open spec fn wf(self) -> bool {
        &&& is_float_literal(self.wavelength@)
        &&& is_float_literal(self.transmission@)
    }
}

/// Why ingesting a spectrum file failed.
#[derive(Debug, Clone, Copy, PartialEq, Eq, Structural)]
pub enum IngestError {
    /// The input source could not be read at all; never raised for a row
    /// that merely fails to parse.
    SourceUnavailable,
    /// A row did not hold the expected number fields.  `row` is the 1-based
    /// index of the offending row — counted after the header for a parameter
    /// table, from the first line for a raw-pairs file, blank lines counted
    /// either way — and `col` the 1-based first offending column.
    MalformedRecord { row: usize, col: usize },
}

} // verus!
