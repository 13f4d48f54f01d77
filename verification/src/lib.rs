//! Parsing and reporting of optical dip-spectrum records.
//!
//! Tabular spectrum files come in two shapes: a comma-separated parameter
//! table (one header line, then one model-parameter row per line) and a
//! semicolon-separated list of raw wavelength/transmission pairs.  This crate
//! parses both shapes into structured records, validating every field against
//! a decimal floating-point grammar, and renders records back into report
//! lines.  Evaluating the peak models over a wavelength axis is left to the
//! caller, which owns the numeric types.

pub mod grammar;
pub mod parser;
pub mod records;
pub mod render;
pub mod text;
