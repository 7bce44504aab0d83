//! Fatal conditions of the analysis, with their report lines.
//!
//! Input errors carry the one-based line number (and for window files the
//! path) they were found at; the solver error reports the iteration cap.
//! `message` renders each exactly as the report expects it, and is proved to
//! produce that text.

use vstd::prelude::*;

verus! {

/// A fatal condition: unreadable input, invalid configuration, or a solve
/// that hit the iteration cap.
#[derive(Debug)]
pub enum WhamError {
    /// A metadata record with fewer columns than the grid needs.
    MetaColumns { line: usize },
    /// A bias position column of the metadata file that is not a number.
    MetaBiasPos { line: usize },
    /// A bias force-constant column of the metadata file that is not a number.
    MetaBiasFc { line: usize },
    /// A time-series record with fewer columns than the grid needs.
    WindowColumns { line: usize, file: String },
    /// A time-series column that is not a number.
    WindowValue { line: usize, file: String },
    /// A time series with no samples left after filtering.
    EmptyTimeSeries,
    /// The solver hit the iteration cap without converging.
    NotConverged,
    /// A convergence sweep was requested without its time range.
    ConvdtRange,
    /// The per-dimension grid extents and bin counts differ in length.
    DimensionMismatch,
}

/// The decimal digits of `n`, most significant first.
pub open spec fn spec_dec_digits(n: nat) -> Seq<char>
    decreases n,
{
    if n < 10 {
        seq![spec_digit_char(n)]
    } else {
        spec_dec_digits(n / 10).push(spec_digit_char(n % 10))
    }
}

pub open spec fn spec_digit_char(d: nat) -> char {
    if d == 0 {
        '0'
    } else if d == 1 {
        '1'
    } else if d == 2 {
        '2'
    } else if d == 3 {
        '3'
    } else if d == 4 {
        '4'
    } else if d == 5 {
        '5'
    } else if d == 6 {
        '6'
    } else if d == 7 {
        '7'
    } else if d == 8 {
        '8'
    } else {
        '9'
    }
}

/// The exact report line of each error.
pub open spec fn spec_message(e: &WhamError) -> Seq<char> {
    match e {
        WhamError::MetaColumns { line } => "Wrong number of columns in line "@
            + spec_dec_digits(*line as nat) + " of metadata file. Empty Line?"@,
        WhamError::MetaBiasPos { line } => "Failed to read bias position in line "@
            + spec_dec_digits(*line as nat) + " of metadata file"@,
        WhamError::MetaBiasFc { line } => "Failed to read bias fc in line "@
            + spec_dec_digits(*line as nat) + " of metadata file"@,
        WhamError::WindowColumns { line, file } => "Wrong number of columns in line "@
            + spec_dec_digits(*line as nat) + " of window file "@ + file@ + ". Empty Line?."@,
        WhamError::WindowValue { line, file } => "Failed to parse line "@
            + spec_dec_digits(*line as nat) + " of window file "@ + file@ + "."@,
        WhamError::EmptyTimeSeries => "Time series is empty"@,
        WhamError::NotConverged => "WHAM not converged! (max iterations reached)"@,
        WhamError::ConvdtRange => "--convdt requires --start and --end to be set"@,
        WhamError::DimensionMismatch => "Input dimensions do not match"@,
    }
}

fn digit_str(d: usize) -> (r: &'static str)
    requires
        d < 10,
    ensures
        r@ =~= seq![spec_digit_char(d as nat)],
{
    proof {
        reveal_strlit("0");
        reveal_strlit("1");
        reveal_strlit("2");
        reveal_strlit("3");
        reveal_strlit("4");
        reveal_strlit("5");
        reveal_strlit("6");
        reveal_strlit("7");
        reveal_strlit("8");
        reveal_strlit("9");
    }
    match d {
        0 => "0",
        1 => "1",
        2 => "2",
        3 => "3",
        4 => "4",
        5 => "5",
        6 => "6",
        7 => "7",
        8 => "8",
        _ => "9",
    }
}

/// Renders `n` in decimal.
pub fn usize_to_string(n: usize) -> (r: String)
    ensures
        r@ == spec_dec_digits(n as nat),
    decreases n,
{
    if n < 10 {
        String::from_str(digit_str(n))
    } else {
        let high = usize_to_string(n / 10);
        high.concat(digit_str(n % 10))
    }
}

impl WhamError {
    /// The report line of this error.
    pub fn message(&self) -> (r: String)
        ensures
            r@ == spec_message(self),
    {
        match self {
            WhamError::MetaColumns { line } => {
                let mut s = String::from_str("Wrong number of columns in line ");
                s.append(usize_to_string(*line).as_str());
                s.append(" of metadata file. Empty Line?");
                s
            },
            WhamError::MetaBiasPos { line } => {
                let mut s = String::from_str("Failed to read bias position in line ");
                s.append(usize_to_string(*line).as_str());
                s.append(" of metadata file");
                s
            },
            WhamError::MetaBiasFc { line } => {
                let mut s = String::from_str("Failed to read bias fc in line ");
                s.append(usize_to_string(*line).as_str());
                s.append(" of metadata file");
                s
            },
            WhamError::WindowColumns { line, file } => {
                let mut s = String::from_str("Wrong number of columns in line ");
                s.append(usize_to_string(*line).as_str());
                s.append(" of window file ");
                s.append(file.as_str());
                s.append(". Empty Line?.");
                s
            },
            WhamError::WindowValue { line, file } => {
                let mut s = String::from_str("Failed to parse line ");
                s.append(usize_to_string(*line).as_str());
                s.append(" of window file ");
                s.append(file.as_str());
                s.append(".");
                s
            },
            WhamError::EmptyTimeSeries => String::from_str("Time series is empty"),
            WhamError::NotConverged => String::from_str(
                "WHAM not converged! (max iterations reached)",
            ),
            WhamError::ConvdtRange => String::from_str(
                "--convdt requires --start and --end to be set",
            ),
            WhamError::DimensionMismatch => String::from_str("Input dimensions do not match"),
        }
    }
}

} // verus!
