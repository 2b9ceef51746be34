//! What can go wrong: field-level failures, line-level failures, and the
//! tolerance that decides which failing lines a parser passes over.
use vstd::prelude::*;
use crate::text::to_bytes;

verus! {

/// The logical name of a field, carried by `ParseFieldError::InvalidField`.
#[derive(Debug, Clone, Copy, PartialEq, Eq, Hash, Structural)]
pub enum FieldName {
    Id,
    Orientation,
    Sequence,
    Length,
    Overlap,
    SegmentNames,
    Position,
    Alignment,
    Distance,
    Variance,
    References,
}

/// The text that names a field in messages.
pub open spec fn field_text(f: FieldName) -> Seq<char> {
    match f {
        FieldName::Id => seq!['I', 'd'],
        FieldName::Orientation => seq!['O', 'r', 'i', 'e', 'n', 't', 'a', 't', 'i', 'o', 'n'],
        FieldName::Sequence => seq!['S', 'e', 'q', 'u', 'e', 'n', 'c', 'e'],
        FieldName::Length => seq!['L', 'e', 'n', 'g', 't', 'h'],
        FieldName::Overlap => seq!['O', 'v', 'e', 'r', 'l', 'a', 'p'],
        FieldName::SegmentNames => seq!['S', 'e', 'g', 'm', 'e', 'n', 't', ' ', 'n', 'a', 'm', 'e', 's'],
        FieldName::Position => seq!['P', 'o', 's', 'i', 't', 'i', 'o', 'n'],
        FieldName::Alignment => seq!['A', 'l', 'i', 'g', 'n', 'm', 'e', 'n', 't'],
        FieldName::Distance => seq!['D', 'i', 's', 't', 'a', 'n', 'c', 'e'],
        FieldName::Variance => seq!['V', 'a', 'r', 'i', 'a', 'n', 'c', 'e'],
        FieldName::References => seq!['R', 'e', 'f', 'e', 'r', 'e', 'n', 'c', 'e', 's'],
    }
}

impl FieldName {
    pub fn as_str(&self) -> (r: &'static str)
        ensures
            r@ == field_text(*self),
    {
        match self {
            FieldName::Id => {
                proof {
                    reveal_strlit("Id");
                }
                "Id"
            },
            FieldName::Orientation => {
                proof {
                    reveal_strlit("Orientation");
                }
                "Orientation"
            },
            FieldName::Sequence => {
                proof {
                    reveal_strlit("Sequence");
                }
                "Sequence"
            },
            FieldName::Length => {
                proof {
                    reveal_strlit("Length");
                }
                "Length"
            },
            FieldName::Overlap => {
                proof {
                    reveal_strlit("Overlap");
                }
                "Overlap"
            },
            FieldName::SegmentNames => {
                proof {
                    reveal_strlit("Segment names");
                }
                "Segment names"
            },
            FieldName::Position => {
                proof {
                    reveal_strlit("Position");
                }
                "Position"
            },
            FieldName::Alignment => {
                proof {
                    reveal_strlit("Alignment");
                }
                "Alignment"
            },
            FieldName::Distance => {
                proof {
                    reveal_strlit("Distance");
                }
                "Distance"
            },
            FieldName::Variance => {
                proof {
                    reveal_strlit("Variance");
                }
                "Variance"
            },
            FieldName::References => {
                proof {
                    reveal_strlit("References");
                }
                "References"
            },
        }
    }

}

/// Why one field of a record could not be read.
#[derive(Debug, Clone, Copy, PartialEq, Eq, Hash, Structural)]
pub enum ParseFieldError {
    /// The record ended before a required field.
    MissingFields,
    /// A field is present but does not follow its grammar.
    InvalidField(FieldName),
    /// A decimal field is not a number that fits its type.
    IntParseError,
    /// A dense identifier would need more digits than a machine word holds.
    EncodingOverflow,
}

/// Why one line could not be read.
#[derive(Debug, Clone, PartialEq, Eq)]
pub enum ParseError {
    EmptyLine,
    UnknownLineType,
    /// A record failed; the raw line is kept for diagnostics.
    InvalidLine(ParseFieldError, Vec<u8>),
    /// Reading the input failed; the message of the failure.
    IoError(Vec<u8>),
    /// The file name does not end in an accepted extension.
    ExtensionError,
}

/// How a parser reacts to a line that fails.
#[derive(Debug, Clone, Copy, PartialEq, Eq, Hash, Structural)]
pub enum ParserTolerance {
    /// Skip every failing line.
    IgnoreAll,
    /// Skip empty lines and lines of an unknown kind.
    Safe,
    /// Stop on the first failing line.
    Pedantic,
}

impl Default for ParserTolerance {
    fn default() -> (r: ParserTolerance)
        ensures
            r == ParserTolerance::Safe,
    {
        ParserTolerance::Safe
    }
}

/// Whether a parser with tolerance `tol` skips a line that failed with `e`.
/// An identifier that overflows its encoding stops the parse whatever the tolerance.
pub open spec fn spec_can_continue(e: ParseError, tol: ParserTolerance) -> bool {
    match e {
        ParseError::InvalidLine(ParseFieldError::EncodingOverflow, _) => false,
        ParseError::IoError(_) => false,
        ParseError::ExtensionError => false,
        ParseError::EmptyLine | ParseError::UnknownLineType => tol != ParserTolerance::Pedantic,
        ParseError::InvalidLine(_, _) => tol == ParserTolerance::IgnoreAll,
    }
}

/// What went wrong with one line, without the raw bytes.
#[derive(Debug, Clone, Copy, PartialEq, Eq, Structural)]
pub enum LineFailure {
    Empty,
    Unknown,
    Field(ParseFieldError),
}

impl ParseError {
    /// This error reports `f` on the line `raw`.
    pub open spec fn spec_fails_as(self, f: LineFailure, raw: Seq<u8>) -> bool {
        match (self, f) {
            (ParseError::EmptyLine, LineFailure::Empty) => true,
            (ParseError::UnknownLineType, LineFailure::Unknown) => true,
            (ParseError::InvalidLine(x, b), LineFailure::Field(y)) => x == y && b@ == raw,
            _ => false,
        }
    }

    pub fn invalid_line(e: ParseFieldError, bytes: &[u8]) -> (r: ParseError)
        ensures
            r.spec_fails_as(LineFailure::Field(e), bytes@),
    {
        ParseError::InvalidLine(e, to_bytes(bytes))
    }

    pub fn can_safely_continue(&self, tol: &ParserTolerance) -> (r: bool)
        ensures
            r == spec_can_continue(*self, *tol),
    {
        match self {
            ParseError::InvalidLine(ParseFieldError::EncodingOverflow, _) => false,
            ParseError::IoError(_) => false,
            ParseError::ExtensionError => false,
            ParseError::EmptyLine | ParseError::UnknownLineType => match tol {
                ParserTolerance::Pedantic => false,
                _ => true,
            },
            ParseError::InvalidLine(_, _) => match tol {
                ParserTolerance::IgnoreAll => true,
                _ => false,
            },
        }
    }
}

} // verus!
