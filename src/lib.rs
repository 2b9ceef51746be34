//! Reading and writing assembly graphs in the two tab-separated dialects of
//! the GFA format.
//!
//! Each line is one record: a header, a segment, a link between segments,
//! and so on. Records carry optional typed fields `TT:t:VALUE` (`tag`).
//! Identifiers are kept either as the bytes of the name or as a dense
//! integer computed from them (`segment_id`). The parsers
//! (`parser_gfa1`, `parser_gfa2`) read a line by its first field, follow
//! that record's grammar field by field, and pass over or stop at failing
//! lines as their tolerance says. Every record also has a canonical text,
//! and a valid record written and read back is the same record.
use vstd::prelude::*;

pub mod orientation;
pub mod text;
pub mod error;
pub mod segment_id;
pub mod tag;
pub mod grammar;
pub mod gfa1;
pub mod parser_gfa1;
pub mod gfa2;
pub mod parser_gfa2;
pub mod convert;

verus! {

} // verus!
