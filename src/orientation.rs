//! The strand of a segment reference: `+` or `-`.
use vstd::prelude::*;

verus! {

/// Strand of a segment reference: `+` is forward, `-` is backward.
#[derive(Debug, Clone, Copy, PartialEq, Eq, Hash, PartialOrd, Ord, Default, Structural)]
pub enum Orientation {
    #[default]
    Forward,
    Backward,
}

impl Orientation {
    /// The byte that writes this orientation in a record.
    pub open spec fn spec_byte(self) -> u8 {
        match self {
            Orientation::Forward => 43u8,
            Orientation::Backward => 45u8,
        }
    }

    /// Reads an orientation from a single byte, `+` or `-`.
    pub open spec fn spec_from_byte(b: u8) -> Option<Orientation> {
        if b == 43u8 {
            Some(Orientation::Forward)
        } else if b == 45u8 {
            Some(Orientation::Backward)
        } else {
            None
        }
    }

    pub fn from_byte(b: u8) -> (r: Option<Orientation>)
        ensures
            r == Self::spec_from_byte(b),
    {
        if b == 43u8 {
            Some(Orientation::Forward)
        } else if b == 45u8 {
            Some(Orientation::Backward)
        } else {
            None
        }
    }

    pub fn to_byte(&self) -> (r: u8)
        ensures
            r == self.spec_byte(),
    {
        match self {
            Orientation::Forward => 43u8,
            Orientation::Backward => 45u8,
        }
    }
}

} // verus!
