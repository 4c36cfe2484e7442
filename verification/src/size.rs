//! File sizes as reported by the portal: a decimal magnitude and a unit.
//!
//! The portal prints magnitudes with at most two fractional digits, so a
//! magnitude is held exactly in hundredths of a unit.  Sizes are ordered
//! by unit rank first and magnitude second; this is the order the portal
//! listing uses, and it deliberately disagrees with true byte magnitude
//! (ten kilobytes rank below one megabyte, but so do nine hundred
//! ninety-nine of them).

use crate::text::chars_eq_str;
use crate::text::str_eq;
use vstd::prelude::*;

verus! {

/// The unit named by a listing's size field; anything unrecognised is
/// read as bytes.
pub open spec fn spec_unit_of(s: Seq<char>) -> Unit {
    if s == "B"@ {
        Unit::B
    } else if s == "KB"@ {
        Unit::KB
    } else if s == "MB"@ {
        Unit::MB
    } else if s == "GB"@ {
        Unit::GB
    } else if s == "TB"@ {
        Unit::TB
    } else {
        Unit::B
    }
}

/// The unit attached to a size in a directory listing.
#[derive(Clone, Copy, Debug, PartialEq, Eq, Structural)]
pub enum Unit {
    B,
    KB,
    MB,
    GB,
    TB,
}

impl Unit {
    /// Position of the unit in the portal's ascending order.
    pub open spec fn spec_rank(self) -> int {
        match self {
            Unit::B => 0,
            Unit::KB => 1,
            Unit::MB => 2,
            Unit::GB => 3,
            Unit::TB => 4,
        }
    }

    /// Reads a unit name; an unknown name falls back to bytes.
    pub fn from_str(s: &str) -> (r: Unit)
        ensures
            r == spec_unit_of(s@),
    {
        if str_eq(s, "B") {
            Unit::B
        } else if str_eq(s, "KB") {
            Unit::KB
        } else if str_eq(s, "MB") {
            Unit::MB
        } else if str_eq(s, "GB") {
            Unit::GB
        } else if str_eq(s, "TB") {
            Unit::TB
        } else {
            Unit::B
        }
    }

    /// `from_str` on a field already held as characters.
    pub fn from_chars(v: &Vec<char>) -> (r: Unit)
        ensures
            r == spec_unit_of(v@),
    {
        if chars_eq_str(v, "B") {
            Unit::B
        } else if chars_eq_str(v, "KB") {
            Unit::KB
        } else if chars_eq_str(v, "MB") {
            Unit::MB
        } else if chars_eq_str(v, "GB") {
            Unit::GB
        } else if chars_eq_str(v, "TB") {
            Unit::TB
        } else {
            Unit::B
        }
    }

    /// Executable form of `spec_rank`.
    pub fn rank(&self) -> (r: u8)
        ensures
            r as int == self.spec_rank(),
    {
        match self {
            Unit::B => 0,
            Unit::KB => 1,
            Unit::MB => 2,
            Unit::GB => 3,
            Unit::TB => 4,
        }
    }
}

/// A size `(magnitude, unit)`; `centi` is the magnitude in hundredths
/// of `unit`, so `(12, KB)` is held as `centi == 1200`.
#[derive(Clone, Copy, Debug, PartialEq, Eq, Structural)]
pub struct Size {
    pub centi: u64,
    pub unit: Unit,
}

impl Size {
    /// A size of `centi` hundredths of `unit`.
    pub fn new(centi: u64, unit: Unit) -> (r: Size)
        ensures
            r == (Size { centi, unit }),
    {
        Size { centi, unit }
    }

    /// The default for entries that have no size: zero bytes.
    pub fn zero() -> (r: Size)
        ensures
            r == (Size { centi: 0u64, unit: Unit::B }),
    {
        Size { centi: 0, unit: Unit::B }
    }

    /// Strict order: unit rank first, magnitude second.
    pub open spec fn spec_lt(self, other: Size) -> bool {
        self.unit.spec_rank() < other.unit.spec_rank() || (self.unit.spec_rank()
            == other.unit.spec_rank() && self.centi < other.centi)
    }

    /// Reflexive order used when sorting listings by size.
    pub open spec fn spec_le(self, other: Size) -> bool {
        self.unit.spec_rank() < other.unit.spec_rank() || (self.unit.spec_rank()
            == other.unit.spec_rank() && self.centi <= other.centi)
    }

    /// Executable form of `spec_le`.
    pub fn le(&self, other: &Size) -> (r: bool)
        ensures
            r == self.spec_le(*other),
    {
        let a = self.unit.rank();
        let b = other.unit.rank();
        a < b || (a == b && self.centi <= other.centi)
    }
}

/// A higher-ranked unit outranks any magnitude of a lower-ranked one:
/// whatever the two magnitudes, a size in the greater unit sorts strictly
/// above a size in the smaller unit.
pub proof fn lemma_unit_rank_dominates(a: Size, b: Size)
    requires
        a.unit.spec_rank() > b.unit.spec_rank(),
    ensures
        b.spec_lt(a),
        !a.spec_le(b),
{
}

} // verus!
