//! ASTERIX data categories, their record decoders and the CAT062 encoder.
pub mod error;
pub mod cursor;
pub mod write_cursor;
pub mod ia5;
pub mod items;
pub mod cat048;
pub mod cat062_items;
pub mod cat062;
pub mod cat062_encode;
pub mod cat062_laws;
pub mod decode_laws;

use vstd::prelude::*;

verus! {

/// The ASTERIX data category carried in the first octet of a block.
#[derive(Debug, Clone, Copy, PartialEq, Eq, Structural)]
pub enum AsterixCategory {
    Cat048,
    Cat062,
    Unknown(u8),
}

/// The category that a category octet stands for.
pub open spec fn category_of(v: u8) -> AsterixCategory {
    if v == 0x30 {
        AsterixCategory::Cat048
    } else if v == 0x3E {
        AsterixCategory::Cat062
    } else {
        AsterixCategory::Unknown(v)
    }
}

impl vstd::std_specs::convert::FromSpecImpl<u8> for AsterixCategory {
    open spec fn obeys_from_spec() -> bool {
        true
    }

    open spec fn from_spec(v: u8) -> AsterixCategory {
        category_of(v)
    }
}

impl From<u8> for AsterixCategory {
    fn from(v: u8) -> (c: AsterixCategory) {
        match v {
            0x30 => AsterixCategory::Cat048,
            0x3E => AsterixCategory::Cat062,
            other => AsterixCategory::Unknown(other),
        }
    }
}

impl AsterixCategory {
    /// The category octet that stands for this category.
    pub open spec fn spec_raw(self) -> u8 {
        match self {
            AsterixCategory::Cat048 => 0x30,
            AsterixCategory::Cat062 => 0x3E,
            AsterixCategory::Unknown(v) => v,
        }
    }

    /// The category octet of this category.
    pub fn raw(self) -> (r: u8)
        ensures
            r == self.spec_raw(),
    {
        match self {
            AsterixCategory::Cat048 => 0x30,
            AsterixCategory::Cat062 => 0x3E,
            AsterixCategory::Unknown(v) => v,
        }
    }
}

/// The category of an octet gives that octet back.
pub proof fn lemma_category_raw_of_from(v: u8)
    ensures
        category_of(v).spec_raw() == v,
{
}

/// The octet of a category gives that category back, for every category
/// but an `Unknown` that holds the octet of a known one.
pub proof fn lemma_category_from_of_raw(c: AsterixCategory)
    requires
        c != AsterixCategory::Unknown(0x30),
        c != AsterixCategory::Unknown(0x3E),
    ensures
        category_of(c.spec_raw()) == c,
{
}

} // verus!
