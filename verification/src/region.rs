//! The two mirror regions and their symmetric fallback relation.

use vstd::prelude::*;

verus! {

/// One of exactly two interchangeable mirror sites hosting the same boards.
#[derive(Clone, Copy, PartialEq, Eq, Structural, Debug)]
pub enum Region {
    Eune,
    Euw,
}

impl Region {
    /// The single fallback mirror of a region.
    pub open spec fn spec_other(self) -> Region {
        match self {
            Region::Eune => Region::Euw,
            Region::Euw => Region::Eune,
        }
    }

    /// Every region has exactly one other region as its fallback.
    pub fn other(self) -> (r: Region)
        ensures
            r == self.spec_other(),
    {
        match self {
            Region::Eune => Region::Euw,
            Region::Euw => Region::Eune,
        }
    }

    /// The lower-case code a region carries in request paths and host names.
    pub open spec fn spec_code(self) -> Seq<char> {
        match self {
            Region::Eune => "eune"@,
            Region::Euw => "euw"@,
        }
    }

    pub fn code(self) -> (r: &'static str)
        ensures
            r@ == self.spec_code(),
    {
        match self {
            Region::Eune => "eune",
            Region::Euw => "euw",
        }
    }
}

/// The fallback relation is symmetric and total over the two-element set:
/// following it twice from any region leads back to that region.
pub proof fn lemma_fallback_symmetric(r: Region)
    ensures
        r.spec_other().spec_other() == r,
        r.spec_other() != r,
{
}

} // verus!
