//! Format versions: each corresponds to a historical game-expansion release
//! with its own binary layout rules. The ordinal gives the total order that
//! decides upgrade vs. downgrade direction and the layout thresholds.

use crate::error::ParseError;
use vstd::prelude::*;

verus! {

/// One historical layout ruleset, ordered by release.
#[derive(Clone, Copy, Debug, PartialEq, Eq, Structural)]
pub enum M2Version {
    Classic,
    BurningCrusade,
    WrathOfTheLichKing,
    Cataclysm,
    MistsOfPandaria,
    Legion,
}

impl M2Version {
    /// Position of this version in the release order; also the ordinal
    /// stored in a model file's fixed header.
    pub open spec fn spec_ordinal(self) -> int {
        match self {
            M2Version::Classic => 0,
            M2Version::BurningCrusade => 1,
            M2Version::WrathOfTheLichKing => 2,
            M2Version::Cataclysm => 3,
            M2Version::MistsOfPandaria => 4,
            M2Version::Legion => 5,
        }
    }

    pub fn ordinal(self) -> (r: u32)
        ensures
            r == self.spec_ordinal(),
    {
        match self {
            M2Version::Classic => 0,
            M2Version::BurningCrusade => 1,
            M2Version::WrathOfTheLichKing => 2,
            M2Version::Cataclysm => 3,
            M2Version::MistsOfPandaria => 4,
            M2Version::Legion => 5,
        }
    }

    /// The version a given header ordinal denotes, if any.
    pub open spec fn spec_from_ordinal(n: u32) -> Option<M2Version> {
        if n == 0 {
            Some(M2Version::Classic)
        } else if n == 1 {
            Some(M2Version::BurningCrusade)
        } else if n == 2 {
            Some(M2Version::WrathOfTheLichKing)
        } else if n == 3 {
            Some(M2Version::Cataclysm)
        } else if n == 4 {
            Some(M2Version::MistsOfPandaria)
        } else if n == 5 {
            Some(M2Version::Legion)
        } else {
            None
        }
    }

    pub fn from_ordinal(n: u32) -> (r: Option<M2Version>)
        ensures
            r == M2Version::spec_from_ordinal(n),
    {
        if n == 0 {
            Some(M2Version::Classic)
        } else if n == 1 {
            Some(M2Version::BurningCrusade)
        } else if n == 2 {
            Some(M2Version::WrathOfTheLichKing)
        } else if n == 3 {
            Some(M2Version::Cataclysm)
        } else if n == 4 {
            Some(M2Version::MistsOfPandaria)
        } else if n == 5 {
            Some(M2Version::Legion)
        } else {
            None
        }
    }

    /// Which version an expansion name denotes. Each version answers to its
    /// full expansion name, its common abbreviation, and its last client
    /// version string.
    pub open spec fn spec_from_expansion_name(s: Seq<char>) -> Option<M2Version> {
        if s == "Classic"@ || s == "Vanilla"@ || s == "1.12.1"@ {
            Some(M2Version::Classic)
        } else if s == "TBC"@ || s == "BC"@ || s == "2.4.3"@ {
            Some(M2Version::BurningCrusade)
        } else if s == "WotLK"@ || s == "Wrath"@ || s == "3.3.5a"@ {
            Some(M2Version::WrathOfTheLichKing)
        } else if s == "Cataclysm"@ || s == "Cata"@ || s == "4.3.4"@ {
            Some(M2Version::Cataclysm)
        } else if s == "MoP"@ || s == "Pandaria"@ || s == "5.4.8"@ {
            Some(M2Version::MistsOfPandaria)
        } else if s == "Legion"@ || s == "7.3.5"@ {
            Some(M2Version::Legion)
        } else {
            None
        }
    }

    /// Resolve a human expansion name; `UnknownVersion` for any name not in
    /// the table.
    pub fn from_expansion_name(name: &str) -> (r: Result<M2Version, ParseError>)
        ensures
            match M2Version::spec_from_expansion_name(name@) {
                Some(v) => r == Ok::<M2Version, ParseError>(v),
                None => r == Err::<M2Version, ParseError>(ParseError::UnknownVersion),
            },
    {
        if str_eq(name, "Classic") || str_eq(name, "Vanilla") || str_eq(name, "1.12.1") {
            Ok(M2Version::Classic)
        } else if str_eq(name, "TBC") || str_eq(name, "BC") || str_eq(name, "2.4.3") {
            Ok(M2Version::BurningCrusade)
        } else if str_eq(name, "WotLK") || str_eq(name, "Wrath") || str_eq(name, "3.3.5a") {
            Ok(M2Version::WrathOfTheLichKing)
        } else if str_eq(name, "Cataclysm") || str_eq(name, "Cata") || str_eq(name, "4.3.4") {
            Ok(M2Version::Cataclysm)
        } else if str_eq(name, "MoP") || str_eq(name, "Pandaria") || str_eq(name, "5.4.8") {
            Ok(M2Version::MistsOfPandaria)
        } else if str_eq(name, "Legion") || str_eq(name, "7.3.5") {
            Ok(M2Version::Legion)
        } else {
            Err(ParseError::UnknownVersion)
        }
    }
}

/// Character-wise equality of two string slices.
pub fn str_eq(a: &str, b: &str) -> (r: bool)
    ensures
        r == (a@ == b@),
{
    let alen = a.unicode_len();
    let blen = b.unicode_len();
    if alen != blen {
        return false;
    }
    let mut i: usize = 0;
    while i < alen
        invariant
            alen == a@.len(),
            blen == b@.len(),
            alen == blen,
            i <= alen,
            forall|j: int| 0 <= j < i ==> a@[j] == b@[j],
        decreases alen - i,
    {
        if a.get_char(i) != b.get_char(i) {
            return false;
        }
        i = i + 1;
    }
    proof {
        assert(a@ =~= b@);
    }
    true
}

} // verus!
