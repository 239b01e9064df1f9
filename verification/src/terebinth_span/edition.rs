//! Editions of the Terebinth language.

use vstd::prelude::*;

use crate::text::str_equal;

verus! {

/// An edition of the language.
#[derive(Clone, Copy, Hash, PartialEq, Eq, Debug, Structural)]
pub enum Edition {
    Edition2025,
    EditionFuture,
}

/// The edition used when none is asked for.
pub open spec fn default_edition() -> Edition {
    Edition::Edition2025
}

/// The name under which an edition is written.
pub open spec fn edition_name(edition: Edition) -> Seq<char> {
    match edition {
        Edition::Edition2025 => "2025"@,
        Edition::EditionFuture => "Future"@,
    }
}

/// The editions ordered by age: the rank of each.
pub open spec fn edition_rank(edition: Edition) -> int {
    match edition {
        Edition::Edition2025 => 0,
        Edition::EditionFuture => 1,
    }
}

impl Edition {
    /// The edition used when none is asked for.
    pub fn default_edition() -> (r: Edition)
        ensures
            r == default_edition(),
    {
        Edition::Edition2025
    }

    /// The name under which the edition is written.
    pub fn to_display_string(self) -> (r: String)
        ensures
            r@ == edition_name(self),
    {
        match self {
            Edition::Edition2025 => String::from_str("2025"),
            Edition::EditionFuture => String::from_str("Future"),
        }
    }

    /// The name of the lint group that warns about code the next edition breaks.
    pub fn lint_name(self) -> (r: &'static str)
        ensures
            r@ == match self {
                Edition::Edition2025 => "terebinth_2025_compatibility"@,
                Edition::EditionFuture => "edition_future_compatibility"@,
            },
    {
        match self {
            Edition::Edition2025 => "terebinth_2025_compatibility",
            Edition::EditionFuture => "edition_future_compatibility",
        }
    }

    /// Whether the edition is stable.
    pub fn is_stable(self) -> (r: bool)
        ensures
            r == (self == Edition::Edition2025),
    {
        match self {
            Edition::Edition2025 => true,
            Edition::EditionFuture => false,
        }
    }

    pub fn is_terebinth_2025(self) -> (r: bool)
        ensures
            r == (self == Edition::Edition2025),
    {
        self == Edition::Edition2025
    }

    /// Whether the edition is the future edition or a later one.
    pub fn at_least_edition_future(self) -> (r: bool)
        ensures
            r == (edition_rank(self) >= edition_rank(Edition::EditionFuture)),
    {
        match self {
            Edition::Edition2025 => false,
            Edition::EditionFuture => true,
        }
    }

    /// The edition written `s`, if any.
    pub fn from_str(s: &str) -> (r: Result<Edition, ()>)
        ensures
            r matches Ok(e) ==> edition_name(e) == s@,
            r is Err ==> forall|e: Edition| edition_name(e) != s@,
    {
        if str_equal(s, "2025") {
            proof { reveal_strlit("2025"); }
            Ok(Edition::Edition2025)
        } else if str_equal(s, "Future") {
            proof { reveal_strlit("Future"); }
            Ok(Edition::EditionFuture)
        } else {
            proof {
                reveal_strlit("2025");
                reveal_strlit("Future");
            }
            Err(())
        }
    }
}

/// Reading back the name of an edition gives the edition.
pub proof fn lemma_edition_name_roundtrip(e: Edition, f: Edition)
    requires
        edition_name(e) == edition_name(f),
    ensures
        e == f,
{
    reveal_strlit("2025");
    reveal_strlit("Future");
    assert("2025"@.len() == 4);
    assert("Future"@.len() == 6);
}

} // verus!
