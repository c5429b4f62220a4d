//! The supported package ecosystems: which one a name selects, and the values that
//! belong to each.
pub mod go;
pub mod maven;
pub mod npm;
pub mod rust;

use vstd::prelude::*;
use vstd::string::StringExecFns;
use crate::text::{is_ascii_text, ascii_lower, lemma_ascii_lower_twice};

verus! {

/// A package ecosystem whose registry can be asked for versions.
#[derive(PartialEq, Eq, Structural, Clone, Copy, Debug)]
pub enum Ecosystem {
    Go,
    Maven,
    Npm,
    Rust,
}

/// The lower-case name of an ecosystem, as selections and results spell it.
pub open spec fn ecosystem_key(e: Ecosystem) -> Seq<char> {
    match e {
        Ecosystem::Go => "go"@,
        Ecosystem::Maven => "maven"@,
        Ecosystem::Npm => "npm"@,
        Ecosystem::Rust => "rust"@,
    }
}

/// What `str::to_lowercase` makes of a text (Unicode lower-case mapping).
pub uninterp spec fn unicode_lowercase(s: Seq<char>) -> Seq<char>;

/// Calls `str::to_lowercase`.
///
/// Claimed: the result depends on the text alone (named `unicode_lowercase`); on ASCII
/// text it maps `A`..`Z` to `a`..`z` and keeps every other character, as the Unicode
/// lower-case mapping does for ASCII. The mapping of other characters is left unsaid.
#[verifier::external_body]
fn to_lowercase(s: &str) -> (r: String)
    ensures
        r@ == unicode_lowercase(s@),
        is_ascii_text(s@) ==> r@ == ascii_lower(s@),
{
    s.to_lowercase()
}

/// The ecosystem whose lower-case name is `lower`, if any.
pub open spec fn ecosystem_named(lower: Seq<char>) -> Option<Ecosystem> {
    if lower == "go"@ {
        Some(Ecosystem::Go)
    } else if lower == "maven"@ {
        Some(Ecosystem::Maven)
    } else if lower == "npm"@ {
        Some(Ecosystem::Npm)
    } else if lower == "rust"@ {
        Some(Ecosystem::Rust)
    } else {
        None
    }
}

/// Ecosystem names are case-insensitive: an ASCII name and its ASCII lower-case form
/// (which is what `from_name` compares for ASCII names) select the same ecosystem.
pub proof fn ecosystem_choice_ignores_case(name: Seq<char>)
    requires
        is_ascii_text(name),
    ensures
        is_ascii_text(ascii_lower(name)),
        ecosystem_named(ascii_lower(ascii_lower(name))) == ecosystem_named(ascii_lower(name)),
{
    lemma_ascii_lower_twice(name);
}

/// The message for an ecosystem name that selects none.
pub open spec fn unsupported_message(name: Seq<char>) -> Seq<char> {
    "Unsupported ecosystem: "@ + name + "."@
}

impl Ecosystem {
    /// The ecosystem that `name` selects, compared in lower case; an error naming it
    /// where it selects none.
    pub fn from_name(name: &str) -> (r: Result<Ecosystem, String>)
        ensures
            match r {
                Ok(e) => ecosystem_named(unicode_lowercase(name@)) == Some(e)
                    && unicode_lowercase(name@) == ecosystem_key(e),
                Err(m) => ecosystem_named(unicode_lowercase(name@)) is None && m@
                    == unsupported_message(name@) && forall|e: Ecosystem|
                    unicode_lowercase(name@) != #[trigger] ecosystem_key(e),
            },
            is_ascii_text(name@) ==> unicode_lowercase(name@) == ascii_lower(name@),
    {
        let lower = to_lowercase(name);
        if lower == String::from_str("go") {
            Ok(Ecosystem::Go)
        } else if lower == String::from_str("maven") {
            Ok(Ecosystem::Maven)
        } else if lower == String::from_str("npm") {
            Ok(Ecosystem::Npm)
        } else if lower == String::from_str("rust") {
            Ok(Ecosystem::Rust)
        } else {
            assert forall|e: Ecosystem| unicode_lowercase(name@) != #[trigger] ecosystem_key(e) by {
                match e {
                    Ecosystem::Go => {},
                    Ecosystem::Maven => {},
                    Ecosystem::Npm => {},
                    Ecosystem::Rust => {},
                }
            }
            let mut m = String::from_str("Unsupported ecosystem: ");
            m.append(name);
            m.append(".");
            Err(m)
        }
    }

    /// The lower-case name of the ecosystem.
    pub fn key(&self) -> (r: String)
        ensures
            r@ == ecosystem_key(*self),
    {
        match self {
            Ecosystem::Go => String::from_str("go"),
            Ecosystem::Maven => String::from_str("maven"),
            Ecosystem::Npm => String::from_str("npm"),
            Ecosystem::Rust => String::from_str("rust"),
        }
    }
}

} // verus!
