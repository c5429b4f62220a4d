//! Versions parsed and ordered by the `semver` crate, held as plain values.
use vstd::prelude::*;
use crate::text::{split_on, count_char, lead_len, first_index_of};
use crate::versions::release_char_pred;

verus! {

/// `semver::Version`, carried through the library as an opaque value.
#[verifier::external_type_specification]
#[verifier::external_body]
pub struct ExSemverVersion(semver::Version);

/// What a parsed version consists of: the three release numbers, the pre-release
/// identifiers and the build metadata, the latter two as the text `semver` keeps of them.
pub struct VersionParts {
    pub major: u64,
    pub minor: u64,
    pub patch: u64,
    pub pre: Seq<char>,
    pub build: Seq<char>,
}

/// A version that `semver::Version::parse` accepted.
///
/// Only `parse_semver` makes one, so the plain fields always describe `parsed`.
pub struct SemVer {
    major: u64,
    minor: u64,
    patch: u64,
    pre: String,
    build: String,
    parsed: semver::Version,
}

impl View for SemVer {
    type V = VersionParts;

    closed spec fn view(&self) -> VersionParts {
        VersionParts {
            major: self.major,
            minor: self.minor,
            patch: self.patch,
            pre: self.pre@,
            build: self.build@,
        }
    }
}

/// What `semver::Version::parse` makes of a text, if it accepts it.
pub uninterp spec fn semver_parse(text: Seq<char>) -> Option<VersionParts>;

/// The sign (-1, 0 or 1) of `semver`'s total order between two versions.
pub uninterp spec fn semver_order(a: VersionParts, b: VersionParts) -> int;

/// Whether the release triple of `a` comes before that of `b`, compared left to right.
pub open spec fn release_before(a: VersionParts, b: VersionParts) -> bool {
    ||| a.major < b.major
    ||| a.major == b.major && a.minor < b.minor
    ||| a.major == b.major && a.minor == b.minor && a.patch < b.patch
}

/// Whether `a` and `b` have the same release triple.
pub open spec fn same_release(a: VersionParts, b: VersionParts) -> bool {
    a.major == b.major && a.minor == b.minor && a.patch == b.patch
}

/// Whether `c` is an ASCII digit.
pub open spec fn is_ascii_digit(c: char) -> bool {
    '0' <= c <= '9'
}

/// The decimal value of a sequence of ASCII digits.
pub open spec fn digits_value(d: Seq<char>) -> nat
    decreases d.len(),
{
    if d.len() == 0 {
        0
    } else {
        digits_value(d.drop_last()) * 10 + ((d.last() as u32) - 48) as nat
    }
}

/// A release number as `semver` writes it: ASCII digits, no leading zero, at most `u64::MAX`.
pub open spec fn numeric_identifier(d: Seq<char>) -> bool {
    &&& d.len() > 0
    &&& forall|i: int| 0 <= i < d.len() ==> is_ascii_digit(#[trigger] d[i])
    &&& (d.len() == 1 || d[0] != '0')
    &&& digits_value(d) <= u64::MAX
}

/// Whether `t` is a plain release `MAJOR.MINOR.PATCH` with nothing else.
pub open spec fn plain_release(t: Seq<char>) -> bool {
    let p = split_on(t, '.');
    &&& p.len() == 3
    &&& numeric_identifier(p[0])
    &&& numeric_identifier(p[1])
    &&& numeric_identifier(p[2])
}

/// The version a plain release `MAJOR.MINOR.PATCH` stands for.
pub open spec fn plain_parts(t: Seq<char>) -> VersionParts {
    let p = split_on(t, '.');
    VersionParts {
        major: digits_value(p[0]) as u64,
        minor: digits_value(p[1]) as u64,
        patch: digits_value(p[2]) as u64,
        pre: Seq::<char>::empty(),
        build: Seq::<char>::empty(),
    }
}

/// A character that may appear in a version `semver` accepts: ASCII letters and digits,
/// `.`, `-` and `+`.
pub open spec fn semver_char(c: char) -> bool {
    ||| is_ascii_digit(c)
    ||| 'A' <= c <= 'Z'
    ||| 'a' <= c <= 'z'
    ||| c == '.'
    ||| c == '-'
    ||| c == '+'
}

/// The outline of every version `semver` accepts: it starts with a digit, holds only
/// `semver_char`s, and its release part (up to the first `-` or `+`) has two dots.
pub open spec fn semver_shaped(t: Seq<char>) -> bool {
    &&& t.len() > 0
    &&& is_ascii_digit(t[0])
    &&& forall|i: int| 0 <= i < t.len() ==> semver_char(#[trigger] t[i])
    &&& count_char(t.take(lead_len(t, release_char_pred()) as int), '.') == 2
}

/// The parts of a text of the outline `semver_shaped`: the three release numbers, the
/// pre-release after the `-` that follows them (up to the first `+`), and the build
/// metadata after the first `+`.
pub open spec fn shaped_parts(t: Seq<char>) -> VersionParts {
    let k = lead_len(t, release_char_pred()) as int;
    let p = split_on(t.take(k), '.');
    let rest = t.skip(k);
    let pre = match first_index_of(rest, '+') {
        Some(i) => if i > 0 { rest.subrange(1, i) } else { Seq::<char>::empty() },
        None => if rest.len() > 0 { rest.skip(1) } else { Seq::<char>::empty() },
    };
    let build = match first_index_of(rest, '+') {
        Some(i) => rest.skip(i + 1),
        None => Seq::<char>::empty(),
    };
    VersionParts {
        major: digits_value(p[0]) as u64,
        minor: digits_value(p[1]) as u64,
        patch: digits_value(p[2]) as u64,
        pre,
        build,
    }
}

/// What `semver` reads a text as: a plain release is accepted, and an accepted text
/// yields its `shaped_parts`; which other texts are accepted is named.
pub open spec fn semver_reading(t: Seq<char>) -> Option<VersionParts> {
    if plain_release(t) {
        Some(plain_parts(t))
    } else {
        match semver_parse(t) {
            Some(_) => Some(shaped_parts(t)),
            None => None,
        }
    }
}

/// The order between two versions: equal versions compare equal, release numbers first,
/// then a pre-release before its release; the rest by name.
pub open spec fn version_order(a: VersionParts, b: VersionParts) -> int {
    if a == b {
        0
    } else if release_before(a, b) {
        -1
    } else if release_before(b, a) {
        1
    } else if a.pre.len() == 0 && b.pre.len() > 0 {
        1
    } else if a.pre.len() > 0 && b.pre.len() == 0 {
        -1
    } else {
        semver_order(a, b)
    }
}

impl SemVer {
    /// The major version number.
    pub fn major(&self) -> (r: u64)
        ensures
            r == self@.major,
    {
        self.major
    }

    /// The minor version number.
    pub fn minor(&self) -> (r: u64)
        ensures
            r == self@.minor,
    {
        self.minor
    }

    /// The patch version number.
    pub fn patch(&self) -> (r: u64)
        ensures
            r == self@.patch,
    {
        self.patch
    }

    /// The pre-release identifiers, as text (empty for a release).
    pub fn pre(&self) -> (r: &str)
        ensures
            r@ == self@.pre,
    {
        self.pre.as_str()
    }

    /// The build metadata, as text (empty where there is none).
    pub fn build(&self) -> (r: &str)
        ensures
            r@ == self@.build,
    {
        self.build.as_str()
    }
}

/// Calls `semver::Version::parse` on `text`.
///
/// Claimed: the outcome depends on the text alone (it is named `semver_parse`), and an
/// accepted text yields the version's numbers and the text of its pre-release and build
/// metadata (`Prerelease::as_str`, `BuildMetadata::as_str`). As the crate's parser
/// shows, an accepted text has the outline `semver_shaped` (three numeric components,
/// then optional `-` and `+` parts of ASCII letters, digits, `-` and `.`) and its parts
/// are `shaped_parts` (the numbers' decimal values, the text after the `-` up to the `+`,
/// the text after the `+`); a plain `MAJOR.MINOR.PATCH` without leading zeros that fits
/// `u64` is accepted. Which other texts are accepted (the identifier rules) is left unsaid.
#[verifier::external_body]
pub(crate) fn parse_semver(text: &str) -> (res: Option<SemVer>)
    ensures
        match res {
            Some(v) => semver_parse(text@) == Some(v@),
            None => semver_parse(text@) is None,
        },
        match res {
            Some(v) => semver_shaped(text@) && v@ == shaped_parts(text@) && (plain_release(text@)
                ==> v@ == plain_parts(text@)),
            None => !plain_release(text@),
        },
{
    match semver::Version::parse(text) {
        Ok(v) => Some(SemVer {
            major: v.major,
            minor: v.minor,
            patch: v.patch,
            pre: v.pre.as_str().to_string(),
            build: v.build.as_str().to_string(),
            parsed: v,
        }),
        Err(_) => None,
    }
}

/// Calls `Ord::cmp` on two `semver::Version`s, giving -1, 0 or 1.
///
/// Claimed, as the crate's derived `Eq`/`Ord` on `Version` and its documentation show:
/// the result depends on the two versions' parts alone (named `semver_order`); it is 0
/// exactly when all parts are equal; swapping the arguments negates it; release numbers
/// are compared first, left to right; with equal release numbers a pre-release comes
/// before the release. How pre-release and build identifiers order otherwise is left unsaid.
#[verifier::external_body]
pub(crate) fn compare_semver(a: &SemVer, b: &SemVer) -> (r: i8)
    ensures
        r == semver_order(a@, b@),
        r == -semver_order(b@, a@),
        -1 <= r <= 1,
        r == 0 <==> a@ == b@,
        release_before(a@, b@) ==> r == -1,
        release_before(b@, a@) ==> r == 1,
        same_release(a@, b@) && a@.pre.len() == 0 && b@.pre.len() > 0 ==> r == 1,
        same_release(a@, b@) && a@.pre.len() > 0 && b@.pre.len() == 0 ==> r == -1,
{
    match a.parsed.cmp(&b.parsed) {
        std::cmp::Ordering::Less => -1,
        std::cmp::Ordering::Equal => 0,
        std::cmp::Ordering::Greater => 1,
    }
}

} // verus!
