//! Package specifications and the versions found for them.
use vstd::prelude::*;
use vstd::string::StringExecFns;
use crate::text::{
    chars_of, sub_chars, string_of, find_first, find_last, first_index_of, last_index_of,
    lemma_last_index_absent, lemma_last_index_before, lemma_first_index_after,
};

verus! {

/// What a package specification states: ecosystem, package name and, optionally, the
/// version range of interest.
pub struct PackageSpec {
    pub ecosystem: Seq<char>,
    pub name: Seq<char>,
    pub version_range: Option<Seq<char>>,
}

/// A package to look up: `ecosystem/package`, optionally followed by `@version_range`.
#[derive(Debug, Clone)]
pub struct Package {
    pub ecosystem: String,
    pub name: String,
    pub version_range: Option<String>,
}

impl View for Package {
    type V = PackageSpec;

    open spec fn view(&self) -> PackageSpec {
        PackageSpec {
            ecosystem: self.ecosystem@,
            name: self.name@,
            version_range: match self.version_range {
                Some(r) => Some(r@),
                None => None,
            },
        }
    }
}

/// The message for a specification without a `/` before its version range.
pub open spec fn invalid_format_message(s: Seq<char>) -> Seq<char> {
    "Invalid format: '"@ + s + "'. Expected 'ecosystem/package'"@
}

/// How a specification text reads: the version range is everything after the last `@`
/// (if any); the rest splits at its first `/` into ecosystem and package name.
pub open spec fn parse_package_spec(s: Seq<char>) -> Result<PackageSpec, Seq<char>> {
    let (full, range) = match last_index_of(s, '@') {
        Some(k) => (s.take(k), Some(s.skip(k + 1))),
        None => (s, None),
    };
    match first_index_of(full, '/') {
        Some(k) => Ok(
            PackageSpec { ecosystem: full.take(k), name: full.skip(k + 1), version_range: range },
        ),
        None => Err(invalid_format_message(s)),
    }
}

/// The text of a package specification: `ecosystem/name`, then `@range` if there is one.
pub open spec fn package_text(p: PackageSpec) -> Seq<char> {
    p.ecosystem + seq!['/'] + p.name + match p.version_range {
        Some(r) => seq!['@'] + r,
        None => Seq::<char>::empty(),
    }
}

/// The versions found for one package.
#[derive(Debug, Clone)]
pub struct PackageVersions {
    pub ecosystem: String,
    pub name: String,
    pub versions: Vec<String>,
}

/// The command-line arguments of the program: the packages to look up, how many lookups
/// may run at once, an optional output file and the log level.
#[derive(Debug)]
pub struct Args {
    pub packages: Vec<Package>,
    pub concurrency: usize,
    pub output: Option<String>,
    pub log_level: String,
}

impl std::str::FromStr for Package {
    type Err = String;

    /// Reads a package specification `ecosystem/package[@version_range]`.
    ///
    /// The version range is what follows the last `@`, so a package name may itself hold
    /// `@`; the ecosystem is what precedes the first `/`.
    fn from_str(s: &str) -> (r: Result<Self, Self::Err>)
        ensures
            match r {
                Ok(p) => parse_package_spec(s@) == Ok::<PackageSpec, Seq<char>>(p@),
                Err(e) => parse_package_spec(s@) == Err::<PackageSpec, Seq<char>>(e@),
            },
    {
        let c = chars_of(s);
        let (full, range) = match find_last(&c, '@') {
            Some(k) => {
                let r = sub_chars(&c, k + 1, c.len());
                (sub_chars(&c, 0, k), Some(string_of(&r)))
            },
            None => (sub_chars(&c, 0, c.len()), None),
        };
        assert(c@.subrange(0, c@.len() as int) =~= c@);
        match find_first(&full, '/') {
            Some(k) => {
                let eco = sub_chars(&full, 0, k);
                let name = sub_chars(&full, k + 1, full.len());
                let p = Package {
                    ecosystem: string_of(&eco),
                    name: string_of(&name),
                    version_range: range,
                };
                assert(p@ == PackageSpec {
                    ecosystem: full@.take(k as int),
                    name: full@.skip(k + 1),
                    version_range: p@.version_range,
                });
                Ok(p)
            },
            None => {
                let mut m = String::new();
                m.append("Invalid format: '");
                m.append(s);
                m.append("'. Expected 'ecosystem/package'");
                Err(m)
            },
        }
    }
}

/// Reading the text of a package specification gives that specification back, provided
/// the ecosystem holds no `/` and the `@` that starts the range is the last one (the range
/// holds no `@`; without a range, no `@` at all).
pub proof fn package_spec_roundtrip(p: PackageSpec)
    requires
        !p.ecosystem.contains('/'),
        match p.version_range {
            Some(r) => !r.contains('@'),
            None => !p.ecosystem.contains('@') && !p.name.contains('@'),
        },
    ensures
        parse_package_spec(package_text(p)) == Ok::<PackageSpec, Seq<char>>(p),
{
    let x = p.ecosystem + seq!['/'] + p.name;
    let s = package_text(p);
    lemma_first_index_after(p.ecosystem, '/', p.name);
    assert(x.take(p.ecosystem.len() as int) =~= p.ecosystem);
    assert(x.skip(p.ecosystem.len() as int + 1) =~= p.name);
    match p.version_range {
        Some(r) => {
            assert(s =~= x + seq!['@'] + r);
            lemma_last_index_before(x, '@', r);
            assert(s.take(x.len() as int) =~= x);
            assert(s.skip(x.len() as int + 1) =~= r);
        },
        None => {
            assert(s =~= x);
            assert forall|j: int| 0 <= j < x.len() implies x[j] != '@' by {
                if j < p.ecosystem.len() {
                    assert(x[j] == p.ecosystem[j]);
                } else if j > p.ecosystem.len() {
                    assert(x[j] == p.name[j - p.ecosystem.len() - 1]);
                }
            }
            lemma_last_index_absent(x, '@');
        },
    }
}

} // verus!
