//! Package versions across ecosystems (Go, Maven, npm, crates.io), read from registry
//! replies and narrowed to a version range: the verified core.
pub mod text;
pub mod semver_value;
pub mod versions;
pub mod structs;
pub mod json;
pub mod ecosystems;

use vstd::prelude::*;
use crate::ecosystems::{Ecosystem, ecosystem_key};
use crate::structs::PackageVersions;
use crate::versions::{get_vulnerable_versions, vulnerable_versions};

verus! {

impl PackageVersions {
    /// The versions found for package `name` of ecosystem `ecosystem`.
    pub fn new(ecosystem: Ecosystem, name: String, versions: Vec<String>) -> (r: PackageVersions)
        ensures
            r.ecosystem@ == ecosystem_key(ecosystem),
            r.name@ == name@,
            r.versions.deep_view() == versions.deep_view(),
    {
        PackageVersions { ecosystem: ecosystem.key(), name, versions }
    }
}

/// The versions found for a package, narrowed to `version_range` where one is given
/// (see `get_vulnerable_versions`); without a range every version is kept.
pub fn restrict_to_range(found: PackageVersions, version_range: Option<String>) -> (r: PackageVersions)
    ensures
        r.ecosystem@ == found.ecosystem@,
        r.name@ == found.name@,
        match version_range {
            Some(range) => r.versions.deep_view() == vulnerable_versions(
                found.versions.deep_view(),
                range@,
            ),
            None => r.versions.deep_view() == found.versions.deep_view(),
        },
{
    match version_range {
        Some(range) => {
            let PackageVersions { ecosystem, name, versions } = found;
            let filtered = get_vulnerable_versions(versions, range);
            PackageVersions { ecosystem, name, versions: filtered }
        },
        None => found,
    }
}

} // verus!
