//! The Go module proxy: where a module's versions are listed and how the list reads.
use vstd::prelude::*;
use vstd::string::StringExecFns;
use crate::text::{lines_of, non_empty_lines};

verus! {

/// The proxy address that lists the versions of module `name`.
pub open spec fn versions_url_spec(name: Seq<char>) -> Seq<char> {
    "https://proxy.golang.org/"@ + name + "/@v/list"@
}

/// The proxy address that lists the versions of module `name`.
pub fn versions_url(name: &str) -> (r: String)
    ensures
        r@ == versions_url_spec(name@),
{
    let mut u = String::from_str("https://proxy.golang.org/");
    u.append(name);
    u.append("/@v/list");
    u
}

/// The versions in a proxy listing: its non-empty lines, in order.
pub fn parse_versions(text: &str) -> (r: Vec<String>)
    ensures
        r.deep_view() == non_empty_lines(text@),
{
    lines_of(text)
}

} // verus!
