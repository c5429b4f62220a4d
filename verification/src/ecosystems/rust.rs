//! The crates.io sparse index: where a crate's entries are and which versions they list.
use vstd::prelude::*;
use vstd::string::StringExecFns;
use crate::json::{
    Json, JsonView, json_member, member, parse_json, serde_json_reading, field_value_is_first_match,
};
use crate::text::{chars_of, string_of, ascii_lower, lower_ascii_chars, lines_of, non_empty_lines};

verus! {

/// The directory of the sparse index that holds a crate whose lower-case name is `n`:
/// `1` or `2` for one- or two-character names, `3/` and the first character for
/// three-character names, else the first two characters, `/` and the next two.
pub open spec fn index_dir(n: Seq<char>) -> Seq<char> {
    if n.len() == 0 {
        n
    } else if n.len() == 1 {
        seq!['1']
    } else if n.len() == 2 {
        seq!['2']
    } else if n.len() == 3 {
        seq!['3', '/', n[0]]
    } else {
        n.take(2) + seq!['/'] + n.subrange(2, 4)
    }
}

/// The sparse-index address of crate `name`; the index spells names in lower case.
pub open spec fn index_url_spec(name: Seq<char>) -> Seq<char> {
    let n = ascii_lower(name);
    "https://index.crates.io/"@ + index_dir(n) + "/"@ + n
}

/// The sparse-index address of crate `name`.
pub fn index_url(name: &str) -> (r: String)
    ensures
        r@ == index_url_spec(name@),
{
    let c = chars_of(name);
    let lc = lower_ascii_chars(&c);
    let n = lc.len();
    let mut dir: Vec<char> = Vec::new();
    if n == 1 {
        dir.push('1');
    } else if n == 2 {
        dir.push('2');
    } else if n == 3 {
        dir.push('3');
        dir.push('/');
        dir.push(lc[0]);
    } else if n >= 4 {
        dir.push(lc[0]);
        dir.push(lc[1]);
        dir.push('/');
        dir.push(lc[2]);
        dir.push(lc[3]);
    }
    assert(dir@ =~= index_dir(lc@));
    let mut u = String::from_str("https://index.crates.io/");
    let d = string_of(&dir);
    u.append(d.as_str());
    u.append("/");
    let l = string_of(&lc);
    u.append(l.as_str());
    u
}

/// The version an index line records: its `vers` member, where the line reads as JSON
/// and that member is a string.
pub open spec fn entry_version(line: Seq<char>) -> Option<Seq<char>> {
    match serde_json_reading(line) {
        Ok(doc) => match json_member(doc, "vers"@) {
            Some(t) => match serde_json_reading(t) {
                Ok(JsonView::Str(s)) => Some(s),
                _ => None,
            },
            None => None,
        },
        Err(_) => None,
    }
}

/// An index line that reads as a JSON object lists the string its `vers` member holds,
/// whatever its other members hold (a yanked release, `"yanked":true`, is listed too):
/// where the first member named `vers` has a JSON text that reads as the string `s`,
/// the line records `s`.
pub proof fn index_line_lists_its_vers(
    line: Seq<char>,
    fields: Seq<(Seq<char>, Seq<char>)>,
    i: int,
    s: Seq<char>,
)
    requires
        serde_json_reading(line) == Ok::<JsonView, Seq<char>>(JsonView::Object(fields)),
        0 <= i < fields.len(),
        fields[i].0 == "vers"@,
        forall|j: int| 0 <= j < i ==> #[trigger] fields[j].0 != "vers"@,
        serde_json_reading(fields[i].1) == Ok::<JsonView, Seq<char>>(JsonView::Str(s)),
    ensures
        entry_version(line) == Some(s),
{
    field_value_is_first_match(fields, "vers"@, i);
}

/// What an index line records depends on its `vers` member alone: two lines that read as
/// JSON objects with the same `vers` member record the same version.
pub proof fn index_line_depends_on_vers_only(
    a: Seq<char>,
    b: Seq<char>,
    fa: Seq<(Seq<char>, Seq<char>)>,
    fb: Seq<(Seq<char>, Seq<char>)>,
)
    requires
        serde_json_reading(a) == Ok::<JsonView, Seq<char>>(JsonView::Object(fa)),
        serde_json_reading(b) == Ok::<JsonView, Seq<char>>(JsonView::Object(fb)),
        json_member(JsonView::Object(fa), "vers"@) == json_member(JsonView::Object(fb), "vers"@),
    ensures
        entry_version(a) == entry_version(b),
{
}

/// `entry_version`, as a value.
pub open spec fn entry_version_fn() -> spec_fn(Seq<char>) -> Option<Seq<char>> {
    |l: Seq<char>| entry_version(l)
}

/// The version an index line records, if it reads as JSON with a string `vers` member.
pub fn version_of_entry(line: &str) -> (r: Option<String>)
    ensures
        match r {
            Some(v) => entry_version(line@) == Some(v@),
            None => entry_version(line@) is None,
        },
{
    match parse_json(line) {
        Ok(doc) => match member(&doc, "vers") {
            Some(t) => match parse_json(t.as_str()) {
                Ok(Json::Str(s)) => Some(s),
                _ => None,
            },
            None => None,
        },
        Err(_) => None,
    }
}

/// The versions an index reply lists: one per non-empty line that reads as JSON with a
/// string `vers` member, in line order; other lines are skipped.
pub fn parse_versions(text: &str) -> (r: Vec<String>)
    ensures
        r.deep_view() == non_empty_lines(text@).filter_map(entry_version_fn()),
{
    let lines = lines_of(text);
    let ghost ls = lines.deep_view();
    let mut out: Vec<String> = Vec::new();
    assert(ls.take(0).filter_map(entry_version_fn()) =~= Seq::<Seq<char>>::empty());
    for i in 0..lines.len()
        invariant
            ls == lines.deep_view(),
            ls == non_empty_lines(text@),
            out.deep_view() == ls.take(i as int).filter_map(entry_version_fn()),
    {
        assert(ls.take(i + 1).drop_last() =~= ls.take(i as int));
        assert(ls[i as int] == lines@[i as int]@);
        match version_of_entry(lines[i].as_str()) {
            Some(v) => {
                let ghost before = out.deep_view();
                let ghost vv = v@;
                out.push(v);
                assert(out.deep_view() =~= before + seq![vv]);
            },
            None => {},
        }
    }
    assert(ls.take(ls.len() as int) =~= ls);
    out
}

} // verus!
