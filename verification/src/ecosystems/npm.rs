//! The npm registry: where a package's document is and which versions it lists.
use vstd::prelude::*;
use vstd::string::StringExecFns;
use crate::json::{
    Json, JsonView, json_member, member, parse_json, serde_json_reading, member_view, members_view,
    field_value_is_first_match,
};

verus! {

/// The registry address of package `name`.
pub open spec fn registry_url_spec(name: Seq<char>) -> Seq<char> {
    "https://registry.npmjs.org/"@ + name
}

/// The registry address of package `name`.
pub fn registry_url(name: &str) -> (r: String)
    ensures
        r@ == registry_url_spec(name@),
{
    let mut u = String::from_str("https://registry.npmjs.org/");
    u.append(name);
    u
}

/// The key of an object member, as a value.
pub open spec fn field_key_fn() -> spec_fn((Seq<char>, Seq<char>)) -> Seq<char> {
    |f: (Seq<char>, Seq<char>)| f.0
}

/// The versions a registry document lists: the keys of its `versions` object, in order;
/// none where the document has no such object.
pub open spec fn document_versions(doc: JsonView) -> Seq<Seq<char>> {
    match json_member(doc, "versions"@) {
        Some(t) => match serde_json_reading(t) {
            Ok(JsonView::Object(fields)) => fields.map_values(field_key_fn()),
            _ => Seq::<Seq<char>>::empty(),
        },
        None => Seq::<Seq<char>>::empty(),
    }
}

/// The versions a registry reply lists, or the text of the error where the reply is
/// not JSON.
pub open spec fn npm_versions(text: Seq<char>) -> Result<Seq<Seq<char>>, Seq<char>> {
    match serde_json_reading(text) {
        Ok(doc) => Ok(document_versions(doc)),
        Err(e) => Err(e),
    }
}

/// Every key of the `versions` object is listed, each as it is and in the object's order,
/// pre-releases included: where a reply reads as a JSON object whose first member named
/// `versions` holds an object with members `vs`, the reply lists exactly the keys of `vs`.
pub proof fn every_versions_key_listed(
    text: Seq<char>,
    fields: Seq<(Seq<char>, Seq<char>)>,
    i: int,
    vs: Seq<(Seq<char>, Seq<char>)>,
)
    requires
        serde_json_reading(text) == Ok::<JsonView, Seq<char>>(JsonView::Object(fields)),
        0 <= i < fields.len(),
        fields[i].0 == "versions"@,
        forall|j: int| 0 <= j < i ==> #[trigger] fields[j].0 != "versions"@,
        serde_json_reading(fields[i].1) == Ok::<JsonView, Seq<char>>(JsonView::Object(vs)),
    ensures
        npm_versions(text) matches Ok(r) && r.len() == vs.len() && (forall|k: int|
            0 <= k < vs.len() ==> #[trigger] r[k] == vs[k].0),
{
    field_value_is_first_match(fields, "versions"@, i);
}

/// The versions a registry document lists: the keys of its `versions` object, in order,
/// each once.
pub fn versions_from_document(doc: &Json) -> (r: Vec<String>)
    ensures
        r.deep_view() == document_versions(doc@),
        r.deep_view().no_duplicates(),
{
    let mut out: Vec<String> = Vec::new();
    let found = match member(doc, "versions") {
        Some(t) => parse_json(t.as_str()),
        None => {
            return out;
        },
    };
    match found {
        Ok(Json::Object(o)) => {
            let fields = o.members_vec();
            let ghost keys = o.members().map_values(field_key_fn());
            for i in 0..fields.len()
                invariant
                    keys == o.members().map_values(field_key_fn()),
                    members_view(fields@) == o.members(),
                    out.deep_view() == keys.take(i as int),
            {
                assert(o.members()[i as int] == member_view(fields@[i as int]));
                let k = fields[i].0.clone();
                assert(k@ == keys[i as int]);
                let ghost before = out.deep_view();
                out.push(k);
                assert(out.deep_view() =~= before.push(keys[i as int]));
                assert(keys.take(i + 1) =~= keys.take(i as int).push(keys[i as int]));
            }
            assert(keys.take(fields@.len() as int) =~= keys);
            assert(keys.no_duplicates()) by {
                assert forall|a: int, b: int| 0 <= a < keys.len() && 0 <= b < keys.len() && a != b
                    implies keys[a] != keys[b] by {
                    if a < b {
                        assert(o.members()[a].0 != o.members()[b].0);
                    } else {
                        assert(o.members()[b].0 != o.members()[a].0);
                    }
                }
            }
        },
        _ => {
            assert(out.deep_view() =~= Seq::<Seq<char>>::empty());
        },
    }
    out
}

/// The versions a registry reply lists (the keys of its `versions` object, in order,
/// each once), or the text of the error where the reply is not JSON.
pub fn parse_versions(text: &str) -> (r: Result<Vec<String>, String>)
    ensures
        match r {
            Ok(v) => npm_versions(text@) == Ok::<Seq<Seq<char>>, Seq<char>>(v.deep_view())
                && v.deep_view().no_duplicates(),
            Err(e) => npm_versions(text@) == Err::<Seq<Seq<char>>, Seq<char>>(e@),
        },
{
    match parse_json(text) {
        Ok(doc) => Ok(versions_from_document(&doc)),
        Err(e) => Err(e),
    }
}

} // verus!
