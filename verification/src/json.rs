//! JSON documents read by `serde_json`, one level at a time: a value's nested values
//! are kept as their JSON text, to be read in turn where they are needed.
use vstd::prelude::*;
use vstd::string::StringExecFns;
use serde_json::Value;

verus! {

/// A JSON value read one level deep. Numbers are kept as the text that `serde_json`
/// prints for them; array items and object member values as their JSON text.
#[derive(Debug)]
pub enum Json {
    Null,
    Bool(bool),
    Number(String),
    Str(String),
    Array(Vec<String>),
    Object(JsonObject),
}

/// What a JSON value read one level deep holds, as plain values.
pub enum JsonView {
    Null,
    Bool(bool),
    Number(Seq<char>),
    Str(Seq<char>),
    Array(Seq<Seq<char>>),
    Object(Seq<(Seq<char>, Seq<char>)>),
}

/// The members of a JSON object, in order, each key once (as in `serde_json::Map`);
/// a member is its key and the JSON text of its value.
#[derive(Debug)]
pub struct JsonObject {
    members: Vec<(String, String)>,
}

/// The plain form of a member.
pub open spec fn member_view(m: (String, String)) -> (Seq<char>, Seq<char>) {
    (m.0@, m.1@)
}

/// The plain form of a list of members.
pub open spec fn members_view(m: Seq<(String, String)>) -> Seq<(Seq<char>, Seq<char>)> {
    m.map_values(|x: (String, String)| member_view(x))
}

/// Whether no two members share a key.
pub open spec fn distinct_keys(m: Seq<(Seq<char>, Seq<char>)>) -> bool {
    forall|i: int, j: int| 0 <= i < j < m.len() ==> m[i].0 != m[j].0
}

/// Whether some member has key `key`.
pub open spec fn has_key(m: Seq<(Seq<char>, Seq<char>)>, key: Seq<char>) -> bool {
    exists|i: int| 0 <= i < m.len() && m[i].0 == key
}

/// The position of the member with key `key` (meaningful where there is one).
pub open spec fn key_position(m: Seq<(Seq<char>, Seq<char>)>, key: Seq<char>) -> int {
    choose|i: int| 0 <= i < m.len() && m[i].0 == key
}

impl JsonObject {
    #[verifier::type_invariant]
    spec fn keys_distinct(self) -> bool {
        distinct_keys(members_view(self.members@))
    }

    /// The members, in order, as plain values.
    pub closed spec fn members(self) -> Seq<(Seq<char>, Seq<char>)> {
        members_view(self.members@)
    }

    /// An object without members.
    pub fn new() -> (r: JsonObject)
        ensures
            r.members() == Seq::<(Seq<char>, Seq<char>)>::empty(),
    {
        let r = JsonObject { members: Vec::new() };
        assert(r.members() =~= Seq::<(Seq<char>, Seq<char>)>::empty());
        r
    }

    /// Sets member `key` to the value with JSON text `value` (`serde_json::Map::insert`):
    /// a member with that key keeps its place and gets the new value; otherwise the
    /// member is added at the end.
    pub fn insert(&mut self, key: String, value: String)
        ensures
            final(self).members() == (if has_key(old(self).members(), key@) {
                old(self).members().update(
                    key_position(old(self).members(), key@),
                    (key@, value@),
                )
            } else {
                old(self).members().push((key@, value@))
            }),
    {
        proof {
            use_type_invariant(&*self);
        }
        let mut members: Vec<(String, String)> = Vec::new();
        std::mem::swap(&mut members, &mut self.members);
        let ghost old_members = members_view(members@);
        let ghost entry = (key@, value@);
        assert(old_members == old(self).members());
        let mut i: usize = 0;
        while i < members.len()
            invariant
                members_view(members@) == old_members,
                old_members == old(self).members(),
                entry == (key@, value@),
                distinct_keys(old_members),
                i <= members@.len(),
                forall|j: int| 0 <= j < i ==> old_members[j].0 != key@,
            decreases members@.len() - i,
        {
            assert(old_members[i as int] == member_view(members@[i as int]));
            if members[i].0 == key {
                proof {
                    let p = key_position(old_members, key@);
                    assert(old_members[i as int].0 == key@);
                    assert(has_key(old_members, key@));
                    assert(p == i as int) by {
                        if p != i as int {
                            assert(old_members[p].0 == key@);
                        }
                    }
                }
                members.set(i, (key, value));
                assert(members_view(members@) =~= old_members.update(i as int, entry));
                self.members = members;
                return;
            }
            i = i + 1;
        }
        assert(!has_key(old_members, key@));
        members.push((key, value));
        assert(members_view(members@) =~= old_members.push(entry));
        self.members = members;
    }

    /// The members, in order; no two share a key.
    pub fn members_vec(&self) -> (r: &Vec<(String, String)>)
        ensures
            members_view(r@) == self.members(),
            distinct_keys(self.members()),
    {
        proof {
            use_type_invariant(self);
        }
        &self.members
    }
}

impl View for Json {
    type V = JsonView;

    open spec fn view(&self) -> JsonView {
        match self {
            Json::Null => JsonView::Null,
            Json::Bool(b) => JsonView::Bool(*b),
            Json::Number(n) => JsonView::Number(n@),
            Json::Str(s) => JsonView::Str(s@),
            Json::Array(items) => JsonView::Array(items@.map_values(|s: String| s@)),
            Json::Object(o) => JsonView::Object(o.members()),
        }
    }
}

/// What `serde_json` reads a text as (one level deep), or the text of its error.
pub uninterp spec fn serde_json_reading(text: Seq<char>) -> Result<JsonView, Seq<char>>;

/// Calls `serde_json::from_str::<serde_json::Value>` and keeps the value one level deep:
/// scalars as they are (a number as its `Display` text), array items and object members'
/// values as their JSON text (`Value`'s `Display`), object members in the map's order.
///
/// Claimed: the outcome depends on the text alone (named `serde_json_reading`). The JSON
/// grammar and the error texts are left unsaid.
#[verifier::external_body]
pub(crate) fn parse_json(text: &str) -> (r: Result<Json, String>)
    ensures
        match r {
            Ok(j) => serde_json_reading(text@) == Ok::<JsonView, Seq<char>>(j@),
            Err(e) => serde_json_reading(text@) == Err::<JsonView, Seq<char>>(e@),
        },
{
    match serde_json::from_str::<Value>(text) {
        Err(e) => Err(e.to_string()),
        Ok(Value::Null) => Ok(Json::Null),
        Ok(Value::Bool(b)) => Ok(Json::Bool(b)),
        Ok(Value::Number(n)) => Ok(Json::Number(n.to_string())),
        Ok(Value::String(s)) => Ok(Json::Str(s)),
        Ok(Value::Array(a)) => Ok(Json::Array(a.iter().map(|x| x.to_string()).collect())),
        Ok(Value::Object(m)) => {
            let mut o = JsonObject::new();
            for (k, x) in m {
                o.insert(k, x.to_string());
            }
            Ok(Json::Object(o))
        },
    }
}

/// The JSON text of the first member named `key` among `fields`.
pub open spec fn field_value(fields: Seq<(Seq<char>, Seq<char>)>, key: Seq<char>) -> Option<Seq<char>>
    decreases fields.len(),
{
    if fields.len() == 0 {
        None
    } else if fields[0].0 == key {
        Some(fields[0].1)
    } else {
        field_value(fields.drop_first(), key)
    }
}

/// The member found for a key is the first member with that key.
pub proof fn field_value_is_first_match(fields: Seq<(Seq<char>, Seq<char>)>, key: Seq<char>, i: int)
    requires
        0 <= i < fields.len(),
        fields[i].0 == key,
        forall|j: int| 0 <= j < i ==> #[trigger] fields[j].0 != key,
    ensures
        field_value(fields, key) == Some(fields[i].1),
    decreases i,
{
    if i > 0 {
        let rest = fields.drop_first();
        assert forall|j: int| 0 <= j < i - 1 implies #[trigger] rest[j].0 != key by {
            assert(rest[j] == fields[j + 1]);
        }
        assert(fields[0].0 != key);
        field_value_is_first_match(rest, key, i - 1);
        assert(rest[i - 1] == fields[i]);
    }
}

/// The JSON text of member `key` of an object (`serde_json::Value::get` with a string
/// key); nothing for any other kind of value.
pub open spec fn json_member(doc: JsonView, key: Seq<char>) -> Option<Seq<char>> {
    match doc {
        JsonView::Object(fields) => field_value(fields, key),
        _ => None,
    }
}

/// The JSON text of member `key`, if `doc` is an object that has one.
pub fn member<'a>(doc: &'a Json, key: &str) -> (r: Option<&'a String>)
    ensures
        match r {
            Some(v) => json_member(doc@, key@) == Some(v@),
            None => json_member(doc@, key@) is None,
        },
{
    match doc {
        Json::Object(o) => {
            let fields = o.members_vec();
            let ghost fv = members_view(fields@);
            let wanted = String::from_str(key);
            let mut i: usize = 0;
            assert(fv.skip(0) =~= fv);
            while i < fields.len()
                invariant
                    fv == members_view(fields@),
                    i <= fields@.len(),
                    wanted@ == key@,
                    json_member(doc@, key@) == field_value(fv, key@),
                    field_value(fv, key@) == field_value(fv.skip(i as int), key@),
                decreases fields@.len() - i,
            {
                assert(fv.skip(i as int)[0] == fv[i as int]);
                assert(fv[i as int] == member_view(fields@[i as int]));
                if fields[i].0 == wanted {
                    return Some(&fields[i].1);
                }
                assert(fv.skip(i as int).drop_first() =~= fv.skip(i + 1));
                i = i + 1;
            }
            None
        },
        _ => None,
    }
}

} // verus!
