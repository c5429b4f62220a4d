//! Loose version parsing and filtering versions by a comma-separated range.
use vstd::prelude::*;
use crate::semver_value::{
    SemVer, VersionParts, semver_reading, version_order, parse_semver, compare_semver, semver_shaped,
    semver_char,
};
use crate::text::{
    lead_len, trim, trim_end, count_char, split_on, char_seqs, lemma_lead_len, chars_of,
    sub_chars, trim_bounds, count_in_prefix, split_chars, string_of, is_white_space,
    ws_pred, lemma_trim_cons, lemma_trim_trim, lemma_trim_trim_end, lemma_split_on_concat,
    lemma_filter_push, lemma_lead_len_props, lemma_trim_bounds, lemma_trim_between,
    lemma_count_concat, lemma_count_absent, lemma_lead_len_concat, lemma_split_on_single,
    lemma_trim_ignores_added_space,
};

verus! {

/// The character `v`, as a predicate.
pub open spec fn v_pred() -> spec_fn(char) -> bool {
    |c: char| c == 'v'
}

/// The characters other than `-` and `+`, as a predicate.
pub open spec fn release_char_pred() -> spec_fn(char) -> bool {
    |c: char| c != '-' && c != '+'
}

/// The release part padded with `.0` components up to three components.
pub open spec fn pad_release(main: Seq<char>) -> Seq<char> {
    let dots = count_char(main, '.');
    if dots >= 2 {
        main
    } else if dots == 1 {
        main + seq!['.', '0']
    } else {
        main + seq!['.', '0', '.', '0']
    }
}

/// The text handed to `semver` for a loosely written version: trimmed, leading `v`s
/// dropped, and the release part (up to the first `-` or `+`) padded to three components.
pub open spec fn loose_normalize(s: Seq<char>) -> Seq<char> {
    let t = trim(s);
    let u = t.skip(lead_len(t, v_pred()) as int);
    let k = lead_len(u, release_char_pred()) as int;
    pad_release(u.take(k)) + u.skip(k)
}

/// The version that a loosely written text stands for, if `semver` accepts it.
pub open spec fn loose_version(s: Seq<char>) -> Option<VersionParts> {
    semver_reading(loose_normalize(s))
}

/// The normalized form of a loosely written version, as characters.
fn normalize_chars(s: &Vec<char>) -> (r: Vec<char>)
    ensures
        r@ == loose_normalize(s@),
{
    let (a, b) = trim_bounds(s);
    let t = sub_chars(s, a, b);
    let mut i: usize = 0;
    while i < t.len() && t[i] == 'v'
        invariant
            i <= t@.len(),
            forall|j: int| 0 <= j < i ==> t@[j] == 'v',
        decreases t@.len() - i,
    {
        i = i + 1;
    }
    proof {
        assert forall|j: int| 0 <= j < i implies #[trigger] v_pred()(t@[j]) by {}
        lemma_lead_len(t@, v_pred(), i as int);
    }
    let u = sub_chars(&t, i, t.len());
    let mut k: usize = 0;
    while k < u.len() && u[k] != '-' && u[k] != '+'
        invariant
            k <= u@.len(),
            forall|j: int| 0 <= j < k ==> u@[j] != '-' && u@[j] != '+',
        decreases u@.len() - k,
    {
        k = k + 1;
    }
    proof {
        assert forall|j: int| 0 <= j < k implies #[trigger] release_char_pred()(u@[j]) by {}
        lemma_lead_len(u@, release_char_pred(), k as int);
    }
    let dots = count_in_prefix(&u, k, '.');
    let mut r = sub_chars(&u, 0, k);
    if dots == 0 {
        r.push('.');
        r.push('0');
        r.push('.');
        r.push('0');
    } else if dots == 1 {
        r.push('.');
        r.push('0');
    }
    let ghost padded = r@;
    assert(padded =~= pad_release(u@.take(k as int)));
    let mut j = k;
    while j < u.len()
        invariant
            k <= j <= u@.len(),
            r@ == padded + u@.subrange(k as int, j as int),
        decreases u@.len() - j,
    {
        r.push(u[j]);
        j = j + 1;
        assert(r@ =~= padded + u@.subrange(k as int, j as int));
    }
    assert(u@.subrange(k as int, u@.len() as int) =~= u@.skip(k as int));
    r
}

/// The text that a loosely written version is parsed as: trimmed, without leading `v`s,
/// and with its release numbers padded to three (`1.2-rc1` becomes `1.2.0-rc1`).
pub fn loose_normalize_str(v: &str) -> (r: String)
    ensures
        r@ == loose_normalize(v@),
{
    let c = chars_of(v);
    let n = normalize_chars(&c);
    string_of(&n)
}

/// Parses a loosely written version from characters.
fn loose_parse_chars(v: &Vec<char>) -> (r: Option<SemVer>)
    ensures
        match r {
            Some(x) => loose_version(v@) == Some(x@) && semver_shaped(loose_normalize(v@)),
            None => loose_version(v@) is None,
        },
{
    let n = normalize_chars(v);
    let s = string_of(&n);
    parse_semver(s.as_str())
}

/// Parses a loosely written version: surrounding white space and leading `v`s are
/// ignored and missing minor or patch numbers count as `0`.
pub fn loose_parse(v: &str) -> (r: Option<SemVer>)
    ensures
        match r {
            Some(x) => loose_version(v@) == Some(x@) && semver_shaped(loose_normalize(v@)),
            None => loose_version(v@) is None,
        },
{
    let c = chars_of(v);
    loose_parse_chars(&c)
}


/// A comparison operator of a version range.
#[derive(PartialEq, Eq, Structural, Clone, Copy, Debug)]
pub enum RangeOp {
    /// `>=`
    Ge,
    /// `<=`
    Le,
    /// `>`
    Gt,
    /// `<`
    Lt,
    /// `=`, also what a condition without an operator means
    Eq,
}

/// The operator at the front of a trimmed condition and the text after it; a condition
/// without an operator means equality.
pub open spec fn split_op(t: Seq<char>) -> (RangeOp, Seq<char>) {
    if t.len() >= 2 && t[0] == '>' && t[1] == '=' {
        (RangeOp::Ge, t.skip(2))
    } else if t.len() >= 2 && t[0] == '<' && t[1] == '=' {
        (RangeOp::Le, t.skip(2))
    } else if t.len() >= 1 && t[0] == '>' {
        (RangeOp::Gt, t.skip(1))
    } else if t.len() >= 1 && t[0] == '<' {
        (RangeOp::Lt, t.skip(1))
    } else if t.len() >= 1 && t[0] == '=' {
        (RangeOp::Eq, t.skip(1))
    } else {
        (RangeOp::Eq, t)
    }
}

/// The condition that one comma-separated part of a range states, if its version parses.
pub open spec fn condition_of(part: Seq<char>) -> Option<(RangeOp, VersionParts)> {
    let (op, rest) = split_op(trim(part));
    match loose_version(rest) {
        Some(v) => Some((op, v)),
        None => None,
    }
}

/// `condition_of`, as a value.
pub open spec fn condition_fn() -> spec_fn(Seq<char>) -> Option<(RangeOp, VersionParts)> {
    |part: Seq<char>| condition_of(part)
}

/// The conditions of a range: one per comma-separated part whose version parses, in order.
pub open spec fn range_conditions(range: Seq<char>) -> Seq<(RangeOp, VersionParts)> {
    split_on(range, ',').filter_map(condition_fn())
}

/// Whether the operator holds for a comparison result `ord` (version against target).
pub open spec fn op_holds(op: RangeOp, ord: int) -> bool {
    match op {
        RangeOp::Ge => ord >= 0,
        RangeOp::Le => ord <= 0,
        RangeOp::Gt => ord > 0,
        RangeOp::Lt => ord < 0,
        RangeOp::Eq => ord == 0,
    }
}

/// Whether `v` meets every condition.
pub open spec fn meets_all(v: VersionParts, conds: Seq<(RangeOp, VersionParts)>) -> bool {
    forall|i: int| 0 <= i < conds.len() ==> #[trigger] op_holds(conds[i].0, version_order(v, conds[i].1))
}

/// Whether a version text parses and meets every condition.
pub open spec fn in_range(s: Seq<char>, conds: Seq<(RangeOp, VersionParts)>) -> bool {
    match loose_version(s) {
        Some(v) => meets_all(v, conds),
        None => false,
    }
}

/// `in_range` for fixed conditions, as a predicate.
pub open spec fn in_range_pred(conds: Seq<(RangeOp, VersionParts)>) -> spec_fn(Seq<char>) -> bool {
    |s: Seq<char>| in_range(s, conds)
}

/// The versions of `all` that parse and lie in `range`, in their order in `all`.
pub open spec fn vulnerable_versions(all: Seq<Seq<char>>, range: Seq<char>) -> Seq<Seq<char>> {
    all.filter(in_range_pred(range_conditions(range)))
}

/// One condition of a version range.
pub struct Condition {
    pub op: RangeOp,
    pub target: SemVer,
}

/// What a sequence of conditions states.
pub open spec fn conditions_view(c: Seq<Condition>) -> Seq<(RangeOp, VersionParts)> {
    c.map_values(|x: Condition| (x.op, x.target@))
}

/// Parses one comma-separated part of a range.
fn parse_condition(part: &Vec<char>) -> (r: Option<Condition>)
    ensures
        match r {
            Some(c) => condition_of(part@) == Some((c.op, c.target@)),
            None => condition_of(part@) is None,
        },
{
    let (a, b) = trim_bounds(part);
    let t = sub_chars(part, a, b);
    let n = t.len();
    let (op, skip) = if n >= 2 && t[0] == '>' && t[1] == '=' {
        (RangeOp::Ge, 2)
    } else if n >= 2 && t[0] == '<' && t[1] == '=' {
        (RangeOp::Le, 2)
    } else if n >= 1 && t[0] == '>' {
        (RangeOp::Gt, 1)
    } else if n >= 1 && t[0] == '<' {
        (RangeOp::Lt, 1)
    } else if n >= 1 && t[0] == '=' {
        (RangeOp::Eq, 1)
    } else {
        (RangeOp::Eq, 0)
    };
    let rest = sub_chars(&t, skip, n);
    assert(rest@ =~= split_op(t@).1);
    match loose_parse_chars(&rest) {
        Some(v) => Some(Condition { op, target: v }),
        None => None,
    }
}

/// The conditions of a version range, in order (parts whose version does not parse
/// are left out).
pub fn parse_range(range: &str) -> (r: Vec<Condition>)
    ensures
        conditions_view(r@) == range_conditions(range@),
{
    let chars = chars_of(range);
    let parts = split_chars(&chars, ',');
    let mut out: Vec<Condition> = Vec::new();
    let ghost ps = char_seqs(parts@);
    assert(ps.take(0).filter_map(condition_fn()) =~= Seq::<(RangeOp, VersionParts)>::empty());
    for i in 0..parts.len()
        invariant
            ps == char_seqs(parts@),
            ps == split_on(range@, ','),
            conditions_view(out@) == ps.take(i as int).filter_map(condition_fn()),
    {
        assert(ps.take(i + 1).drop_last() =~= ps.take(i as int));
        assert(ps[i as int] == parts@[i as int]@);
        let ghost before = conditions_view(out@);
        match parse_condition(&parts[i]) {
            Some(c) => {
                out.push(c);
                assert(conditions_view(out@) =~= before + seq![conditions_view(out@).last()]);
            },
            None => {},
        }
    }
    assert(ps.take(parts@.len() as int) =~= ps);
    out
}

/// Whether `v` meets every condition.
fn meets_conditions(v: &SemVer, conds: &Vec<Condition>) -> (r: bool)
    ensures
        r == meets_all(v@, conditions_view(conds@)),
{
    let ghost cv = conditions_view(conds@);
    for i in 0..conds.len()
        invariant
            cv == conditions_view(conds@),
            forall|j: int| 0 <= j < i ==> #[trigger] op_holds(cv[j].0, version_order(v@, cv[j].1)),
    {
        let ord = compare_semver(v, &conds[i].target);
        let ok = match conds[i].op {
            RangeOp::Ge => ord >= 0,
            RangeOp::Le => ord <= 0,
            RangeOp::Gt => ord > 0,
            RangeOp::Lt => ord < 0,
            RangeOp::Eq => ord == 0,
        };
        assert(ok == op_holds(cv[i as int].0, version_order(v@, cv[i as int].1)));
        if !ok {
            return false;
        }
    }
    true
}

/// The versions of `all_versions` that parse loosely and satisfy every condition of
/// `version_range` (comma-separated, each `>=`, `<=`, `>`, `<`, `=` or no operator for
/// equality, followed by a loosely written version), in input order.
pub fn get_vulnerable_versions(all_versions: Vec<String>, version_range: String) -> (r: Vec<String>)
    ensures
        r.deep_view() == vulnerable_versions(all_versions.deep_view(), version_range@),
{
    let conds = parse_range(version_range.as_str());
    let ghost all = all_versions.deep_view();
    let ghost pred = in_range_pred(range_conditions(version_range@));
    let mut out: Vec<String> = Vec::new();
    assert(all.take(0).filter(pred) =~= Seq::<Seq<char>>::empty()) by {
        reveal(Seq::filter);
    }
    for i in 0..all_versions.len()
        invariant
            all == all_versions.deep_view(),
            pred == in_range_pred(range_conditions(version_range@)),
            conditions_view(conds@) == range_conditions(version_range@),
            out.deep_view() == all.take(i as int).filter(pred),
    {
        assert(all.take(i + 1).drop_last() =~= all.take(i as int));
        assert(all[i as int] == all_versions@[i as int]@);
        let ghost before = out.deep_view();
        let keep = match loose_parse(all_versions[i].as_str()) {
            Some(v) => meets_conditions(&v, &conds),
            None => false,
        };
        assert(keep == pred(all[i as int]));
        if keep {
            out.push(all_versions[i].clone());
            assert(out.deep_view() =~= before.push(all[i as int]));
        }
        proof {
            reveal(Seq::filter);
        }
    }
    assert(all.take(all.len() as int) =~= all);
    out
}


/// Filtering twice with the same predicate is filtering once.
proof fn lemma_filter_twice<A>(s: Seq<A>, p: spec_fn(A) -> bool)
    ensures
        s.filter(p).filter(p) == s.filter(p),
    decreases s.len(),
{
    if s.len() > 0 {
        let f = s.drop_last().filter(p);
        lemma_filter_twice(s.drop_last(), p);
        assert(s =~= s.drop_last().push(s.last()));
        lemma_filter_push(s.drop_last(), s.last(), p);
        if p(s.last()) {
            lemma_filter_push(f, s.last(), p);
        }
    } else {
        reveal(Seq::filter);
    }
}

/// Filtering by a conjunction is filtering by each conjunct in turn.
proof fn lemma_filter_and<A>(
    s: Seq<A>,
    p1: spec_fn(A) -> bool,
    p2: spec_fn(A) -> bool,
    p12: spec_fn(A) -> bool,
)
    requires
        forall|x: A| #[trigger] p12(x) == (p1(x) && p2(x)),
    ensures
        s.filter(p12) == s.filter(p1).filter(p2),
    decreases s.len(),
{
    if s.len() > 0 {
        let init = s.drop_last();
        let x = s.last();
        lemma_filter_and(init, p1, p2, p12);
        assert(s =~= init.push(x));
        lemma_filter_push(init, x, p12);
        lemma_filter_push(init, x, p1);
        if p1(x) {
            lemma_filter_push(init.filter(p1), x, p2);
        }
    } else {
        reveal(Seq::filter);
    }
}

/// `filter_map` of a concatenation is the concatenation of the `filter_map`s.
proof fn lemma_filter_map_concat<A, B>(x: Seq<A>, y: Seq<A>, f: spec_fn(A) -> Option<B>)
    ensures
        (x + y).filter_map(f) == x.filter_map(f) + y.filter_map(f),
    decreases y.len(),
{
    if y.len() == 0 {
        assert(x + y =~= x);
        assert(x.filter_map(f) + y.filter_map(f) =~= x.filter_map(f));
    } else {
        lemma_filter_map_concat(x, y.drop_last(), f);
        assert((x + y).drop_last() =~= x + y.drop_last());
        assert((x + y).last() == y.last());
        match f(y.last()) {
            Some(b) => {
                assert((x + y).filter_map(f) =~= x.filter_map(f) + y.filter_map(f));
            },
            None => {},
        }
    }
}

/// The versions returned for a range are exactly those of the input that parse and lie
/// in the range: none is invented and none in range is dropped.
pub proof fn range_filter_membership(all: Seq<Seq<char>>, range: Seq<char>, s: Seq<char>)
    ensures
        vulnerable_versions(all, range).contains(s) <==> all.contains(s) && in_range(
            s,
            range_conditions(range),
        ),
{
    let p = in_range_pred(range_conditions(range));
    let out = all.filter(p);
    if out.contains(s) {
        all.lemma_filter_contains_rev(p, s);
        let i = choose|i: int| 0 <= i < out.len() && out[i] == s;
        all.lemma_filter_pred(p, i);
    }
    if all.contains(s) && in_range(s, range_conditions(range)) {
        let i = choose|i: int| 0 <= i < all.len() && all[i] == s;
        all.lemma_filter_contains(p, i);
    }
}

/// A range of one part states that part's condition alone, and a version text lies in it
/// exactly when it parses to a version for which the condition's operator holds.
proof fn lemma_single_part(part: Seq<char>, op: RangeOp, tv: VersionParts)
    requires
        !part.contains(','),
        condition_of(part) == Some((op, tv)),
    ensures
        range_conditions(part) == seq![(op, tv)],
        forall|s: Seq<char>| #[trigger] in_range(s, range_conditions(part)) <==> (loose_version(
            s,
        ) matches Some(v) && op_holds(op, version_order(v, tv))),
{
    lemma_split_on_single(part, ',');
    let ps = seq![part];
    assert(ps.drop_last() =~= Seq::<Seq<char>>::empty());
    assert(ps.last() == part);
    assert(Seq::<Seq<char>>::empty().filter_map(condition_fn()) =~= Seq::<
        (RangeOp, VersionParts),
    >::empty());
    assert(ps.filter_map(condition_fn()) =~= seq![(op, tv)]);
    let conds = seq![(op, tv)];
    assert forall|s: Seq<char>| #[trigger] in_range(s, range_conditions(part)) <==> (loose_version(
        s,
    ) matches Some(v) && op_holds(op, version_order(v, tv))) by {
        match loose_version(s) {
            Some(v) => {
                if op_holds(op, version_order(v, tv)) {
                    assert forall|i: int| 0 <= i < conds.len() implies #[trigger] op_holds(
                        conds[i].0,
                        version_order(v, conds[i].1),
                    ) by {
                        assert(i == 0);
                    }
                }
                if meets_all(v, conds) {
                    assert(op_holds(conds[0].0, version_order(v, conds[0].1)));
                }
            },
            None => {},
        }
    }
}

/// A text without a comma, with characters put in front of it, has no comma either.
proof fn lemma_no_comma_prefixed(pre: Seq<char>, t: Seq<char>)
    requires
        !t.contains(','),
        !pre.contains(','),
    ensures
        !(pre + t).contains(','),
{
    if (pre + t).contains(',') {
        let j = choose|j: int| 0 <= j < (pre + t).len() && (pre + t)[j] == ',';
        if j < pre.len() {
            assert(pre[j] == ',');
        } else {
            assert(t[j - pre.len()] == ',');
        }
    }
}

/// The text after an operator is read as a version as the text with its trailing white
/// space removed is.
proof fn lemma_loose_version_trim_end(t: Seq<char>)
    ensures
        loose_version(trim_end(t)) == loose_version(t),
        loose_normalize(trim_end(t)) == loose_normalize(t),
{
    lemma_trim_trim_end(t);
}

/// What a range of one condition with a strict operator keeps: `>` followed by a version
/// keeps exactly the versions of the input that parse and order after it, and `<` those
/// that order before it (for a version text without a comma that does not start with `=`,
/// which would make the operator `>=` or `<=`).
pub proof fn strict_comparison_ranges(all: Seq<Seq<char>>, t: Seq<char>, s: Seq<char>, tv: VersionParts)
    requires
        !t.contains(','),
        t.len() == 0 || t[0] != '=',
        loose_version(t) == Some(tv),
    ensures
        vulnerable_versions(all, seq!['>'] + t).contains(s) <==> all.contains(s) && (loose_version(
            s,
        ) matches Some(v) && version_order(v, tv) > 0),
        vulnerable_versions(all, seq!['<'] + t).contains(s) <==> all.contains(s) && (loose_version(
            s,
        ) matches Some(v) && version_order(v, tv) < 0),
{
    let te = trim_end(t);
    lemma_loose_version_trim_end(t);
    crate::text::lemma_trail_len_props(t, ws_pred());
    assert(te.len() > 0 ==> te[0] == t[0]);
    // `>`
    let g = seq!['>'] + t;
    lemma_trim_cons('>', t);
    assert(trim(g) == seq!['>'] + te);
    assert((seq!['>'] + te).skip(1) =~= te);
    assert(split_op(trim(g)) == (RangeOp::Gt, te));
    assert(condition_of(g) == Some((RangeOp::Gt, tv)));
    assert(!seq!['>'].contains(',')) by {
        assert(seq!['>'][0] == '>');
    }
    lemma_no_comma_prefixed(seq!['>'], t);
    lemma_single_part(g, RangeOp::Gt, tv);
    range_filter_membership(all, g, s);
    // `<`
    let l = seq!['<'] + t;
    lemma_trim_cons('<', t);
    assert((seq!['<'] + te).skip(1) =~= te);
    assert(split_op(trim(l)) == (RangeOp::Lt, te));
    assert(condition_of(l) == Some((RangeOp::Lt, tv)));
    assert(!seq!['<'].contains(',')) by {
        assert(seq!['<'][0] == '<');
    }
    lemma_no_comma_prefixed(seq!['<'], t);
    lemma_single_part(l, RangeOp::Lt, tv);
    range_filter_membership(all, l, s);
}

/// What a range of one condition with `>=`, `<=` or `=` keeps: the versions of the input
/// that parse and order, against the version after the operator, after it or equal to it,
/// before it or equal to it, and equal to it (for a version text without a comma).
pub proof fn inclusive_comparison_ranges(all: Seq<Seq<char>>, t: Seq<char>, s: Seq<char>, tv: VersionParts)
    requires
        !t.contains(','),
        loose_version(t) == Some(tv),
    ensures
        vulnerable_versions(all, seq!['>', '='] + t).contains(s) <==> all.contains(s) && (
        loose_version(s) matches Some(v) && version_order(v, tv) >= 0),
        vulnerable_versions(all, seq!['<', '='] + t).contains(s) <==> all.contains(s) && (
        loose_version(s) matches Some(v) && version_order(v, tv) <= 0),
        vulnerable_versions(all, seq!['='] + t).contains(s) <==> all.contains(s) && (loose_version(
            s,
        ) matches Some(v) && version_order(v, tv) == 0),
{
    let te = trim_end(t);
    lemma_loose_version_trim_end(t);
    lemma_trim_cons('=', t);
    // `>=`
    let g = seq!['>', '='] + t;
    assert(g =~= seq!['>'] + (seq!['='] + t));
    lemma_trim_cons('>', seq!['='] + t);
    assert(trim(g) =~= seq!['>', '='] + te);
    assert((seq!['>', '='] + te).skip(2) =~= te);
    assert(split_op(trim(g)) == (RangeOp::Ge, te));
    assert(condition_of(g) == Some((RangeOp::Ge, tv)));
    assert(!seq!['>', '='].contains(',')) by {
        assert(seq!['>', '='][0] == '>');
        assert(seq!['>', '='][1] == '=');
    }
    lemma_no_comma_prefixed(seq!['>', '='], t);
    lemma_single_part(g, RangeOp::Ge, tv);
    range_filter_membership(all, g, s);
    // `<=`
    let l = seq!['<', '='] + t;
    assert(l =~= seq!['<'] + (seq!['='] + t));
    lemma_trim_cons('<', seq!['='] + t);
    assert(trim(l) =~= seq!['<', '='] + te);
    assert((seq!['<', '='] + te).skip(2) =~= te);
    assert(split_op(trim(l)) == (RangeOp::Le, te));
    assert(condition_of(l) == Some((RangeOp::Le, tv)));
    assert(!seq!['<', '='].contains(',')) by {
        assert(seq!['<', '='][0] == '<');
        assert(seq!['<', '='][1] == '=');
    }
    lemma_no_comma_prefixed(seq!['<', '='], t);
    lemma_single_part(l, RangeOp::Le, tv);
    range_filter_membership(all, l, s);
    // `=`
    let e = seq!['='] + t;
    assert((seq!['='] + te).skip(1) =~= te);
    assert(split_op(trim(e)) == (RangeOp::Eq, te));
    assert(condition_of(e) == Some((RangeOp::Eq, tv)));
    assert(!seq!['='].contains(',')) by {
        assert(seq!['='][0] == '=');
    }
    lemma_no_comma_prefixed(seq!['='], t);
    lemma_single_part(e, RangeOp::Eq, tv);
    range_filter_membership(all, e, s);
}

/// White space around a condition is ignored: a part with white space added at either
/// end states the same condition.
pub proof fn space_around_condition_ignored(part: Seq<char>, w: char)
    requires
        is_white_space(w),
    ensures
        condition_of(seq![w] + part) == condition_of(part),
        condition_of(part + seq![w]) == condition_of(part),
{
    lemma_trim_ignores_added_space(part, w);
}

/// Filtering the versions a range returned by the same range again changes nothing.
pub proof fn range_filter_idempotent(all: Seq<Seq<char>>, range: Seq<char>)
    ensures
        vulnerable_versions(vulnerable_versions(all, range), range) == vulnerable_versions(
            all,
            range,
        ),
{
    lemma_filter_twice(all, in_range_pred(range_conditions(range)));
}

/// The conditions of two ranges joined by a comma are those of the first, then those of
/// the second.
pub proof fn range_conditions_concat(r1: Seq<char>, r2: Seq<char>)
    ensures
        range_conditions(r1 + seq![','] + r2) == range_conditions(r1) + range_conditions(r2),
{
    lemma_split_on_concat(r1, r2, ',');
    lemma_filter_map_concat(split_on(r1, ','), split_on(r2, ','), condition_fn());
}

/// Comma-separated conditions combine as a logical AND: filtering by `r1,r2` is filtering
/// by `r1` and then by `r2`.
pub proof fn comma_means_and(all: Seq<Seq<char>>, r1: Seq<char>, r2: Seq<char>)
    ensures
        vulnerable_versions(all, r1 + seq![','] + r2) == vulnerable_versions(
            vulnerable_versions(all, r1),
            r2,
        ),
{
    range_conditions_concat(r1, r2);
    let c1 = range_conditions(r1);
    let c2 = range_conditions(r2);
    let c12 = range_conditions(r1 + seq![','] + r2);
    assert forall|x: Seq<char>| #[trigger] in_range_pred(c12)(x) == (in_range_pred(c1)(x)
        && in_range_pred(c2)(x)) by {
        match loose_version(x) {
            Some(v) => {
                if meets_all(v, c1) && meets_all(v, c2) {
                    assert forall|i: int| 0 <= i < c12.len() implies #[trigger] op_holds(
                        c12[i].0,
                        version_order(v, c12[i].1),
                    ) by {
                        if i < c1.len() {
                            assert(c12[i] == c1[i]);
                        } else {
                            assert(c12[i] == c2[i - c1.len()]);
                        }
                    }
                }
                if meets_all(v, c12) {
                    assert forall|i: int| 0 <= i < c1.len() implies #[trigger] op_holds(
                        c1[i].0,
                        version_order(v, c1[i].1),
                    ) by {
                        assert(c12[i] == c1[i]);
                    }
                    assert forall|i: int| 0 <= i < c2.len() implies #[trigger] op_holds(
                        c2[i].0,
                        version_order(v, c2[i].1),
                    ) by {
                        assert(c12[i + c1.len()] == c2[i]);
                    }
                }
            },
            None => {},
        }
    }
    lemma_filter_and(all, in_range_pred(c1), in_range_pred(c2), in_range_pred(c12));
}

/// A condition without an operator means equality: a part whose trimmed text does not
/// start with `<`, `>` or `=` states the same condition as that part with `=` in front.
pub proof fn bare_version_means_equality(part: Seq<char>)
    requires
        !(trim(part).len() >= 1 && (trim(part)[0] == '<' || trim(part)[0] == '>' || trim(
            part,
        )[0] == '=')),
    ensures
        condition_of(seq!['='] + part) == condition_of(part),
{
    lemma_trim_cons('=', part);
    let te = trim_end(part);
    assert((seq!['='] + te).skip(1) =~= te);
    assert(split_op(trim(seq!['='] + part)) == (RangeOp::Eq, te));
    assert(split_op(trim(part)) == (RangeOp::Eq, trim(part)));
    lemma_trim_trim_end(part);
    lemma_trim_trim(part);
    assert(loose_normalize(te) == loose_normalize(trim(part)));
}

/// A Go-style `v` in front of a version is ignored: `v1.2.3` is read as `1.2.3`
/// (for a version text that does not start with white space, which the `v` would
/// then precede).
pub proof fn v_prefix_ignored(s: Seq<char>)
    requires
        s.len() == 0 || !is_white_space(s[0]) || trim(s).len() == 0,
    ensures
        loose_normalize(seq!['v'] + s) == loose_normalize(s),
        loose_version(seq!['v'] + s) == loose_version(s),
{
    lemma_trim_cons('v', s);
    let e = trim_end(s);
    if s.len() == 0 || !is_white_space(s[0]) {
        lemma_lead_len(s, ws_pred(), 0);
        assert(s.skip(0) =~= s);
        assert(trim(s) == e);
    } else {
        // all white space: nothing is left of it either way
        lemma_trim_trim_end(s);
        let (a, b) = lemma_trim_bounds(e);
        assert(e.len() == 0) by {
            if e.len() > 0 {
                crate::text::lemma_trail_len_props(s, ws_pred());
                assert(!ws_pred()(s[e.len() - 1]));
                assert(e[e.len() - 1] == s[e.len() - 1]);
                assert(a == b);
                assert(is_white_space(e[e.len() - 1]));
            }
        }
    }
    assert(trim(s) == e);
    let t1 = seq!['v'] + e;
    assert(t1.drop_first() =~= e);
    assert(lead_len(t1, v_pred()) == 1 + lead_len(e, v_pred()));
    lemma_lead_len_props(e, v_pred());
    assert(t1.skip(lead_len(t1, v_pred()) as int) =~= e.skip(lead_len(e, v_pred()) as int));
}


/// Padding does not depend on what follows the release part: a release of one or two
/// numbers followed by a pre-release or build part (starting with `-` or `+`) is padded
/// with `.0` components up to three numbers, and the part after it is kept as it is
/// (`2.0-beta9` is read as `2.0.0-beta9`); a release of three numbers is kept unchanged.
/// This holds for a release that does not start with white space or `v` (which would be
/// trimmed or stripped) and a text that does not end with white space.
pub proof fn release_padded_before_suffix(r: Seq<char>, x: Seq<char>)
    requires
        r.len() > 0,
        !is_white_space(r[0]),
        r[0] != 'v',
        !r.contains('-'),
        !r.contains('+'),
        x.len() > 0,
        x[0] == '-' || x[0] == '+',
        !is_white_space(x.last()),
    ensures
        loose_normalize(r + x) == (if count_char(r, '.') == 0 {
            r + seq!['.', '0', '.', '0'] + x
        } else if count_char(r, '.') == 1 {
            r + seq!['.', '0'] + x
        } else {
            r + x
        }),
{
    let w = r + x;
    assert(w[0] == r[0]);
    assert(w[w.len() - 1] == x.last());
    lemma_trim_between(w, 0, w.len() as int);
    assert(w.subrange(0, w.len() as int) =~= w);
    lemma_lead_len(w, v_pred(), 0);
    assert(w.skip(0) =~= w);
    assert forall|j: int| 0 <= j < r.len() implies #[trigger] release_char_pred()(w[j]) by {
        assert(w[j] == r[j]);
        assert(r.contains(r[j]));
    }
    assert(w[r.len() as int] == x[0]);
    lemma_lead_len(w, release_char_pred(), r.len() as int);
    assert(w.take(r.len() as int) =~= r);
    assert(w.skip(r.len() as int) =~= x);
    assert(r + seq!['.', '0', '.', '0'] + x =~= (r + seq!['.', '0', '.', '0']) + x);
}

/// A trimmed text that gets `.0` appended stays trimmed.
#[verifier::spinoff_prover]
proof fn lemma_trimmed_append(s: Seq<char>)
    requires
        trim(s) == s,
    ensures
        trim(s + seq!['.', '0']) == s + seq!['.', '0'],
{
    let x = s + seq!['.', '0'];
    let (a, b) = lemma_trim_bounds(s);
    assert(b - a == s.len());
    assert(!is_white_space('.'));
    assert(!is_white_space('0'));
    if s.len() > 0 {
        assert(a == 0 && b == s.len());
        assert(x[0] == s[0]);
        assert(!is_white_space(x[0]));
    } else {
        assert(x[0] == '.');
    }
    assert(x[x.len() - 1] == '0');
    lemma_trim_between(x, 0, x.len() as int);
    assert(x.subrange(0, x.len() as int) =~= x);
}

/// A trimmed text without `-` or `+` normalizes to its padded remainder after the `v`s.
proof fn lemma_normalize_plain(t: Seq<char>)
    requires
        trim(t) == t,
        !t.contains('-'),
        !t.contains('+'),
    ensures
        loose_normalize(t) == pad_release(t.skip(lead_len(t, v_pred()) as int)),
{
    lemma_lead_len_props(t, v_pred());
    let u = t.skip(lead_len(t, v_pred()) as int);
    assert forall|j: int| 0 <= j < u.len() implies #[trigger] release_char_pred()(u[j]) by {
        assert(u[j] == t[j + lead_len(t, v_pred())]);
    }
    lemma_lead_len(u, release_char_pred(), u.len() as int);
    assert(u.take(u.len() as int) =~= u);
    assert(u.skip(u.len() as int) =~= Seq::<char>::empty());
    assert(pad_release(u) + Seq::<char>::empty() =~= pad_release(u));
}

/// Appending `.0` to a release part with fewer than two dots leaves its padding the same.
proof fn lemma_pad_dot_zero(u: Seq<char>)
    requires
        count_char(u, '.') < 2,
    ensures
        pad_release(u + seq!['.', '0']) == pad_release(u),
{
    let z = seq!['.', '0'];
    lemma_count_concat(u, z, '.');
    assert(z.drop_last() =~= seq!['.']);
    assert(seq!['.'].drop_last() =~= Seq::<char>::empty());
    assert(count_char(Seq::<char>::empty(), '.') == 0);
    assert(count_char(seq!['.'], '.') == 1);
    assert(z.last() == '0');
    assert(count_char(z, '.') == 1);
    assert(pad_release(u + z) =~= pad_release(u));
}

/// `missing_release_numbers_are_zero` for a text without surrounding white space.
proof fn lemma_missing_release_trimmed(s: Seq<char>)
    requires
        trim(s) == s,
        !s.contains('-'),
        !s.contains('+'),
        count_char(s, '.') < 2,
    ensures
        loose_normalize(s + seq!['.', '0']) == loose_normalize(s),
{
    let z = seq!['.', '0'];
    let x = s + z;
    lemma_trimmed_append(s);
    assert(!x.contains('-')) by {
        if x.contains('-') {
            let j = choose|j: int| 0 <= j < x.len() && x[j] == '-';
            if j < s.len() {
                assert(s[j] == x[j]);
            }
        }
    }
    assert(!x.contains('+')) by {
        if x.contains('+') {
            let j = choose|j: int| 0 <= j < x.len() && x[j] == '+';
            if j < s.len() {
                assert(s[j] == x[j]);
            }
        }
    }
    lemma_normalize_plain(s);
    lemma_normalize_plain(x);
    let vl = lead_len(s, v_pred());
    lemma_lead_len_concat(s, z, v_pred());
    lemma_lead_len(z, v_pred(), 0);
    lemma_lead_len_props(s, v_pred());
    let u = s.skip(vl as int);
    assert(x.skip(vl as int) =~= u + z);
    assert(s =~= s.take(vl as int) + u);
    lemma_count_concat(s.take(vl as int), u, '.');
    assert forall|j: int| 0 <= j < s.take(vl as int).len() implies s.take(vl as int)[j] != '.' by {
        assert(v_pred()(s[j]));
    }
    lemma_count_absent(s.take(vl as int), '.');
    lemma_pad_dot_zero(u);
}


/// Missing release numbers count as zero: a version written with fewer than three
/// release numbers and no pre-release or build part reads the same as with `.0`
/// appended (unless white space ends it, which the `.0` would then follow).
pub proof fn missing_release_numbers_are_zero(s: Seq<char>)
    requires
        s.len() == 0 || !is_white_space(s.last()) || trim(s).len() == 0,
        !s.contains('-'),
        !s.contains('+'),
        count_char(s, '.') < 2,
    ensures
        loose_normalize(s + seq!['.', '0']) == loose_normalize(s),
{
    let z = seq!['.', '0'];
    let x = s + z;
    let (a, b) = lemma_trim_bounds(s);
    let t = trim(s);
    assert(!is_white_space('.'));
    assert(!is_white_space('0'));
    // trim(x) == t + z
    if a == b {
        assert forall|j: int| 0 <= j < s.len() implies #[trigger] is_white_space(x[j]) by {
            assert(x[j] == s[j]);
        }
        assert(x[s.len() as int] == '.');
        lemma_trim_between(x, s.len() as int, x.len() as int);
        assert(x.subrange(s.len() as int, x.len() as int) =~= t + z);
    } else {
        assert(b == s.len()) by {
            if b < s.len() {
                assert(is_white_space(s[s.len() - 1]));
            }
        }
        assert forall|j: int| 0 <= j < a implies #[trigger] is_white_space(x[j]) by {
            assert(x[j] == s[j]);
        }
        assert(x[a] == s[a]);
        lemma_trim_between(x, a, x.len() as int);
        assert(x.subrange(a, x.len() as int) =~= t + z);
    }
    // t satisfies the conditions of the trimmed case
    lemma_trim_trim(s);
    assert forall|j: int| 0 <= j < t.len() implies t[j] != '-' && t[j] != '+' by {
        assert(t[j] == s[j + a]);
    }
    assert(s =~= s.take(a) + t + s.skip(b));
    lemma_count_concat(s.take(a) + t, s.skip(b), '.');
    lemma_count_concat(s.take(a), t, '.');
    assert forall|j: int| 0 <= j < s.take(a).len() implies s.take(a)[j] != '.' by {
        assert(is_white_space(s[j]));
    }
    assert forall|j: int| 0 <= j < s.skip(b).len() implies s.skip(b)[j] != '.' by {
        assert(is_white_space(s[j + b]));
    }
    lemma_count_absent(s.take(a), '.');
    lemma_count_absent(s.skip(b), '.');
    lemma_missing_release_trimmed(t);
    lemma_trimmed_append(t);
}


/// No character of a version that `semver` accepts is white space.
proof fn lemma_semver_char_not_space(c: char)
    requires
        semver_char(c),
    ensures
        !is_white_space(c),
{
}

/// Every text that `semver` accepts (each has the outline `semver_shaped`) is read
/// unchanged: the loose reading neither trims, strips nor pads it, and gives the version
/// that `semver` gives.
pub proof fn strict_versions_read_unchanged(s: Seq<char>)
    requires
        semver_shaped(s),
    ensures
        loose_normalize(s) == s,
        loose_version(s) == semver_reading(s),
{
    lemma_semver_char_not_space(s[0]);
    lemma_semver_char_not_space(s[s.len() - 1]);
    lemma_trim_between(s, 0, s.len() as int);
    assert(s.subrange(0, s.len() as int) =~= s);
    lemma_lead_len(s, v_pred(), 0);
    assert(s.skip(0) =~= s);
    lemma_lead_len_props(s, release_char_pred());
    let k = lead_len(s, release_char_pred()) as int;
    assert(pad_release(s.take(k)) == s.take(k));
    assert(s.take(k) + s.skip(k) =~= s);
}

} // verus!
