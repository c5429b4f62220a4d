//! Character-sequence helpers: whitespace, trimming, splitting and searching,
//! each with a specification over `Seq<char>`.
use vstd::prelude::*;

verus! {

/// The Unicode `White_Space` property, as `char::is_whitespace` documents it.
pub open spec fn is_white_space(c: char) -> bool {
    let u = c as u32;
    ||| 0x09 <= u <= 0x0D
    ||| u == 0x20
    ||| u == 0x85
    ||| u == 0xA0
    ||| u == 0x1680
    ||| 0x2000 <= u <= 0x200A
    ||| u == 0x2028
    ||| u == 0x2029
    ||| u == 0x202F
    ||| u == 0x205F
    ||| u == 0x3000
}

/// Whether `c` is white space in the sense of `char::is_whitespace`.
pub fn white_space(c: char) -> (r: bool)
    ensures
        r == is_white_space(c),
{
    let u = c as u32;
    (0x09 <= u && u <= 0x0D) || u == 0x20 || u == 0x85 || u == 0xA0 || u == 0x1680 || (0x2000
        <= u && u <= 0x200A) || u == 0x2028 || u == 0x2029 || u == 0x202F || u == 0x205F || u
        == 0x3000
}


/// The predicate `is_white_space`, as a value.
pub open spec fn ws_pred() -> spec_fn(char) -> bool {
    |c: char| is_white_space(c)
}

/// How many characters at the front of `s` satisfy `p`, counted up to the first that does not.
pub open spec fn lead_len(s: Seq<char>, p: spec_fn(char) -> bool) -> nat
    decreases s.len(),
{
    if s.len() > 0 && p(s[0]) {
        1 + lead_len(s.drop_first(), p)
    } else {
        0
    }
}

/// How many characters at the back of `s` satisfy `p`, counted up to the last that does not.
pub open spec fn trail_len(s: Seq<char>, p: spec_fn(char) -> bool) -> nat
    decreases s.len(),
{
    if s.len() > 0 && p(s.last()) {
        1 + trail_len(s.drop_last(), p)
    } else {
        0
    }
}

/// `s` without its leading white space (`str::trim_start`).
pub open spec fn trim_start(s: Seq<char>) -> Seq<char> {
    s.skip(lead_len(s, ws_pred()) as int)
}

/// `s` without its trailing white space (`str::trim_end`).
pub open spec fn trim_end(s: Seq<char>) -> Seq<char> {
    s.take(s.len() - trail_len(s, ws_pred()))
}

/// `s` without leading and trailing white space (`str::trim`).
pub open spec fn trim(s: Seq<char>) -> Seq<char> {
    trim_end(trim_start(s))
}

/// `lead_len` is the length of the longest prefix whose characters all satisfy `p`.
pub proof fn lemma_lead_len(s: Seq<char>, p: spec_fn(char) -> bool, i: int)
    requires
        0 <= i <= s.len(),
        forall|j: int| 0 <= j < i ==> #[trigger] p(s[j]),
        i == s.len() || !p(s[i]),
    ensures
        lead_len(s, p) == i,
    decreases i,
{
    if i > 0 {
        let t = s.drop_first();
        assert forall|j: int| 0 <= j < i - 1 implies #[trigger] p(t[j]) by {
            assert(t[j] == s[j + 1]);
        }
        lemma_lead_len(t, p, i - 1);
    }
}

/// `trail_len` is the length of the longest suffix whose characters all satisfy `p`.
pub proof fn lemma_trail_len(s: Seq<char>, p: spec_fn(char) -> bool, k: int)
    requires
        0 <= k <= s.len(),
        forall|j: int| s.len() - k <= j < s.len() ==> #[trigger] p(s[j]),
        k == s.len() || !p(s[s.len() - k - 1]),
    ensures
        trail_len(s, p) == k,
    decreases k,
{
    if k > 0 {
        let t = s.drop_last();
        assert forall|j: int| t.len() - (k - 1) <= j < t.len() implies #[trigger] p(t[j]) by {
            assert(t[j] == s[j]);
        }
        lemma_trail_len(t, p, k - 1);
    }
}

/// The characters of `s`, in order.
pub fn chars_of(s: &str) -> (r: Vec<char>)
    ensures
        r@ == s@,
{
    let mut r: Vec<char> = Vec::new();
    for c in it: s.chars()
        invariant
            r@ == it.seq().take(it.index() as int),
    {
        r.push(c);
    }
    r
}

/// The characters `s[from..to]` as a new vector.
pub fn sub_chars(s: &Vec<char>, from: usize, to: usize) -> (r: Vec<char>)
    requires
        from <= to <= s@.len(),
    ensures
        r@ == s@.subrange(from as int, to as int),
{
    let mut r: Vec<char> = Vec::new();
    let mut i = from;
    while i < to
        invariant
            from <= i <= to <= s@.len(),
            r@ == s@.subrange(from as int, i as int),
        decreases to - i,
    {
        r.push(s[i]);
        i = i + 1;
    }
    r
}

/// The bounds of `s` without its leading and trailing white space.
pub fn trim_bounds(s: &Vec<char>) -> (r: (usize, usize))
    ensures
        r.0 <= r.1 <= s@.len(),
        s@.subrange(r.0 as int, r.1 as int) == trim(s@),
{
    let n = s.len();
    let mut a: usize = 0;
    while a < n && white_space(s[a])
        invariant
            a <= n == s@.len(),
            forall|j: int| 0 <= j < a ==> #[trigger] is_white_space(s@[j]),
        decreases n - a,
    {
        a = a + 1;
    }
    proof {
        assert forall|j: int| 0 <= j < a implies #[trigger] ws_pred()(s@[j]) by {
            assert(is_white_space(s@[j]));
        }
        lemma_lead_len(s@, ws_pred(), a as int);
    }
    let mut b: usize = n;
    while b > a && white_space(s[b - 1])
        invariant
            a <= b <= n == s@.len(),
            forall|j: int| b <= j < n ==> #[trigger] is_white_space(s@[j]),
        decreases b - a,
    {
        b = b - 1;
    }
    proof {
        let t = s@.skip(a as int);
        let k = (n - b) as int;
        assert forall|j: int| t.len() - k <= j < t.len() implies #[trigger] ws_pred()(t[j]) by {
            assert(t[j] == s@[j + a]);
        }
        if k != t.len() {
            assert(t[t.len() - k - 1] == s@[b - 1]);
        }
        lemma_trail_len(t, ws_pred(), k);
        assert(trim(s@) =~= s@.subrange(a as int, b as int));
    }
    (a, b)
}


/// Appends `c` to `s` by `String::push`, which the standard library documents as
/// appending the given char to the end of the string.
#[verifier::external_body]
fn push_char(s: &mut String, c: char)
    ensures
        final(s)@ == old(s)@.push(c),
{
    s.push(c)
}

/// The string whose characters are `v`.
pub fn string_of(v: &Vec<char>) -> (r: String)
    ensures
        r@ == v@,
{
    let mut r = String::new();
    for i in 0..v.len()
        invariant
            r@ == v@.take(i as int),
    {
        push_char(&mut r, v[i]);
        assert(v@.take(i + 1) =~= v@.take(i as int).push(v@[i as int]));
    }
    assert(v@.take(v@.len() as int) =~= v@);
    r
}

/// The pieces of `s` between occurrences of `sep`, as `str::split` with a char gives them:
/// always at least one piece, and an empty piece wherever two separators touch.
pub open spec fn split_on(s: Seq<char>, sep: char) -> Seq<Seq<char>>
    decreases s.len(),
{
    if s.len() == 0 {
        seq![Seq::<char>::empty()]
    } else {
        let p = split_on(s.drop_last(), sep);
        if s.last() == sep {
            p.push(Seq::<char>::empty())
        } else {
            p.update(p.len() - 1, p.last().push(s.last()))
        }
    }
}

/// A text without the separator is split into itself alone.
pub proof fn lemma_split_on_single(s: Seq<char>, sep: char)
    requires
        !s.contains(sep),
    ensures
        split_on(s, sep) == seq![s],
    decreases s.len(),
{
    if s.len() == 0 {
        assert(s =~= Seq::<char>::empty());
    } else {
        let d = s.drop_last();
        assert(!d.contains(sep)) by {
            if d.contains(sep) {
                let j = choose|j: int| 0 <= j < d.len() && d[j] == sep;
                assert(s[j] == sep);
            }
        }
        lemma_split_on_single(d, sep);
        assert(s.last() != sep) by {
            assert(s[s.len() - 1] == s.last());
        }
        assert(d.push(s.last()) =~= s);
        assert(seq![d].update(0, d.push(s.last())) =~= seq![s]);
    }
}

/// Splitting always gives at least one piece.
pub proof fn lemma_split_on_len(s: Seq<char>, sep: char)
    ensures
        split_on(s, sep).len() >= 1,
    decreases s.len(),
{
    if s.len() > 0 {
        lemma_split_on_len(s.drop_last(), sep);
    }
}

/// The character sequences held by a sequence of character vectors.
pub open spec fn char_seqs(v: Seq<Vec<char>>) -> Seq<Seq<char>> {
    v.map_values(|p: Vec<char>| p@)
}

/// The pieces of `s` between occurrences of `sep` (`str::split`).
pub fn split_chars(s: &Vec<char>, sep: char) -> (r: Vec<Vec<char>>)
    ensures
        char_seqs(r@) == split_on(s@, sep),
{
    let mut parts: Vec<Vec<char>> = Vec::new();
    let mut cur: Vec<char> = Vec::new();
    assert(s@.take(0) =~= Seq::<char>::empty());
    assert(char_seqs(parts@).push(cur@) =~= split_on(s@.take(0), sep));
    for i in 0..s.len()
        invariant
            char_seqs(parts@).push(cur@) == split_on(s@.take(i as int), sep),
    {
        let ghost before = split_on(s@.take(i as int), sep);
        assert(s@.take(i + 1).drop_last() =~= s@.take(i as int));
        if s[i] == sep {
            let done = cur;
            parts.push(done);
            cur = Vec::new();
            assert(char_seqs(parts@).push(cur@) =~= before.push(Seq::<char>::empty()));
        } else {
            cur.push(s[i]);
            assert(char_seqs(parts@).push(cur@) =~= before.update(
                before.len() - 1,
                before.last().push(s@[i as int]),
            ));
        }
    }
    assert(s@.take(s@.len() as int) =~= s@);
    let ghost whole = char_seqs(parts@).push(cur@);
    parts.push(cur);
    assert(char_seqs(parts@) =~= whole);
    parts
}

/// `l` without one trailing carriage return.
pub open spec fn strip_cr(l: Seq<char>) -> Seq<char> {
    if l.len() > 0 && l.last() == '\r' {
        l.drop_last()
    } else {
        l
    }
}

/// `strip_cr`, as a value.
pub open spec fn strip_cr_fn() -> spec_fn(Seq<char>) -> Seq<char> {
    |l: Seq<char>| strip_cr(l)
}

/// Whether a line is not empty, as a value.
pub open spec fn non_empty_pred() -> spec_fn(Seq<char>) -> bool {
    |l: Seq<char>| l.len() > 0
}

/// The lines of `s` as `str::lines` documents them: split at `\n`, a `\r` before the `\n`
/// dropped, and no final empty line after a closing line ending.
pub open spec fn text_lines(s: Seq<char>) -> Seq<Seq<char>> {
    let segs = split_on(s, '\n');
    let body = segs.drop_last().map_values(strip_cr_fn());
    if segs.last().len() == 0 {
        body
    } else {
        body.push(segs.last())
    }
}

/// The non-empty lines of `s`, in order.
pub open spec fn non_empty_lines(s: Seq<char>) -> Seq<Seq<char>> {
    text_lines(s).filter(non_empty_pred())
}

/// Filtering a sequence with one more element at its end.
pub proof fn lemma_filter_push<A>(s: Seq<A>, x: A, p: spec_fn(A) -> bool)
    ensures
        s.push(x).filter(p) == (if p(x) {
            s.filter(p).push(x)
        } else {
            s.filter(p)
        }),
{
    reveal(Seq::filter);
    assert(s.push(x).drop_last() =~= s);
}

/// The non-empty lines of `text`, in order (`str::lines` without the empty ones).
pub fn lines_of(text: &str) -> (r: Vec<String>)
    ensures
        r.deep_view() == non_empty_lines(text@),
{
    let s = chars_of(text);
    let mut out: Vec<String> = Vec::new();
    let mut cur: Vec<char> = Vec::new();
    assert(s@.take(0) =~= Seq::<char>::empty());
    assert(out.deep_view() =~= split_on(s@.take(0), '\n').drop_last().map_values(
        strip_cr_fn(),
    ).filter(non_empty_pred())) by {
        reveal(Seq::filter);
    }
    for i in 0..s.len()
        invariant
            s@ == text@,
            out.deep_view() == split_on(s@.take(i as int), '\n').drop_last().map_values(
                strip_cr_fn(),
            ).filter(non_empty_pred()),
            cur@ == split_on(s@.take(i as int), '\n').last(),
    {
        let ghost before = split_on(s@.take(i as int), '\n');
        proof {
            lemma_split_on_len(s@.take(i as int), '\n');
        }
        assert(s@.take(i + 1).drop_last() =~= s@.take(i as int));
        if s[i] == '\n' {
            let mut end = cur.len();
            if end > 0 && cur[end - 1] == '\r' {
                end = end - 1;
            }
            let line = sub_chars(&cur, 0, end);
            assert(line@ == strip_cr(cur@));
            let ghost old_out = out.deep_view();
            if line.len() > 0 {
                out.push(string_of(&line));
                assert(out.deep_view() =~= old_out.push(line@));
            }
            proof {
                let after = before.push(Seq::<char>::empty());
                assert(after.drop_last() =~= before);
                assert(before.map_values(strip_cr_fn()) =~= before.drop_last().map_values(
                    strip_cr_fn(),
                ).push(strip_cr(cur@)));
                lemma_filter_push(
                    before.drop_last().map_values(strip_cr_fn()),
                    strip_cr(cur@),
                    non_empty_pred(),
                );
            }
            cur = Vec::new();
        } else {
            cur.push(s[i]);
            proof {
                let after = before.update(before.len() - 1, before.last().push(s@[i as int]));
                assert(after.drop_last() =~= before.drop_last());
            }
        }
    }
    assert(s@.take(s@.len() as int) =~= s@);
    proof {
        lemma_split_on_len(s@, '\n');
        lemma_filter_push(
            split_on(s@, '\n').drop_last().map_values(strip_cr_fn()),
            cur@,
            non_empty_pred(),
        );
    }
    if cur.len() > 0 {
        out.push(string_of(&cur));
    }
    out
}


/// How many times `c` occurs in `s`.
pub open spec fn count_char(s: Seq<char>, c: char) -> nat
    decreases s.len(),
{
    if s.len() == 0 {
        0
    } else {
        count_char(s.drop_last(), c) + if s.last() == c {
            1nat
        } else {
            0nat
        }
    }
}

/// How many times `c` occurs in `s[..end]`.
pub fn count_in_prefix(s: &Vec<char>, end: usize, c: char) -> (r: usize)
    requires
        end <= s@.len(),
    ensures
        r == count_char(s@.take(end as int), c),
{
    let mut n: usize = 0;
    let mut j: usize = 0;
    assert(s@.take(0) =~= Seq::<char>::empty());
    while j < end
        invariant
            j <= end <= s@.len(),
            n == count_char(s@.take(j as int), c),
            n <= j,
        decreases end - j,
    {
        assert(s@.take(j + 1).drop_last() =~= s@.take(j as int));
        if s[j] == c {
            n = n + 1;
        }
        j = j + 1;
    }
    n
}

/// The characters different from `c`, as a predicate.
pub open spec fn ne_pred(c: char) -> spec_fn(char) -> bool {
    |x: char| x != c
}

/// The index of the first `c` in `s` (`str::split_once` splits there).
pub open spec fn first_index_of(s: Seq<char>, c: char) -> Option<int> {
    let k = lead_len(s, ne_pred(c));
    if k < s.len() {
        Some(k as int)
    } else {
        None
    }
}

/// The index of the last `c` in `s` (`str::rsplit_once` splits there).
pub open spec fn last_index_of(s: Seq<char>, c: char) -> Option<int>
    decreases s.len(),
{
    if s.len() == 0 {
        None
    } else if s.last() == c {
        Some(s.len() - 1)
    } else {
        last_index_of(s.drop_last(), c)
    }
}

/// The index of the first `c` in `s`, if any.
pub fn find_first(s: &Vec<char>, c: char) -> (r: Option<usize>)
    ensures
        match r {
            Some(k) => first_index_of(s@, c) == Some(k as int),
            None => first_index_of(s@, c) is None,
        },
        match r {
            Some(k) => k < s@.len() && s@[k as int] == c,
            None => true,
        },
{
    let mut k: usize = 0;
    while k < s.len() && s[k] != c
        invariant
            k <= s@.len(),
            forall|j: int| 0 <= j < k ==> s@[j] != c,
        decreases s@.len() - k,
    {
        k = k + 1;
    }
    proof {
        assert forall|j: int| 0 <= j < k implies #[trigger] ne_pred(c)(s@[j]) by {}
        lemma_lead_len(s@, ne_pred(c), k as int);
    }
    if k < s.len() {
        Some(k)
    } else {
        None
    }
}

/// The index of the last `c` in `s`, if any.
pub fn find_last(s: &Vec<char>, c: char) -> (r: Option<usize>)
    ensures
        match r {
            Some(k) => last_index_of(s@, c) == Some(k as int),
            None => last_index_of(s@, c) is None,
        },
        match r {
            Some(k) => k < s@.len() && s@[k as int] == c,
            None => true,
        },
{
    let mut i: usize = s.len();
    assert(s@.take(s@.len() as int) =~= s@);
    while i > 0 && s[i - 1] != c
        invariant
            i <= s@.len(),
            last_index_of(s@, c) == last_index_of(s@.take(i as int), c),
        decreases i,
    {
        assert(s@.take(i as int).drop_last() =~= s@.take(i - 1));
        i = i - 1;
    }
    if i > 0 {
        Some(i - 1)
    } else {
        None
    }
}


/// Splitting text joined at a separator splits each side.
pub proof fn lemma_split_on_concat(a: Seq<char>, b: Seq<char>, sep: char)
    ensures
        split_on(a + seq![sep] + b, sep) == split_on(a, sep) + split_on(b, sep),
    decreases b.len(),
{
    let s = a + seq![sep] + b;
    if b.len() == 0 {
        assert(s.drop_last() =~= a);
        assert(split_on(b, sep) =~= seq![Seq::<char>::empty()]);
        assert(split_on(s, sep) =~= split_on(a, sep) + split_on(b, sep));
    } else {
        let b1 = b.drop_last();
        lemma_split_on_concat(a, b1, sep);
        lemma_split_on_len(b1, sep);
        assert(s.drop_last() =~= a + seq![sep] + b1);
        assert(s.last() == b.last());
        let x = split_on(a, sep);
        let y = split_on(b1, sep);
        if b.last() == sep {
            assert(split_on(s, sep) =~= x + y.push(Seq::<char>::empty()));
        } else {
            assert((x + y).last() == y.last());
            assert(split_on(s, sep) =~= x + y.update(y.len() - 1, y.last().push(b.last())));
        }
    }
}

/// `lead_len` counts a prefix whose characters satisfy `p`, ending at one that does not.
pub proof fn lemma_lead_len_props(s: Seq<char>, p: spec_fn(char) -> bool)
    ensures
        lead_len(s, p) <= s.len(),
        forall|j: int| 0 <= j < lead_len(s, p) ==> #[trigger] p(s[j]),
        lead_len(s, p) == s.len() || !p(s[lead_len(s, p) as int]),
    decreases s.len(),
{
    if s.len() > 0 && p(s[0]) {
        let t = s.drop_first();
        lemma_lead_len_props(t, p);
        assert forall|j: int| 0 <= j < lead_len(s, p) implies #[trigger] p(s[j]) by {
            if j > 0 {
                assert(s[j] == t[j - 1]);
            }
        }
        if lead_len(s, p) < s.len() {
            assert(s[lead_len(s, p) as int] == t[lead_len(t, p) as int]);
        }
    }
}

/// `trail_len` counts a suffix whose characters satisfy `p`, starting after one that does not.
pub proof fn lemma_trail_len_props(s: Seq<char>, p: spec_fn(char) -> bool)
    ensures
        trail_len(s, p) <= s.len(),
        forall|j: int| s.len() - trail_len(s, p) <= j < s.len() ==> #[trigger] p(s[j]),
        trail_len(s, p) == s.len() || !p(s[s.len() - trail_len(s, p) - 1]),
    decreases s.len(),
{
    if s.len() > 0 && p(s.last()) {
        let t = s.drop_last();
        lemma_trail_len_props(t, p);
        assert forall|j: int| s.len() - trail_len(s, p) <= j < s.len() implies #[trigger] p(s[j]) by {
            if j < s.len() - 1 {
                assert(s[j] == t[j]);
            }
        }
    }
}

/// `trim` keeps exactly the part between white-space ends.
pub proof fn lemma_trim_between(s: Seq<char>, a: int, b: int)
    requires
        0 <= a <= b <= s.len(),
        forall|j: int| 0 <= j < a ==> #[trigger] is_white_space(s[j]),
        forall|j: int| b <= j < s.len() ==> #[trigger] is_white_space(s[j]),
        a == b ==> forall|j: int| 0 <= j < s.len() ==> #[trigger] is_white_space(s[j]),
        a < b ==> !is_white_space(s[a]) && !is_white_space(s[b - 1]),
    ensures
        trim(s) == s.subrange(a, b),
{
    let p = ws_pred();
    if a < b {
        assert forall|j: int| 0 <= j < a implies #[trigger] p(s[j]) by {}
        lemma_lead_len(s, p, a);
        let t = s.skip(a);
        let k = s.len() - b;
        assert forall|j: int| t.len() - k <= j < t.len() implies #[trigger] p(t[j]) by {
            assert(t[j] == s[j + a]);
        }
        assert(t[t.len() - k - 1] == s[b - 1]);
        lemma_trail_len(t, p, k);
        assert(trim(s) =~= s.subrange(a, b));
    } else {
        assert forall|j: int| 0 <= j < s.len() implies #[trigger] p(s[j]) by {}
        lemma_lead_len(s, p, s.len() as int);
        assert(s.skip(s.len() as int) =~= Seq::<char>::empty());
        assert(trim(s) =~= s.subrange(a, b));
    }
}

/// The bounds of `trim(s)` inside `s`, with white space on both sides of them.
pub proof fn lemma_trim_bounds(s: Seq<char>) -> (r: (int, int))
    ensures
        0 <= r.0 <= r.1 <= s.len(),
        trim(s) == s.subrange(r.0, r.1),
        forall|j: int| 0 <= j < r.0 ==> #[trigger] is_white_space(s[j]),
        forall|j: int| r.1 <= j < s.len() ==> #[trigger] is_white_space(s[j]),
        r.0 == r.1 ==> forall|j: int| 0 <= j < s.len() ==> #[trigger] is_white_space(s[j]),
        r.0 < r.1 ==> !is_white_space(s[r.0]) && !is_white_space(s[r.1 - 1]),
{
    let p = ws_pred();
    lemma_lead_len_props(s, p);
    let a = lead_len(s, p) as int;
    let t = s.skip(a);
    lemma_trail_len_props(t, p);
    let k = trail_len(t, p) as int;
    let b = s.len() - k;
    assert forall|j: int| 0 <= j < a implies #[trigger] is_white_space(s[j]) by {
        assert(p(s[j]));
    }
    assert forall|j: int| b <= j < s.len() implies #[trigger] is_white_space(s[j]) by {
        assert(s[j] == t[j - a]);
        assert(p(t[j - a]));
    }
    if a == b {
        assert forall|j: int| 0 <= j < s.len() implies #[trigger] is_white_space(s[j]) by {
            if j >= b {
            }
        }
    } else {
        assert(s[a] == t[0]);
        assert(s[b - 1] == t[t.len() - k - 1]);
    }
    assert(trim(s) =~= s.subrange(a, b));
    (a, b)
}

/// Trimming twice is trimming once.
pub proof fn lemma_trim_trim(s: Seq<char>)
    ensures
        trim(trim(s)) == trim(s),
{
    let (a, b) = lemma_trim_bounds(s);
    let t = s.subrange(a, b);
    if a < b {
        assert(t[0] == s[a]);
        assert(t[t.len() - 1] == s[b - 1]);
    }
    lemma_trim_between(t, 0, t.len() as int);
    assert(t.subrange(0, t.len() as int) =~= t);
}

/// Trimming what `trim_end` left is trimming the whole text.
pub proof fn lemma_trim_trim_end(s: Seq<char>)
    ensures
        trim(trim_end(s)) == trim(s),
{
    let (a, b) = lemma_trim_bounds(s);
    let p = ws_pred();
    lemma_trail_len_props(s, p);
    let e = s.len() - trail_len(s, p);
    let t = trim_end(s);
    assert(t =~= s.take(e));
    if a < b {
        // b - 1 is not white space, so it lies before the trailing white space
        assert(b <= e) by {
            if b > e {
                assert(p(s[b - 1]));
            }
        }
        assert forall|j: int| b <= j < t.len() implies #[trigger] is_white_space(t[j]) by {
            assert(t[j] == s[j]);
        }
        assert forall|j: int| 0 <= j < a implies #[trigger] is_white_space(t[j]) by {
            assert(t[j] == s[j]);
        }
        assert(t[a] == s[a]);
        assert(t[b - 1] == s[b - 1]);
        lemma_trim_between(t, a, b);
        assert(t.subrange(a, b) =~= s.subrange(a, b));
    } else {
        assert forall|j: int| 0 <= j < t.len() implies #[trigger] is_white_space(t[j]) by {
            assert(t[j] == s[j]);
        }
        lemma_trim_between(t, 0, 0);
        assert(t.subrange(0, 0) =~= s.subrange(a, b));
    }
}

/// A non-white-space character in front survives `trim_start` and does not change what
/// `trim_end` removes.
pub proof fn lemma_trim_cons(c: char, s: Seq<char>)
    requires
        !is_white_space(c),
    ensures
        trim(seq![c] + s) == seq![c] + trim_end(s),
        trim_end(seq![c] + s) == seq![c] + trim_end(s),
{
    let p = ws_pred();
    let x = seq![c] + s;
    lemma_lead_len(x, p, 0);
    assert(x.skip(0) =~= x);
    lemma_trail_len_props(s, p);
    let k = trail_len(s, p) as int;
    assert forall|j: int| x.len() - k <= j < x.len() implies #[trigger] p(x[j]) by {
        assert(x[j] == s[j - 1]);
    }
    if k < s.len() {
        assert(x[x.len() - k - 1] == s[s.len() - k - 1]);
    } else {
        assert(x[x.len() - k - 1] == c);
    }
    lemma_trail_len(x, p, k);
    assert(trim_end(x) =~= seq![c] + trim_end(s));
    assert(trim(x) =~= seq![c] + trim_end(s));
}


/// White space added at either end of a text is trimmed away with the rest.
pub proof fn lemma_trim_ignores_added_space(s: Seq<char>, w: char)
    requires
        is_white_space(w),
    ensures
        trim(seq![w] + s) == trim(s),
        trim(s + seq![w]) == trim(s),
{
    let (a, b) = lemma_trim_bounds(s);
    let x = seq![w] + s;
    let y = s + seq![w];
    if a < b {
        assert forall|j: int| 0 <= j < a + 1 implies #[trigger] is_white_space(x[j]) by {
            if j > 0 {
                assert(x[j] == s[j - 1]);
            }
        }
        assert forall|j: int| b + 1 <= j < x.len() implies #[trigger] is_white_space(x[j]) by {
            assert(x[j] == s[j - 1]);
        }
        assert(x[a + 1] == s[a]);
        assert(x[b] == s[b - 1]);
        lemma_trim_between(x, a + 1, b + 1);
        assert(x.subrange(a + 1, b + 1) =~= s.subrange(a, b));
        assert forall|j: int| 0 <= j < a implies #[trigger] is_white_space(y[j]) by {
            assert(y[j] == s[j]);
        }
        assert forall|j: int| b <= j < y.len() implies #[trigger] is_white_space(y[j]) by {
            if j < s.len() {
                assert(y[j] == s[j]);
            }
        }
        assert(y[a] == s[a]);
        assert(y[b - 1] == s[b - 1]);
        lemma_trim_between(y, a, b);
        assert(y.subrange(a, b) =~= s.subrange(a, b));
    } else {
        assert forall|j: int| 0 <= j < x.len() implies #[trigger] is_white_space(x[j]) by {
            if j > 0 {
                assert(x[j] == s[j - 1]);
            }
        }
        lemma_trim_between(x, 0, 0);
        assert forall|j: int| 0 <= j < y.len() implies #[trigger] is_white_space(y[j]) by {
            if j < s.len() {
                assert(y[j] == s[j]);
            }
        }
        lemma_trim_between(y, 0, 0);
        assert(x.subrange(0, 0) =~= s.subrange(a, b));
        assert(y.subrange(0, 0) =~= s.subrange(a, b));
    }
}

/// Without any `c`, there is no last `c`.
pub proof fn lemma_last_index_absent(s: Seq<char>, c: char)
    requires
        !s.contains(c),
    ensures
        last_index_of(s, c) is None,
    decreases s.len(),
{
    if s.len() > 0 {
        assert(s.last() == s[s.len() - 1]);
        assert forall|j: int| 0 <= j < s.drop_last().len() implies s.drop_last()[j] != c by {
            assert(s.drop_last()[j] == s[j]);
        }
        lemma_last_index_absent(s.drop_last(), c);
    }
}

/// The last `c` of `x + [c] + r` is the one after `x` when `r` holds none.
pub proof fn lemma_last_index_before(x: Seq<char>, c: char, r: Seq<char>)
    requires
        !r.contains(c),
    ensures
        last_index_of(x + seq![c] + r, c) == Some(x.len() as int),
    decreases r.len(),
{
    let s = x + seq![c] + r;
    if r.len() == 0 {
        assert(s.last() == c);
    } else {
        assert(r.last() == r[r.len() - 1]);
        assert(s.last() == r.last());
        assert(s.drop_last() =~= x + seq![c] + r.drop_last());
        assert forall|j: int| 0 <= j < r.drop_last().len() implies r.drop_last()[j] != c by {
            assert(r.drop_last()[j] == r[j]);
        }
        lemma_last_index_before(x, c, r.drop_last());
    }
}

/// The first `c` of `e + [c] + r` is the one after `e` when `e` holds none.
pub proof fn lemma_first_index_after(e: Seq<char>, c: char, r: Seq<char>)
    requires
        !e.contains(c),
    ensures
        first_index_of(e + seq![c] + r, c) == Some(e.len() as int),
{
    let s = e + seq![c] + r;
    assert forall|j: int| 0 <= j < e.len() implies #[trigger] ne_pred(c)(s[j]) by {
        assert(s[j] == e[j]);
    }
    lemma_lead_len(s, ne_pred(c), e.len() as int);
}

/// Counting in a concatenation adds the counts.
pub proof fn lemma_count_concat(x: Seq<char>, y: Seq<char>, c: char)
    ensures
        count_char(x + y, c) == count_char(x, c) + count_char(y, c),
    decreases y.len(),
{
    if y.len() == 0 {
        assert(x + y =~= x);
    } else {
        lemma_count_concat(x, y.drop_last(), c);
        assert((x + y).drop_last() =~= x + y.drop_last());
        assert((x + y).last() == y.last());
    }
}

/// A sequence without `c` counts none.
pub proof fn lemma_count_absent(s: Seq<char>, c: char)
    requires
        forall|j: int| 0 <= j < s.len() ==> s[j] != c,
    ensures
        count_char(s, c) == 0,
    decreases s.len(),
{
    if s.len() > 0 {
        assert(s.last() == s[s.len() - 1]);
        assert forall|j: int| 0 <= j < s.drop_last().len() implies s.drop_last()[j] != c by {
            assert(s.drop_last()[j] == s[j]);
        }
        lemma_count_absent(s.drop_last(), c);
    }
}

/// The prefix that satisfies `p` in a concatenation: that of the first part, continued
/// into the second part only when the whole first part satisfies `p`.
pub proof fn lemma_lead_len_concat(x: Seq<char>, y: Seq<char>, p: spec_fn(char) -> bool)
    ensures
        lead_len(x + y, p) == (if lead_len(x, p) < x.len() {
            lead_len(x, p)
        } else {
            x.len() + lead_len(y, p)
        }),
    decreases x.len(),
{
    if x.len() == 0 {
        assert(x + y =~= y);
    } else {
        assert((x + y)[0] == x[0]);
        if p(x[0]) {
            assert((x + y).drop_first() =~= x.drop_first() + y);
            lemma_lead_len_concat(x.drop_first(), y, p);
        }
    }
}


/// Filtering a concatenation concatenates the filtered parts.
pub proof fn lemma_filter_concat<A>(x: Seq<A>, y: Seq<A>, p: spec_fn(A) -> bool)
    ensures
        (x + y).filter(p) == x.filter(p) + y.filter(p),
    decreases y.len(),
{
    if y.len() == 0 {
        assert(x + y =~= x);
        assert(y.filter(p) =~= Seq::<A>::empty()) by {
            reveal(Seq::filter);
        }
        assert(x.filter(p) + y.filter(p) =~= x.filter(p));
    } else {
        let y1 = y.drop_last();
        lemma_filter_concat(x, y1, p);
        assert(x + y =~= (x + y1).push(y.last()));
        assert(y =~= y1.push(y.last()));
        lemma_filter_push(x + y1, y.last(), p);
        lemma_filter_push(y1, y.last(), p);
        if p(y.last()) {
            assert((x + y).filter(p) =~= x.filter(p) + y.filter(p));
        }
    }
}

/// The last piece of a split is empty or ends with the text's last character.
proof fn lemma_split_on_last(s: Seq<char>, sep: char)
    requires
        s.len() > 0,
    ensures
        split_on(s, sep).last().len() == 0 || split_on(s, sep).last().last() == s.last(),
{
    lemma_split_on_len(s.drop_last(), sep);
}

/// A non-empty text without a line break is listed as one line, itself (a carriage
/// return at its very end included, as `str::lines` keeps it there).
pub proof fn single_line_listing(s: Seq<char>)
    requires
        s.len() > 0,
        !s.contains('\n'),
    ensures
        non_empty_lines(s) == seq![s],
{
    lemma_split_on_single(s, '\n');
    let segs = seq![s];
    assert(segs.drop_last() =~= Seq::<Seq<char>>::empty());
    assert(segs.drop_last().map_values(strip_cr_fn()) =~= Seq::<Seq<char>>::empty());
    assert(text_lines(s) =~= Seq::<Seq<char>>::empty().push(s));
    lemma_filter_push(Seq::<Seq<char>>::empty(), s, non_empty_pred());
    assert(Seq::<Seq<char>>::empty().filter(non_empty_pred()) =~= Seq::<Seq<char>>::empty()) by {
        reveal(Seq::filter);
    }
    assert(Seq::<Seq<char>>::empty().push(s) =~= seq![s]);
}

/// A carriage return before a line break belongs to the line ending: `\r\n` ends a line
/// as `\n` does (for a line that does not itself end with a carriage return).
pub proof fn crlf_ends_a_line(a: Seq<char>, b: Seq<char>)
    requires
        a.len() == 0 || a.last() != '\r',
    ensures
        non_empty_lines(a + seq!['\r', '\n'] + b) == non_empty_lines(a + seq!['\n'] + b),
{
    let ar = a + seq!['\r'];
    assert(a + seq!['\r', '\n'] + b =~= ar + seq!['\n'] + b);
    lemma_split_on_concat(ar, b, '\n');
    lemma_split_on_concat(a, b, '\n');
    lemma_split_on_len(a, '\n');
    lemma_split_on_len(b, '\n');
    let sa = split_on(a, '\n');
    let sb = split_on(b, '\n');
    assert(ar.drop_last() =~= a);
    assert(ar.last() == '\r');
    let l = sa.last();
    let sar = sa.update(sa.len() - 1, l.push('\r'));
    assert(split_on(ar, '\n') == sar);
    if a.len() > 0 {
        lemma_split_on_last(a, '\n');
    } else {
        assert(sa =~= seq![Seq::<char>::empty()]);
    }
    assert(strip_cr(l.push('\r')) =~= l);
    assert(strip_cr(l) == l);
    let f = strip_cr_fn();
    let x = sar + sb;
    let y = sa + sb;
    assert(x.last() == y.last());
    assert(x.drop_last().map_values(f) =~= y.drop_last().map_values(f)) by {
        assert forall|j: int| 0 <= j < x.drop_last().len() implies x.drop_last().map_values(f)[j]
            == y.drop_last().map_values(f)[j] by {
            if j == sa.len() - 1 {
                assert(x[j] == l.push('\r'));
                assert(y[j] == l);
            } else {
                assert(x[j] == y[j]);
            }
        }
    }
}

/// A listing made of two listings joined by a line break lists the lines of the first,
/// then those of the second (when the first does not end with a carriage return, which
/// the line break would take as part of its line ending).
pub proof fn listing_concat(a: Seq<char>, b: Seq<char>)
    requires
        a.len() == 0 || a.last() != '\r',
    ensures
        non_empty_lines(a + seq!['\n'] + b) == non_empty_lines(a) + non_empty_lines(b),
{
    let f = strip_cr_fn();
    let p = non_empty_pred();
    lemma_split_on_concat(a, b, '\n');
    lemma_split_on_len(a, '\n');
    lemma_split_on_len(b, '\n');
    let sa = split_on(a, '\n');
    let sb = split_on(b, '\n');
    let l = sa.last();
    if a.len() > 0 {
        lemma_split_on_last(a, '\n');
    } else {
        assert(sa =~= seq![Seq::<char>::empty()]);
    }
    assert(strip_cr(l) == l);
    let x = sa.drop_last().map_values(f);
    let tb = text_lines(b);
    assert((sa + sb).drop_last() =~= sa + sb.drop_last());
    assert((sa + sb).last() == sb.last());
    assert((sa + sb.drop_last()).map_values(f) =~= x + seq![l] + sb.drop_last().map_values(f));
    let whole = text_lines(a + seq!['\n'] + b);
    assert(whole =~= x + seq![l] + tb);
    lemma_filter_concat(x + seq![l], tb, p);
    lemma_filter_concat(x, seq![l], p);
    let one = if l.len() == 0 {
        Seq::<Seq<char>>::empty()
    } else {
        seq![l]
    };
    assert(text_lines(a) =~= x + one);
    lemma_filter_concat(x, one, p);
    assert(seq![l].filter(p) == one.filter(p)) by {
        reveal(Seq::filter);
        assert(seq![l].drop_last() =~= Seq::<Seq<char>>::empty());
    }
}


/// Whether every character of `s` is ASCII.
pub open spec fn is_ascii_text(s: Seq<char>) -> bool {
    forall|i: int| 0 <= i < s.len() ==> (#[trigger] s[i] as u32) < 128
}

/// `c` in ASCII lower case: `A`..`Z` become `a`..`z`, every other character is kept.
pub open spec fn ascii_lower_char(c: char) -> char {
    if 'A' <= c <= 'Z' {
        ((c as u32) + 32) as char
    } else {
        c
    }
}

/// `s` in ASCII lower case (`str::to_ascii_lowercase`).
pub open spec fn ascii_lower(s: Seq<char>) -> Seq<char> {
    s.map_values(|c: char| ascii_lower_char(c))
}

/// `c` in ASCII lower case.
pub fn lower_ascii_char(c: char) -> (r: char)
    ensures
        r == ascii_lower_char(c),
{
    if 'A' <= c && c <= 'Z' {
        let u = (c as u8) + 32;
        u as char
    } else {
        c
    }
}

/// The characters of `s` in ASCII lower case.
pub fn lower_ascii_chars(s: &Vec<char>) -> (r: Vec<char>)
    ensures
        r@ == ascii_lower(s@),
{
    let mut r: Vec<char> = Vec::new();
    for i in 0..s.len()
        invariant
            r@ == ascii_lower(s@.take(i as int)),
    {
        r.push(lower_ascii_char(s[i]));
        assert(r@ =~= ascii_lower(s@.take(i + 1)));
    }
    assert(s@.take(s@.len() as int) =~= s@);
    r
}

/// Lower-casing twice is lower-casing once, and the result is ASCII where the text was.
pub proof fn lemma_ascii_lower_twice(s: Seq<char>)
    ensures
        ascii_lower(ascii_lower(s)) == ascii_lower(s),
        is_ascii_text(s) ==> is_ascii_text(ascii_lower(s)),
{
    assert(ascii_lower(ascii_lower(s)) =~= ascii_lower(s));
}

} // verus!
