//! Dot-path filter expressions over JSON-like values.
//!
//! A tail session shows only the messages whose payload matches the
//! filter expression `path[=value]`: the path is a dot-separated list of
//! field names, and the optional literal after the first `=` is compared
//! for exact string equality against the stringified resolved value.
//! A missing path segment means "no match", never an error.  Without
//! `=value` the expression is an existence check: it matches as soon as
//! the path resolves, whatever the value.
//!
//! Values are modelled as a tree the tool owns; numbers are carried as
//! the decimal literal the JSON parser produced, so that the comparison
//! is exactly the string comparison the expression language promises.

use vstd::prelude::*;

verus! {

/// One field of a JSON object: a key and the value under it.
#[derive(Debug)]
pub struct JsonMember {
    pub key: String,
    pub value: JsonValue,
}

/// A JSON-like value tree.
///
/// A number is kept as the decimal literal it was parsed from; the
/// filter language only ever compares stringified values, so nothing
/// more is needed of it.
#[derive(Debug)]
pub enum JsonValue {
    Null,
    Bool(bool),
    Number(String),
    Text(String),
    Array(Vec<JsonValue>),
    Object(Vec<JsonMember>),
}

/// The index of the first occurrence of `c` in `s` (the length of `s`
/// when absent).
pub open spec fn first_eq(s: Seq<char>, c: char) -> int
    decreases s.len(),
{
    if s.len() == 0 {
        0
    } else if s[0] == c {
        0
    } else {
        1 + first_eq(s.drop_first(), c)
    }
}

/// An index bears out as the first occurrence when `c` is there and
/// nothing before it is `c`.
pub proof fn lemma_first_eq_is(s: Seq<char>, c: char, k: int)
    requires
        0 <= k < s.len(),
        s[k] == c,
        forall|t: int| 0 <= t < k ==> s[t] != c,
    ensures
        first_eq(s, c) == k,
    decreases k,
{
    if k > 0 {
        assert(s[0] != c);
        assert forall|t: int| 0 <= t < k - 1 implies s.drop_first()[t] != c by {
            assert(s[t + 1] != c);
        }
        lemma_first_eq_is(s.drop_first(), c, k - 1);
    }
}

/// The first occurrence of a contained character lies within the
/// sequence.
pub proof fn lemma_first_eq_bounds(s: Seq<char>, c: char)
    requires
        s.contains(c),
    ensures
        0 <= first_eq(s, c) < s.len(),
    decreases s.len(),
{
    if s[0] != c {
        let w = choose|i: int| 0 <= i < s.len() && s[i] == c;
        assert(s.drop_first()[w - 1] == c);
        assert(s.drop_first().contains(c));
        lemma_first_eq_bounds(s.drop_first(), c);
    }
}

/// Splits `s` at every occurrence of `sep`: the segments between the
/// separators, in order, empty segments kept.
pub open spec fn spec_split(s: Seq<char>, sep: char) -> Seq<Seq<char>>
    decreases s.len(),
    via spec_split_decreases
{
    if !s.contains(sep) {
        seq![s]
    } else {
        seq![s.take(first_eq(s, sep))] + spec_split(s.skip(first_eq(s, sep) + 1), sep)
    }
}

#[via_fn]
proof fn spec_split_decreases(s: Seq<char>, sep: char) {
    if s.contains(sep) {
        lemma_first_eq_bounds(s, sep);
    }
}

/// The values of a member list from index `k` on, looked up by key:
/// the first member carrying the key wins.
pub open spec fn spec_lookup_from(ms: Seq<JsonMember>, key: Seq<char>, k: int) -> Option<JsonValue>
    decreases ms.len() - k,
{
    if k < 0 || k >= ms.len() {
        None
    } else if ms[k].key@ == key {
        Some(ms[k].value)
    } else {
        spec_lookup_from(ms, key, k + 1)
    }
}

/// Resolves one path segment: only an object has fields, and only its
/// first member with this key answers.
pub open spec fn spec_get(v: JsonValue, key: Seq<char>) -> Option<JsonValue> {
    match v {
        JsonValue::Object(ms) => spec_lookup_from(ms@, key, 0),
        _ => None,
    }
}

/// Walks the path segments from index `k` on; a missing segment stops
/// the walk with no result.
pub open spec fn spec_walk(v: JsonValue, segs: Seq<Seq<char>>, k: int) -> Option<JsonValue>
    decreases segs.len() - k,
{
    if k < 0 || k >= segs.len() {
        Some(v)
    } else {
        match spec_get(v, segs[k]) {
            Some(child) => spec_walk(child, segs, k + 1),
            None => None,
        }
    }
}

/// The stringified form of a value, as the filter comparison sees it:
/// scalars bare (string values without surrounding quotes, numbers as
/// their literal), arrays in brackets and objects in braces with
/// comma-separated, unquoted entries.
pub open spec fn spec_render(v: JsonValue) -> Seq<char>
    decreases v, 0int,
{
    match v {
        JsonValue::Null => "null"@,
        JsonValue::Bool(b) => if b {
            "true"@
        } else {
            "false"@
        },
        JsonValue::Number(s) => s@,
        JsonValue::Text(s) => s@,
        JsonValue::Array(elems) => "["@ + spec_render_elems(elems@, 0) + "]"@,
        JsonValue::Object(ms) => "{"@ + spec_render_members(ms@, 0) + "}"@,
    }
}

/// The rendered elements of an array from index `i` on, comma-separated.
pub open spec fn spec_render_elems(s: Seq<JsonValue>, i: int) -> Seq<char>
    decreases s, s.len() - i,
{
    if i < 0 || i >= s.len() {
        Seq::empty()
    } else {
        let sep: Seq<char> = if i > 0 {
            ","@
        } else {
            Seq::empty()
        };
        sep + spec_render(s[i]) + spec_render_elems(s, i + 1)
    }
}

/// The rendered members of an object from index `i` on, comma-separated,
/// each as `key:value`.
pub open spec fn spec_render_members(ms: Seq<JsonMember>, i: int) -> Seq<char>
    decreases ms, ms.len() - i,
{
    if i < 0 || i >= ms.len() {
        Seq::empty()
    } else {
        let sep: Seq<char> = if i > 0 {
            ","@
        } else {
            Seq::empty()
        };
        sep + ms[i].key@ + ":"@ + spec_render(ms[i].value) + spec_render_members(ms, i + 1)
    }
}

/// Whether a document matches a filter expression.
///
/// The expression splits once at its first `=`: the left side is the dot
/// path, the optional right side the expected literal.  A path that does
/// not resolve never matches; a resolved path with no literal always
/// matches; otherwise the stringified resolved value must equal the
/// literal exactly.
pub open spec fn spec_matches(v: JsonValue, expr: Seq<char>) -> bool {
    let has_eq = expr.contains('=');
    let path = if has_eq {
        expr.take(first_eq(expr, '='))
    } else {
        expr
    };
    let segs = spec_split(path, '.');
    match spec_walk(v, segs, 0) {
        None => false,
        Some(resolved) => if has_eq {
            spec_render(resolved) == expr.skip(first_eq(expr, '=') + 1)
        } else {
            true
        },
    }
}

/// The views of a list of path segments.
pub open spec fn seg_views(segs: Seq<String>) -> Seq<Seq<char>> {
    segs.map_values(|s: String| s@)
}

/// Finds the first occurrence of `c` in `s`, if any.
#[verifier::loop_isolation(false)]
pub(crate) fn find_char(s: &str, c: char) -> (r: Option<usize>)
    ensures
        match r {
            Some(k) => s@.contains(c) && k as int == first_eq(s@, c),
            None => !s@.contains(c),
        },
{
    let n = s.unicode_len();
    let mut i: usize = 0;
    while i < n
        invariant
            i <= n,
            n == s@.len(),
            forall|t: int| 0 <= t < i ==> s@[t] != c,
        decreases n - i,
    {
        if s.get_char(i) == c {
            proof {
                assert(s@[i as int] == c);
                lemma_first_eq_is(s@, c, i as int);
            }
            return Some(i);
        }
        i = i + 1;
    }
    proof {
        if s@.contains(c) {
            let w = choose|t: int| 0 <= t < s@.len() && s@[t] == c;
            assert(s@[w] != c);
        }
    }
    None
}

/// Splits a dot path into its segments.
#[verifier::loop_isolation(false)]
fn split_path(s: &str) -> (segs: Vec<String>)
    ensures
        seg_views(segs@) == spec_split(s@, '.'),
{
    let mut segs: Vec<String> = Vec::new();
    let n = s.unicode_len();
    let mut start: usize = 0;
    let mut i: usize = 0;
    proof {
        assert(s@.skip(0) =~= s@);
        assert(seg_views(segs@) =~= Seq::<Seq<char>>::empty());
    }
    while i < n
        invariant
            start <= i <= n,
            n == s@.len(),
            forall|t: int| start <= t < i ==> s@[t] != '.',
            spec_split(s@, '.') == seg_views(segs@) + spec_split(s@.skip(start as int), '.'),
        decreases n - i,
    {
        if s.get_char(i) == '.' {
            let ghost rem = s@.skip(start as int);
            let seg = s.substring_char(start, i);
            segs.push(String::from_str(seg));
            proof {
                assert(rem[i - start as int] == '.');
                assert(rem.contains('.'));
                assert forall|t: int| 0 <= t < i - start as int implies rem[t] != '.' by {
                    assert(s@[start as int + t] != '.');
                }
                lemma_first_eq_is(rem, '.', i - start as int);
                assert(rem.take(i - start as int) =~= s@.subrange(start as int, i as int));
                assert(rem.skip(i - start as int + 1) =~= s@.skip(i as int + 1));
                assert(spec_split(rem, '.') == seq![s@.subrange(start as int, i as int)]
                    + spec_split(s@.skip(i as int + 1), '.'));
                assert(seg_views(segs@) =~= seg_views(segs@.drop_last()) + seq![
                    s@.subrange(start as int, i as int),
                ]);
                assert(seg_views(segs@) + spec_split(s@.skip(i as int + 1), '.')
                    =~= (seg_views(segs@.drop_last()) + seq![
                    s@.subrange(start as int, i as int),
                ]) + spec_split(s@.skip(i as int + 1), '.'));
            }
            start = i + 1;
        }
        i = i + 1;
    }
    let ghost rem = s@.skip(start as int);
    let last = s.substring_char(start, n);
    segs.push(String::from_str(last));
    proof {
        if rem.contains('.') {
            let w = choose|t: int| 0 <= t < rem.len() && rem[t] == '.';
            assert(s@[start as int + w] == '.');
        }
        assert(rem =~= s@.subrange(start as int, n as int));
        assert(spec_split(rem, '.') == seq![rem]);
        assert(seg_views(segs@) =~= seg_views(segs@.drop_last()) + seq![rem]);
        assert(seg_views(segs@) =~= seg_views(segs@.drop_last()) + spec_split(rem, '.'));
    }
    segs
}

/// Resolves one field name against a value: only an object answers, with
/// its first member carrying the key.
#[verifier::loop_isolation(false)]
fn lookup<'a>(v: &'a JsonValue, key: &String) -> (r: Option<&'a JsonValue>)
    ensures
        match r {
            Some(x) => spec_get(*v, key@) == Some(*x),
            None => spec_get(*v, key@) is None,
        },
{
    match v {
        JsonValue::Object(members) => {
            let mut k: usize = 0;
            while k < members.len()
                invariant
                    k <= members.len(),
                    spec_lookup_from(members@, key@, 0) == spec_lookup_from(
                        members@,
                        key@,
                        k as int,
                    ),
                decreases members.len() - k,
            {
                if members[k].key == *key {
                    return Some(&members[k].value);
                }
                k = k + 1;
            }
            None
        },
        _ => None,
    }
}

/// Walks a dot path through a document, segment by segment.
#[verifier::loop_isolation(false)]
fn walk<'a>(json: &'a JsonValue, segs: &Vec<String>) -> (r: Option<&'a JsonValue>)
    ensures
        match r {
            Some(x) => spec_walk(*json, seg_views(segs@), 0) == Some(*x),
            None => spec_walk(*json, seg_views(segs@), 0) is None,
        },
{
    let ghost sv = seg_views(segs@);
    let mut cur: &'a JsonValue = json;
    let mut k: usize = 0;
    while k < segs.len()
        invariant
            k <= segs.len(),
            spec_walk(*json, sv, 0) == spec_walk(*cur, sv, k as int),
        decreases segs.len() - k,
    {
        proof {
            assert(sv[k as int] == segs@[k as int]@);
        }
        match lookup(cur, &segs[k]) {
            Some(child) => {
                cur = child;
            },
            None => {
                return None;
            },
        }
        k = k + 1;
    }
    Some(cur)
}

/// Renders a value for the filter's string comparison.
#[verifier::loop_isolation(false)]
fn render(v: &JsonValue) -> (r: String)
    ensures
        r@ == spec_render(*v),
    decreases *v,
{
    match v {
        JsonValue::Null => String::from_str("null"),
        JsonValue::Bool(b) => if *b {
            String::from_str("true")
        } else {
            String::from_str("false")
        },
        JsonValue::Number(s) => s.clone(),
        JsonValue::Text(s) => s.clone(),
        JsonValue::Array(elems) => {
            let mut out = String::from_str("[");
            let mut k: usize = 0;
            while k < elems.len()
                invariant
                    k <= elems.len(),
                    "["@ + spec_render_elems(elems@, 0) == out@ + spec_render_elems(
                        elems@,
                        k as int,
                    ),
                decreases elems.len() - k,
            {
                if k > 0 {
                    out.append(",");
                }
                let piece = render(&elems[k]);
                out.append(piece.as_str());
                k = k + 1;
            }
            out.append("]");
            proof {
                assert(spec_render_elems(elems@, elems@.len() as int) =~= Seq::<char>::empty());
                assert(out@ =~= "["@ + spec_render_elems(elems@, 0) + "]"@);
            }
            out
        },
        JsonValue::Object(members) => {
            let mut out = String::from_str("{");
            let mut k: usize = 0;
            while k < members.len()
                invariant
                    k <= members.len(),
                    "{"@ + spec_render_members(members@, 0) == out@ + spec_render_members(
                        members@,
                        k as int,
                    ),
                decreases members.len() - k,
            {
                if k > 0 {
                    out.append(",");
                }
                out.append(members[k].key.as_str());
                out.append(":");
                let piece = render(&members[k].value);
                out.append(piece.as_str());
                k = k + 1;
            }
            out.append("}");
            proof {
                assert(spec_render_members(members@, members@.len() as int) =~= Seq::<
                    char,
                >::empty());
                assert(out@ =~= "{"@ + spec_render_members(members@, 0) + "}"@);
            }
            out
        },
    }
}

/// Evaluates a dot-path filter expression against a document.
///
/// Splits the expression once at its first `=`; the left side is walked
/// as a dot path.  A path that does not resolve never matches.  Without
/// a literal the match is an existence check; with one, the stringified
/// resolved value must equal it exactly.
pub fn apply_filter(json: &JsonValue, filter: &str) -> (r: bool)
    ensures
        r == spec_matches(*json, filter@),
{
    let n = filter.unicode_len();
    let eq_at = find_char(filter, '=');
    proof {
        if filter@.contains('=') {
            lemma_first_eq_bounds(filter@, '=');
        }
    }
    let (path_str, expected): (String, Option<String>) = match eq_at {
        Some(i) => (
            String::from_str(filter.substring_char(0, i)),
            Some(String::from_str(filter.substring_char(i + 1, n))),
        ),
        None => (String::from_str(filter), None),
    };
    proof {
        if filter@.contains('=') {
            lemma_first_eq_bounds(filter@, '=');
            assert(path_str@ =~= filter@.take(first_eq(filter@, '=')));
        }
    }
    let segs = split_path(path_str.as_str());
    match walk(json, &segs) {
        None => false,
        Some(resolved) => match &expected {
            None => true,
            Some(e) => {
                let rendered = render(resolved);
                proof {
                    assert(e@ =~= filter@.skip(first_eq(filter@, '=') + 1));
                }
                rendered == *e
            },
        },
    }
}

} // verus!
