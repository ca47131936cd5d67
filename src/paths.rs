//! Mapping a resource URI, or a tool name with its arguments, to the relative
//! path of the JSON document that answers it.
use crate::json::{JsonModel, JsonValue};
use crate::render::{compact_text, join, lemma_join_step, to_compact};
use crate::text::{
    ends_with, find, find_from, is_prefix, is_suffix, lemma_text_less_asymmetric,
    lemma_text_less_irreflexive, lemma_text_less_total, lemma_text_less_transitive, less_than, starts_with, text_less,
};
use vstd::prelude::*;

verus! {

/// The model of a list of object entries.
pub open spec fn entries_model(e: Seq<(String, JsonValue)>) -> Seq<(Seq<char>, JsonModel)> {
    Seq::new(e.len(), |i: int| (e[i].0@, e[i].1@))
}

/// The path of the document that holds a resource.
pub open spec fn resource_path(uri: Seq<char>) -> Seq<char> {
    if is_prefix("file://"@, uri) {
        "resources/"@ + uri.skip("file://"@.len() as int) + ".json"@
    } else {
        match find_from(uri, "://"@, 0) {
            Some(i) => {
                let rest = uri.skip(i + "://"@.len());
                if rest.len() > 0 {
                    "resources/"@ + rest + ".json"@
                } else {
                    uri + ".json"@
                }
            },
            None => if is_suffix(".json"@, uri) {
                uri
            } else {
                uri + ".json"@
            },
        }
    }
}

/// The text that stands for an argument value in a path: a string as it is, a
/// number in its canonical form, anything else as compact JSON.
pub open spec fn arg_text(v: JsonModel) -> Seq<char> {
    match v {
        JsonModel::String(s) => s,
        JsonModel::Number(t) => t,
        JsonModel::Bool(b) => if b {
            "true"@
        } else {
            "false"@
        },
        _ => compact_text(v),
    }
}

/// Each argument's key with the text of its value.
pub open spec fn arg_pairs(args: Seq<(Seq<char>, JsonModel)>) -> Seq<(Seq<char>, Seq<char>)> {
    Seq::new(args.len(), |i: int| (args[i].0, arg_text(args[i].1)))
}

/// `p` put into the key-sorted list `s`, after every entry whose key is not
/// greater.
pub open spec fn insert_by_key(s: Seq<(Seq<char>, Seq<char>)>, p: (Seq<char>, Seq<char>)) -> Seq<
    (Seq<char>, Seq<char>),
>
    decreases s.len(),
{
    if s.len() == 0 {
        seq![p]
    } else if text_less(p.0, s[0].0) {
        seq![p] + s
    } else {
        seq![s[0]] + insert_by_key(s.drop_first(), p)
    }
}

/// A stable sort by key.
pub open spec fn sort_by_key(s: Seq<(Seq<char>, Seq<char>)>) -> Seq<(Seq<char>, Seq<char>)>
    decreases s.len(),
{
    if s.len() == 0 {
        s
    } else {
        insert_by_key(sort_by_key(s.drop_last()), s.last())
    }
}

/// The canonical query string of a list of arguments: `key=value` pairs in
/// key order, joined with `&`.
pub open spec fn query_text(args: Seq<(Seq<char>, JsonModel)>) -> Seq<char> {
    let sorted = sort_by_key(arg_pairs(args));
    join(Seq::new(sorted.len(), |i: int| sorted[i].0 + "="@ + sorted[i].1), "&"@)
}

/// `s` with each `/`, `+` and `=` replaced by `_`.
pub open spec fn path_safe(s: Seq<char>) -> Seq<char> {
    Seq::new(
        s.len(),
        |i: int|
            if s[i] == '/' || s[i] == '+' || s[i] == '=' {
                '_'
            } else {
                s[i]
            },
    )
}

/// The standard, padded Base64 text of the UTF-8 encoding of `s`.
pub uninterp spec fn base64_standard(s: Seq<char>) -> Seq<char>;

/// The smaller of two texts first.
pub open spec fn ordered(a: Seq<char>, b: Seq<char>) -> (Seq<char>, Seq<char>) {
    if text_less(b, a) {
        (b, a)
    } else {
        (a, b)
    }
}

/// The path of the stored output of a tool for the given arguments.
pub open spec fn tool_path(name: Seq<char>, args: Seq<(Seq<char>, JsonModel)>) -> Seq<char> {
    let dir = "tools/"@ + name;
    if args.len() == 0 {
        dir + ".json"@
    } else if args.len() == 1 {
        dir + "/"@ + arg_text(args[0].1) + ".json"@
    } else if args.len() == 2 {
        let (lo, hi) = ordered(arg_text(args[0].1), arg_text(args[1].1));
        dir + "/"@ + lo + "/"@ + hi + ".json"@
    } else {
        dir + "/"@ + path_safe(base64_standard(query_text(args))) + ".json"@
    }
}

/// Relies on `base64::Engine::encode` with `base64::engine::general_purpose::STANDARD`,
/// applied to the UTF-8 bytes of `s`: its result depends on `s` alone. It
/// cannot overflow its size computation, since a `str` holds at most
/// `isize::MAX` bytes.
#[verifier::external_body]
fn encode_base64(s: &str) -> (r: String)
    ensures
        r@ == base64_standard(s@),
{
    base64::Engine::encode(&base64::engine::general_purpose::STANDARD, s.as_bytes())
}

/// The path of a resource's document.
pub fn resource_path_of(uri: &str) -> (r: String)
    ensures
        r@ == resource_path(uri@),
{
    let n = uri.unicode_len();
    if starts_with(uri, "file://") {
        let k = "file://".unicode_len();
        let mut r = String::from_str("resources/");
        r.append(uri.substring_char(k, n));
        r.append(".json");
        assert(uri@.subrange(k as int, n as int) =~= uri@.skip(k as int));
        return r;
    }
    match find(uri, "://") {
        Some(i) => {
            let k = "://".unicode_len();
            proof {
                assert(find_from(uri@, "://"@, 0) == Some(i as int));
                crate::text::lemma_find_from_occurs(uri@, "://"@, 0);
            }
            let rest = uri.substring_char(i + k, n);
            assert(rest@ =~= uri@.skip(i + k));
            if rest.unicode_len() > 0 {
                let mut r = String::from_str("resources/");
                r.append(rest);
                r.append(".json");
                r
            } else {
                let mut r = String::from_str(uri);
                r.append(".json");
                r
            }
        },
        None => {
            if ends_with(uri, ".json") {
                String::from_str(uri)
            } else {
                let mut r = String::from_str(uri);
                r.append(".json");
                r
            }
        },
    }
}

/// The text that stands for an argument value in a path.
pub fn arg_text_of(v: &JsonValue) -> (r: String)
    ensures
        r@ == arg_text(v@),
{
    match v {
        JsonValue::String(s) => s.clone(),
        JsonValue::Number(t) => t.clone(),
        JsonValue::Bool(b) => if *b {
            String::from_str("true")
        } else {
            String::from_str("false")
        },
        _ => to_compact(v),
    }
}

/// `s` with each `/`, `+` and `=` replaced by `_`.
pub fn make_path_safe(s: &str) -> (r: String)
    ensures
        r@ == path_safe(s@),
{
    let n = s.unicode_len();
    let mut r = String::new();
    let mut i: usize = 0;
    while i < n
        invariant
            n == s@.len(),
            i <= n,
            r@ == path_safe(s@).take(i as int),
        decreases n - i,
    {
        let c = s.get_char(i);
        if c == '/' || c == '+' || c == '=' {
            r.append("_");
            proof {
                reveal_strlit("_");
            }
        } else {
            r.append(s.substring_char(i, i + 1));
        }
        assert(r@ =~= path_safe(s@).take(i + 1));
        i = i + 1;
    }
    assert(path_safe(s@).take(n as int) =~= path_safe(s@));
    r
}

/// The path of a tool's stored output for three or more arguments, given the
/// Base64 text of their canonical query string.
pub fn encoded_tool_path(tool_name: &str, encoded: &str) -> (r: String)
    ensures
        r@ == "tools/"@ + tool_name@ + "/"@ + path_safe(encoded@) + ".json"@,
{
    let mut r = String::from_str("tools/");
    r.append(tool_name);
    r.append("/");
    let safe = make_path_safe(encoded);
    r.append(safe.as_str());
    r.append(".json");
    r
}

/// Swapping two texts does not change which comes first.
pub proof fn lemma_ordered_symmetric(a: Seq<char>, b: Seq<char>)
    ensures
        ordered(a, b) == ordered(b, a),
{
    lemma_text_less_asymmetric(a, b);
    if a != b {
        lemma_text_less_total(a, b);
    }
}

/// A tool call with two arguments resolves by the two values alone: two such
/// calls whose values are the same, in either order, resolve to the same path
/// whatever their keys.
pub proof fn lemma_two_arguments_ignore_keys(
    name: Seq<char>,
    a: Seq<(Seq<char>, JsonModel)>,
    b: Seq<(Seq<char>, JsonModel)>,
)
    requires
        a.len() == 2,
        b.len() == 2,
        (a[0].1 == b[0].1 && a[1].1 == b[1].1) || (a[0].1 == b[1].1 && a[1].1 == b[0].1),
    ensures
        tool_path(name, a) == tool_path(name, b),
{
    lemma_ordered_symmetric(arg_text(a[0].1), arg_text(a[1].1));
}

/// The model of a list of text pairs.
pub open spec fn pairs_model(v: Seq<(String, String)>) -> Seq<(Seq<char>, Seq<char>)> {
    Seq::new(v.len(), |i: int| (v[i].0@, v[i].1@))
}

proof fn lemma_insert_at(s: Seq<(Seq<char>, Seq<char>)>, p: (Seq<char>, Seq<char>), j: int)
    requires
        0 <= j <= s.len(),
        forall|k: int| 0 <= k < j ==> !text_less(p.0, #[trigger] s[k].0),
        j == s.len() || text_less(p.0, s[j].0),
    ensures
        insert_by_key(s, p) == s.take(j) + seq![p] + s.skip(j),
    decreases j,
{
    if j == 0 {
        assert(s.take(0) + seq![p] + s.skip(0) =~= seq![p] + s);
    } else {
        let t = s.drop_first();
        assert forall|k: int| 0 <= k < j - 1 implies !text_less(p.0, #[trigger] t[k].0) by {
            assert(t[k] == s[k + 1]);
        }
        lemma_insert_at(t, p, j - 1);
        assert(s.take(j) + seq![p] + s.skip(j) =~= seq![s[0]] + (t.take(j - 1) + seq![p] + t.skip(
            j - 1,
        )));
    }
}

/// Each argument's key with the text of its value, sorted by key.
fn sorted_arg_pairs(args: &Vec<(String, JsonValue)>) -> (r: Vec<(String, String)>)
    ensures
        pairs_model(r@) == sort_by_key(arg_pairs(entries_model(args@))),
{
    let ghost all = arg_pairs(entries_model(args@));
    let mut out: Vec<(String, String)> = Vec::new();
    let mut i: usize = 0;
    assert(all.take(0) =~= Seq::<(Seq<char>, Seq<char>)>::empty());
    assert(pairs_model(out@) =~= Seq::<(Seq<char>, Seq<char>)>::empty());
    while i < args.len()
        invariant
            i <= args.len(),
            all == arg_pairs(entries_model(args@)),
            all.len() == args.len(),
            pairs_model(out@) == sort_by_key(all.take(i as int)),
        decreases args.len() - i,
    {
        let key = args[i].0.clone();
        let text = arg_text_of(&args[i].1);
        let ghost p = (key@, text@);
        assert(p == all[i as int]);
        let ghost sm = pairs_model(out@);
        let mut j: usize = 0;
        while j < out.len()
            invariant
                j <= out.len(),
                sm == pairs_model(out@),
                p == (key@, text@),
                forall|k: int| 0 <= k < j ==> !text_less(p.0, #[trigger] sm[k].0),
            ensures
                j <= out.len(),
                sm == pairs_model(out@),
                forall|k: int| 0 <= k < j ==> !text_less(p.0, #[trigger] sm[k].0),
                j == out.len() || text_less(p.0, sm[j as int].0),
            decreases out.len() - j,
        {
            if less_than(key.as_str(), out[j].0.as_str()) {
                break;
            }
            j = j + 1;
        }
        proof {
            lemma_insert_at(sm, p, j as int);
            assert(all.take(i + 1).drop_last() =~= all.take(i as int));
        }
        out.insert(j, (key, text));
        assert(pairs_model(out@) =~= sm.take(j as int) + seq![p] + sm.skip(j as int));
        i = i + 1;
    }
    assert(all.take(args.len() as int) =~= all);
    out
}

/// The canonical query string of a list of arguments.
fn query_text_of(args: &Vec<(String, JsonValue)>) -> (r: String)
    ensures
        r@ == query_text(entries_model(args@)),
{
    let sorted = sorted_arg_pairs(args);
    let ghost sm = pairs_model(sorted@);
    let ghost pieces = Seq::new(sm.len(), |i: int| sm[i].0 + "="@ + sm[i].1);
    let mut r = String::new();
    let mut i: usize = 0;
    assert(pieces.take(0) =~= Seq::<Seq<char>>::empty());
    while i < sorted.len()
        invariant
            i <= sorted.len(),
            sm == pairs_model(sorted@),
            pieces == Seq::new(sm.len(), |i: int| sm[i].0 + "="@ + sm[i].1),
            r@ == join(pieces.take(i as int), "&"@),
        decreases sorted.len() - i,
    {
        if i > 0 {
            r.append("&");
            proof {
                lemma_join_step(pieces, "&"@, i as int);
            }
        } else {
            assert(pieces.take(1) =~= seq![pieces[0]]);
        }
        let ghost before = r@;
        r.append(sorted[i].0.as_str());
        r.append("=");
        r.append(sorted[i].1.as_str());
        assert(r@ =~= join(pieces.take(i + 1), "&"@));
        i = i + 1;
    }
    assert(pieces.take(sorted.len() as int) =~= pieces);
    r
}

/// The path of a tool's stored output for the given arguments.
pub fn tool_path_of(tool_name: &str, args: &Vec<(String, JsonValue)>) -> (r: String)
    ensures
        r@ == tool_path(tool_name@, entries_model(args@)),
{
    let ghost model = entries_model(args@);
    let n = args.len();
    if n == 0 {
        let mut r = String::from_str("tools/");
        r.append(tool_name);
        r.append(".json");
        return r;
    }
    if n == 1 {
        let value = arg_text_of(&args[0].1);
        let mut r = String::from_str("tools/");
        r.append(tool_name);
        r.append("/");
        r.append(value.as_str());
        r.append(".json");
        return r;
    }
    if n == 2 {
        let a = arg_text_of(&args[0].1);
        let b = arg_text_of(&args[1].1);
        let swap = less_than(b.as_str(), a.as_str());
        let (lo, hi) = if swap {
            (b, a)
        } else {
            (a, b)
        };
        let mut r = String::from_str("tools/");
        r.append(tool_name);
        r.append("/");
        r.append(lo.as_str());
        r.append("/");
        r.append(hi.as_str());
        r.append(".json");
        return r;
    }
    let query = query_text_of(args);
    let encoded = encode_base64(query.as_str());
    encoded_tool_path(tool_name, encoded.as_str())
}

/// The keys of an argument list are distinct, as in a map.
pub open spec fn keys_unique(a: Seq<(Seq<char>, JsonModel)>) -> bool {
    forall|i: int, j: int| 0 <= i < a.len() && 0 <= j < a.len() && i != j ==> a[i].0 != a[j].0
}

/// Each key is less than every later key.
pub open spec fn strictly_sorted(s: Seq<(Seq<char>, Seq<char>)>) -> bool {
    forall|i: int, j: int| 0 <= i < j < s.len() ==> text_less(s[i].0, s[j].0)
}

proof fn lemma_insert_contents(s: Seq<(Seq<char>, Seq<char>)>, p: (Seq<char>, Seq<char>))
    ensures
        insert_by_key(s, p).len() == s.len() + 1,
        forall|x| #[trigger] insert_by_key(s, p).contains(x) <==> (s.contains(x) || x == p),
    decreases s.len(),
{
    let r = insert_by_key(s, p);
    if s.len() == 0 {
        assert(r =~= seq![p]);
        assert forall|x| r.contains(x) <==> (s.contains(x) || x == p) by {
            if r.contains(x) {
                let k = choose|k: int| 0 <= k < r.len() && r[k] == x;
            }
            if x == p {
                assert(r[0] == p);
            }
        }
    } else if text_less(p.0, s[0].0) {
        assert forall|x| r.contains(x) <==> (s.contains(x) || x == p) by {
            if r.contains(x) {
                let k = choose|k: int| 0 <= k < r.len() && r[k] == x;
                if k > 0 {
                    assert(s[k - 1] == x);
                }
            }
            if s.contains(x) {
                let k = choose|k: int| 0 <= k < s.len() && s[k] == x;
                assert(r[k + 1] == x);
            }
            if x == p {
                assert(r[0] == p);
            }
        }
    } else {
        let t = s.drop_first();
        lemma_insert_contents(t, p);
        let rt = insert_by_key(t, p);
        assert forall|x| r.contains(x) <==> (s.contains(x) || x == p) by {
            if r.contains(x) {
                let k = choose|k: int| 0 <= k < r.len() && r[k] == x;
                if k > 0 {
                    assert(rt[k - 1] == x);
                    assert(rt.contains(x));
                    if t.contains(x) {
                        let m = choose|m: int| 0 <= m < t.len() && t[m] == x;
                        assert(s[m + 1] == x);
                    }
                } else {
                    assert(s[0] == x);
                }
            }
            if s.contains(x) {
                let k = choose|k: int| 0 <= k < s.len() && s[k] == x;
                if k > 0 {
                    assert(t[k - 1] == x);
                    assert(rt.contains(x));
                    let m = choose|m: int| 0 <= m < rt.len() && rt[m] == x;
                    assert(r[m + 1] == x);
                } else {
                    assert(r[0] == x);
                }
            }
            if x == p {
                assert(rt.contains(p));
                let m = choose|m: int| 0 <= m < rt.len() && rt[m] == p;
                assert(r[m + 1] == p);
            }
        }
    }
}

proof fn lemma_sort_contents(s: Seq<(Seq<char>, Seq<char>)>)
    ensures
        sort_by_key(s).len() == s.len(),
        forall|x| #[trigger] sort_by_key(s).contains(x) <==> s.contains(x),
    decreases s.len(),
{
    if s.len() > 0 {
        let d = s.drop_last();
        lemma_sort_contents(d);
        lemma_insert_contents(sort_by_key(d), s.last());
        assert forall|x| sort_by_key(s).contains(x) <==> s.contains(x) by {
            if d.contains(x) {
                let k = choose|k: int| 0 <= k < d.len() && d[k] == x;
                assert(s[k] == x);
            }
            if s.contains(x) {
                let k = choose|k: int| 0 <= k < s.len() && s[k] == x;
                if k < s.len() - 1 {
                    assert(d[k] == x);
                }
            }
        }
    }
}

proof fn lemma_insert_sorted(s: Seq<(Seq<char>, Seq<char>)>, p: (Seq<char>, Seq<char>))
    requires
        strictly_sorted(s),
        forall|i: int| 0 <= i < s.len() ==> #[trigger] s[i].0 != p.0,
    ensures
        strictly_sorted(insert_by_key(s, p)),
    decreases s.len(),
{
    let r = insert_by_key(s, p);
    if s.len() == 0 {
    } else if text_less(p.0, s[0].0) {
        assert forall|i: int, j: int| 0 <= i < j < r.len() implies text_less(r[i].0, r[j].0) by {
            if i == 0 {
                if j > 1 {
                    lemma_text_less_transitive(p.0, s[0].0, s[j - 1].0);
                }
            } else {
                assert(r[i] == s[i - 1] && r[j] == s[j - 1]);
            }
        }
    } else {
        let t = s.drop_first();
        lemma_text_less_total(p.0, s[0].0);
        lemma_insert_sorted(t, p);
        lemma_insert_contents(t, p);
        let rt = insert_by_key(t, p);
        assert forall|i: int, j: int| 0 <= i < j < r.len() implies text_less(r[i].0, r[j].0) by {
            if i == 0 {
                let x = rt[j - 1];
                assert(rt.contains(x));
                if t.contains(x) {
                    let m = choose|m: int| 0 <= m < t.len() && t[m] == x;
                    assert(s[m + 1] == x);
                }
            } else {
                assert(r[i] == rt[i - 1] && r[j] == rt[j - 1]);
            }
        }
    }
}

proof fn lemma_sort_sorted(s: Seq<(Seq<char>, Seq<char>)>)
    requires
        forall|i: int, j: int| 0 <= i < s.len() && 0 <= j < s.len() && i != j ==> s[i].0 != s[j].0,
    ensures
        strictly_sorted(sort_by_key(s)),
    decreases s.len(),
{
    if s.len() > 0 {
        let d = s.drop_last();
        lemma_sort_sorted(d);
        lemma_sort_contents(d);
        let sd = sort_by_key(d);
        assert forall|i: int| 0 <= i < sd.len() implies #[trigger] sd[i].0 != s.last().0 by {
            assert(sd.contains(sd[i]));
            let k = choose|k: int| 0 <= k < d.len() && d[k] == sd[i];
            assert(s[k] == sd[i]);
        }
        lemma_insert_sorted(sd, s.last());
    }
}

proof fn lemma_sorted_unique(s: Seq<(Seq<char>, Seq<char>)>, t: Seq<(Seq<char>, Seq<char>)>)
    requires
        strictly_sorted(s),
        strictly_sorted(t),
        forall|x| s.contains(x) <==> t.contains(x),
    ensures
        s == t,
    decreases s.len(),
{
    if s.len() == 0 {
        if t.len() > 0 {
            assert(t.contains(t[0]));
        }
        assert(s =~= t);
    } else if t.len() == 0 {
        assert(s.contains(s[0]));
    } else {
        assert(s.contains(s[0]));
        let k = choose|k: int| 0 <= k < t.len() && t[k] == s[0];
        assert(t.contains(t[0]));
        let m = choose|m: int| 0 <= m < s.len() && s[m] == t[0];
        if k > 0 {
            if m > 0 {
                lemma_text_less_asymmetric(s[0].0, s[m].0);
            } else {
                lemma_text_less_irreflexive(t[0].0);
            }
        }
        let s1 = s.drop_first();
        let t1 = t.drop_first();
        assert forall|x| s1.contains(x) <==> t1.contains(x) by {
            if s1.contains(x) {
                let i = choose|i: int| 0 <= i < s1.len() && s1[i] == x;
                assert(s.contains(x));
                assert(t.contains(x));
                let j = choose|j: int| 0 <= j < t.len() && t[j] == x;
                if j == 0 {
                    lemma_text_less_irreflexive(s[0].0);
                    assert(text_less(s[0].0, s[i + 1].0));
                }
                assert(t1[j - 1] == x);
            }
            if t1.contains(x) {
                let i = choose|i: int| 0 <= i < t1.len() && t1[i] == x;
                assert(t.contains(x));
                assert(s.contains(x));
                let j = choose|j: int| 0 <= j < s.len() && s[j] == x;
                if j == 0 {
                    lemma_text_less_irreflexive(t[0].0);
                    assert(text_less(t[0].0, t[i + 1].0));
                }
                assert(s1[j - 1] == x);
            }
        }
        lemma_sorted_unique(s1, t1);
        assert(s =~= seq![s[0]] + s1);
        assert(t =~= seq![t[0]] + t1);
    }
}

/// The path of a tool call does not depend on the order in which its
/// arguments are given: two argument maps with the same entries resolve to
/// the same path.
pub proof fn lemma_tool_path_order_free(
    name: Seq<char>,
    a: Seq<(Seq<char>, JsonModel)>,
    b: Seq<(Seq<char>, JsonModel)>,
)
    requires
        keys_unique(a),
        keys_unique(b),
        forall|x| a.contains(x) <==> b.contains(x),
    ensures
        tool_path(name, a) == tool_path(name, b),
{
    let p = arg_pairs(a);
    let q = arg_pairs(b);
    assert forall|x| p.contains(x) <==> q.contains(x) by {
        if p.contains(x) {
            let i = choose|i: int| 0 <= i < p.len() && p[i] == x;
            assert(a.contains(a[i]));
            let j = choose|j: int| 0 <= j < b.len() && b[j] == a[i];
            assert(q[j] == x);
        }
        if q.contains(x) {
            let i = choose|i: int| 0 <= i < q.len() && q[i] == x;
            assert(b.contains(b[i]));
            let j = choose|j: int| 0 <= j < a.len() && a[j] == b[i];
            assert(p[j] == x);
        }
    }
    lemma_sort_sorted(p);
    lemma_sort_sorted(q);
    lemma_sort_contents(p);
    lemma_sort_contents(q);
    lemma_sorted_unique(sort_by_key(p), sort_by_key(q));
    let sp = sort_by_key(p);
    assert(a.len() == b.len());
    if a.len() == 1 {
        assert(sp.contains(p[0]));
        assert(sp.contains(q[0]));
        assert(arg_text(a[0].1) == arg_text(b[0].1));
    } else if a.len() == 2 {
        assert(p.contains(p[0]) && p.contains(p[1]));
        assert(q.contains(q[0]) && q.contains(q[1]));
        assert(q.contains(p[0]) && q.contains(p[1]));
        assert(p[0] != p[1]);
        lemma_ordered_symmetric(arg_text(a[0].1), arg_text(a[1].1));
        if p[0] == q[0] {
            assert(p[1] == q[1]);
        } else {
            assert(p[0] == q[1]);
            assert(p[1] == q[0]);
        }
    }
}

} // verus!
