//! JSON text of a [`JsonValue`], compact or pretty-printed, in serde_json's
//! layout: no spaces in compact form; in pretty form two spaces of indentation
//! per level, `": "` after a key, and `[]` / `{}` for empty containers.
use crate::json::{JsonModel, JsonValue};
use vstd::prelude::*;

verus! {

broadcast use vstd::std_specs::vec::group_vec_axioms;

/// The escape of one character inside a JSON string literal; a control
/// character without a short form becomes `\u00` and two lower-case hex digits.
pub open spec fn escape_char(c: char) -> Seq<char> {
    if c == '"' {
        "\\\""@
    } else if c == '\\' {
        "\\\\"@
    } else if c == '\n' {
        "\\n"@
    } else if c == '\r' {
        "\\r"@
    } else if c == '\t' {
        "\\t"@
    } else if c == '\u{8}' {
        "\\b"@
    } else if c == '\u{c}' {
        "\\f"@
    } else if (c as u32) < 0x20 {
        "\\u00"@ + seq![
            "0123456789abcdef"@[((c as u32) / 16) as int],
            "0123456789abcdef"@[((c as u32) % 16) as int],
        ]
    } else {
        seq![c]
    }
}

/// The escaped contents of a JSON string literal.
pub open spec fn escaped(s: Seq<char>) -> Seq<char>
    decreases s.len(),
{
    if s.len() == 0 {
        Seq::empty()
    } else {
        escaped(s.drop_last()) + escape_char(s.last())
    }
}

/// A JSON string literal.
pub open spec fn quoted(s: Seq<char>) -> Seq<char> {
    "\""@ + escaped(s) + "\""@
}

/// The parts joined with `sep` between each two of them.
pub open spec fn join(parts: Seq<Seq<char>>, sep: Seq<char>) -> Seq<char>
    decreases parts.len(),
{
    if parts.len() == 0 {
        Seq::empty()
    } else if parts.len() == 1 {
        parts[0]
    } else {
        join(parts.drop_last(), sep) + sep + parts.last()
    }
}

/// The text that opens each element of a container other than the first.
pub open spec fn separator(pretty: bool, inner: Seq<char>) -> Seq<char> {
    if pretty {
        ",\n"@ + inner
    } else {
        ","@
    }
}

/// The text of a container whose element texts are `parts`.
pub open spec fn container(
    open_: Seq<char>,
    close: Seq<char>,
    parts: Seq<Seq<char>>,
    pretty: bool,
    ind: Seq<char>,
) -> Seq<char> {
    if parts.len() == 0 {
        open_ + close
    } else if pretty {
        open_ + ("\n"@ + (ind + "  "@)) + join(parts, separator(true, ind + "  "@)) + ("\n"@
            + ind) + close
    } else {
        open_ + join(parts, separator(false, ind + "  "@)) + close
    }
}

/// The texts of the elements of a container, each rendered one level deeper
/// than `ind`; an object's entry is its key, a colon and its value.
pub open spec fn element_texts(m: JsonModel, pretty: bool, ind: Seq<char>) -> Seq<Seq<char>>
    decreases m, 0nat,
{
    match m {
        JsonModel::Array(items) => Seq::new(
            items.len(),
            |i: int|
                if 0 <= i < items.len() {
                    render(items[i], pretty, ind + "  "@)
                } else {
                    Seq::empty()
                },
        ),
        JsonModel::Object(entries) => Seq::new(
            entries.len(),
            |i: int|
                if 0 <= i < entries.len() {
                    quoted(entries[i].0) + key_separator(pretty) + render(
                        entries[i].1,
                        pretty,
                        ind + "  "@,
                    )
                } else {
                    Seq::empty()
                },
        ),
        _ => Seq::empty(),
    }
}

/// What stands between a key and its value.
pub open spec fn key_separator(pretty: bool) -> Seq<char> {
    if pretty {
        ": "@
    } else {
        ":"@
    }
}

/// The JSON text of `m`; in pretty form, `ind` is the indentation of the line
/// on which `m` starts.
pub open spec fn render(m: JsonModel, pretty: bool, ind: Seq<char>) -> Seq<char>
    decreases m, 1nat,
{
    match m {
        JsonModel::Null => "null"@,
        JsonModel::Bool(b) => if b {
            "true"@
        } else {
            "false"@
        },
        JsonModel::Number(t) => t,
        JsonModel::String(s) => quoted(s),
        JsonModel::Array(_) => container("["@, "]"@, element_texts(m, pretty, ind), pretty, ind),
        JsonModel::Object(_) => container("{"@, "}"@, element_texts(m, pretty, ind), pretty, ind),
    }
}

/// Compact JSON text, as `serde_json::to_string` writes it.
pub open spec fn compact_text(m: JsonModel) -> Seq<char> {
    render(m, false, Seq::empty())
}

/// Pretty-printed JSON text, as `serde_json::to_string_pretty` writes it.
pub open spec fn pretty_text(m: JsonModel) -> Seq<char> {
    render(m, true, Seq::empty())
}

pub proof fn lemma_join_step(parts: Seq<Seq<char>>, sep: Seq<char>, i: int)
    requires
        0 < i < parts.len(),
    ensures
        join(parts.take(i + 1), sep) == join(parts.take(i), sep) + sep + parts[i],
{
    assert(parts.take(i + 1).drop_last() =~= parts.take(i));
}

proof fn lemma_escaped_step(s: Seq<char>, i: int)
    requires
        0 <= i < s.len(),
    ensures
        escaped(s.take(i + 1)) == escaped(s.take(i)) + escape_char(s[i]),
{
    assert(s.take(i + 1).drop_last() =~= s.take(i));
}

fn push_quoted(out: &mut String, s: &str)
    ensures
        final(out)@ == old(out)@ + quoted(s@),
{
    let n = s.unicode_len();
    out.append("\"");
    let ghost start = out@;
    let mut i: usize = 0;
    assert(s@.take(0) =~= Seq::<char>::empty());
    while i < n
        invariant
            n == s@.len(),
            i <= n,
            out@ == start + escaped(s@.take(i as int)),
        decreases n - i,
    {
        let c = s.get_char(i);
        proof {
            lemma_escaped_step(s@, i as int);
        }
        if c == '"' {
            out.append("\\\"");
        } else if c == '\\' {
            out.append("\\\\");
        } else if c == '\n' {
            out.append("\\n");
        } else if c == '\r' {
            out.append("\\r");
        } else if c == '\t' {
            out.append("\\t");
        } else if c == '\u{8}' {
            out.append("\\b");
        } else if c == '\u{c}' {
            out.append("\\f");
        } else if (c as u32) < 0x20 {
            let code = c as u32;
            let hi = (code / 16) as usize;
            let lo = (code % 16) as usize;
            proof {
                reveal_strlit("0123456789abcdef");
            }
            out.append("\\u00");
            out.append("0123456789abcdef".substring_char(hi, hi + 1));
            out.append("0123456789abcdef".substring_char(lo, lo + 1));
            assert("0123456789abcdef"@.subrange(hi as int, hi + 1) =~= seq!["0123456789abcdef"@[hi as int]]);
            assert("0123456789abcdef"@.subrange(lo as int, lo + 1) =~= seq!["0123456789abcdef"@[lo as int]]);
        } else {
            out.append(s.substring_char(i, i + 1));
            assert(s@.subrange(i as int, i + 1) =~= seq![c]);
        }
        i = i + 1;
    }
    assert(s@.take(n as int) =~= s@);
    out.append("\"");
}

/// Appends the JSON text of `v` to `out`; `ind` is the indentation of the line
/// on which `v` starts.
pub fn render_into(v: &JsonValue, pretty: bool, ind: &str, out: &mut String)
    ensures
        final(out)@ == old(out)@ + render(v@, pretty, ind@),
    decreases *v, 1nat,
{
    match v {
        JsonValue::Null => out.append("null"),
        JsonValue::Bool(b) => if *b {
            out.append("true")
        } else {
            out.append("false")
        },
        JsonValue::Number(t) => out.append(t.as_str()),
        JsonValue::String(s) => push_quoted(out, s.as_str()),
        JsonValue::Array(_) => render_array(v, pretty, ind, out),
        JsonValue::Object(_) => render_object(v, pretty, ind, out),
    }
}

/// The text that separates the elements of a container, as a `String`.
fn separator_text(pretty: bool, inner: &str) -> (r: String)
    ensures
        r@ == separator(pretty, inner@),
{
    if pretty {
        let mut r = String::from_str(",\n");
        r.append(inner);
        r
    } else {
        String::from_str(",")
    }
}

/// The text that opens a non-empty container, after its bracket.
fn opening_text(pretty: bool, inner: &str) -> (r: String)
    ensures
        r@ == (if pretty {
            "\n"@ + inner@
        } else {
            Seq::empty()
        }),
{
    if pretty {
        let mut r = String::from_str("\n");
        r.append(inner);
        r
    } else {
        String::new()
    }
}

/// The text that closes a non-empty container, before its bracket.
fn closing_text(pretty: bool, ind: &str) -> (r: String)
    ensures
        r@ == (if pretty {
            "\n"@ + ind@
        } else {
            Seq::empty()
        }),
{
    opening_text(pretty, ind)
}

fn render_array(v: &JsonValue, pretty: bool, ind: &str, out: &mut String)
    requires
        v is Array,
    ensures
        final(out)@ == old(out)@ + render(v@, pretty, ind@),
    decreases *v, 0nat,
{
    match v {
        JsonValue::Array(items) => {
            let ghost m = v@->Array_0;
            let ghost first = out@;
            let mut inner = String::from_str(ind);
            inner.append("  ");
            let ghost parts = element_texts(v@, pretty, ind@);
            if items.len() == 0 {
                out.append("[]");
                proof {
                    reveal_strlit("[]");
                    reveal_strlit("[");
                    reveal_strlit("]");
                    assert("[]"@ =~= "["@ + "]"@);
                }
                return ;
            }
            let sep_text = separator_text(pretty, inner.as_str());
            let open_text = opening_text(pretty, inner.as_str());
            let close_text = closing_text(pretty, ind);
            out.append("[");
            out.append(open_text.as_str());
            let ghost start = out@;
            let ghost sep = sep_text@;
            let mut i: usize = 0;
            while i < items.len()
                invariant
                    i <= items.len(),
                    *v == JsonValue::Array(*items),
                    v@ == JsonModel::Array(m),
                    m.len() == items.len(),
                    parts.len() == items.len(),
                    forall|j: int| 0 <= j < items.len() ==> m[j] == #[trigger] items[j]@,
                    forall|j: int|
                        0 <= j < items.len() ==> #[trigger] parts[j] == render(
                            m[j],
                            pretty,
                            inner@,
                        ),
                    inner@ == ind@ + "  "@,
                    sep == sep_text@,
                    out@ == start + join(parts.take(i as int), sep),
                decreases items.len() - i,
            {
                let ghost before = out@;
                if i > 0 {
                    out.append(sep_text.as_str());
                }
                let ghost mid = out@;
                proof {
                    let ghost w = *items;
                    assert(decreases_to!(w => w[i as int]));
                    assert(decreases_to!(*v => w));
                }
                render_into(&items[i], pretty, inner.as_str(), out);
                proof {
                    if i > 0 {
                        lemma_join_step(parts, sep, i as int);
                    } else {
                        assert(parts.take(1) =~= seq![parts[0]]);
                        assert(parts.take(0) =~= Seq::<Seq<char>>::empty());
                    }
                    assert(out@ =~= start + join(parts.take(i + 1), sep));
                }
                i = i + 1;
            }
            assert(parts.take(items.len() as int) =~= parts);
            out.append(close_text.as_str());
            out.append("]");
            assert(out@ =~= first + render(v@, pretty, ind@));
        },
        _ => {},
    }
}

fn render_object(v: &JsonValue, pretty: bool, ind: &str, out: &mut String)
    requires
        v is Object,
    ensures
        final(out)@ == old(out)@ + render(v@, pretty, ind@),
    decreases *v, 0nat,
{
    match v {
        JsonValue::Object(entries) => {
            let ghost m = v@->Object_0;
            let ghost first = out@;
            let mut inner = String::from_str(ind);
            inner.append("  ");
            let ghost parts = element_texts(v@, pretty, ind@);
            if entries.len() == 0 {
                out.append("{}");
                proof {
                    reveal_strlit("{}");
                    reveal_strlit("{");
                    reveal_strlit("}");
                    assert("{}"@ =~= "{"@ + "}"@);
                }
                return ;
            }
            let sep_text = separator_text(pretty, inner.as_str());
            let open_text = opening_text(pretty, inner.as_str());
            let close_text = closing_text(pretty, ind);
            let key_sep = if pretty {
                String::from_str(": ")
            } else {
                String::from_str(":")
            };
            out.append("{");
            out.append(open_text.as_str());
            let ghost start = out@;
            let ghost sep = sep_text@;
            let mut i: usize = 0;
            while i < entries.len()
                invariant
                    i <= entries.len(),
                    *v == JsonValue::Object(*entries),
                    v@ == JsonModel::Object(m),
                    m.len() == entries.len(),
                    parts.len() == entries.len(),
                    forall|j: int|
                        0 <= j < entries.len() ==> m[j] == (
                            #[trigger] entries[j].0@,
                            entries[j].1@,
                        ),
                    forall|j: int|
                        0 <= j < entries.len() ==> #[trigger] parts[j] == quoted(m[j].0)
                            + key_separator(pretty) + render(m[j].1, pretty, inner@),
                    inner@ == ind@ + "  "@,
                    key_sep@ == key_separator(pretty),
                    sep == sep_text@,
                    out@ == start + join(parts.take(i as int), sep),
                decreases entries.len() - i,
            {
                if i > 0 {
                    out.append(sep_text.as_str());
                }
                let ghost mid = out@;
                push_quoted(out, entries[i].0.as_str());
                out.append(key_sep.as_str());
                proof {
                    assert(m[i as int] == (entries[i as int].0@, entries[i as int].1@));
                    let ghost w = *entries;
                    assert(decreases_to!(w => w[i as int]));
                    assert(decreases_to!(w[i as int] => w[i as int].1));
                    assert(decreases_to!(*v => w));
                }
                render_into(&entries[i].1, pretty, inner.as_str(), out);
                proof {
                    assert(out@ =~= mid + parts[i as int]);
                    if i > 0 {
                        lemma_join_step(parts, sep, i as int);
                    } else {
                        assert(parts.take(1) =~= seq![parts[0]]);
                        assert(parts.take(0) =~= Seq::<Seq<char>>::empty());
                    }
                    assert(out@ =~= start + join(parts.take(i + 1), sep));
                }
                i = i + 1;
            }
            assert(parts.take(entries.len() as int) =~= parts);
            out.append(close_text.as_str());
            out.append("}");
            assert(out@ =~= first + render(v@, pretty, ind@));
        },
        _ => {},
    }
}

/// Compact JSON text of `v`.
pub fn to_compact(v: &JsonValue) -> (r: String)
    ensures
        r@ == compact_text(v@),
{
    let mut out = String::new();
    let ind = String::new();
    render_into(v, false, ind.as_str(), &mut out);
    out
}

/// Pretty-printed JSON text of `v`.
pub fn to_pretty(v: &JsonValue) -> (r: String)
    ensures
        r@ == pretty_text(v@),
{
    let mut out = String::new();
    let ind = String::new();
    render_into(v, true, ind.as_str(), &mut out);
    out
}

} // verus!
