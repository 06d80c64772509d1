//! The compact JSON text of the library's JSON documents: the framing that
//! the library writes for its own values before any outside code reads them.
use vstd::prelude::*;
use crate::data::JsonValue;
use crate::text::single_char;

verus! {

/// The hex digit of a value below 16, in lower case.
pub open spec fn hex_digit(n: int) -> char {
    if n < 10 { ((48 + n) as u8) as char } else { ((97 + n - 10) as u8) as char }
}

/// The text that stands for one character inside a JSON string: quotes and
/// backslashes escaped, control characters by their short escape or as
/// `\u00XX`, anything else as itself.
pub open spec fn escape_char(c: char) -> Seq<char> {
    if c == '"' {
        seq!['\\', '"']
    } else if c == '\\' {
        seq!['\\', '\\']
    } else if c == '\n' {
        seq!['\\', 'n']
    } else if c == '\r' {
        seq!['\\', 'r']
    } else if c == '\t' {
        seq!['\\', 't']
    } else if c == '\x08' {
        seq!['\\', 'b']
    } else if c == '\x0C' {
        seq!['\\', 'f']
    } else if (c as u32) < 32 {
        seq!['\\', 'u', '0', '0', hex_digit((c as u32) as int / 16), hex_digit((c as u32) as int % 16)]
    } else {
        seq![c]
    }
}

/// The escaped form of the first `n` characters of `s`.
pub open spec fn escaped(s: Seq<char>, n: int) -> Seq<char>
    decreases n,
{
    if n <= 0 || n > s.len() { Seq::empty() } else { escaped(s, n - 1) + escape_char(s[n - 1]) }
}

/// A JSON string literal of `s`.
pub open spec fn quoted(s: Seq<char>) -> Seq<char> {
    seq!['"'] + escaped(s, s.len() as int) + seq!['"']
}

/// The compact JSON text of a document.
pub open spec fn json_text(v: JsonValue) -> Seq<char>
    decreases v, 1nat,
{
    match v {
        JsonValue::Null => "null"@,
        JsonValue::Bool(b) => if b { "true"@ } else { "false"@ },
        JsonValue::Number(t) => t@,
        JsonValue::Str(s) => quoted(s@),
        JsonValue::Array(xs) => seq!['['] + items_text(xs@, xs@.len() as int) + seq![']'],
        JsonValue::Object(fs) => seq!['{'] + fields_text(fs@, fs@.len() as int) + seq!['}'],
    }
}

/// The first `n` items, separated by commas.
pub open spec fn items_text(xs: Seq<JsonValue>, n: int) -> Seq<char>
    decreases xs, 0nat, n,
{
    if n <= 0 || n > xs.len() {
        Seq::empty()
    } else {
        items_text(xs, n - 1) + (if n > 1 { seq![','] } else { Seq::empty() }) + json_text(xs[n - 1])
    }
}

/// The first `n` members as `"name":value`, separated by commas.
pub open spec fn fields_text(fs: Seq<(String, JsonValue)>, n: int) -> Seq<char>
    decreases fs, 0nat, n,
{
    if n <= 0 || n > fs.len() {
        Seq::empty()
    } else {
        fields_text(fs, n - 1) + (if n > 1 { seq![','] } else { Seq::empty() }) + quoted(fs[n - 1].0@)
            + seq![':'] + json_text(fs[n - 1].1)
    }
}

fn hex_exec(n: u32) -> (r: char)
    requires
        n < 16,
    ensures
        r == hex_digit(n as int),
{
    if n < 10 { ((48 + n) as u8) as char } else { ((97 + n - 10) as u8) as char }
}

fn push_literal(out: &mut String, lit: &str)
    ensures
        final(out)@ == old(out)@ + lit@,
{
    out.append(lit);
}

fn push_escaped(out: &mut String, c: char)
    ensures
        final(out)@ == old(out)@ + escape_char(c),
{
    proof {
        reveal_strlit("\\\"");
        reveal_strlit("\\\\");
        reveal_strlit("\\n");
        reveal_strlit("\\r");
        reveal_strlit("\\t");
        reveal_strlit("\\b");
        reveal_strlit("\\f");
        reveal_strlit("\\u00");
    }
    if c == '"' {
        push_literal(out, "\\\"");
        assert("\\\""@ =~= seq!['\\', '"']);
    } else if c == '\\' {
        push_literal(out, "\\\\");
        assert("\\\\"@ =~= seq!['\\', '\\']);
    } else if c == '\n' {
        push_literal(out, "\\n");
        assert("\\n"@ =~= seq!['\\', 'n']);
    } else if c == '\r' {
        push_literal(out, "\\r");
        assert("\\r"@ =~= seq!['\\', 'r']);
    } else if c == '\t' {
        push_literal(out, "\\t");
        assert("\\t"@ =~= seq!['\\', 't']);
    } else if c == '\x08' {
        push_literal(out, "\\b");
        assert("\\b"@ =~= seq!['\\', 'b']);
    } else if c == '\x0C' {
        push_literal(out, "\\f");
        assert("\\f"@ =~= seq!['\\', 'f']);
    } else if (c as u32) < 32 {
        let ghost start = out@;
        push_literal(out, "\\u00");
        let hi = single_char(hex_exec((c as u32) / 16));
        out.append(hi.as_str());
        let lo = single_char(hex_exec((c as u32) % 16));
        out.append(lo.as_str());
        assert(out@ =~= start + escape_char(c));
    } else {
        let one = single_char(c);
        out.append(one.as_str());
    }
}

fn push_quoted(out: &mut String, s: &String)
    ensures
        final(out)@ == old(out)@ + quoted(s@),
{
    proof {
        reveal_strlit("\"");
    }
    let ghost start = out@;
    push_literal(out, "\"");
    let n = s.unicode_len();
    let mut i: usize = 0;
    while i < n
        invariant
            i <= n,
            n == s@.len(),
            out@ == start + seq!['"'] + escaped(s@, i as int),
        decreases n - i,
    {
        push_escaped(out, s.get_char(i));
        i = i + 1;
        assert(out@ =~= start + seq!['"'] + escaped(s@, i as int));
    }
    push_literal(out, "\"");
    assert(out@ =~= start + quoted(s@));
}

/// Appends the compact JSON text of `v`.
pub fn write_json(out: &mut String, v: &JsonValue)
    ensures
        final(out)@ == old(out)@ + json_text(*v),
    decreases v,
{
    proof {
        reveal_strlit("null");
        reveal_strlit("true");
        reveal_strlit("false");
        reveal_strlit("[");
        reveal_strlit("]");
        reveal_strlit("{");
        reveal_strlit("}");
        reveal_strlit(",");
        reveal_strlit(":");
    }
    let ghost start = out@;
    match v {
        JsonValue::Null => push_literal(out, "null"),
        JsonValue::Bool(b) => if *b {
            push_literal(out, "true")
        } else {
            push_literal(out, "false")
        },
        JsonValue::Number(t) => push_literal(out, t.as_str()),
        JsonValue::Str(s) => push_quoted(out, s),
        JsonValue::Array(xs) => {
            push_literal(out, "[");
            assert("["@ =~= seq!['[']);
            let mut i: usize = 0;
            while i < xs.len()
                invariant
                    i <= xs@.len(),
                    *v is Array,
                    v->Array_0 == *xs,
                    out@ == start + seq!['['] + items_text(xs@, i as int),
                decreases xs@.len() - i,
            {
                proof {
                    assert(decreases_to!(*v => v->Array_0));
                    assert(decreases_to!(*xs => xs@[i as int]));
                }
                proof {
                    reveal_strlit(",");
                    reveal_strlit(":");
                }
                if i > 0 {
                    push_literal(out, ",");
                    assert(","@ =~= seq![',']);
                }
                write_json(out, &xs[i]);
                i = i + 1;
                assert(out@ =~= start + seq!['['] + items_text(xs@, i as int));
            }
            push_literal(out, "]");
            assert("]"@ =~= seq![']']);
            assert(out@ =~= start + json_text(*v));
        },
        JsonValue::Object(fs) => {
            push_literal(out, "{");
            assert("{"@ =~= seq!['{']);
            let mut i: usize = 0;
            while i < fs.len()
                invariant
                    i <= fs@.len(),
                    *v is Object,
                    v->Object_0 == *fs,
                    out@ == start + seq!['{'] + fields_text(fs@, i as int),
                decreases fs@.len() - i,
            {
                proof {
                    assert(decreases_to!(*v => v->Object_0));
                    assert(decreases_to!(*fs => fs@[i as int]));
                    assert(decreases_to!(fs@[i as int] => fs@[i as int].1));
                }
                proof {
                    reveal_strlit(",");
                    reveal_strlit(":");
                }
                if i > 0 {
                    push_literal(out, ",");
                    assert(","@ =~= seq![',']);
                }
                push_quoted(out, &fs[i].0);
                push_literal(out, ":");
                assert(":"@ =~= seq![':']);
                write_json(out, &fs[i].1);
                i = i + 1;
                assert(out@ =~= start + seq!['{'] + fields_text(fs@, i as int));
            }
            push_literal(out, "}");
            assert("}"@ =~= seq!['}']);
            assert(out@ =~= start + json_text(*v));
        },
    }
}

/// The compact JSON text of `v`.
pub fn to_json_text(v: &JsonValue) -> (r: String)
    ensures
        r@ == json_text(*v),
{
    let mut out = String::new();
    write_json(&mut out, v);
    assert(out@ =~= json_text(*v));
    out
}

} // verus!
