//! Resolution of references inside configuration strings:
//! `${NAME}` and `${NAME:-DEFAULT}` read a variable, `${step.path.0.field}`
//! reads the recorded output of an earlier step.
//!
//! A string is scanned once from the left; each reference is replaced by its
//! value and the scan goes on after it, so text that a value brings in is not
//! scanned again.
use vstd::prelude::*;
use base64::Engine;
use crate::data::{Data, JsonValue, OxiData};
use crate::json_text::{json_text, to_json_text};
use vstd::utf8::encode_utf8;
use crate::project::{trim_end_ascii, trimmed_end};

verus! {

/// The character of a six-bit value in the standard base64 alphabet.
pub open spec fn b64_digit(n: int) -> char {
    if n < 26 {
        ((65 + n) as u8) as char
    } else if n < 52 {
        ((97 + n - 26) as u8) as char
    } else if n < 62 {
        ((48 + n - 52) as u8) as char
    } else if n == 62 {
        '+'
    } else {
        '/'
    }
}

/// The padded standard base64 text of some bytes: four characters for each
/// group of three bytes, a last group of one or two bytes padded with `=`.
pub open spec fn base64_text(b: Seq<u8>) -> Seq<char>
    decreases b.len(),
{
    if b.len() == 0 {
        Seq::empty()
    } else if b.len() == 1 {
        seq![b64_digit(b[0] as int / 4), b64_digit((b[0] as int % 4) * 16), '=', '=']
    } else if b.len() == 2 {
        seq![
            b64_digit(b[0] as int / 4),
            b64_digit((b[0] as int % 4) * 16 + b[1] as int / 16),
            b64_digit((b[1] as int % 16) * 4),
            '=',
        ]
    } else {
        seq![
            b64_digit(b[0] as int / 4),
            b64_digit((b[0] as int % 4) * 16 + b[1] as int / 16),
            b64_digit((b[1] as int % 16) * 4 + b[2] as int / 64),
            b64_digit(b[2] as int % 64),
        ] + base64_text(b.subrange(3, b.len() as int))
    }
}

/// Relies on `base64::engine::general_purpose::STANDARD.encode`: the padded
/// standard-alphabet text of the bytes.
#[verifier::external_body]
fn encode_base64(b: &Vec<u8>) -> (r: String)
    ensures
        r@ == base64_text(b@),
{
    base64::engine::general_purpose::STANDARD.encode(b)
}

/// Why a reference could not be resolved.
#[derive(Debug, Clone, Copy, PartialEq, Eq, Structural)]
pub enum ResolveFailure {
    /// A variable without a default is not set.
    EnvVarNotFound,
    /// No output was recorded for the step.
    StepOutputNotFound,
    /// A path segment names no field or item.
    FieldNotFound,
    /// Only JSON output can be navigated by a path.
    UnsupportedOutput,
    /// The value reached is an array or an object whose YAML text could not
    /// be written.
    StructuredValue,
}

/// A failed resolution: its kind, and the variable, step, segment or path
/// concerned.
#[derive(Debug, Clone)]
pub struct ResolveError {
    pub kind: ResolveFailure,
    pub subject: String,
}

/// Variables and recorded step outputs that references resolve against.
#[derive(Debug)]
pub struct ConfigResolver {
    env_vars: Vec<(String, String)>,
    step_outputs: Vec<(String, OxiData)>,
}

/// Characters of a variable name: `[A-Z0-9_]`.
pub const CLASS_UPPER: u8 = 0;

/// Characters of a step id: `[a-zA-Z0-9_]`.
pub const CLASS_IDENT: u8 = 1;

/// Characters of a path: `[a-zA-Z0-9_.]`.
pub const CLASS_PATH: u8 = 2;

/// `c` is a decimal digit.
pub open spec fn is_digit(c: char) -> bool {
    '0' <= c && c <= '9'
}

/// `c` may start a variable name: `[A-Z_]`.
pub open spec fn is_upper_start(c: char) -> bool {
    ('A' <= c && c <= 'Z') || c == '_'
}

/// `c` may start a step id: `[a-zA-Z_]`.
pub open spec fn is_ident_start(c: char) -> bool {
    ('a' <= c && c <= 'z') || is_upper_start(c)
}

/// `c` belongs to character class `class`: variable names `[A-Z0-9_]`,
/// step ids `[a-zA-Z0-9_]`, paths `[a-zA-Z0-9_.]`.
pub open spec fn in_class(c: char, class: u8) -> bool {
    if class == CLASS_UPPER {
        is_upper_start(c) || is_digit(c)
    } else if class == CLASS_IDENT {
        is_ident_start(c) || is_digit(c)
    } else {
        is_ident_start(c) || is_digit(c) || c == '.'
    }
}

/// The end of the run of characters of `class` that starts at `j`.
pub open spec fn run_end(s: Seq<char>, j: int, class: u8) -> int
    decreases s.len() - j,
{
    if 0 <= j < s.len() && in_class(s[j], class) {
        run_end(s, j + 1, class)
    } else {
        j
    }
}

/// The first position at or after `j` that holds `c`, else the length.
pub open spec fn find_char(s: Seq<char>, j: int, c: char) -> int
    decreases s.len() - j,
{
    if j < 0 || j >= s.len() {
        if j < 0 { 0 } else { s.len() as int }
    } else if s[j] == c {
        j
    } else {
        find_char(s, j + 1, c)
    }
}

/// The variable reference that starts at `i`, if one does: its name, its
/// default, and the position after it.
pub open spec fn env_ref_at(s: Seq<char>, i: int) -> Option<(Seq<char>, Option<Seq<char>>, int)> {
    if 0 <= i && i + 2 < s.len() && s[i] == '$' && s[i + 1] == '{' && is_upper_start(s[i + 2]) {
        let e = run_end(s, i + 2, CLASS_UPPER);
        if e < s.len() && s[e] == '}' {
            Some((s.subrange(i + 2, e), None, e + 1))
        } else if e + 1 < s.len() && s[e] == ':' && s[e + 1] == '-' {
            let c = find_char(s, e + 2, '}');
            if c < s.len() {
                Some((s.subrange(i + 2, e), Some(s.subrange(e + 2, c)), c + 1))
            } else {
                None
            }
        } else {
            None
        }
    } else {
        None
    }
}

/// The step reference that starts at `i`, if one does: the step id, the
/// path, and the position after it.
pub open spec fn step_ref_at(s: Seq<char>, i: int) -> Option<(Seq<char>, Option<Seq<char>>, int)> {
    if 0 <= i && i + 2 < s.len() && s[i] == '$' && s[i + 1] == '{' && is_ident_start(s[i + 2]) {
        let e = run_end(s, i + 2, CLASS_IDENT);
        if e < s.len() && s[e] == '}' {
            Some((s.subrange(i + 2, e), None, e + 1))
        } else if e < s.len() && s[e] == '.' {
            let p = run_end(s, e + 1, CLASS_PATH);
            if p > e + 1 && p < s.len() && s[p] == '}' {
                Some((s.subrange(i + 2, e), Some(s.subrange(e + 1, p)), p + 1))
            } else {
                None
            }
        } else {
            None
        }
    } else {
        None
    }
}

/// A reference of either form starts at `i`.
pub open spec fn ref_at(s: Seq<char>, i: int) -> bool {
    env_ref_at(s, i) is Some || step_ref_at(s, i) is Some
}

/// The value last recorded under `k`.
pub open spec fn lookup_last<V>(pairs: Seq<(Seq<char>, V)>, k: Seq<char>) -> Option<V>
    decreases pairs.len(),
{
    if pairs.len() == 0 {
        None
    } else if pairs.last().0 == k {
        Some(pairs.last().1)
    } else {
        lookup_last(pairs.drop_last(), k)
    }
}

/// The numeric value of a string of digits.
pub open spec fn digits_value(s: Seq<char>) -> nat
    decreases s.len(),
{
    if s.len() == 0 {
        0
    } else {
        digits_value(s.drop_last()) * 10 + (s.last() as nat - '0' as nat) as nat
    }
}

/// A path segment that indexes an array: one or more digits.
pub open spec fn is_index(seg: Seq<char>) -> bool {
    seg.len() > 0 && forall|k: int| 0 <= k < seg.len() ==> is_digit(#[trigger] seg[k])
}

/// The position of the first field named `seg` from `k` on, else the length.
pub open spec fn field_position(fields: Seq<(String, JsonValue)>, seg: Seq<char>, k: int) -> int
    decreases fields.len() - k,
{
    if k < 0 || k >= fields.len() {
        fields.len() as int
    } else if fields[k].0@ == seg {
        k
    } else {
        field_position(fields, seg, k + 1)
    }
}

/// The child of `v` that path segment `seg` selects: the first field of that
/// name of an object, or the item at that index of an array.
pub open spec fn child(v: JsonValue, seg: Seq<char>) -> Option<JsonValue> {
    match v {
        JsonValue::Object(fields) => {
            let k = field_position(fields@, seg, 0);
            if 0 <= k < fields@.len() {
                Some(fields@[k].1)
            } else {
                None
            }
        },
        JsonValue::Array(items) => if is_index(seg) && digits_value(seg) < items@.len() {
            Some(items@[digits_value(seg) as int])
        } else {
            None
        },
        _ => None,
    }
}

/// The value that the dot-separated path `p`, from position `j` on, selects
/// in `v`; else the first segment that selects nothing.
pub open spec fn navigate(v: JsonValue, p: Seq<char>, j: int) -> Result<JsonValue, Seq<char>>
    decreases p.len() - j,
{
    let e = find_char(p, j, '.');
    if j < 0 || e < j || e > p.len() {
        Err(Seq::empty())
    } else {
        match child(v, p.subrange(j, e)) {
            None => Err(p.subrange(j, e)),
            Some(c) => if e >= p.len() {
                Ok(c)
            } else {
                navigate(c, p, e + 1)
            },
        }
    }
}

/// The text of a scalar: a string itself, a number its literal, a boolean
/// `true` or `false`, null `null`.
pub open spec fn leaf_text(v: JsonValue) -> Option<Seq<char>> {
    match v {
        JsonValue::Str(s) => Some(s@),
        JsonValue::Number(t) => Some(t@),
        JsonValue::Bool(b) => Some(if b { "true"@ } else { "false"@ }),
        JsonValue::Null => Some("null"@),
        _ => None,
    }
}

/// The name of the canonical YAML text of the document that a JSON text
/// spells, when it can be read and written.
pub uninterp spec fn yaml_text_of(json: Seq<char>) -> Option<Seq<char>>;

/// Relies on `serde_json::from_str` reading the JSON text into a
/// `serde_yaml::Value`, and on `serde_yaml::to_string` writing that value:
/// the canonical YAML of the document, which depends on the text alone.
#[verifier::external_body]
fn yaml_of_json(t: &str) -> (r: Option<String>)
    ensures
        r is Some <==> yaml_text_of(t@) is Some,
        r matches Some(y) ==> y@ == yaml_text_of(t@)->0,
{
    serde_json::from_str::<serde_yaml::Value>(t).ok().and_then(|v| serde_yaml::to_string(&v).ok())
}

/// The name of the pretty-printed form of the document that a JSON text
/// spells, when it can be read.
pub uninterp spec fn pretty_json_of(json: Seq<char>) -> Option<Seq<char>>;

/// Relies on `serde_json::from_str` reading the text into a
/// `serde_json::Value` and `serde_json::to_string_pretty` writing it: the
/// pretty form depends on the text alone.
#[verifier::external_body]
fn pretty_json(t: &str) -> (r: Option<String>)
    ensures
        r is Some <==> pretty_json_of(t@) is Some,
        r matches Some(p) ==> p@ == pretty_json_of(t@)->0,
{
    serde_json::from_str::<serde_json::Value>(t).ok().and_then(|v| serde_json::to_string_pretty(&v).ok())
}

/// The text form of a payload: a text itself, a JSON document
/// pretty-printed, binary data in base64, `Empty` as the empty text.
pub open spec fn text_of_data(d: Data) -> Option<Seq<char>> {
    match d {
        Data::Text(t) => Some(t@),
        Data::Json(v) => pretty_json_of(json_text(v)),
        Data::Binary(b) => Some(base64_text(b@)),
        Data::Empty => Some(Seq::empty()),
    }
}

/// The bytes of a payload: a text's UTF-8, a JSON document's compact text,
/// binary data itself, none for `Empty`.
pub open spec fn bytes_of_data(d: Data) -> Seq<u8> {
    match d {
        Data::Text(t) => encode_utf8(t@),
        Data::Json(v) => encode_utf8(json_text(v)),
        Data::Binary(b) => b@,
        Data::Empty => Seq::empty(),
    }
}

fn copy_bytes(b: &[u8]) -> (r: Vec<u8>)
    ensures
        r@ == b@,
{
    let mut out: Vec<u8> = Vec::new();
    let mut i: usize = 0;
    while i < b.len()
        invariant
            i <= b@.len(),
            out@ == b@.subrange(0, i as int),
        decreases b@.len() - i,
    {
        out.push(b[i]);
        i = i + 1;
        assert(out@ =~= b@.subrange(0, i as int));
    }
    assert(out@ =~= b@);
    out
}

impl Data {
    /// The text form of the payload (see `text_of_data`); `None` only when
    /// a JSON document cannot be written out.
    pub fn to_text(&self) -> (r: Option<String>)
        ensures
            r is Some <==> text_of_data(*self) is Some,
            r matches Some(t) ==> t@ == text_of_data(*self)->0,
    {
        match self {
            Data::Text(t) => Some(t.clone()),
            Data::Json(v) => {
                let compact = to_json_text(v);
                pretty_json(compact.as_str())
            },
            Data::Binary(b) => Some(encode_base64(b)),
            Data::Empty => Some(String::new()),
        }
    }

    /// The bytes of the payload; see `bytes_of_data`.
    pub fn to_binary(&self) -> (r: Vec<u8>)
        ensures
            r@ == bytes_of_data(*self),
    {
        match self {
            Data::Text(t) => copy_bytes(t.as_str().as_bytes()),
            Data::Json(v) => {
                let compact = to_json_text(v);
                copy_bytes(compact.as_str().as_bytes())
            },
            Data::Binary(b) => copy_bytes(b.as_slice()),
            Data::Empty => Vec::new(),
        }
    }
}

/// The text of a structured value: its canonical YAML, trailing white
/// space trimmed.
pub open spec fn structured_text(v: JsonValue) -> Option<Seq<char>> {
    match yaml_text_of(json_text(v)) {
        Some(y) => Some(trimmed_end(y)),
        None => None,
    }
}

/// The text of a whole recorded output.
pub open spec fn output_text(d: Data) -> Result<Seq<char>, (ResolveFailure, Seq<char>)> {
    match d {
        Data::Text(t) => Ok(t@),
        Data::Binary(b) => Ok(base64_text(b@)),
        Data::Empty => Ok(Seq::empty()),
        Data::Json(v) => match leaf_text(v) {
            Some(t) => Ok(t),
            None => match structured_text(v) {
                Some(y) => Ok(y),
                None => Err((ResolveFailure::StructuredValue, Seq::empty())),
            },
        },
    }
}

/// The text that a path selects in a recorded output.
pub open spec fn path_text(d: Data, p: Seq<char>) -> Result<Seq<char>, (ResolveFailure, Seq<char>)> {
    match d {
        Data::Json(v) => match navigate(v, p, 0) {
            Err(seg) => Err((ResolveFailure::FieldNotFound, seg)),
            Ok(leaf) => match leaf_text(leaf) {
                Some(t) => Ok(t),
                None => match structured_text(leaf) {
                    Some(y) => Ok(y),
                    None => Err((ResolveFailure::StructuredValue, p)),
                },
            },
        },
        _ => Err((ResolveFailure::UnsupportedOutput, p)),
    }
}

/// The value of a step reference.
pub open spec fn step_value(
    outs: Seq<(Seq<char>, Data)>,
    id: Seq<char>,
    path: Option<Seq<char>>,
) -> Result<Seq<char>, (ResolveFailure, Seq<char>)> {
    match lookup_last(outs, id) {
        None => Err((ResolveFailure::StepOutputNotFound, id)),
        Some(d) => match path {
            None => output_text(d),
            Some(p) => path_text(d, p),
        },
    }
}

/// The value of a variable reference.
pub open spec fn env_value(
    env: Seq<(Seq<char>, Seq<char>)>,
    name: Seq<char>,
    default: Option<Seq<char>>,
) -> Result<Seq<char>, (ResolveFailure, Seq<char>)> {
    match lookup_last(env, name) {
        Some(v) => Ok(v),
        None => match default {
            Some(d) => Ok(d),
            None => Err((ResolveFailure::EnvVarNotFound, name)),
        },
    }
}

/// `s` from position `i` on, with every reference replaced by its value.
pub open spec fn resolve_from(
    s: Seq<char>,
    i: int,
    env: Seq<(Seq<char>, Seq<char>)>,
    outs: Seq<(Seq<char>, Data)>,
) -> Result<Seq<char>, (ResolveFailure, Seq<char>)>
    decreases s.len() - i,
{
    if i < 0 || i >= s.len() {
        Ok(Seq::empty())
    } else if let Some((name, default, end)) = env_ref_at(s, i) {
        if end <= i {
            Ok(Seq::empty())
        } else {
            match env_value(env, name, default) {
                Err(e) => Err(e),
                Ok(v) => match resolve_from(s, end, env, outs) {
                    Err(e) => Err(e),
                    Ok(rest) => Ok(v + rest),
                },
            }
        }
    } else if let Some((id, path, end)) = step_ref_at(s, i) {
        if end <= i {
            Ok(Seq::empty())
        } else {
            match step_value(outs, id, path) {
                Err(e) => Err(e),
                Ok(v) => match resolve_from(s, end, env, outs) {
                    Err(e) => Err(e),
                    Ok(rest) => Ok(v + rest),
                },
            }
        }
    } else {
        match resolve_from(s, i + 1, env, outs) {
            Err(e) => Err(e),
            Ok(rest) => Ok(seq![s[i]] + rest),
        }
    }
}

/// `s` with every reference replaced by its value.
pub open spec fn resolved(
    s: Seq<char>,
    env: Seq<(Seq<char>, Seq<char>)>,
    outs: Seq<(Seq<char>, Data)>,
) -> Result<Seq<char>, (ResolveFailure, Seq<char>)> {
    resolve_from(s, 0, env, outs)
}

/// `s` holds no reference.
pub open spec fn has_no_refs(s: Seq<char>) -> bool {
    forall|i: int| 0 <= i < s.len() ==> !#[trigger] ref_at(s, i)
}

proof fn lemma_run_end_bounds(s: Seq<char>, j: int, class: u8)
    requires
        0 <= j <= s.len(),
    ensures
        j <= run_end(s, j, class) <= s.len(),
        forall|k: int| j <= k < run_end(s, j, class) ==> in_class(#[trigger] s[k], class),
        run_end(s, j, class) < s.len() ==> !in_class(s[run_end(s, j, class)], class),
    decreases s.len() - j,
{
    if j < s.len() && in_class(s[j], class) {
        lemma_run_end_bounds(s, j + 1, class);
    }
}

proof fn lemma_find_char_bounds(s: Seq<char>, j: int, c: char)
    requires
        0 <= j <= s.len(),
    ensures
        j <= find_char(s, j, c) <= s.len(),
        find_char(s, j, c) < s.len() ==> s[find_char(s, j, c)] == c,
        forall|k: int| j <= k < find_char(s, j, c) ==> s[k] != c,
    decreases s.len() - j,
{
    if j < s.len() && s[j] != c {
        lemma_find_char_bounds(s, j + 1, c);
    }
}

proof fn lemma_refs_end_after(s: Seq<char>, i: int)
    requires
        0 <= i < s.len(),
    ensures
        env_ref_at(s, i) matches Some(r) ==> i < r.2 <= s.len(),
        step_ref_at(s, i) matches Some(r) ==> i < r.2 <= s.len(),
{
    if i + 2 < s.len() {
        lemma_run_end_bounds(s, i + 2, CLASS_UPPER);
        lemma_run_end_bounds(s, i + 2, CLASS_IDENT);
        let e = run_end(s, i + 2, CLASS_UPPER);
        if e + 2 <= s.len() {
            lemma_find_char_bounds(s, e + 2, '}');
        }
        let f = run_end(s, i + 2, CLASS_IDENT);
        if f + 1 <= s.len() {
            lemma_run_end_bounds(s, f + 1, CLASS_PATH);
        }
    }
}

/// A string that holds no reference resolves to itself.
pub proof fn resolving_plain_text_is_identity(
    s: Seq<char>,
    env: Seq<(Seq<char>, Seq<char>)>,
    outs: Seq<(Seq<char>, Data)>,
)
    requires
        has_no_refs(s),
    ensures
        resolved(s, env, outs) == Ok::<Seq<char>, (ResolveFailure, Seq<char>)>(s),
{
    lemma_plain_suffix(s, 0, env, outs);
    assert(s.subrange(0, s.len() as int) =~= s);
}

proof fn lemma_plain_suffix(
    s: Seq<char>,
    i: int,
    env: Seq<(Seq<char>, Seq<char>)>,
    outs: Seq<(Seq<char>, Data)>,
)
    requires
        has_no_refs(s),
        0 <= i <= s.len(),
    ensures
        resolve_from(s, i, env, outs) == Ok::<Seq<char>, (ResolveFailure, Seq<char>)>(s.subrange(i, s.len() as int)),
    decreases s.len() - i,
{
    if i < s.len() {
        assert(!ref_at(s, i));
        lemma_plain_suffix(s, i + 1, env, outs);
        assert(seq![s[i]] + s.subrange(i + 1, s.len() as int) =~= s.subrange(i, s.len() as int));
    } else {
        assert(s.subrange(i, s.len() as int) =~= Seq::<char>::empty());
    }
}

/// Each reference resolves on its own: the value of the reference at `i`
/// depends on its text alone, and what follows it resolves the same whatever
/// was substituted before.
pub proof fn substitution_is_local(
    s: Seq<char>,
    i: int,
    env: Seq<(Seq<char>, Seq<char>)>,
    outs: Seq<(Seq<char>, Data)>,
    head: Seq<char>,
    tail: Option<Seq<char>>,
    end: int,
    v: Seq<char>,
)
    requires
        0 <= i < s.len(),
        (env_ref_at(s, i) == Some((head, tail, end)) && env_value(env, head, tail) == Ok::<Seq<char>, (ResolveFailure, Seq<char>)>(v))
        || (env_ref_at(s, i) is None && step_ref_at(s, i) == Some((head, tail, end)) && step_value(outs, head, tail) == Ok::<Seq<char>, (ResolveFailure, Seq<char>)>(v)),
    ensures
        i < end <= s.len(),
        resolve_from(s, i, env, outs) == match resolve_from(s, end, env, outs) {
            Ok(rest) => Ok::<Seq<char>, (ResolveFailure, Seq<char>)>(v + rest),
            Err(e) => Err(e),
        },
{
    lemma_refs_end_after(s, i);
}

fn char_at(s: &str, i: usize) -> (c: char)
    requires
        i < s@.len(),
    ensures
        c == s@[i as int],
{
    s.get_char(i)
}

fn is_upper_start_exec(c: char) -> (r: bool)
    ensures
        r == is_upper_start(c),
{
    ('A' <= c && c <= 'Z') || c == '_'
}

fn is_ident_start_exec(c: char) -> (r: bool)
    ensures
        r == is_ident_start(c),
{
    ('a' <= c && c <= 'z') || ('A' <= c && c <= 'Z') || c == '_'
}

fn in_class_exec(c: char, class: u8) -> (r: bool)
    ensures
        r == in_class(c, class),
{
    let digit = '0' <= c && c <= '9';
    if class == CLASS_UPPER {
        is_upper_start_exec(c) || digit
    } else if class == CLASS_IDENT {
        is_ident_start_exec(c) || digit
    } else {
        is_ident_start_exec(c) || digit || c == '.'
    }
}

fn run_end_exec(s: &str, len: usize, j: usize, class: u8) -> (r: usize)
    requires
        len == s@.len(),
        j <= len,
    ensures
        r == run_end(s@, j as int, class),
        j <= r <= len,
{
    let mut k = j;
    while k < len && in_class_exec(char_at(s, k), class)
        invariant
            j <= k <= len,
            len == s@.len(),
            run_end(s@, j as int, class) == run_end(s@, k as int, class),
        decreases len - k,
    {
        k = k + 1;
    }
    k
}

fn find_char_exec(s: &str, len: usize, j: usize, c: char) -> (r: usize)
    requires
        len == s@.len(),
        j <= len,
    ensures
        r == find_char(s@, j as int, c),
        j <= r <= len,
{
    let mut k = j;
    while k < len && char_at(s, k) != c
        invariant
            j <= k <= len,
            len == s@.len(),
            find_char(s@, j as int, c) == find_char(s@, k as int, c),
        decreases len - k,
    {
        k = k + 1;
    }
    k
}

/// A parsed reference: the name or step id, the default or path, and the
/// position after the closing brace.
struct ParsedRef {
    head_start: usize,
    head_end: usize,
    tail: Option<(usize, usize)>,
    end: usize,
}

fn parse_env_ref(s: &str, len: usize, i: usize) -> (r: Option<ParsedRef>)
    requires
        len == s@.len(),
        i < len,
    ensures
        r is Some <==> env_ref_at(s@, i as int) is Some,
        r matches Some(p) ==> ({
            let e = env_ref_at(s@, i as int)->0;
            &&& p.head_start <= p.head_end <= len
            &&& s@.subrange(p.head_start as int, p.head_end as int) == e.0
            &&& p.end as int == e.2
            &&& (p.tail is None <==> e.1 is None)
            &&& (p.tail matches Some(t) ==> t.0 <= t.1 <= len && s@.subrange(t.0 as int, t.1 as int) == e.1->0)
        }),
{
    if len - i <= 2 || char_at(s, i) != '$' || char_at(s, i + 1) != '{' || !is_upper_start_exec(char_at(s, i + 2)) {
        return None;
    }
    let e = run_end_exec(s, len, i + 2, CLASS_UPPER);
    if e < len && char_at(s, e) == '}' {
        return Some(ParsedRef { head_start: i + 2, head_end: e, tail: None, end: e + 1 });
    }
    if e < len && len - e > 1 && char_at(s, e) == ':' && char_at(s, e + 1) == '-' {
        let c = find_char_exec(s, len, e + 2, '}');
        if c < len {
            return Some(ParsedRef { head_start: i + 2, head_end: e, tail: Some((e + 2, c)), end: c + 1 });
        }
    }
    None
}

fn parse_step_ref(s: &str, len: usize, i: usize) -> (r: Option<ParsedRef>)
    requires
        len == s@.len(),
        i < len,
    ensures
        r is Some <==> step_ref_at(s@, i as int) is Some,
        r matches Some(p) ==> ({
            let e = step_ref_at(s@, i as int)->0;
            &&& p.head_start <= p.head_end <= len
            &&& s@.subrange(p.head_start as int, p.head_end as int) == e.0
            &&& p.end as int == e.2
            &&& (p.tail is None <==> e.1 is None)
            &&& (p.tail matches Some(t) ==> t.0 <= t.1 <= len && s@.subrange(t.0 as int, t.1 as int) == e.1->0)
        }),
{
    if len - i <= 2 || char_at(s, i) != '$' || char_at(s, i + 1) != '{' || !is_ident_start_exec(char_at(s, i + 2)) {
        return None;
    }
    let e = run_end_exec(s, len, i + 2, CLASS_IDENT);
    if e < len && char_at(s, e) == '}' {
        return Some(ParsedRef { head_start: i + 2, head_end: e, tail: None, end: e + 1 });
    }
    if e < len && char_at(s, e) == '.' {
        let p = run_end_exec(s, len, e + 1, CLASS_PATH);
        if p > e + 1 && p < len && char_at(s, p) == '}' {
            return Some(ParsedRef { head_start: i + 2, head_end: e, tail: Some((e + 1, p)), end: p + 1 });
        }
    }
    None
}

/// `r` is the exec form of the outcome `o`.
pub open spec fn same_outcome(r: Result<String, ResolveError>, o: Result<Seq<char>, (ResolveFailure, Seq<char>)>) -> bool {
    match o {
        Ok(v) => r matches Ok(t) && t@ == v,
        Err(e) => r matches Err(x) && x.kind == e.0 && x.subject@ == e.1,
    }
}

/// `o` with `pre` put in front of its text.
pub open spec fn prepend(pre: Seq<char>, o: Result<Seq<char>, (ResolveFailure, Seq<char>)>) -> Result<Seq<char>, (ResolveFailure, Seq<char>)> {
    match o {
        Ok(v) => Ok(pre + v),
        Err(e) => Err(e),
    }
}

fn failure(kind: ResolveFailure, subject: &str) -> (r: ResolveError)
    ensures
        r.kind == kind,
        r.subject@ == subject@,
{
    ResolveError { kind, subject: String::from_str(subject) }
}

proof fn lemma_lookup_prefix<V>(s: Seq<(Seq<char>, V)>, k: int, key: Seq<char>)
    requires
        0 < k <= s.len(),
    ensures
        lookup_last(s.subrange(0, k), key) == if s[k - 1].0 == key {
            Some(s[k - 1].1)
        } else {
            lookup_last(s.subrange(0, k - 1), key)
        },
{
    assert(s.subrange(0, k).drop_last() =~= s.subrange(0, k - 1));
}

fn index_value(seg: &str, bound: usize) -> (r: Option<usize>)
    ensures
        r is Some <==> (is_index(seg@) && digits_value(seg@) < bound),
        r matches Some(n) ==> n == digits_value(seg@),
{
    let len = seg.unicode_len();
    if len == 0 {
        return None;
    }
    let mut acc: u128 = 0;
    let mut over = bound == 0;
    let mut k: usize = 0;
    proof {
        assert(seg@.subrange(0, 0) =~= Seq::<char>::empty());
    }
    while k < len
        invariant
            k <= len,
            len == seg@.len(),
            forall|m: int| 0 <= m < k ==> is_digit(#[trigger] seg@[m]),
            !over ==> acc == digits_value(seg@.subrange(0, k as int)) && acc < bound,
            over ==> digits_value(seg@.subrange(0, k as int)) >= bound,
        decreases len - k,
    {
        let c = char_at(seg, k);
        if !('0' <= c && c <= '9') {
            return None;
        }
        proof {
            assert(seg@.subrange(0, k + 1).drop_last() =~= seg@.subrange(0, k as int));
        }
        if !over {
            acc = acc * 10 + (c as u128 - '0' as u128);
            if acc >= bound as u128 {
                over = true;
            }
        }
        k = k + 1;
    }
    proof {
        assert(seg@.subrange(0, len as int) =~= seg@);
    }
    if over {
        None
    } else {
        Some(acc as usize)
    }
}

fn child_exec<'a>(v: &'a JsonValue, seg: &str) -> (r: Option<&'a JsonValue>)
    ensures
        r is None <==> child(*v, seg@) is None,
        r matches Some(c) ==> *c == child(*v, seg@)->0,
{
    match v {
        JsonValue::Object(fields) => {
            let key = String::from_str(seg);
            let mut k: usize = 0;
            while k < fields.len()
                invariant
                    k <= fields@.len(),
                    key@ == seg@,
                    *v is Object,
                    v->Object_0 == *fields,
                    field_position(fields@, seg@, 0) == field_position(fields@, seg@, k as int),
                decreases fields@.len() - k,
            {
                if fields[k].0.eq(&key) {
                    return Some(&fields[k].1);
                }
                k = k + 1;
            }
            None
        },
        JsonValue::Array(items) => match index_value(seg, items.len()) {
            Some(n) => Some(&items[n]),
            None => None,
        },
        _ => None,
    }
}

fn navigate_exec<'a>(v: &'a JsonValue, p: &str) -> (r: Result<&'a JsonValue, ResolveError>)
    ensures
        match navigate(*v, p@, 0) {
            Ok(w) => r matches Ok(x) && *x == w,
            Err(seg) => r matches Err(e) && e.kind == ResolveFailure::FieldNotFound && e.subject@ == seg,
        },
{
    let len = p.unicode_len();
    let mut cur: &JsonValue = v;
    let mut j: usize = 0;
    loop
        invariant
            j <= len,
            len == p@.len(),
            navigate(*v, p@, 0) == navigate(*cur, p@, j as int),
        decreases len - j,
    {
        let e = find_char_exec(p, len, j, '.');
        proof {
            lemma_find_char_bounds(p@, j as int, '.');
        }
        let seg = p.substring_char(j, e);
        match child_exec(cur, seg) {
            None => {
                return Err(failure(ResolveFailure::FieldNotFound, seg));
            },
            Some(c) => {
                if e >= len {
                    return Ok(c);
                }
                cur = c;
                j = e + 1;
            },
        }
    }
}

fn render_structured(v: &JsonValue) -> (r: Option<String>)
    ensures
        r is Some <==> structured_text(*v) is Some,
        r matches Some(y) ==> y@ == structured_text(*v)->0,
{
    let t = to_json_text(v);
    match yaml_of_json(t.as_str()) {
        Some(y) => Some(String::from_str(trim_end_ascii(y.as_str()))),
        None => None,
    }
}

fn leaf_text_exec(v: &JsonValue) -> (r: Option<String>)
    ensures
        r is None <==> leaf_text(*v) is None,
        r matches Some(t) ==> t@ == leaf_text(*v)->0,
{
    match v {
        JsonValue::Str(s) => Some(s.clone()),
        JsonValue::Number(t) => Some(t.clone()),
        JsonValue::Bool(b) => if *b {
            Some(String::from_str("true"))
        } else {
            Some(String::from_str("false"))
        },
        JsonValue::Null => Some(String::from_str("null")),
        _ => None,
    }
}

impl ConfigResolver {
    /// The variables known, in the order they were cached; the last one
    /// cached under a name counts.
    pub closed spec fn env_view(&self) -> Seq<(Seq<char>, Seq<char>)> {
        self.env_vars@.map_values(|p: (String, String)| (p.0@, p.1@))
    }

    /// The step outputs recorded, in order; the last one recorded under an
    /// id counts.
    pub closed spec fn outputs_view(&self) -> Seq<(Seq<char>, Data)> {
        self.step_outputs@.map_values(|p: (String, OxiData)| (p.0@, p.1.data))
    }

    /// A resolver that knows no variable and no output.
    pub fn new() -> (r: ConfigResolver)
        ensures
            r.env_view() == Seq::<(Seq<char>, Seq<char>)>::empty(),
            r.outputs_view() == Seq::<(Seq<char>, Data)>::empty(),
    {
        let r = ConfigResolver { env_vars: Vec::new(), step_outputs: Vec::new() };
        assert(r.env_view() =~= Seq::<(Seq<char>, Seq<char>)>::empty());
        assert(r.outputs_view() =~= Seq::<(Seq<char>, Data)>::empty());
        r
    }

    /// Records the output of step `step_id` for later references.
    pub fn add_step_output(&mut self, step_id: String, output: OxiData)
        ensures
            final(self).outputs_view() == old(self).outputs_view().push((step_id@, output.data)),
            final(self).env_view() == old(self).env_view(),
    {
        let ghost entry = (step_id@, output.data);
        self.step_outputs.push((step_id, output));
        assert(self.outputs_view() =~= old(self).outputs_view().push(entry));
    }

    /// Caches the value of variable `name`.
    pub fn cache_env_var(&mut self, name: String, value: String)
        ensures
            final(self).env_view() == old(self).env_view().push((name@, value@)),
            final(self).outputs_view() == old(self).outputs_view(),
    {
        let ghost entry = (name@, value@);
        self.env_vars.push((name, value));
        assert(self.env_view() =~= old(self).env_view().push(entry));
    }

    fn env_value_exec(&self, name: &str, default: Option<&str>) -> (r: Result<String, ResolveError>)
        ensures
            same_outcome(r, env_value(self.env_view(), name@, match default {
                Some(d) => Some(d@),
                None => None,
            })),
    {
        let key = String::from_str(name);
        let mut k = self.env_vars.len();
        proof {
            assert(self.env_view().subrange(0, k as int) =~= self.env_view());
        }
        while k > 0
            invariant
                k <= self.env_vars@.len(),
                key@ == name@,
                lookup_last(self.env_view(), name@) == lookup_last(self.env_view().subrange(0, k as int), name@),
            decreases k,
        {
            proof {
                lemma_lookup_prefix(self.env_view(), k as int, name@);
            }
            if self.env_vars[k - 1].0.eq(&key) {
                return Ok(self.env_vars[k - 1].1.clone());
            }
            k = k - 1;
        }
        match default {
            Some(d) => Ok(String::from_str(d)),
            None => Err(failure(ResolveFailure::EnvVarNotFound, name)),
        }
    }

    fn output_of(&self, id: &str) -> (r: Option<&OxiData>)
        ensures
            r is None <==> lookup_last(self.outputs_view(), id@) is None,
            r matches Some(d) ==> d.data == lookup_last(self.outputs_view(), id@)->0,
    {
        let key = String::from_str(id);
        let mut k = self.step_outputs.len();
        proof {
            assert(self.outputs_view().subrange(0, k as int) =~= self.outputs_view());
        }
        while k > 0
            invariant
                k <= self.step_outputs@.len(),
                key@ == id@,
                lookup_last(self.outputs_view(), id@) == lookup_last(self.outputs_view().subrange(0, k as int), id@),
            decreases k,
        {
            proof {
                lemma_lookup_prefix(self.outputs_view(), k as int, id@);
            }
            if self.step_outputs[k - 1].0.eq(&key) {
                return Some(&self.step_outputs[k - 1].1);
            }
            k = k - 1;
        }
        None
    }

    fn step_value_exec(&self, id: &str, path: Option<&str>) -> (r: Result<String, ResolveError>)
        ensures
            same_outcome(r, step_value(self.outputs_view(), id@, match path {
                Some(p) => Some(p@),
                None => None,
            })),
    {
        let out = match self.output_of(id) {
            Some(o) => o,
            None => {
                return Err(failure(ResolveFailure::StepOutputNotFound, id));
            },
        };
        match path {
            None => match &out.data {
                Data::Text(t) => Ok(t.clone()),
                Data::Binary(b) => Ok(encode_base64(b)),
                Data::Empty => Ok(String::new()),
                Data::Json(v) => match leaf_text_exec(v) {
                    Some(t) => Ok(t),
                    None => match render_structured(v) {
                        Some(y) => Ok(y),
                        None => {
                            proof {
                                reveal_strlit("");
                                assert(""@ =~= Seq::<char>::empty());
                            }
                            Err(failure(ResolveFailure::StructuredValue, ""))
                        },
                    },
                },
            },
            Some(p) => match &out.data {
                Data::Json(v) => {
                    let leaf = match navigate_exec(v, p) {
                        Ok(l) => l,
                        Err(e) => {
                            return Err(e);
                        },
                    };
                    match leaf_text_exec(leaf) {
                        Some(t) => Ok(t),
                        None => match render_structured(leaf) {
                            Some(y) => Ok(y),
                            None => Err(failure(ResolveFailure::StructuredValue, p)),
                        },
                    }
                },
                _ => Err(failure(ResolveFailure::UnsupportedOutput, p)),
            },
        }
    }

    /// `text` with every reference replaced by its value, scanning from the
    /// left; the first reference that cannot be resolved is reported.
    pub fn resolve_string_references(&self, text: &str) -> (r: Result<String, ResolveError>)
        ensures
            same_outcome(r, resolved(text@, self.env_view(), self.outputs_view())),
    {
        let ghost env = self.env_view();
        let ghost outs = self.outputs_view();
        let len = text.unicode_len();
        let mut out = String::new();
        let mut i: usize = 0;
        while i < len
            invariant
                i <= len,
                len == text@.len(),
                env == self.env_view(),
                outs == self.outputs_view(),
                resolved(text@, env, outs) == prepend(out@, resolve_from(text@, i as int, env, outs)),
            decreases len - i,
        {
            proof {
                lemma_refs_end_after(text@, i as int);
            }
            if let Some(pr) = parse_env_ref(text, len, i) {
                let name = text.substring_char(pr.head_start, pr.head_end);
                let default = match pr.tail {
                    Some((a, b)) => Some(text.substring_char(a, b)),
                    None => None,
                };
                let v = match self.env_value_exec(name, default) {
                    Ok(v) => v,
                    Err(e) => {
                        return Err(e);
                    },
                };
                proof {
                    let rest = resolve_from(text@, pr.end as int, env, outs);
                    if rest is Ok {
                        assert(out@ + (v@ + rest->Ok_0) =~= (out@ + v@) + rest->Ok_0);
                    }
                }
                out.append(v.as_str());
                i = pr.end;
            } else if let Some(pr) = parse_step_ref(text, len, i) {
                let id = text.substring_char(pr.head_start, pr.head_end);
                let path = match pr.tail {
                    Some((a, b)) => Some(text.substring_char(a, b)),
                    None => None,
                };
                let v = match self.step_value_exec(id, path) {
                    Ok(v) => v,
                    Err(e) => {
                        return Err(e);
                    },
                };
                proof {
                    let rest = resolve_from(text@, pr.end as int, env, outs);
                    if rest is Ok {
                        assert(out@ + (v@ + rest->Ok_0) =~= (out@ + v@) + rest->Ok_0);
                    }
                }
                out.append(v.as_str());
                i = pr.end;
            } else {
                let c = text.substring_char(i, i + 1);
                proof {
                    let rest = resolve_from(text@, i + 1, env, outs);
                    if rest is Ok {
                        assert(out@ + (seq![text@[i as int]] + rest->Ok_0) =~= (out@ + c@) + rest->Ok_0);
                    }
                }
                out.append(c);
                i = i + 1;
            }
        }
        proof {
            assert(out@ + Seq::<char>::empty() =~= out@);
        }
        Ok(out)
    }
}

/// `w` is `v` with every string replaced by its resolution; other scalars
/// unchanged, arrays and objects element by element, keys kept.
pub open spec fn resolves_to(
    v: JsonValue,
    w: JsonValue,
    env: Seq<(Seq<char>, Seq<char>)>,
    outs: Seq<(Seq<char>, Data)>,
) -> bool
    decreases v, 1nat,
{
    match v {
        JsonValue::Str(a) => w matches JsonValue::Str(b) && resolved(a@, env, outs) == Ok::<Seq<char>, (ResolveFailure, Seq<char>)>(b@),
        JsonValue::Null => w is Null,
        JsonValue::Bool(b) => w == JsonValue::Bool(b),
        JsonValue::Number(t) => w matches JsonValue::Number(u) && u@ == t@,
        JsonValue::Array(xs) => w matches JsonValue::Array(ys) && ys@.len() == xs@.len()
            && items_resolve_to(xs@, ys@, xs@.len() as int, env, outs),
        JsonValue::Object(fs) => w matches JsonValue::Object(gs) && gs@.len() == fs@.len()
            && fields_resolve_to(fs@, gs@, fs@.len() as int, env, outs),
    }
}

/// The first `n` items of `xs` resolve to those of `ys`.
pub open spec fn items_resolve_to(
    xs: Seq<JsonValue>,
    ys: Seq<JsonValue>,
    n: int,
    env: Seq<(Seq<char>, Seq<char>)>,
    outs: Seq<(Seq<char>, Data)>,
) -> bool
    decreases xs, 0nat, n,
{
    if n <= 0 || n > xs.len() {
        true
    } else {
        items_resolve_to(xs, ys, n - 1, env, outs) && n <= ys.len() && resolves_to(xs[n - 1], ys[n - 1], env, outs)
    }
}

/// The first `n` fields of `fs` resolve to those of `gs`, names kept.
pub open spec fn fields_resolve_to(
    fs: Seq<(String, JsonValue)>,
    gs: Seq<(String, JsonValue)>,
    n: int,
    env: Seq<(Seq<char>, Seq<char>)>,
    outs: Seq<(Seq<char>, Data)>,
) -> bool
    decreases fs, 0nat, n,
{
    if n <= 0 || n > fs.len() {
        true
    } else {
        fields_resolve_to(fs, gs, n - 1, env, outs) && n <= gs.len() && gs[n - 1].0@ == fs[n - 1].0@
            && resolves_to(fs[n - 1].1, gs[n - 1].1, env, outs)
    }
}

/// Every string inside `v` resolves.
pub open spec fn all_resolve(v: JsonValue, env: Seq<(Seq<char>, Seq<char>)>, outs: Seq<(Seq<char>, Data)>) -> bool
    decreases v, 1nat,
{
    match v {
        JsonValue::Str(a) => resolved(a@, env, outs) is Ok,
        JsonValue::Array(xs) => items_all_resolve(xs@, xs@.len() as int, env, outs),
        JsonValue::Object(fs) => fields_all_resolve(fs@, fs@.len() as int, env, outs),
        _ => true,
    }
}

/// Every string inside the first `n` items resolves.
pub open spec fn items_all_resolve(xs: Seq<JsonValue>, n: int, env: Seq<(Seq<char>, Seq<char>)>, outs: Seq<(Seq<char>, Data)>) -> bool
    decreases xs, 0nat, n,
{
    if n <= 0 || n > xs.len() {
        true
    } else {
        items_all_resolve(xs, n - 1, env, outs) && all_resolve(xs[n - 1], env, outs)
    }
}

/// Every string inside the first `n` field values resolves.
pub open spec fn fields_all_resolve(fs: Seq<(String, JsonValue)>, n: int, env: Seq<(Seq<char>, Seq<char>)>, outs: Seq<(Seq<char>, Data)>) -> bool
    decreases fs, 0nat, n,
{
    if n <= 0 || n > fs.len() {
        true
    } else {
        fields_all_resolve(fs, n - 1, env, outs) && all_resolve(fs[n - 1].1, env, outs)
    }
}

proof fn lemma_items_prefix(
    xs: Seq<JsonValue>,
    ys: Seq<JsonValue>,
    zs: Seq<JsonValue>,
    n: int,
    env: Seq<(Seq<char>, Seq<char>)>,
    outs: Seq<(Seq<char>, Data)>,
)
    requires
        0 <= n <= ys.len(),
        n <= zs.len(),
        forall|k: int| 0 <= k < n ==> #[trigger] ys[k] == zs[k],
        items_resolve_to(xs, ys, n, env, outs),
    ensures
        items_resolve_to(xs, zs, n, env, outs),
    decreases n,
{
    if n > 0 && n <= xs.len() {
        lemma_items_prefix(xs, ys, zs, n - 1, env, outs);
        assert(ys[n - 1] == zs[n - 1]);
    }
}

proof fn lemma_fields_prefix(
    xs: Seq<(String, JsonValue)>,
    ys: Seq<(String, JsonValue)>,
    zs: Seq<(String, JsonValue)>,
    n: int,
    env: Seq<(Seq<char>, Seq<char>)>,
    outs: Seq<(Seq<char>, Data)>,
)
    requires
        0 <= n <= ys.len(),
        n <= zs.len(),
        forall|k: int| 0 <= k < n ==> #[trigger] ys[k] == zs[k],
        fields_resolve_to(xs, ys, n, env, outs),
    ensures
        fields_resolve_to(xs, zs, n, env, outs),
    decreases n,
{
    if n > 0 && n <= xs.len() {
        lemma_fields_prefix(xs, ys, zs, n - 1, env, outs);
        assert(ys[n - 1] == zs[n - 1]);
    }
}

/// The failure of the first string inside `v`, in document order, that
/// does not resolve; none when every string resolves.
pub open spec fn first_failure(
    v: JsonValue,
    env: Seq<(Seq<char>, Seq<char>)>,
    outs: Seq<(Seq<char>, Data)>,
) -> Option<(ResolveFailure, Seq<char>)>
    decreases v, 1nat,
{
    match v {
        JsonValue::Str(a) => match resolved(a@, env, outs) {
            Err(e) => Some(e),
            Ok(_) => None,
        },
        JsonValue::Array(xs) => items_first_failure(xs@, xs@.len() as int, env, outs),
        JsonValue::Object(fs) => fields_first_failure(fs@, fs@.len() as int, env, outs),
        _ => None,
    }
}

/// The first failure among the first `n` items.
pub open spec fn items_first_failure(
    xs: Seq<JsonValue>,
    n: int,
    env: Seq<(Seq<char>, Seq<char>)>,
    outs: Seq<(Seq<char>, Data)>,
) -> Option<(ResolveFailure, Seq<char>)>
    decreases xs, 0nat, n,
{
    if n <= 0 || n > xs.len() {
        None
    } else if items_first_failure(xs, n - 1, env, outs) is Some {
        items_first_failure(xs, n - 1, env, outs)
    } else {
        first_failure(xs[n - 1], env, outs)
    }
}

/// The first failure among the first `n` field values.
pub open spec fn fields_first_failure(
    fs: Seq<(String, JsonValue)>,
    n: int,
    env: Seq<(Seq<char>, Seq<char>)>,
    outs: Seq<(Seq<char>, Data)>,
) -> Option<(ResolveFailure, Seq<char>)>
    decreases fs, 0nat, n,
{
    if n <= 0 || n > fs.len() {
        None
    } else if fields_first_failure(fs, n - 1, env, outs) is Some {
        fields_first_failure(fs, n - 1, env, outs)
    } else {
        first_failure(fs[n - 1].1, env, outs)
    }
}

proof fn lemma_items_failure_stays(xs: Seq<JsonValue>, k: int, n: int, env: Seq<(Seq<char>, Seq<char>)>, outs: Seq<(Seq<char>, Data)>)
    requires
        0 < k <= n <= xs.len(),
        items_first_failure(xs, k, env, outs) is Some,
    ensures
        items_first_failure(xs, n, env, outs) == items_first_failure(xs, k, env, outs),
    decreases n - k,
{
    if k < n {
        lemma_items_failure_stays(xs, k, n - 1, env, outs);
    }
}

proof fn lemma_fields_failure_stays(fs: Seq<(String, JsonValue)>, k: int, n: int, env: Seq<(Seq<char>, Seq<char>)>, outs: Seq<(Seq<char>, Data)>)
    requires
        0 < k <= n <= fs.len(),
        fields_first_failure(fs, k, env, outs) is Some,
    ensures
        fields_first_failure(fs, n, env, outs) == fields_first_failure(fs, k, env, outs),
    decreases n - k,
{
    if k < n {
        lemma_fields_failure_stays(fs, k, n - 1, env, outs);
    }
}

proof fn lemma_items_all_at(xs: Seq<JsonValue>, n: int, k: int, env: Seq<(Seq<char>, Seq<char>)>, outs: Seq<(Seq<char>, Data)>)
    requires
        0 <= k < n <= xs.len(),
        items_all_resolve(xs, n, env, outs),
    ensures
        all_resolve(xs[k], env, outs),
    decreases n,
{
    if k < n - 1 {
        lemma_items_all_at(xs, n - 1, k, env, outs);
    }
}

proof fn lemma_fields_all_at(fs: Seq<(String, JsonValue)>, n: int, k: int, env: Seq<(Seq<char>, Seq<char>)>, outs: Seq<(Seq<char>, Data)>)
    requires
        0 <= k < n <= fs.len(),
        fields_all_resolve(fs, n, env, outs),
    ensures
        all_resolve(fs[k].1, env, outs),
    decreases n,
{
    if k < n - 1 {
        lemma_fields_all_at(fs, n - 1, k, env, outs);
    }
}

impl ConfigResolver {
    /// `value` with every string inside it resolved; mappings and sequences
    /// element by element, other scalars unchanged. Fails exactly when some
    /// string inside fails to resolve.
    pub fn resolve_value(&self, value: &JsonValue) -> (r: Result<JsonValue, ResolveError>)
        ensures
            r is Ok <==> all_resolve(*value, self.env_view(), self.outputs_view()),
            r matches Ok(w) ==> resolves_to(*value, w, self.env_view(), self.outputs_view()),
            r is Ok ==> first_failure(*value, self.env_view(), self.outputs_view()) is None,
            r matches Err(e) ==> first_failure(*value, self.env_view(), self.outputs_view()) == Some((e.kind, e.subject@)),
        decreases value,
    {
        let ghost env = self.env_view();
        let ghost outs = self.outputs_view();
        match value {
            JsonValue::Str(a) => match self.resolve_string_references(a.as_str()) {
                Ok(b) => Ok(JsonValue::Str(b)),
                Err(e) => Err(e),
            },
            JsonValue::Null => Ok(JsonValue::Null),
            JsonValue::Bool(b) => Ok(JsonValue::Bool(*b)),
            JsonValue::Number(t) => Ok(JsonValue::Number(t.clone())),
            JsonValue::Array(xs) => {
                let mut ys: Vec<JsonValue> = Vec::new();
                let mut i: usize = 0;
                while i < xs.len()
                    invariant
                        i <= xs@.len(),
                        ys@.len() == i,
                        *value is Array,
                        value->Array_0 == *xs,
                        env == self.env_view(),
                        outs == self.outputs_view(),
                        items_resolve_to(xs@, ys@, i as int, env, outs),
                        items_all_resolve(xs@, i as int, env, outs),
                        items_first_failure(xs@, i as int, env, outs) is None,
                    decreases xs@.len() - i,
                {
                    proof {
                        assert(decreases_to!(*value => value->Array_0));
                        assert(decreases_to!(*xs => xs@[i as int]));
                    }
                    match self.resolve_value(&xs[i]) {
                        Ok(w) => {
                            let ghost before = ys@;
                            ys.push(w);
                            proof {
                                assert(forall|k: int| 0 <= k < i ==> #[trigger] before[k] == ys@[k]);
                                lemma_items_prefix(xs@, before, ys@, i as int, env, outs);
                            }
                        },
                        Err(e) => {
                            proof {
                                if all_resolve(*value, env, outs) {
                                    lemma_items_all_at(xs@, xs@.len() as int, i as int, env, outs);
                                }
                                assert(items_first_failure(xs@, i + 1, env, outs) == Some((e.kind, e.subject@)));
                                lemma_items_failure_stays(xs@, i + 1, xs@.len() as int, env, outs);
                            }
                            return Err(e);
                        },
                    }
                    i = i + 1;
                }
                Ok(JsonValue::Array(ys))
            },
            JsonValue::Object(fs) => {
                let mut gs: Vec<(String, JsonValue)> = Vec::new();
                let mut i: usize = 0;
                while i < fs.len()
                    invariant
                        i <= fs@.len(),
                        gs@.len() == i,
                        *value is Object,
                        value->Object_0 == *fs,
                        env == self.env_view(),
                        outs == self.outputs_view(),
                        fields_resolve_to(fs@, gs@, i as int, env, outs),
                        fields_all_resolve(fs@, i as int, env, outs),
                        fields_first_failure(fs@, i as int, env, outs) is None,
                    decreases fs@.len() - i,
                {
                    proof {
                        assert(decreases_to!(*value => value->Object_0));
                        assert(decreases_to!(*fs => fs@[i as int]));
                        assert(decreases_to!(fs@[i as int] => fs@[i as int].1));
                    }
                    match self.resolve_value(&fs[i].1) {
                        Ok(w) => {
                            let ghost before = gs@;
                            gs.push((fs[i].0.clone(), w));
                            proof {
                                assert(forall|k: int| 0 <= k < i ==> #[trigger] before[k] == gs@[k]);
                                lemma_fields_prefix(fs@, before, gs@, i as int, env, outs);
                            }
                        },
                        Err(e) => {
                            proof {
                                if all_resolve(*value, env, outs) {
                                    lemma_fields_all_at(fs@, fs@.len() as int, i as int, env, outs);
                                }
                                assert(fields_first_failure(fs@, i + 1, env, outs) == Some((e.kind, e.subject@)));
                                lemma_fields_failure_stays(fs@, i + 1, fs@.len() as int, env, outs);
                            }
                            return Err(e);
                        },
                    }
                    i = i + 1;
                }
                Ok(JsonValue::Object(gs))
            },
        }
    }
}

/// No string inside `v` holds a reference.
pub open spec fn no_refs_inside(v: JsonValue) -> bool
    decreases v, 1nat,
{
    match v {
        JsonValue::Str(a) => has_no_refs(a@),
        JsonValue::Array(xs) => items_free(xs@, xs@.len() as int),
        JsonValue::Object(fs) => fields_free(fs@, fs@.len() as int),
        _ => true,
    }
}

/// No string inside the first `n` items holds a reference.
pub open spec fn items_free(xs: Seq<JsonValue>, n: int) -> bool
    decreases xs, 0nat, n,
{
    if n <= 0 || n > xs.len() { true } else { items_free(xs, n - 1) && no_refs_inside(xs[n - 1]) }
}

/// No string inside the first `n` field values holds a reference.
pub open spec fn fields_free(fs: Seq<(String, JsonValue)>, n: int) -> bool
    decreases fs, 0nat, n,
{
    if n <= 0 || n > fs.len() { true } else { fields_free(fs, n - 1) && no_refs_inside(fs[n - 1].1) }
}

/// A value in which no reference remains resolves, and to itself: so
/// resolving an already resolved value changes nothing.
pub proof fn resolving_reference_free_value_is_identity(
    v: JsonValue,
    env: Seq<(Seq<char>, Seq<char>)>,
    outs: Seq<(Seq<char>, Data)>,
)
    requires
        no_refs_inside(v),
    ensures
        all_resolve(v, env, outs),
        resolves_to(v, v, env, outs),
        first_failure(v, env, outs) is None,
    decreases v, 1nat,
{
    match v {
        JsonValue::Str(a) => {
            resolving_plain_text_is_identity(a@, env, outs);
        },
        JsonValue::Array(xs) => {
            lemma_items_identity(xs@, xs@.len() as int, env, outs);
        },
        JsonValue::Object(fs) => {
            lemma_fields_identity(fs@, fs@.len() as int, env, outs);
        },
        _ => {},
    }
}

proof fn lemma_items_identity(xs: Seq<JsonValue>, n: int, env: Seq<(Seq<char>, Seq<char>)>, outs: Seq<(Seq<char>, Data)>)
    requires
        items_free(xs, n),
    ensures
        items_all_resolve(xs, n, env, outs),
        items_resolve_to(xs, xs, n, env, outs),
        items_first_failure(xs, n, env, outs) is None,
    decreases xs, 0nat, n,
{
    if 0 < n <= xs.len() {
        lemma_items_identity(xs, n - 1, env, outs);
        resolving_reference_free_value_is_identity(xs[n - 1], env, outs);
    }
}

proof fn lemma_fields_identity(fs: Seq<(String, JsonValue)>, n: int, env: Seq<(Seq<char>, Seq<char>)>, outs: Seq<(Seq<char>, Data)>)
    requires
        fields_free(fs, n),
    ensures
        fields_all_resolve(fs, n, env, outs),
        fields_resolve_to(fs, fs, n, env, outs),
        fields_first_failure(fs, n, env, outs) is None,
    decreases fs, 0nat, n,
{
    if 0 < n <= fs.len() {
        lemma_fields_identity(fs, n - 1, env, outs);
        resolving_reference_free_value_is_identity(fs[n - 1].1, env, outs);
    }
}

/// `s` with positions `i..e` replaced by `v`.
pub open spec fn splice(s: Seq<char>, i: int, e: int, v: Seq<char>) -> Seq<char> {
    s.subrange(0, i) + v + s.subrange(e, s.len() as int)
}

/// Replacing two references that do not overlap gives the same text in
/// either order: right to left at the positions found, or left to right
/// with the later positions moved by the change in length of the first.
pub proof fn substitutions_commute(
    s: Seq<char>,
    i1: int,
    e1: int,
    v1: Seq<char>,
    i2: int,
    e2: int,
    v2: Seq<char>,
)
    requires
        0 <= i1 <= e1 <= i2 <= e2 <= s.len(),
    ensures
        splice(splice(s, i2, e2, v2), i1, e1, v1) == splice(
            splice(s, i1, e1, v1),
            i2 + v1.len() - (e1 - i1),
            e2 + v1.len() - (e1 - i1),
            v2,
        ),
{
    let d = v1.len() - (e1 - i1);
    let a = splice(splice(s, i2, e2, v2), i1, e1, v1);
    let t = splice(s, i1, e1, v1);
    let b = splice(t, i2 + d, e2 + d, v2);
    assert(t.subrange(0, i2 + d) =~= s.subrange(0, i1) + v1 + s.subrange(e1, i2));
    assert(t.subrange(e2 + d, t.len() as int) =~= s.subrange(e2, s.len() as int));
    assert(splice(s, i2, e2, v2).subrange(0, i1) =~= s.subrange(0, i1));
    assert(splice(s, i2, e2, v2).subrange(e1, splice(s, i2, e2, v2).len() as int) =~= s.subrange(e1, i2) + v2 + s.subrange(e2, s.len() as int));
    assert(a =~= b);
}

/// No reference starts at a position in `a..b`.
pub open spec fn plain_between(s: Seq<char>, a: int, b: int) -> bool {
    forall|k: int| a <= k < b ==> !#[trigger] ref_at(s, k)
}

proof fn lemma_plain_run(
    s: Seq<char>,
    a: int,
    b: int,
    env: Seq<(Seq<char>, Seq<char>)>,
    outs: Seq<(Seq<char>, Data)>,
)
    requires
        0 <= a <= b <= s.len(),
        plain_between(s, a, b),
    ensures
        resolve_from(s, a, env, outs) == prepend(s.subrange(a, b), resolve_from(s, b, env, outs)),
    decreases b - a,
{
    if a < b {
        assert(!ref_at(s, a));
        lemma_plain_run(s, a + 1, b, env, outs);
        assert(seq![s[a]] + s.subrange(a + 1, b) =~= s.subrange(a, b));
        let rest = resolve_from(s, b, env, outs);
        if rest is Ok {
            assert(seq![s[a]] + (s.subrange(a + 1, b) + rest->Ok_0) =~= s.subrange(a, b) + rest->Ok_0);
        }
    } else {
        let rest = resolve_from(s, b, env, outs);
        if rest is Ok {
            assert(s.subrange(a, b) + rest->Ok_0 =~= rest->Ok_0);
        }
    }
}

/// The value of the reference at `i`, ending at `end`, is `v`.
pub open spec fn ref_resolves_to(
    s: Seq<char>,
    i: int,
    end: int,
    v: Seq<char>,
    env: Seq<(Seq<char>, Seq<char>)>,
    outs: Seq<(Seq<char>, Data)>,
) -> bool {
    (env_ref_at(s, i) matches Some(r) && r.2 == end && env_value(env, r.0, r.1) == Ok::<Seq<char>, (ResolveFailure, Seq<char>)>(v))
        || (env_ref_at(s, i) is None && (step_ref_at(s, i) matches Some(r) && r.2 == end
            && step_value(outs, r.0, r.1) == Ok::<Seq<char>, (ResolveFailure, Seq<char>)>(v)))
}

/// A string with two references that do not overlap, and no other, resolves
/// to the string with each replaced by its value; the replacements may be
/// made right to left at the positions found, or left to right with the
/// later positions moved, with the same result.
pub proof fn two_references_resolve_by_splicing(
    s: Seq<char>,
    i1: int,
    e1: int,
    v1: Seq<char>,
    i2: int,
    e2: int,
    v2: Seq<char>,
    env: Seq<(Seq<char>, Seq<char>)>,
    outs: Seq<(Seq<char>, Data)>,
)
    requires
        0 <= i1 < e1 <= i2 < e2 <= s.len(),
        ref_resolves_to(s, i1, e1, v1, env, outs),
        ref_resolves_to(s, i2, e2, v2, env, outs),
        plain_between(s, 0, i1),
        plain_between(s, e1, i2),
        plain_between(s, e2, s.len() as int),
    ensures
        resolved(s, env, outs) == Ok::<Seq<char>, (ResolveFailure, Seq<char>)>(splice(splice(s, i2, e2, v2), i1, e1, v1)),
        resolved(s, env, outs) == Ok::<Seq<char>, (ResolveFailure, Seq<char>)>(
            splice(splice(s, i1, e1, v1), i2 + v1.len() - (e1 - i1), e2 + v1.len() - (e1 - i1), v2),
        ),
{
    lemma_refs_end_after(s, i1);
    lemma_refs_end_after(s, i2);
    lemma_plain_run(s, e2, s.len() as int, env, outs);
    assert(resolve_from(s, s.len() as int, env, outs) == Ok::<Seq<char>, (ResolveFailure, Seq<char>)>(Seq::empty()));
    lemma_plain_run(s, e1, i2, env, outs);
    lemma_plain_run(s, 0, i1, env, outs);
    let tail = s.subrange(e2, s.len() as int);
    assert(s.subrange(e2, s.len() as int) + Seq::<char>::empty() =~= tail);
    assert(resolve_from(s, i2, env, outs) == Ok::<Seq<char>, (ResolveFailure, Seq<char>)>(v2 + tail));
    let mid = s.subrange(e1, i2) + (v2 + tail);
    assert(resolve_from(s, i1, env, outs) == Ok::<Seq<char>, (ResolveFailure, Seq<char>)>(v1 + mid));
    assert(s.subrange(0, i1) + (v1 + mid) =~= splice(splice(s, i2, e2, v2), i1, e1, v1));
    substitutions_commute(s, i1, e1, v1, i2, e2, v2);
}

} // verus!
