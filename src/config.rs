//! Stage configuration: a bag of values by key with typed accessors, and the
//! runtime errors of stages and the executor.
use vstd::prelude::*;
use crate::data::JsonValue;
use crate::pipeline::PipelineStep;
use crate::resolver::{ConfigResolver, ResolveError, all_resolve, resolves_to};

verus! {

/// Errors raised by stages and by the executor.
#[derive(Debug, Clone)]
pub enum OxiError {
    TypeConversionError(String),
    ConfigError(String),
    MissingConfig(String),
    ExecutionError(String),
    UnknownOxi(String),
    ChainingError(String),
    JsonOperationError { operation: String, details: String },
    TypeMismatch { expected: String, actual: String, step: String },
    ValidationError { details: String },
    QueryError { query: String, error: String },
    FormatIncompatible { source_format: String, target_format: String },
    BatchSizeExceeded { actual_size: usize, max_size: usize, oxi_name: String },
    MemoryLimitExceeded { actual_mb: usize, max_mb: usize, oxi_name: String },
    ProcessingTimeout { actual_ms: u64, max_ms: u64, oxi_name: String },
    UnsupportedInputType { oxi_name: String, input_type: String },
    EnvVarNotFound(String),
}

/// The configuration of one stage: values by key, each key once.
#[derive(Debug)]
pub struct OxiConfig {
    pub values: Vec<(String, JsonValue)>,
}

/// The position of the first entry with key `k` from `i` on, else the length.
pub open spec fn key_position(values: Seq<(String, JsonValue)>, k: Seq<char>, i: int) -> int
    decreases values.len() - i,
{
    if i < 0 || i >= values.len() {
        values.len() as int
    } else if values[i].0@ == k {
        i
    } else {
        key_position(values, k, i + 1)
    }
}

/// The value stored under `k`.
pub open spec fn config_get(values: Seq<(String, JsonValue)>, k: Seq<char>) -> Option<JsonValue> {
    let i = key_position(values, k, 0);
    if 0 <= i < values.len() {
        Some(values[i].1)
    } else {
        None
    }
}

/// `c` lowered if it is an ASCII capital.
pub open spec fn ascii_lower(c: char) -> char {
    if 'A' <= c && c <= 'Z' {
        ((c as u8) + 32) as char
    } else {
        c
    }
}

/// `s` equals `word` (in lower case) up to the case of ASCII letters.
pub open spec fn same_word(s: Seq<char>, word: Seq<char>) -> bool {
    s.len() == word.len() && forall|i: int| 0 <= i < s.len() ==> ascii_lower(#[trigger] s[i]) == word[i]
}

/// The truth value that a string spells, if it spells one: `true`, `yes`
/// and `1` are true, `false`, `no` and `0` false, in any case.
pub open spec fn truth_of(s: Seq<char>) -> Option<bool> {
    if same_word(s, "true"@) || same_word(s, "yes"@) || same_word(s, "1"@) {
        Some(true)
    } else if same_word(s, "false"@) || same_word(s, "no"@) || same_word(s, "0"@) {
        Some(false)
    } else {
        None
    }
}

/// The value of a string of decimal digits.
pub open spec fn decimal_value(s: Seq<char>) -> int
    decreases s.len(),
{
    if s.len() == 0 {
        0
    } else {
        decimal_value(s.drop_last()) * 10 + (s.last() as int - '0' as int)
    }
}

/// A number's text starts with a minus sign.
pub open spec fn is_negative(t: Seq<char>) -> bool {
    t.len() > 0 && t[0] == '-'
}

/// The digits of a number's text, after any minus sign.
pub open spec fn digits_of(t: Seq<char>) -> Seq<char> {
    if is_negative(t) { t.subrange(1, t.len() as int) } else { t }
}

/// Every character is a decimal digit.
pub open spec fn all_digits(d: Seq<char>) -> bool {
    forall|i: int| 0 <= i < d.len() ==> '0' <= #[trigger] d[i] && d[i] <= '9'
}

/// The signed value of a number's text.
pub open spec fn signed_value(t: Seq<char>) -> int {
    if is_negative(t) { -decimal_value(digits_of(t)) } else { decimal_value(digits_of(t)) }
}

/// The integer that a number's text spells: an optional `-` and one or more
/// digits, within the range of `i64`.
pub open spec fn integer_of(t: Seq<char>) -> Option<i64> {
    if digits_of(t).len() > 0 && all_digits(digits_of(t)) && i64::MIN <= signed_value(t) <= i64::MAX {
        Some(signed_value(t) as i64)
    } else {
        None
    }
}

fn lower_exec(c: char) -> (r: char)
    ensures
        r == ascii_lower(c),
{
    if 'A' <= c && c <= 'Z' {
        ((c as u8) + 32) as char
    } else {
        c
    }
}

fn is_word(s: &str, word: &str) -> (r: bool)
    requires
        word@.len() < 8,
    ensures
        r == same_word(s@, word@),
{
    let n = s.unicode_len();
    if n != word.unicode_len() {
        return false;
    }
    let mut i: usize = 0;
    while i < n
        invariant
            i <= n,
            n == s@.len(),
            n == word@.len(),
            forall|k: int| 0 <= k < i ==> ascii_lower(#[trigger] s@[k]) == word@[k],
        decreases n - i,
    {
        if lower_exec(s.get_char(i)) != word.get_char(i) {
            return false;
        }
        i = i + 1;
    }
    true
}

pub fn parse_integer(t: &str) -> (r: Option<i64>)
    ensures
        r == integer_of(t@),
{
    let n = t.unicode_len();
    let neg = n > 0 && t.get_char(0) == '-';
    let start: usize = if neg { 1 } else { 0 };
    let ghost digits = t@.subrange(start as int, n as int);
    proof {
        assert(is_negative(t@) == neg);
        assert(digits =~= digits_of(t@));
    }
    if n <= start {
        return None;
    }
    let mut acc: i128 = 0;
    let mut i: usize = start;
    while i < n
        invariant
            start <= i <= n,
            n == t@.len(),
            digits == t@.subrange(start as int, n as int),
            neg == is_negative(t@),
            digits == digits_of(t@),
            start == (if neg { 1usize } else { 0usize }),
            forall|k: int| 0 <= k < i - start ==> '0' <= #[trigger] digits[k] && digits[k] <= '9',
            acc == decimal_value(digits.subrange(0, i - start)),
            0 <= acc <= i64::MAX as int + 1,
        decreases n - i,
    {
        let c = t.get_char(i);
        if !('0' <= c && c <= '9') {
            proof {
                assert(digits[i - start] == c);
                assert(!all_digits(digits));
            }
            return None;
        }
        proof {
            assert(digits.subrange(0, i - start + 1).drop_last() =~= digits.subrange(0, i - start));
            assert(digits.subrange(0, i - start + 1).last() == c);
        }
        let next = acc * 10 + (c as i128 - '0' as i128);
        if next > i64::MAX as i128 + 1 {
            proof {
                if all_digits(digits) {
                    lemma_decimal_grows(digits, i - start + 1);
                }
            }
            return None;
        }
        acc = next;
        i = i + 1;
    }
    proof {
        assert(digits.subrange(0, n - start) =~= digits);
    }
    if neg {
        Some((-acc) as i64)
    } else if acc > i64::MAX as i128 {
        None
    } else {
        Some(acc as i64)
    }
}

proof fn lemma_decimal_grows(d: Seq<char>, k: int)
    requires
        0 < k <= d.len(),
        forall|j: int| 0 <= j < d.len() ==> '0' <= #[trigger] d[j] && d[j] <= '9',
        decimal_value(d.subrange(0, k)) > i64::MAX as int + 1,
    ensures
        decimal_value(d) > i64::MAX as int + 1,
    decreases d.len() - k,
{
    if k < d.len() {
        assert(d.subrange(0, k + 1).drop_last() =~= d.subrange(0, k));
        lemma_decimal_grows(d, k + 1);
    } else {
        assert(d.subrange(0, k) =~= d);
    }
}

/// The value stored under `key` among `values`.
pub fn lookup_value<'a>(values: &'a Vec<(String, JsonValue)>, key: &str) -> (r: Option<&'a JsonValue>)
    ensures
        r is None <==> config_get(values@, key@) is None,
        r matches Some(v) ==> *v == config_get(values@, key@)->0,
{
    let k = String::from_str(key);
    let mut i: usize = 0;
    while i < values.len()
        invariant
            i <= values@.len(),
            k@ == key@,
            key_position(values@, key@, 0) == key_position(values@, key@, i as int),
        decreases values@.len() - i,
    {
        if values[i].0.eq(&k) {
            return Some(&values[i].1);
        }
        i = i + 1;
    }
    None
}

fn missing(key: &str) -> (r: OxiError)
    ensures
        r matches OxiError::MissingConfig(k) && k@ == key@,
{
    OxiError::MissingConfig(String::from_str(key))
}

fn wrong_type(key: &str) -> (r: OxiError)
    ensures
        r is ConfigError,
{
    let mut m = String::from_str("Value for key '");
    m.append(key);
    m.append("' has the wrong type");
    OxiError::ConfigError(m)
}

impl OxiConfig {
    /// A configuration with no values.
    pub fn new() -> (r: OxiConfig)
        ensures
            r.values@.len() == 0,
    {
        OxiConfig { values: Vec::new() }
    }

    fn find(&self, key: &str) -> (r: Option<usize>)
        ensures
            r is None <==> config_get(self.values@, key@) is None,
            r matches Some(i) ==> i == key_position(self.values@, key@, 0) && i < self.values@.len(),
    {
        let k = String::from_str(key);
        let mut i: usize = 0;
        while i < self.values.len()
            invariant
                i <= self.values@.len(),
                k@ == key@,
                key_position(self.values@, key@, 0) == key_position(self.values@, key@, i as int),
            decreases self.values@.len() - i,
        {
            if self.values[i].0.eq(&k) {
                return Some(i);
            }
            i = i + 1;
        }
        None
    }

    /// The value stored under `key`, or `MissingConfig`.
    pub fn get_structured(&self, key: &str) -> (r: Result<&JsonValue, OxiError>)
        ensures
            r is Ok <==> config_get(self.values@, key@) is Some,
            r matches Ok(v) ==> *v == config_get(self.values@, key@)->0,
            r matches Err(e) ==> e matches OxiError::MissingConfig(k) && k@ == key@,
    {
        match self.find(key) {
            Some(i) => Ok(&self.values[i].1),
            None => Err(missing(key)),
        }
    }

    /// The string stored under `key`; `MissingConfig` when there is none,
    /// `ConfigError` when the value is not a string.
    pub fn get_string(&self, key: &str) -> (r: Result<String, OxiError>)
        ensures
            config_get(self.values@, key@) is None ==> (r matches Err(e) && e matches OxiError::MissingConfig(k) && k@ == key@),
            config_get(self.values@, key@) matches Some(JsonValue::Str(s)) ==> (r matches Ok(t) && t@ == s@),
            config_get(self.values@, key@) matches Some(v) && !(v is Str) ==> (r matches Err(e) && e is ConfigError),
    {
        match self.get_structured(key) {
            Ok(JsonValue::Str(s)) => Ok(s.clone()),
            Ok(_) => Err(wrong_type(key)),
            Err(e) => Err(e),
        }
    }

    /// The string stored under `key`, else `default`.
    pub fn get_string_or(&self, key: &str, default: &str) -> (r: String)
        ensures
            config_get(self.values@, key@) matches Some(JsonValue::Str(s)) ==> r@ == s@,
            !(config_get(self.values@, key@) matches Some(JsonValue::Str(_))) ==> r@ == default@,
    {
        match self.get_string(key) {
            Ok(s) => s,
            Err(_) => String::from_str(default),
        }
    }

    /// The truth value stored under `key`: a boolean, or a string spelling
    /// one (see `truth_of`). `MissingConfig` when there is none, else
    /// `ConfigError`.
    pub fn get_bool(&self, key: &str) -> (r: Result<bool, OxiError>)
        ensures
            config_get(self.values@, key@) is None ==> (r matches Err(e) && e matches OxiError::MissingConfig(k) && k@ == key@),
            config_get(self.values@, key@) matches Some(JsonValue::Bool(b)) ==> r == Ok::<bool, OxiError>(b),
            config_get(self.values@, key@) matches Some(JsonValue::Str(s)) ==> match truth_of(s@) {
                Some(b) => r == Ok::<bool, OxiError>(b),
                None => r matches Err(e) && e is ConfigError,
            },
            config_get(self.values@, key@) matches Some(v) && !(v is Str) && !(v is Bool) ==> (r matches Err(e) && e is ConfigError),
    {
        proof {
            reveal_strlit("true");
            reveal_strlit("yes");
            reveal_strlit("1");
            reveal_strlit("false");
            reveal_strlit("no");
            reveal_strlit("0");
        }
        match self.get_structured(key) {
            Ok(JsonValue::Bool(b)) => Ok(*b),
            Ok(JsonValue::Str(s)) => {
                let t = s.as_str();
                if is_word(t, "true") || is_word(t, "yes") || is_word(t, "1") {
                    Ok(true)
                } else if is_word(t, "false") || is_word(t, "no") || is_word(t, "0") {
                    Ok(false)
                } else {
                    Err(wrong_type(key))
                }
            },
            Ok(_) => Err(wrong_type(key)),
            Err(e) => Err(e),
        }
    }

    /// The truth value stored under `key`, else `default`.
    pub fn get_bool_or(&self, key: &str, default: bool) -> (r: bool)
        ensures
            config_get(self.values@, key@) matches Some(JsonValue::Bool(b)) ==> r == b,
            config_get(self.values@, key@) matches Some(JsonValue::Str(s)) ==> r == match truth_of(s@) {
                Some(b) => b,
                None => default,
            },
            !(config_get(self.values@, key@) matches Some(JsonValue::Bool(_))) && !(config_get(self.values@, key@) matches Some(JsonValue::Str(_))) ==> r == default,
    {
        match self.get_bool(key) {
            Ok(b) => b,
            Err(_) => default,
        }
    }

    /// The integer stored under `key`: a number whose text is an integer
    /// within `i64`. `MissingConfig` when there is none, else `ConfigError`.
    pub fn get_i64(&self, key: &str) -> (r: Result<i64, OxiError>)
        ensures
            config_get(self.values@, key@) is None ==> (r matches Err(e) && e matches OxiError::MissingConfig(k) && k@ == key@),
            config_get(self.values@, key@) matches Some(JsonValue::Number(t)) ==> match integer_of(t@) {
                Some(n) => r == Ok::<i64, OxiError>(n),
                None => r matches Err(e) && e is ConfigError,
            },
            config_get(self.values@, key@) matches Some(v) && !(v is Number) ==> (r matches Err(e) && e is ConfigError),
    {
        match self.get_structured(key) {
            Ok(JsonValue::Number(t)) => match parse_integer(t.as_str()) {
                Some(n) => Ok(n),
                None => Err(wrong_type(key)),
            },
            Ok(_) => Err(wrong_type(key)),
            Err(e) => Err(e),
        }
    }

    /// The integer stored under `key`, else `default`.
    pub fn get_i64_or(&self, key: &str, default: i64) -> (r: i64)
        ensures
            (config_get(self.values@, key@) matches Some(JsonValue::Number(t)) && integer_of(t@) is Some) ==> r == integer_of(config_get(self.values@, key@)->0->Number_0@)->0,
            !(config_get(self.values@, key@) matches Some(JsonValue::Number(t)) && integer_of(t@) is Some) ==> r == default,
    {
        match self.get_i64(key) {
            Ok(n) => n,
            Err(_) => default,
        }
    }

    /// The sequence stored under `key`; `MissingConfig` when there is none,
    /// `ConfigError` when the value is not a sequence.
    pub fn get_sequence(&self, key: &str) -> (r: Result<&Vec<JsonValue>, OxiError>)
        ensures
            config_get(self.values@, key@) is None ==> (r matches Err(e) && e matches OxiError::MissingConfig(k) && k@ == key@),
            config_get(self.values@, key@) matches Some(JsonValue::Array(xs)) ==> (r matches Ok(ys) && *ys == xs),
            config_get(self.values@, key@) matches Some(v) && !(v is Array) ==> (r matches Err(e) && e is ConfigError),
    {
        match self.get_structured(key) {
            Ok(JsonValue::Array(xs)) => Ok(xs),
            Ok(_) => Err(wrong_type(key)),
            Err(e) => Err(e),
        }
    }

    /// Stores `value` under `key`, replacing what was there.
    pub fn set(&mut self, key: String, value: JsonValue)
        ensures
            config_get(final(self).values@, key@) == Some(value),
    {
        match self.find(key.as_str()) {
            Some(i) => {
                let ghost old_values = self.values@;
                let ghost k = key@;
                proof {
                    lemma_key_position_bounds(old_values, k, 0);
                }
                self.values.set(i, (key, value));
                proof {
                    assert(self.values@[i as int].0@ == old_values[i as int].0@);
                    lemma_key_position_update(old_values, self.values@, k, 0, i as int);
                }
            },
            None => {
                let ghost old_values = self.values@;
                let ghost k = key@;
                proof {
                    lemma_key_position_bounds(old_values, k, 0);
                }
                self.values.push((key, value));
                proof {
                    lemma_key_position_push(old_values, self.values@, k, 0);
                }
            },
        }
    }
}

proof fn lemma_key_position_bounds(v: Seq<(String, JsonValue)>, k: Seq<char>, i: int)
    requires
        0 <= i <= v.len(),
    ensures
        i <= key_position(v, k, i) <= v.len(),
        key_position(v, k, i) < v.len() ==> v[key_position(v, k, i)].0@ == k,
    decreases v.len() - i,
{
    if i < v.len() && v[i].0@ != k {
        lemma_key_position_bounds(v, k, i + 1);
    }
}

proof fn lemma_key_position_update(a: Seq<(String, JsonValue)>, b: Seq<(String, JsonValue)>, k: Seq<char>, i: int, at: int)
    requires
        0 <= i <= at < a.len(),
        a.len() == b.len(),
        forall|j: int| 0 <= j < a.len() ==> #[trigger] b[j].0@ == a[j].0@,
        key_position(a, k, i) == at,
        a[at].0@ == k,
    ensures
        key_position(b, k, i) == at,
    decreases at - i,
{
    if i < at {
        lemma_key_position_update(a, b, k, i + 1, at);
    }
}

proof fn lemma_key_position_push(a: Seq<(String, JsonValue)>, b: Seq<(String, JsonValue)>, k: Seq<char>, i: int)
    requires
        0 <= i <= a.len(),
        b.len() == a.len() + 1,
        forall|j: int| 0 <= j < a.len() ==> #[trigger] b[j] == a[j],
        b[a.len() as int].0@ == k,
        key_position(a, k, i) == a.len(),
    ensures
        key_position(b, k, i) == a.len(),
    decreases a.len() - i,
{
    if i < a.len() {
        lemma_key_position_push(a, b, k, i + 1);
    }
}

/// Every configuration value of `step` resolves.
pub open spec fn step_config_resolves(step: PipelineStep, r: ConfigResolver) -> bool {
    forall|i: int| 0 <= i < step.config@.len() ==> all_resolve(#[trigger] step.config@[i].1, r.env_view(), r.outputs_view())
}

impl PipelineStep {
    /// The stage configuration of this step: each value resolved against
    /// `resolver`, keys kept in order. A value that does not resolve fails
    /// the step with `ConfigError`.
    pub fn to_oxi_config(&self, resolver: &ConfigResolver) -> (r: Result<OxiConfig, OxiError>)
        ensures
            r is Ok <==> step_config_resolves(*self, *resolver),
            r matches Err(e) ==> e is ConfigError,
            r matches Ok(c) ==> c.values@.len() == self.config@.len() && forall|i: int|
                0 <= i < self.config@.len() ==> #[trigger] c.values@[i].0@ == self.config@[i].0@
                    && resolves_to(self.config@[i].1, c.values@[i].1, resolver.env_view(), resolver.outputs_view()),
    {
        let mut values: Vec<(String, JsonValue)> = Vec::new();
        let mut i: usize = 0;
        while i < self.config.len()
            invariant
                i <= self.config@.len(),
                values@.len() == i,
                forall|k: int| 0 <= k < i ==> all_resolve(#[trigger] self.config@[k].1, resolver.env_view(), resolver.outputs_view()),
                forall|k: int| 0 <= k < i ==> #[trigger] values@[k].0@ == self.config@[k].0@
                    && resolves_to(self.config@[k].1, values@[k].1, resolver.env_view(), resolver.outputs_view()),
            decreases self.config@.len() - i,
        {
            match resolver.resolve_value(&self.config[i].1) {
                Ok(v) => {
                    values.push((self.config[i].0.clone(), v));
                },
                Err(e) => {
                    return Err(resolve_error_to_oxi(e));
                },
            }
            i = i + 1;
        }
        Ok(OxiConfig { values })
    }
}

/// The runtime error that a failed resolution surfaces as: `ConfigError`,
/// naming the variable, step, segment or path concerned.
pub fn resolve_error_to_oxi(e: ResolveError) -> (r: OxiError)
    ensures
        r is ConfigError,
{
    let mut m = String::from_str("Cannot resolve reference: ");
    m.append(e.subject.as_str());
    OxiError::ConfigError(m)
}

} // verus!
