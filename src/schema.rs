//! Schemas attached to envelopes: a description of each top-level field,
//! inferred from data or supplied, and carried from stage to stage by each
//! stage's strategy.
use vstd::prelude::*;
use crate::config::{OxiError, config_get, integer_of, lookup_value, parse_integer};
use crate::project::{occurs_in, text_occurs};
use crate::json_text::{json_text, to_json_text};
use crate::data::{Data, JsonValue, SchemaStrategy};

verus! {

/// The type of a field.
#[derive(Debug, Clone, Copy, PartialEq, Eq, Structural)]
pub enum FieldType {
    String,
    Integer,
    Decimal,
    Boolean,
    DateTime,
    Binary,
    Array,
    Object,
    Unknown,
    Mixed,
}

/// A rule on the values of a field.
#[derive(Debug, Clone)]
pub enum FieldConstraint {
    /// A string has at least this many characters.
    MinLength(usize),
    /// A string has at most this many characters.
    MaxLength(usize),
    /// A string contains this text.
    Pattern(String),
    /// The value is one of these, each given as its compact JSON text.
    OneOf(Vec<String>),
    /// A rule checked elsewhere, by name.
    Custom { name: String, rule: String },
}

/// The description of one field.
#[derive(Debug, Clone)]
pub struct FieldSchema {
    pub field_type: FieldType,
    pub nullable: bool,
    pub max_size: Option<usize>,
    pub description: Option<String>,
    pub constraints: Vec<FieldConstraint>,
    /// Sample values, each as its compact JSON text.
    pub examples: Vec<String>,
}

/// The name of "this text is an RFC 3339 date and time".
pub uninterp spec fn is_rfc3339(s: Seq<char>) -> bool;

/// Relies on `chrono::DateTime::parse_from_rfc3339`: whether the text parses
/// as an RFC 3339 date and time, which depends on the text alone.
#[verifier::external_body]
fn parses_as_rfc3339(s: &str) -> (r: bool)
    ensures
        r == is_rfc3339(s@),
{
    chrono::DateTime::parse_from_rfc3339(s).is_ok()
}

/// A value fits a field type: strings for strings, date-times (RFC 3339)
/// and binary (base64 text); numbers whose text is an `i64` for integers,
/// any number for decimals; booleans, arrays and objects for their kinds;
/// anything for unknown and mixed.
pub open spec fn fits_type(t: FieldType, v: JsonValue) -> bool {
    match t {
        FieldType::String => v is Str,
        FieldType::Integer => v matches JsonValue::Number(n) && integer_of(n@) is Some,
        FieldType::Decimal => v is Number,
        FieldType::Boolean => v is Bool,
        FieldType::DateTime => v matches JsonValue::Str(s) && is_rfc3339(s@),
        FieldType::Binary => v is Str,
        FieldType::Array => v is Array,
        FieldType::Object => v is Object,
        FieldType::Unknown => true,
        FieldType::Mixed => true,
    }
}

/// A value meets a constraint; constraints on strings pass other values.
pub open spec fn meets(c: FieldConstraint, v: JsonValue) -> bool {
    match (c, v) {
        (FieldConstraint::MinLength(n), JsonValue::Str(s)) => s@.len() >= n,
        (FieldConstraint::MaxLength(n), JsonValue::Str(s)) => s@.len() <= n,
        (FieldConstraint::Pattern(p), JsonValue::Str(s)) => occurs_in(s@, p@),
        (FieldConstraint::OneOf(allowed), v) => exists|i: int| 0 <= i < allowed@.len() && #[trigger] allowed@[i]@ == json_text(v),
        _ => true,
    }
}

/// A value is acceptable for a field: null where the field is nullable, or
/// a value of the field's type that meets every constraint.
pub open spec fn acceptable(f: FieldSchema, v: JsonValue) -> bool {
    if v is Null {
        f.nullable
    } else {
        fits_type(f.field_type, v) && forall|i: int| 0 <= i < f.constraints@.len() ==> meets(#[trigger] f.constraints@[i], v)
    }
}

impl FieldType {
    /// Whether `value` fits this type; see `fits_type`.
    pub fn matches_value(&self, value: &JsonValue) -> (r: bool)
        ensures
            r == fits_type(*self, *value),
    {
        match self {
            FieldType::String => matches!(value, JsonValue::Str(_)),
            FieldType::Integer => match value {
                JsonValue::Number(n) => parse_integer(n.as_str()).is_some(),
                _ => false,
            },
            FieldType::Decimal => matches!(value, JsonValue::Number(_)),
            FieldType::Boolean => matches!(value, JsonValue::Bool(_)),
            FieldType::DateTime => match value {
                JsonValue::Str(s) => parses_as_rfc3339(s.as_str()),
                _ => false,
            },
            FieldType::Binary => matches!(value, JsonValue::Str(_)),
            FieldType::Array => matches!(value, JsonValue::Array(_)),
            FieldType::Object => matches!(value, JsonValue::Object(_)),
            FieldType::Unknown => true,
            FieldType::Mixed => true,
        }
    }
}

impl FieldConstraint {
    /// Whether `value` meets this constraint; see `meets`.
    pub fn check(&self, value: &JsonValue) -> (r: bool)
        ensures
            r == meets(*self, *value),
    {
        match (self, value) {
            (FieldConstraint::MinLength(n), JsonValue::Str(s)) => s.unicode_len() >= *n,
            (FieldConstraint::MaxLength(n), JsonValue::Str(s)) => s.unicode_len() <= *n,
            (FieldConstraint::Pattern(p), JsonValue::Str(s)) => text_occurs(s.as_str(), p.as_str()),
            (FieldConstraint::OneOf(allowed), v) => {
                let text = to_json_text(v);
                let mut i: usize = 0;
                while i < allowed.len()
                    invariant
                        i <= allowed@.len(),
                        text@ == json_text(*v),
                        *self is OneOf,
                        self->OneOf_0 == *allowed,
                        *v == *value,
                        forall|k: int| 0 <= k < i ==> #[trigger] allowed@[k]@ != json_text(*v),
                    decreases allowed@.len() - i,
                {
                    if allowed[i].eq(&text) {
                        proof {
                            assert(0 <= i < allowed@.len() && allowed@[i as int]@ == json_text(*value));
                        }
                        return true;
                    }
                    i = i + 1;
                }
                false
            },
            _ => true,
        }
    }
}

fn invalid(path: &str, what: &str) -> (r: OxiError)
    ensures
        r is ValidationError,
{
    let mut m = String::from_str("Field '");
    m.append(path);
    m.append(what);
    OxiError::ValidationError { details: m }
}

impl FieldSchema {
    /// A non-nullable field of `field_type` with no constraints or examples.
    pub fn new(field_type: FieldType) -> (r: FieldSchema)
        ensures
            r.field_type == field_type,
            !r.nullable,
            r.max_size is None,
            r.description is None,
            r.constraints@.len() == 0,
            r.examples@.len() == 0,
    {
        FieldSchema {
            field_type,
            nullable: false,
            max_size: None,
            description: None,
            constraints: Vec::new(),
            examples: Vec::new(),
        }
    }

    /// Checks `value`, found at `path`: `Ok` exactly when it is acceptable
    /// (see `acceptable`), else a `ValidationError`.
    pub fn validate_value(&self, value: &JsonValue, path: &str) -> (r: Result<(), OxiError>)
        ensures
            r is Ok <==> acceptable(*self, *value),
            r matches Err(e) ==> e is ValidationError,
    {
        if matches!(value, JsonValue::Null) {
            if self.nullable {
                return Ok(());
            }
            return Err(invalid(path, "' cannot be null"));
        }
        if !self.field_type.matches_value(value) {
            return Err(invalid(path, "' has the wrong type"));
        }
        let mut i: usize = 0;
        while i < self.constraints.len()
            invariant
                i <= self.constraints@.len(),
                !(*value is Null),
                fits_type(self.field_type, *value),
                forall|k: int| 0 <= k < i ==> meets(#[trigger] self.constraints@[k], *value),
            decreases self.constraints@.len() - i,
        {
            if !self.constraints[i].check(value) {
                proof {
                    assert(!meets(self.constraints@[i as int], *value));
                }
                return Err(invalid(path, "' breaks a constraint"));
            }
            i = i + 1;
        }
        Ok(())
    }
}

/// A schema: one description per field name.
#[derive(Debug, Clone)]
pub struct OxiSchema {
    pub fields: Vec<(String, FieldSchema)>,
}

/// The field type of a JSON value: numbers are integers when their text is
/// an `i64`, null counts as a string.
pub open spec fn type_of_value(v: JsonValue) -> FieldType {
    match v {
        JsonValue::Str(_) => FieldType::String,
        JsonValue::Number(t) => if integer_of(t@) is Some { FieldType::Integer } else { FieldType::Decimal },
        JsonValue::Bool(_) => FieldType::Boolean,
        JsonValue::Array(_) => FieldType::Array,
        JsonValue::Object(_) => FieldType::Object,
        JsonValue::Null => FieldType::String,
    }
}

/// The fields inferred from a JSON document, as (name, type, nullable): an
/// object gives one per member, an array those of its first item, a scalar
/// one field named `value`.
pub open spec fn inferred_fields(v: JsonValue) -> Seq<(Seq<char>, FieldType, bool)>
    decreases v,
{
    match v {
        JsonValue::Object(fields) => Seq::new(
            fields@.len(),
            |i: int| (fields@[i].0@, type_of_value(fields@[i].1), fields@[i].1 is Null),
        ),
        JsonValue::Array(items) => if items@.len() > 0 {
            inferred_fields(items@[0])
        } else {
            Seq::empty()
        },
        _ => seq![("value"@, type_of_value(v), v is Null)],
    }
}

/// The view of a schema's fields as (name, type, nullable).
pub open spec fn schema_fields(s: OxiSchema) -> Seq<(Seq<char>, FieldType, bool)> {
    s.fields@.map_values(|f: (String, FieldSchema)| (f.0@, f.1.field_type, f.1.nullable))
}

/// The fields inferred from a payload: a JSON document's, one string
/// `value` for text, one binary `data` for bytes, none for `Empty`.
pub open spec fn data_fields(d: Data) -> Seq<(Seq<char>, FieldType, bool)> {
    match d {
        Data::Json(v) => inferred_fields(v),
        Data::Text(_) => seq![("value"@, FieldType::String, false)],
        Data::Binary(_) => seq![("data"@, FieldType::Binary, false)],
        Data::Empty => Seq::empty(),
    }
}

/// An inferred field describes member `m`.
pub open spec fn field_matches(f: (String, FieldSchema), m: (String, JsonValue)) -> bool {
    &&& f.0@ == m.0@
    &&& f.1.field_type == type_of_value(m.1)
    &&& f.1.nullable == (m.1 is Null)
    &&& f.1.examples@.len() == 1
    &&& f.1.examples@[0]@ == json_text(m.1)
}

fn value_type(v: &JsonValue) -> (r: FieldType)
    ensures
        r == type_of_value(*v),
{
    match v {
        JsonValue::Str(_) => FieldType::String,
        JsonValue::Number(t) => if parse_integer(t.as_str()).is_some() {
            FieldType::Integer
        } else {
            FieldType::Decimal
        },
        JsonValue::Bool(_) => FieldType::Boolean,
        JsonValue::Array(_) => FieldType::Array,
        JsonValue::Object(_) => FieldType::Object,
        JsonValue::Null => FieldType::String,
    }
}

fn field(field_type: FieldType, nullable: bool, description: Option<String>, examples: Vec<String>) -> (r: FieldSchema)
    ensures
        r.examples == examples,
        r.field_type == field_type,
        r.nullable == nullable,
        r.max_size is None,
        r.description == description,
        r.constraints@.len() == 0,
{
    FieldSchema { field_type, nullable, max_size: None, description, constraints: Vec::new(), examples }
}

impl OxiSchema {
    /// The schema with no fields.
    pub fn empty() -> (r: OxiSchema)
        ensures
            r.fields@.len() == 0,
    {
        OxiSchema { fields: Vec::new() }
    }

    /// The schema inferred from a JSON document; see `inferred_fields`.
    pub fn infer_from_json_value(value: &JsonValue) -> (r: OxiSchema)
        ensures
            schema_fields(r) == inferred_fields(*value),
        decreases value,
    {
        proof {
            reveal_strlit("value");
        }
        match value {
            JsonValue::Object(members) => {
                let mut fields: Vec<(String, FieldSchema)> = Vec::new();
                let mut i: usize = 0;
                while i < members.len()
                    invariant
                        i <= members@.len(),
                        fields@.len() == i,
                        forall|k: int| 0 <= k < i ==> field_matches(#[trigger] fields@[k], members@[k]),
                    decreases members@.len() - i,
                {
                    let v = &members[i].1;
                    let nullable = match v {
                        JsonValue::Null => true,
                        _ => false,
                    };
                    let name = members[i].0.clone();
                    let ghost before = fields@;
                    let mut samples: Vec<String> = Vec::new();
                    samples.push(to_json_text(v));
                    fields.push((name, field(value_type(v), nullable, None, samples)));
                    proof {
                        assert(forall|k: int| 0 <= k < i ==> #[trigger] fields@[k] == before[k]);
                        assert(field_matches(fields@[i as int], members@[i as int]));
                    }
                    i = i + 1;
                }
                let r = OxiSchema { fields };
                assert(schema_fields(r) =~= inferred_fields(*value));
                r
            },
            JsonValue::Array(items) => {
                if items.len() > 0 {
                    proof {
                        assert(decreases_to!(*value => value->Array_0));
                        assert(decreases_to!(value->Array_0 => items@[0]));
                    }
                    Self::infer_from_json_value(&items[0])
                } else {
                    let r = Self::empty();
                    assert(schema_fields(r) =~= inferred_fields(*value));
                    r
                }
            },
            _ => {
                let nullable = matches!(value, JsonValue::Null);
                let mut fields: Vec<(String, FieldSchema)> = Vec::new();
                fields.push((String::from_str("value"), field(value_type(value), nullable, Some(String::from_str("Inferred value field")), {
                    let mut samples: Vec<String> = Vec::new();
                    samples.push(to_json_text(value));
                    samples
                })));
                let r = OxiSchema { fields };
                assert(schema_fields(r) =~= inferred_fields(*value));
                r
            },
        }
    }

    /// The schema inferred from a payload; see `data_fields`.
    pub fn infer_from_data(data: &Data) -> (r: OxiSchema)
        ensures
            schema_fields(r) == data_fields(*data),
    {
        proof {
            reveal_strlit("value");
            reveal_strlit("data");
        }
        match data {
            Data::Json(v) => Self::infer_from_json_value(v),
            Data::Text(_) => {
                let mut fields: Vec<(String, FieldSchema)> = Vec::new();
                fields.push((String::from_str("value"), field(FieldType::String, false, Some(String::from_str("Text content")), Vec::new())));
                let r = OxiSchema { fields };
                assert(schema_fields(r) =~= data_fields(*data));
                r
            },
            Data::Binary(_) => {
                let mut fields: Vec<(String, FieldSchema)> = Vec::new();
                fields.push((String::from_str("data"), field(FieldType::Binary, false, Some(String::from_str("Binary content")), Vec::new())));
                let r = OxiSchema { fields };
                assert(schema_fields(r) =~= data_fields(*data));
                r
            },
            Data::Empty => {
                let r = Self::empty();
                assert(schema_fields(r) =~= data_fields(*data));
                r
            },
        }
    }

    /// The schema of a stage's output: the input schema for `Passthrough`
    /// and `Modify` (a stage that modifies supplies its own through its
    /// output), the one inferred from the output for `Infer`.
    pub fn propagate(strategy: &SchemaStrategy, input: OxiSchema, output: &Data) -> (r: OxiSchema)
        ensures
            !(*strategy is Infer) ==> r == input,
            *strategy is Infer ==> schema_fields(r) == data_fields(*output),
    {
        match strategy {
            SchemaStrategy::Infer => Self::infer_from_data(output),
            _ => input,
        }
    }
}

/// The position of the first field named `name` from `k` on, else the length.
pub open spec fn field_named(fields: Seq<(String, FieldSchema)>, name: Seq<char>, k: int) -> int
    decreases fields.len() - k,
{
    if k < 0 || k >= fields.len() {
        fields.len() as int
    } else if fields[k].0@ == name {
        k
    } else {
        field_named(fields, name, k + 1)
    }
}

/// Every field of the schema is acceptable in an object with these
/// members: present ones by value, absent ones only when nullable.
pub open spec fn object_conforms(fields: Seq<(String, FieldSchema)>, members: Seq<(String, JsonValue)>) -> bool {
    forall|i: int| 0 <= i < fields.len() ==> match #[trigger] config_get(members, fields[i].0@) {
        Some(v) => acceptable(fields[i].1, v),
        None => fields[i].1.nullable,
    }
}

/// A JSON document conforms to a schema: an object field by field, an
/// array item by item, a scalar through the schema's `value` field.
pub open spec fn conforms(fields: Seq<(String, FieldSchema)>, v: JsonValue) -> bool
    decreases v, 1nat,
{
    match v {
        JsonValue::Object(members) => object_conforms(fields, members@),
        JsonValue::Array(items) => items_conform(fields, items@, items@.len() as int),
        _ => {
            let k = field_named(fields, "value"@, 0);
            0 <= k < fields.len() && acceptable(fields[k].1, v)
        },
    }
}

/// The first `n` items conform.
pub open spec fn items_conform(fields: Seq<(String, FieldSchema)>, items: Seq<JsonValue>, n: int) -> bool
    decreases items, 0nat, n,
{
    if n <= 0 || n > items.len() {
        true
    } else {
        items_conform(fields, items, n - 1) && conforms(fields, items[n - 1])
    }
}

/// A payload conforms to a schema: JSON by `conforms`, text to a schema of
/// one `value` field, bytes to one of one `data` field, and `Empty` always.
pub open spec fn data_conforms(fields: Seq<(String, FieldSchema)>, d: Data) -> bool {
    match d {
        Data::Json(v) => conforms(fields, v),
        Data::Text(_) => fields.len() == 1 && fields[0].0@ == "value"@,
        Data::Binary(_) => fields.len() == 1 && fields[0].0@ == "data"@,
        Data::Empty => true,
    }
}

proof fn lemma_items_conform_at(fields: Seq<(String, FieldSchema)>, items: Seq<JsonValue>, n: int, k: int)
    requires
        0 <= k < n <= items.len(),
        items_conform(fields, items, n),
    ensures
        conforms(fields, items[k]),
    decreases n,
{
    if k < n - 1 {
        lemma_items_conform_at(fields, items, n - 1, k);
    }
}

fn find_field(fields: &Vec<(String, FieldSchema)>, name: &str) -> (r: Option<usize>)
    ensures
        r is None <==> !(0 <= field_named(fields@, name@, 0) < fields@.len()),
        r matches Some(i) ==> i == field_named(fields@, name@, 0),
{
    let key = String::from_str(name);
    let mut i: usize = 0;
    while i < fields.len()
        invariant
            i <= fields@.len(),
            key@ == name@,
            field_named(fields@, name@, 0) == field_named(fields@, name@, i as int),
        decreases fields@.len() - i,
    {
        if fields[i].0.eq(&key) {
            return Some(i);
        }
        i = i + 1;
    }
    None
}

impl OxiSchema {
    /// Checks a JSON document against the schema: `Ok` exactly when it
    /// conforms (see `conforms`), else a `ValidationError`.
    pub fn validate_json_value(&self, value: &JsonValue) -> (r: Result<(), OxiError>)
        ensures
            r is Ok <==> conforms(self.fields@, *value),
            r matches Err(e) ==> e is ValidationError,
        decreases value,
    {
        proof {
            reveal_strlit("value");
        }
        match value {
            JsonValue::Object(members) => {
                let mut i: usize = 0;
                while i < self.fields.len()
                    invariant
                        i <= self.fields@.len(),
                        *value is Object,
                        value->Object_0 == *members,
                        forall|k: int| 0 <= k < i ==> match #[trigger] config_get(members@, self.fields@[k].0@) {
                            Some(v) => acceptable(self.fields@[k].1, v),
                            None => self.fields@[k].1.nullable,
                        },
                    decreases self.fields@.len() - i,
                {
                    let name = self.fields[i].0.as_str();
                    match lookup_value(members, name) {
                        Some(v) => {
                            let checked = self.fields[i].1.validate_value(v, name);
                            if checked.is_err() {
                                proof {
                                    assert(!acceptable(self.fields@[i as int].1, config_get(members@, self.fields@[i as int].0@)->0));
                                }
                                return checked;
                            }
                        },
                        None => {
                            if !self.fields[i].1.nullable {
                                proof {
                                    assert(config_get(members@, self.fields@[i as int].0@) is None);
                                }
                                return Err(invalid(name, "' is required but missing"));
                            }
                        },
                    }
                    i = i + 1;
                }
                Ok(())
            },
            JsonValue::Array(items) => {
                let mut i: usize = 0;
                while i < items.len()
                    invariant
                        i <= items@.len(),
                        *value is Array,
                        value->Array_0 == *items,
                        items_conform(self.fields@, items@, i as int),
                    decreases items@.len() - i,
                {
                    proof {
                        assert(decreases_to!(*value => value->Array_0));
                        assert(decreases_to!(*items => items@[i as int]));
                    }
                    let checked = self.validate_json_value(&items[i]);
                    if checked.is_err() {
                        proof {
                            if conforms(self.fields@, *value) {
                                lemma_items_conform_at(self.fields@, items@, items@.len() as int, i as int);
                            }
                        }
                        return checked;
                    }
                    i = i + 1;
                }
                Ok(())
            },
            _ => match find_field(&self.fields, "value") {
                Some(k) => self.fields[k].1.validate_value(value, "value"),
                None => Err(invalid("value", "' is expected for a single value")),
            },
        }
    }

    /// Checks a payload against the schema: `Ok` exactly when it conforms
    /// (see `data_conforms`), else a `ValidationError`.
    pub fn validate_data(&self, data: &Data) -> (r: Result<(), OxiError>)
        ensures
            r is Ok <==> data_conforms(self.fields@, *data),
            r matches Err(e) ==> e is ValidationError,
    {
        proof {
            reveal_strlit("value");
            reveal_strlit("data");
        }
        match data {
            Data::Json(v) => self.validate_json_value(v),
            Data::Text(_) => {
                if self.fields.len() == 1 && self.fields[0].0.eq(&String::from_str("value")) {
                    Ok(())
                } else {
                    Err(invalid("value", "' is the one field a text payload has"))
                }
            },
            Data::Binary(_) => {
                if self.fields.len() == 1 && self.fields[0].0.eq(&String::from_str("data")) {
                    Ok(())
                } else {
                    Err(invalid("data", "' is the one field a binary payload has"))
                }
            },
            Data::Empty => Ok(()),
        }
    }
}

} // verus!
