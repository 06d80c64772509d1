//! The typed data envelope that flows between stages, and the resource
//! limits that a stage declares for its input.
use vstd::prelude::*;
use vstd::utf8::encode_utf8;
use crate::json_text::{json_text, to_json_text};

verus! {

/// A JSON document. A number is kept as its literal text.
#[derive(Debug)]
pub enum JsonValue {
    Null,
    Bool(bool),
    Number(String),
    Str(String),
    Array(Vec<JsonValue>),
    Object(Vec<(String, JsonValue)>),
}

/// The payload of an envelope.
#[derive(Debug)]
pub enum Data {
    Json(JsonValue),
    Text(String),
    Binary(Vec<u8>),
    Empty,
}

/// The variant of a payload.
#[derive(Debug, Clone, Copy, PartialEq, Eq, Structural)]
pub enum OxiDataType {
    Json,
    Text,
    Binary,
    Empty,
}

/// How a stage derives its output schema from its input schema.
#[derive(Debug, Clone)]
pub enum SchemaStrategy {
    Passthrough,
    Modify { description: String },
    Infer,
}

/// The resource limits that a stage declares for its input.
#[derive(Debug, Clone)]
pub struct ProcessingLimits {
    pub max_batch_size: Option<usize>,
    pub max_memory_mb: Option<usize>,
    pub max_processing_time_ms: Option<u64>,
    pub supported_input_types: Vec<OxiDataType>,
}

/// Why an input was refused before processing.
#[derive(Debug, Clone, PartialEq, Eq)]
pub enum LimitViolation {
    UnsupportedInputType { actual: OxiDataType },
    MemoryLimitExceeded { estimated_bytes: u64, max_memory_mb: usize },
    BatchSizeExceeded { batch_size: usize, max_batch_size: usize },
}

/// One mebibyte.
pub const BYTES_PER_MB: usize = 1048576;

/// The variant of a payload.
pub open spec fn data_type_of(d: Data) -> OxiDataType {
    match d {
        Data::Json(_) => OxiDataType::Json,
        Data::Text(_) => OxiDataType::Text,
        Data::Binary(_) => OxiDataType::Binary,
        Data::Empty => OxiDataType::Empty,
    }
}

/// `n`, or `cap` where `n` exceeds it.
pub open spec fn capped(n: nat, cap: nat) -> nat {
    if n > cap { cap } else { n }
}

/// The estimated memory that processing a payload takes, in bytes, up to
/// the largest `u64`: the UTF-8 bytes of a text, twice those of a JSON
/// document's compact text, the bytes of binary data.
pub open spec fn memory_estimate(d: Data) -> nat {
    match d {
        Data::Json(v) => capped(2 * encode_utf8(json_text(v)).len(), u64::MAX as nat),
        Data::Text(t) => encode_utf8(t@).len(),
        Data::Binary(b) => b@.len(),
        Data::Empty => 0,
    }
}

/// The number of records in a payload: the length of a JSON array, else one.
pub open spec fn batch_size_of(d: Data) -> nat {
    match d {
        Data::Json(JsonValue::Array(items)) => items@.len(),
        _ => 1,
    }
}

/// The records of a payload seen as an array: a JSON array gives its items,
/// any other JSON document the one-item sequence of itself; other payloads
/// have none.
pub open spec fn coerced(d: Data) -> Option<Seq<JsonValue>> {
    match d {
        Data::Json(JsonValue::Array(items)) => Some(items@),
        Data::Json(v) => Some(seq![v]),
        _ => None,
    }
}

/// The payload is a JSON array.
pub open spec fn is_json_array(d: Data) -> bool {
    d matches Data::Json(JsonValue::Array(_))
}

/// The verdict of the checks made before a stage processes `d`.
pub open spec fn limits_verdict(l: ProcessingLimits, d: Data) -> Option<LimitViolation> {
    if !l.supported_input_types@.contains(data_type_of(d)) {
        Some(LimitViolation::UnsupportedInputType { actual: data_type_of(d) })
    } else if l.max_memory_mb is Some && memory_estimate(d) > l.max_memory_mb->0 * BYTES_PER_MB {
        Some(
            LimitViolation::MemoryLimitExceeded {
                estimated_bytes: memory_estimate(d) as u64,
                max_memory_mb: l.max_memory_mb->0,
            },
        )
    } else if l.max_batch_size is Some && is_json_array(d) && batch_size_of(d) > l.max_batch_size->0 {
        Some(
            LimitViolation::BatchSizeExceeded {
                batch_size: batch_size_of(d) as usize,
                max_batch_size: l.max_batch_size->0,
            },
        )
    } else {
        None
    }
}

/// The envelope passed between stages: a payload and its schema.
#[derive(Debug)]
pub struct OxiData {
    pub data: Data,
    pub schema: crate::schema::OxiSchema,
}

fn add_capped(a: u64, b: u64) -> (r: u64)
    ensures
        r == capped((a + b) as nat, u64::MAX as nat),
{
    if a > u64::MAX - b {
        u64::MAX
    } else {
        a + b
    }
}

impl Data {
    /// The empty payload.
    pub fn empty() -> (r: Data)
        ensures
            r is Empty,
    {
        Data::Empty
    }

    /// A text payload.
    pub fn from_text(text: &str) -> (r: Data)
        ensures
            r matches Data::Text(t) && t@ == text@,
    {
        Data::Text(String::from_str(text))
    }

    /// A JSON payload.
    pub fn from_json(value: JsonValue) -> (r: Data)
        ensures
            r == Data::Json(value),
    {
        Data::Json(value)
    }

    /// A binary payload.
    pub fn from_binary(bytes: Vec<u8>) -> (r: Data)
        ensures
            r == Data::Binary(bytes),
    {
        Data::Binary(bytes)
    }

    /// The payload is `Empty`.
    pub fn is_empty(&self) -> (r: bool)
        ensures
            r == (*self is Empty),
    {
        matches!(self, Data::Empty)
    }

    /// The variant of the payload.
    pub fn get_data_type(&self) -> (r: OxiDataType)
        ensures
            r == data_type_of(*self),
    {
        match self {
            Data::Json(_) => OxiDataType::Json,
            Data::Text(_) => OxiDataType::Text,
            Data::Binary(_) => OxiDataType::Binary,
            Data::Empty => OxiDataType::Empty,
        }
    }

    /// The payload is a JSON array of more than one record.
    pub fn is_batch(&self) -> (r: bool)
        ensures
            r == (is_json_array(*self) && batch_size_of(*self) > 1),
    {
        match self {
            Data::Json(JsonValue::Array(items)) => items.len() > 1,
            _ => false,
        }
    }

    /// The number of records: the length of a JSON array, else one.
    pub fn batch_size(&self) -> (r: usize)
        ensures
            r == batch_size_of(*self),
    {
        match self {
            Data::Json(JsonValue::Array(items)) => items.len(),
            _ => 1,
        }
    }

    /// The estimated memory that processing the payload takes, in bytes.
    pub fn estimated_memory_usage(&self) -> (r: u64)
        ensures
            r == memory_estimate(*self),
    {
        match self {
            Data::Json(v) => {
                let t = to_json_text(v);
                let n = t.as_str().as_bytes().len() as u64;
                add_capped(n, n)
            },
            Data::Text(t) => t.as_str().as_bytes().len() as u64,
            Data::Binary(b) => b.len() as u64,
            Data::Empty => 0,
        }
    }

    /// The payload as a sequence of records: a JSON array gives its items, any
    /// other JSON document a one-item sequence of itself. Other payloads are
    /// refused, and handed back.
    pub fn into_array(self) -> (r: Result<Vec<JsonValue>, Data>)
        ensures
            r is Ok <==> coerced(self) is Some,
            r matches Ok(v) ==> v@ == coerced(self)->0,
            r matches Err(d) ==> d == self,
    {
        match self {
            Data::Json(JsonValue::Array(items)) => Ok(items),
            Data::Json(v) => {
                let mut out: Vec<JsonValue> = Vec::new();
                out.push(v);
                Ok(out)
            },
            other => Err(other),
        }
    }
}

impl ProcessingLimits {
    /// The limits a stage has unless it declares its own: 100 000 records,
    /// 512 MiB, 30 s, and every input type.
    pub fn default_limits() -> (r: ProcessingLimits)
        ensures
            r.max_batch_size == Some(100000usize),
            r.max_memory_mb == Some(512usize),
            r.max_processing_time_ms == Some(30000u64),
            r.supported_input_types@ == seq![OxiDataType::Json, OxiDataType::Text, OxiDataType::Binary, OxiDataType::Empty],
    {
        let mut types: Vec<OxiDataType> = Vec::new();
        types.push(OxiDataType::Json);
        types.push(OxiDataType::Text);
        types.push(OxiDataType::Binary);
        types.push(OxiDataType::Empty);
        ProcessingLimits {
            max_batch_size: Some(100000),
            max_memory_mb: Some(512),
            max_processing_time_ms: Some(30000),
            supported_input_types: types,
        }
    }

    /// The checks made before a stage processes `data`, in order: the input
    /// type is supported, the estimated memory is within `max_memory_mb`
    /// mebibytes, and a JSON array holds no more than `max_batch_size` records.
    pub fn check_input(&self, data: &Data) -> (r: Result<(), LimitViolation>)
        ensures
            r is Ok <==> limits_verdict(*self, *data) is None,
            r matches Err(v) ==> limits_verdict(*self, *data) == Some(v),
    {
        let kind = data.get_data_type();
        let mut supported = false;
        let mut i: usize = 0;
        while i < self.supported_input_types.len()
            invariant
                i <= self.supported_input_types@.len(),
                kind == data_type_of(*data),
                supported <==> exists|k: int| 0 <= k < i && self.supported_input_types@[k] == kind,
            decreases self.supported_input_types@.len() - i,
        {
            if self.supported_input_types[i] == kind {
                supported = true;
            }
            i = i + 1;
        }
        if !supported {
            return Err(LimitViolation::UnsupportedInputType { actual: kind });
        }
        let estimate = data.estimated_memory_usage();
        if let Some(mb) = self.max_memory_mb {
            if (estimate as u128) > (mb as u128) * (BYTES_PER_MB as u128) {
                return Err(LimitViolation::MemoryLimitExceeded { estimated_bytes: estimate, max_memory_mb: mb });
            }
        }
        if let Some(max) = self.max_batch_size {
            if let Data::Json(JsonValue::Array(items)) = data {
                if items.len() > max {
                    return Err(LimitViolation::BatchSizeExceeded { batch_size: items.len(), max_batch_size: max });
                }
            }
        }
        Ok(())
    }
}

impl Data {
    /// The name of the payload's variant: `JSON`, `Text`, `Binary` or `Empty`.
    pub fn data_type(&self) -> (r: &'static str)
        ensures
            *self is Json ==> r@ == "JSON"@,
            *self is Text ==> r@ == "Text"@,
            *self is Binary ==> r@ == "Binary"@,
            *self is Empty ==> r@ == "Empty"@,
    {
        match self {
            Data::Json(_) => "JSON",
            Data::Text(_) => "Text",
            Data::Binary(_) => "Binary",
            Data::Empty => "Empty",
        }
    }

    /// The text of a text payload.
    pub fn as_text(&self) -> (r: Option<&String>)
        ensures
            *self matches Data::Text(t) ==> r == Some(&t),
            !(*self is Text) ==> r is None,
    {
        match self {
            Data::Text(t) => Some(t),
            _ => None,
        }
    }

    /// The document of a JSON payload.
    pub fn as_json(&self) -> (r: Option<&JsonValue>)
        ensures
            *self matches Data::Json(v) ==> r == Some(&v),
            !(*self is Json) ==> r is None,
    {
        match self {
            Data::Json(v) => Some(v),
            _ => None,
        }
    }

    /// The bytes of a binary payload.
    pub fn as_binary(&self) -> (r: Option<&Vec<u8>>)
        ensures
            *self matches Data::Binary(b) ==> r == Some(&b),
            !(*self is Binary) ==> r is None,
    {
        match self {
            Data::Binary(b) => Some(b),
            _ => None,
        }
    }
}

/// Array coercion wraps a single JSON document as the one-record sequence of
/// it, and the batch size of an array of `n` records is `n`.
pub proof fn coercion_wraps_and_batch_size_counts(x: JsonValue, items: Vec<JsonValue>)
    requires
        !(x is Array),
    ensures
        coerced(Data::Json(x)) == Some(seq![x]),
        batch_size_of(Data::Json(JsonValue::Array(items))) == items@.len(),
        coerced(Data::Json(JsonValue::Array(items))) == Some(items@),
{
}

/// A limit of `n` records accepts a JSON array of `n` records and refuses
/// one of `n + 1`, when the type and memory checks pass.
pub proof fn batch_limit_boundary(l: ProcessingLimits, n: usize, at: Vec<JsonValue>, over: Vec<JsonValue>)
    requires
        l.max_batch_size == Some(n),
        l.supported_input_types@.contains(OxiDataType::Json),
        l.max_memory_mb is None,
        at@.len() == n,
        over@.len() == n + 1,
    ensures
        limits_verdict(l, Data::Json(JsonValue::Array(at))) is None,
        limits_verdict(l, Data::Json(JsonValue::Array(over))) == Some(
            LimitViolation::BatchSizeExceeded { batch_size: (n + 1) as usize, max_batch_size: n },
        ),
{
}

/// A memory limit of `mb` mebibytes accepts a text of exactly `mb` MiB and
/// refuses one a byte longer (in UTF-8), when text input is supported.
pub proof fn memory_limit_boundary(l: ProcessingLimits, mb: usize, at: String, over: String)
    requires
        l.max_memory_mb == Some(mb),
        l.supported_input_types@.contains(OxiDataType::Text),
        encode_utf8(at@).len() == mb * BYTES_PER_MB,
        encode_utf8(over@).len() == mb * BYTES_PER_MB + 1,
        encode_utf8(over@).len() <= u64::MAX,
    ensures
        limits_verdict(l, Data::Text(at)) is None,
        limits_verdict(l, Data::Text(over)) == Some(
            LimitViolation::MemoryLimitExceeded { estimated_bytes: encode_utf8(over@).len() as u64, max_memory_mb: mb },
        ),
{
}

} // verus!
