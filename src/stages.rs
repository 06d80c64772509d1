//! The stage catalogue: each stage's name, schema strategy and processing
//! limits, the lookup of a stage by the name a declaration gives, and the
//! flushing policy of the batching stage.
use vstd::prelude::*;
use crate::config::OxiError;
use crate::data::{BYTES_PER_MB, Data, LimitViolation, OxiData, OxiDataType, ProcessingLimits, SchemaStrategy};

verus! {

/// Reads a file into the pipeline.
pub struct ReadFile;

/// Writes the payload to a file.
pub struct WriteFile;

/// Parses text as JSON.
pub struct ParseJson;

/// Renders JSON as text.
pub struct FormatJson;

/// Parses CSV text into JSON records.
pub struct ParseCsv;

/// Renders JSON records as CSV text.
pub struct FormatCsv;

/// Flattens nested JSON objects.
pub struct Flatten;

/// Selects part of a JSON document by a path.
pub struct JsonSelect;

/// Reads standard input.
pub struct ReadStdIn;

/// Writes to standard output.
pub struct WriteStdOut;

/// Groups records into batches.
pub struct Batch;

/// When the batching stage flushes a batch.
#[derive(Debug, Clone, Copy, PartialEq, Eq, Structural)]
pub enum BatchStrategy {
    Size,
    Time,
    SizeOrTime,
    Memory,
    SizeOrMemory,
    Any,
}

/// Configuration of the batching stage.
#[derive(Debug, Clone)]
pub struct BatchConfig {
    pub batch_size: Option<usize>,
    pub flush_interval_ms: Option<u64>,
    pub max_memory_mb: Option<usize>,
    pub strategy: Option<BatchStrategy>,
}

/// The most bytes of binary input that standard output takes: 100 MiB.
pub const MAX_STDOUT_BINARY: usize = 104857600;

/// The stages that a declaration can name.
#[derive(Debug, Clone, Copy, PartialEq, Eq, Structural)]
pub enum StageKind {
    ReadFile,
    WriteFile,
    ParseJson,
    FormatCsv,
    ReadStdIn,
    WriteStdOut,
    Flatten,
}

/// The stage that a declaration's `name` selects.
pub open spec fn stage_named(name: Seq<char>) -> Option<StageKind> {
    if name == "read_file"@ {
        Some(StageKind::ReadFile)
    } else if name == "write_file"@ {
        Some(StageKind::WriteFile)
    } else if name == "parse_json"@ {
        Some(StageKind::ParseJson)
    } else if name == "format_csv"@ {
        Some(StageKind::FormatCsv)
    } else if name == "read_stdin"@ {
        Some(StageKind::ReadStdIn)
    } else if name == "write_stdout"@ {
        Some(StageKind::WriteStdOut)
    } else if name == "flatten"@ {
        Some(StageKind::Flatten)
    } else {
        None
    }
}

fn same_str(a: &str, b: &str) -> (r: bool)
    ensures
        r == (a@ == b@),
{
    let x = String::from_str(a);
    let y = String::from_str(b);
    x.eq(&y)
}

/// The stage that `name` selects, or `UnknownOxi` naming it.
pub fn resolve_stage(name: &str) -> (r: Result<StageKind, OxiError>)
    ensures
        stage_named(name@) matches Some(k) ==> r == Ok::<StageKind, OxiError>(k),
        stage_named(name@) is None ==> (r matches Err(OxiError::UnknownOxi(n)) && n@ == name@),
{
    if same_str(name, "read_file") {
        Ok(StageKind::ReadFile)
    } else if same_str(name, "write_file") {
        Ok(StageKind::WriteFile)
    } else if same_str(name, "parse_json") {
        Ok(StageKind::ParseJson)
    } else if same_str(name, "format_csv") {
        Ok(StageKind::FormatCsv)
    } else if same_str(name, "read_stdin") {
        Ok(StageKind::ReadStdIn)
    } else if same_str(name, "write_stdout") {
        Ok(StageKind::WriteStdOut)
    } else if same_str(name, "flatten") {
        Ok(StageKind::Flatten)
    } else {
        Err(OxiError::UnknownOxi(String::from_str(name)))
    }
}

fn all_types() -> (r: Vec<OxiDataType>)
    ensures
        r@ == seq![OxiDataType::Json, OxiDataType::Text, OxiDataType::Binary, OxiDataType::Empty],
{
    let mut v: Vec<OxiDataType> = Vec::new();
    v.push(OxiDataType::Json);
    v.push(OxiDataType::Text);
    v.push(OxiDataType::Binary);
    v.push(OxiDataType::Empty);
    v
}

impl ReadFile {
    /// The name a declaration selects this stage by.
    pub fn name(&self) -> (r: &'static str)
        ensures
            r@ == "read_file"@,
    {
        "read_file"
    }

    /// The output schema is inferred from what was read.
    pub fn schema_strategy(&self) -> (r: SchemaStrategy)
        ensures
            r is Infer,
    {
        SchemaStrategy::Infer
    }
}

impl WriteFile {
    /// The name a declaration selects this stage by.
    pub fn name(&self) -> (r: &'static str)
        ensures
            r@ == "write_file"@,
    {
        "write_file"
    }

    /// The payload passes through unchanged.
    pub fn schema_strategy(&self) -> (r: SchemaStrategy)
        ensures
            r is Passthrough,
    {
        SchemaStrategy::Passthrough
    }
}

impl ParseJson {
    /// The name a declaration selects this stage by.
    pub fn name(&self) -> (r: &'static str)
        ensures
            r@ == "parse_json"@,
    {
        "parse_json"
    }
}

impl FormatJson {
    /// The name a declaration selects this stage by.
    pub fn name(&self) -> (r: &'static str)
        ensures
            r@ == "format_json"@,
    {
        "format_json"
    }
}

impl ParseCsv {
    /// The name a declaration selects this stage by.
    pub fn name(&self) -> (r: &'static str)
        ensures
            r@ == "parse_csv"@,
    {
        "parse_csv"
    }
}

impl FormatCsv {
    /// The name a declaration selects this stage by.
    pub fn name(&self) -> (r: &'static str)
        ensures
            r@ == "format_csv"@,
    {
        "format_csv"
    }
}

impl Flatten {
    /// The name a declaration selects this stage by.
    pub fn name(&self) -> (r: &'static str)
        ensures
            r@ == "flatten"@,
    {
        "flatten"
    }
}

impl JsonSelect {
    /// The name a declaration selects this stage by.
    pub fn name(&self) -> (r: &'static str)
        ensures
            r@ == "json_select"@,
    {
        "json_select"
    }

    /// The selection changes the schema.
    pub fn schema_strategy(&self) -> (r: SchemaStrategy)
        ensures
            r is Modify,
    {
        SchemaStrategy::Modify {
            description: String::from_str(
                "Selects JSON data using path expressions like '[0].users' or 'data.items'",
            ),
        }
    }
}

impl ReadStdIn {
    /// The name a declaration selects this stage by.
    pub fn name(&self) -> (r: &'static str)
        ensures
            r@ == "read_stdin"@,
    {
        "read_stdin"
    }

    /// The output schema is inferred from what was read.
    pub fn schema_strategy(&self) -> (r: SchemaStrategy)
        ensures
            r is Infer,
    {
        SchemaStrategy::Infer
    }

    /// Reading standard input starts a pipeline: only `Empty` input is
    /// accepted, anything else is a `TypeMismatch`.
    pub fn validate_input(&self, input: &OxiData) -> (r: Result<(), OxiError>)
        ensures
            r is Ok <==> input.data is Empty,
            r matches Err(e) ==> e is TypeMismatch,
    {
        match &input.data {
            Data::Empty => Ok(()),
            other => Err(OxiError::TypeMismatch {
                expected: String::from_str("Empty (stdin reader starts pipeline)"),
                actual: String::from_str(other.data_type()),
                step: String::from_str("read_stdin"),
            }),
        }
    }

    /// One input of at most 64 MiB, read within 30 s, starting from `Empty`.
    pub fn processing_limits(&self) -> (r: ProcessingLimits)
        ensures
            r.max_batch_size is None,
            r.max_memory_mb == Some(64usize),
            r.max_processing_time_ms == Some(30000u64),
            r.supported_input_types@ == seq![OxiDataType::Empty],
    {
        let mut types: Vec<OxiDataType> = Vec::new();
        types.push(OxiDataType::Empty);
        ProcessingLimits {
            max_batch_size: None,
            max_memory_mb: Some(64),
            max_processing_time_ms: Some(30000),
            supported_input_types: types,
        }
    }
}

impl WriteStdOut {
    /// The name a declaration selects this stage by.
    pub fn name(&self) -> (r: &'static str)
        ensures
            r@ == "write_stdout"@,
    {
        "write_stdout"
    }

    /// The payload passes through unchanged.
    pub fn schema_strategy(&self) -> (r: SchemaStrategy)
        ensures
            r is Passthrough,
    {
        SchemaStrategy::Passthrough
    }

    /// Binary input over 100 MiB is refused with a `ValidationError`; any
    /// other input is accepted.
    pub fn validate_input(&self, input: &OxiData) -> (r: Result<(), OxiError>)
        ensures
            r is Ok <==> !(input.data matches Data::Binary(b) && b@.len() > MAX_STDOUT_BINARY),
            r matches Err(e) ==> e is ValidationError,
    {
        match &input.data {
            Data::Binary(b) => if b.len() > MAX_STDOUT_BINARY {
                Err(OxiError::ValidationError {
                    details: String::from_str("Binary data is very large. Consider using binary: false or streaming output."),
                })
            } else {
                Ok(())
            },
            _ => Ok(()),
        }
    }

    /// Up to 100 000 records and 512 MiB of any type, written within 10 s.
    pub fn processing_limits(&self) -> (r: ProcessingLimits)
        ensures
            r.max_batch_size == Some(100000usize),
            r.max_memory_mb == Some(512usize),
            r.max_processing_time_ms == Some(10000u64),
            r.supported_input_types@ == seq![OxiDataType::Json, OxiDataType::Text, OxiDataType::Binary, OxiDataType::Empty],
    {
        ProcessingLimits {
            max_batch_size: Some(100000),
            max_memory_mb: Some(512),
            max_processing_time_ms: Some(10000),
            supported_input_types: all_types(),
        }
    }
}

/// A batch is due: by size when `count` reaches `max_count`, by memory when
/// `memory` reaches `max_memory`, by time when an interval is set and
/// `elapsed_ms` has reached it; the strategy says which of these count.
pub open spec fn flush_due(
    strategy: BatchStrategy,
    count: usize,
    max_count: usize,
    memory: usize,
    max_memory: usize,
    elapsed_ms: u64,
    interval_ms: Option<u64>,
) -> bool {
    let size = count >= max_count;
    let mem = memory >= max_memory;
    let time = interval_ms matches Some(i) && elapsed_ms >= i;
    match strategy {
        BatchStrategy::Size => size,
        BatchStrategy::Time => time,
        BatchStrategy::SizeOrTime => size || time,
        BatchStrategy::Memory => mem,
        BatchStrategy::SizeOrMemory => size || mem,
        BatchStrategy::Any => size || mem || time,
    }
}

impl Batch {
    /// The name a declaration selects this stage by.
    pub fn name(&self) -> (r: &'static str)
        ensures
            r@ == "batch"@,
    {
        "batch"
    }

    /// The payload passes through unchanged.
    pub fn schema_strategy(&self) -> (r: SchemaStrategy)
        ensures
            r is Passthrough,
    {
        SchemaStrategy::Passthrough
    }

    /// Up to 10 000 records and 1 GiB of any type, within 5 minutes.
    pub fn processing_limits(&self) -> (r: ProcessingLimits)
        ensures
            r.max_batch_size == Some(10000usize),
            r.max_memory_mb == Some(1024usize),
            r.max_processing_time_ms == Some(300000u64),
            r.supported_input_types@ == seq![OxiDataType::Json, OxiDataType::Text, OxiDataType::Binary, OxiDataType::Empty],
    {
        ProcessingLimits {
            max_batch_size: Some(10000),
            max_memory_mb: Some(1024),
            max_processing_time_ms: Some(300000),
            supported_input_types: all_types(),
        }
    }

    /// Whether the current batch is due; see `flush_due`.
    pub fn should_flush(
        &self,
        strategy: BatchStrategy,
        current_count: usize,
        max_count: usize,
        current_memory: usize,
        max_memory: usize,
        elapsed_ms: u64,
        flush_interval_ms: Option<u64>,
    ) -> (r: bool)
        ensures
            r == flush_due(strategy, current_count, max_count, current_memory, max_memory, elapsed_ms, flush_interval_ms),
    {
        let size = current_count >= max_count;
        let mem = current_memory >= max_memory;
        let time = match flush_interval_ms {
            Some(i) => elapsed_ms >= i,
            None => false,
        };
        match strategy {
            BatchStrategy::Size => size,
            BatchStrategy::Time => time,
            BatchStrategy::SizeOrTime => size || time,
            BatchStrategy::Memory => mem,
            BatchStrategy::SizeOrMemory => size || mem,
            BatchStrategy::Any => size || mem || time,
        }
    }
}

impl BatchConfig {
    /// Batches of 100 records by size, no interval, no memory limit.
    pub fn default_config() -> (r: BatchConfig)
        ensures
            r.batch_size == Some(100usize),
            r.flush_interval_ms is None,
            r.max_memory_mb is None,
            r.strategy == Some(BatchStrategy::Size),
    {
        BatchConfig { batch_size: Some(100), flush_interval_ms: None, max_memory_mb: None, strategy: Some(BatchStrategy::Size) }
    }
}

/// The runtime error of stage `stage` for a refused input: its batch
/// size, its estimated memory in whole mebibytes, or its type.
pub fn limit_error(v: LimitViolation, stage: &str) -> (r: OxiError)
    ensures
        v matches LimitViolation::BatchSizeExceeded { batch_size, max_batch_size } ==> (r matches OxiError::BatchSizeExceeded { actual_size, max_size, oxi_name }
            && actual_size == batch_size && max_size == max_batch_size && oxi_name@ == stage@),
        v matches LimitViolation::MemoryLimitExceeded { estimated_bytes, max_memory_mb } ==> (r matches OxiError::MemoryLimitExceeded { actual_mb, max_mb, oxi_name }
            && actual_mb as int == (if estimated_bytes as int / BYTES_PER_MB as int > usize::MAX { usize::MAX as int } else { estimated_bytes as int / BYTES_PER_MB as int })
            && max_mb == max_memory_mb && oxi_name@ == stage@),
        v is UnsupportedInputType ==> (r matches OxiError::UnsupportedInputType { oxi_name, .. } && oxi_name@ == stage@),
{
    match v {
        LimitViolation::BatchSizeExceeded { batch_size, max_batch_size } => OxiError::BatchSizeExceeded {
            actual_size: batch_size,
            max_size: max_batch_size,
            oxi_name: String::from_str(stage),
        },
        LimitViolation::MemoryLimitExceeded { estimated_bytes, max_memory_mb } => {
            let mb = estimated_bytes / (BYTES_PER_MB as u64);
            OxiError::MemoryLimitExceeded {
                actual_mb: if mb as u128 > usize::MAX as u128 { usize::MAX } else { mb as usize },
                max_mb: max_memory_mb,
                oxi_name: String::from_str(stage),
            }
        },
        LimitViolation::UnsupportedInputType { actual } => {
            let name = match actual {
                OxiDataType::Json => "JSON",
                OxiDataType::Text => "Text",
                OxiDataType::Binary => "Binary",
                OxiDataType::Empty => "Empty",
            };
            OxiError::UnsupportedInputType { oxi_name: String::from_str(stage), input_type: String::from_str(name) }
        },
    }
}

} // verus!
