//! The arguments of each subcommand, as plain values.  Parsing them from the
//! command line is the binary's business.

use vstd::prelude::*;

verus! {

/// Arguments of `info`.
#[derive(Debug)]
pub struct InfoArgs {
    /// Path to the GGUF file to inspect.
    pub file: String,
}

/// Arguments of `meta`.
#[derive(Debug)]
pub struct MetaArgs {
    /// Path to the GGUF file to inspect.
    pub file: String,
    /// Case-insensitive glob pattern that keys must match.
    pub filter: Option<String>,
    /// Maximum number of array elements shown per value (0 = unlimited).
    pub array_limit: usize,
}

/// Arguments of `tensors`.
#[derive(Debug)]
pub struct TensorsArgs {
    /// Path to the GGUF file to inspect.
    pub file: String,
    /// Case-insensitive glob pattern that tensor names must match.
    pub filter: Option<String>,
}

/// Arguments of `set`.
#[derive(Debug)]
pub struct SetArgs {
    /// Path to the source GGUF file.
    pub file: String,
    /// Metadata key to set.
    pub key: String,
    /// New value, parsed according to `value_type`.
    pub value: String,
    /// Type of the new value.
    pub value_type: ValueType,
    /// Destination path for the new GGUF file.
    pub output: String,
    /// Overwrite the output file if it exists (and create a missing key).
    pub force: bool,
    /// Rename an existing output file to `<output>.bak` first.
    pub backup: bool,
    /// Show what would change without writing anything.
    pub dry_run: bool,
}

/// Arguments of `remove`.
#[derive(Debug)]
pub struct RemoveArgs {
    /// Path to the source GGUF file.
    pub file: String,
    /// Metadata key to remove.
    pub key: String,
    /// Destination path for the new GGUF file.
    pub output: String,
    /// Overwrite the output file if it exists.
    pub force: bool,
    /// Rename an existing output file to `<output>.bak` first.
    pub backup: bool,
    /// Show what would change without writing anything.
    pub dry_run: bool,
}

/// Arguments of `export`.
#[derive(Debug)]
pub struct ExportArgs {
    /// Path to the GGUF file to export.
    pub file: String,
    /// Output file path (standard output if absent).
    pub output: Option<String>,
    /// Export format.
    pub format: ExportFormat,
    /// Maximum number of array elements shown per value (0 = unlimited).
    pub array_limit: usize,
}

/// Supported export formats.
#[derive(Debug, Clone, Copy, PartialEq, Eq, Structural)]
pub enum ExportFormat {
    Json,
    Markdown,
    Csv,
}

/// Value types accepted by `set`.
#[derive(Debug, Clone, Copy, PartialEq, Eq, Structural)]
pub enum ValueType {
    U8,
    I8,
    U16,
    I16,
    U32,
    I32,
    F32,
    U64,
    I64,
    F64,
    Bool,
    String,
}

/// The lowercase name of a value type.
pub open spec fn value_type_name(t: ValueType) -> Seq<char> {
    match t {
        ValueType::U8 => "u8"@,
        ValueType::I8 => "i8"@,
        ValueType::U16 => "u16"@,
        ValueType::I16 => "i16"@,
        ValueType::U32 => "u32"@,
        ValueType::I32 => "i32"@,
        ValueType::F32 => "f32"@,
        ValueType::U64 => "u64"@,
        ValueType::I64 => "i64"@,
        ValueType::F64 => "f64"@,
        ValueType::Bool => "bool"@,
        ValueType::String => "string"@,
    }
}

impl ValueType {
    /// Human-readable name used in messages (`"u32"`, `"string"`, …).
    pub fn type_str(&self) -> (s: &'static str)
        ensures
            s@ == value_type_name(*self),
    {
        match self {
            ValueType::U8 => "u8",
            ValueType::I8 => "i8",
            ValueType::U16 => "u16",
            ValueType::I16 => "i16",
            ValueType::U32 => "u32",
            ValueType::I32 => "i32",
            ValueType::F32 => "f32",
            ValueType::U64 => "u64",
            ValueType::I64 => "i64",
            ValueType::F64 => "f64",
            ValueType::Bool => "bool",
            ValueType::String => "string",
        }
    }
}

} // verus!
