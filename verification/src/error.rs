//! Application-level errors.
//!
//! [`AppError`] is the typed error of the tool.  Every variant carries the
//! file or key it is about, and [`AppError::message`] renders it as the
//! one-line text shown to the user.

use vstd::prelude::*;
use crate::format::GgufError;
use crate::gguf::GGUF_MAGIC;
use crate::text::{hex_pad, push_decimal, push_hex, push_str, spec_decimal, to_string};

verus! {

#[verifier::external_type_specification]
#[verifier::external_body]
pub struct ExIoError(std::io::Error);

/// All errors that the tool reports.
///
/// `GgufParse`, `TypeParse` and `UnknownExportFormat` are part of the error
/// vocabulary even where the current commands do not produce them.
#[allow(inconsistent_fields)]
#[derive(Debug)]
pub enum AppError {
    /// A filesystem or memory-mapping operation failed.
    Io { path: String, source: std::io::Error },
    /// The file is not a valid GGUF file or is structurally corrupt.
    GgufParse { path: String, message: String },
    /// Reading or writing the GGUF format failed.
    GgufLib { path: String, source: GgufError },
    /// A key that was expected to exist is absent from the metadata.
    KeyNotFound { key: String, path: String },
    /// A user-supplied string could not be parsed as the requested type.
    TypeParse { value: String, type_str: &'static str, reason: String },
    /// The output path already exists and `--force` was not supplied.
    OutputExists { path: String },
    /// An unsupported export format was requested.
    UnknownExportFormat { format: String },
}

/// The text of a GGUF format error.
pub open spec fn gguf_error_text(e: GgufError) -> Seq<char> {
    match e {
        GgufError::UnexpectedEnd => "Unexpected end of file"@,
        GgufError::InvalidMagic { found } => "Invalid GGUF magic number: expected 0x"@ + hex_pad(
            GGUF_MAGIC as nat,
            8,
            true,
        ) + ", found 0x"@ + hex_pad(found as nat, 8, true),
        GgufError::UnsupportedVersion(v) => "Unsupported GGUF version: "@ + spec_decimal(v as nat),
        GgufError::TooManyTensors(n) => "Format error: Unreasonable tensor count: "@ + spec_decimal(
            n as nat,
        ),
        GgufError::TooManyMetadata(n) => "Format error: Unreasonable metadata count: "@
            + spec_decimal(n as nat),
        GgufError::InvalidMetadata => "Invalid metadata: malformed key or value"@,
        GgufError::InvalidTensor => "Invalid tensor data: malformed tensor info"@,
        GgufError::DuplicateKey => "Format error: duplicate metadata key"@,
        GgufError::TensorOverlap => "Format error: Tensor data overlap detected"@,
    }
}

impl GgufError {
    /// The text of this error.
    pub fn message(&self) -> (s: String)
        ensures
            s@ == gguf_error_text(*self),
    {
        let mut s = String::new();
        match self {
            GgufError::UnexpectedEnd => push_str(&mut s, "Unexpected end of file"),
            GgufError::InvalidMagic { found } => {
                push_str(&mut s, "Invalid GGUF magic number: expected 0x");
                push_hex(&mut s, GGUF_MAGIC as u64, 8, true);
                push_str(&mut s, ", found 0x");
                push_hex(&mut s, *found as u64, 8, true);
            },
            GgufError::UnsupportedVersion(v) => {
                push_str(&mut s, "Unsupported GGUF version: ");
                push_decimal(&mut s, *v as u64);
            },
            GgufError::TooManyTensors(n) => {
                push_str(&mut s, "Format error: Unreasonable tensor count: ");
                push_decimal(&mut s, *n);
            },
            GgufError::TooManyMetadata(n) => {
                push_str(&mut s, "Format error: Unreasonable metadata count: ");
                push_decimal(&mut s, *n);
            },
            GgufError::InvalidMetadata => push_str(&mut s, "Invalid metadata: malformed key or value"),
            GgufError::InvalidTensor => push_str(&mut s, "Invalid tensor data: malformed tensor info"),
            GgufError::DuplicateKey => push_str(&mut s, "Format error: duplicate metadata key"),
            GgufError::TensorOverlap => push_str(&mut s, "Format error: Tensor data overlap detected"),
        }
        proof {
            assert(s@ =~= gguf_error_text(*self));
        }
        s
    }
}

/// The text of an I/O error, as the operating system describes it
/// (`<std::io::Error as Display>::fmt`).  The text depends on the platform and
/// its locale, so nothing is stated of it.
#[verifier::external_body]
fn io_error_text(e: &std::io::Error) -> String {
    format!("{}", e)
}

/// The message of an error, given the text of its I/O source where it has one.
pub open spec fn app_error_text(e: AppError, io_text: Seq<char>) -> Seq<char> {
    match e {
        AppError::Io { path, .. } => "I/O error on '"@ + path@ + "': "@ + io_text,
        AppError::GgufParse { path, message } => "Failed to parse GGUF file '"@ + path@ + "': "@
            + message@,
        AppError::GgufLib { path, source } => "GGUF library error on '"@ + path@ + "': "@
            + gguf_error_text(source),
        AppError::KeyNotFound { key, path } => "Metadata key '"@ + key@ + "' not found in '"@ + path@
            + "'"@,
        AppError::TypeParse { value, type_str, reason } => "Cannot parse '"@ + value@
            + "' as type '"@ + type_str@ + "': "@ + reason@,
        AppError::OutputExists { path } => "Output file '"@ + path@
            + "' already exists. Pass --force to overwrite, or choose a different --output path."@,
        AppError::UnknownExportFormat { format } => "Unknown export format '"@ + format@
            + "'. Supported: json, markdown, csv"@,
    }
}

impl AppError {
    /// Wrap an I/O error with the path it happened on.
    pub fn io(path: String, source: std::io::Error) -> (e: AppError)
        ensures
            e matches AppError::Io { path: p, .. } && p@ == path@,
    {
        AppError::Io { path, source }
    }

    /// Wrap a GGUF format error with the path it happened on.
    pub fn gguf_lib(path: String, source: GgufError) -> (e: AppError)
        ensures
            e matches AppError::GgufLib { path: p, source: s } && p@ == path@ && s == source,
    {
        AppError::GgufLib { path, source }
    }

    /// The one-line message of the error.  For an I/O error the message ends
    /// with the operating system's description of the failure.
    pub fn message(&self) -> (s: String)
        ensures
            !(*self is Io) ==> s@ == app_error_text(*self, Seq::empty()),
            *self is Io ==> exists|t: Seq<char>| s@ == app_error_text(*self, t),
    {
        let mut s = String::new();
        match self {
            AppError::Io { path, source } => {
                push_str(&mut s, "I/O error on '");
                push_str(&mut s, path.as_str());
                push_str(&mut s, "': ");
                let t = io_error_text(source);
                push_str(&mut s, t.as_str());
                proof {
                    assert(s@ =~= app_error_text(*self, t@));
                }
            },
            AppError::GgufParse { path, message } => {
                push_str(&mut s, "Failed to parse GGUF file '");
                push_str(&mut s, path.as_str());
                push_str(&mut s, "': ");
                push_str(&mut s, message.as_str());
            },
            AppError::GgufLib { path, source } => {
                push_str(&mut s, "GGUF library error on '");
                push_str(&mut s, path.as_str());
                push_str(&mut s, "': ");
                let t = source.message();
                push_str(&mut s, t.as_str());
            },
            AppError::KeyNotFound { key, path } => {
                push_str(&mut s, "Metadata key '");
                push_str(&mut s, key.as_str());
                push_str(&mut s, "' not found in '");
                push_str(&mut s, path.as_str());
                push_str(&mut s, "'");
            },
            AppError::TypeParse { value, type_str, reason } => {
                push_str(&mut s, "Cannot parse '");
                push_str(&mut s, value.as_str());
                push_str(&mut s, "' as type '");
                push_str(&mut s, type_str);
                push_str(&mut s, "': ");
                push_str(&mut s, reason.as_str());
            },
            AppError::OutputExists { path } => {
                push_str(&mut s, "Output file '");
                push_str(&mut s, path.as_str());
                push_str(
                    &mut s,
                    "' already exists. Pass --force to overwrite, or choose a different --output path.",
                );
            },
            AppError::UnknownExportFormat { format } => {
                push_str(&mut s, "Unknown export format '");
                push_str(&mut s, format.as_str());
                push_str(&mut s, "'. Supported: json, markdown, csv");
            },
        }
        proof {
            if !(*self is Io) {
                assert(s@ =~= app_error_text(*self, Seq::empty()));
            }
        }
        s
    }
}

} // verus!
