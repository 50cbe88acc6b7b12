//! `set`: change (or, with `--force`, add) one metadata key and write the
//! result to a new file.

use vstd::prelude::*;
use crate::cli::{value_type_name, SetArgs, ValueType};
use crate::display::{format_value, pieces_model, spec_format_value, text, Piece, PieceModel};
use crate::error::AppError;
use crate::format::{model, GgufError, MetadataValue, ValueModel};
use crate::gguf::{enc_file, header_error, header_writable, parsed_model, spec_align, writable_tensor, zeros, ParsedGguf};
use crate::metadata::{has_key, lookup, spec_insert};
use crate::tensor::tensor_models;
use crate::text::{
    all_ascii, ascii_lower, lemma_parse_decimal, lowercase, parse_integer, push_str, spec_decimal, spec_parse_integer,
    spec_signed_decimal, str_eq, to_lowercase, to_string,
};

verus! {

/// The boolean spelled by an already lowercased word: `true`, `1`, `yes` or
/// `false`, `0`, `no`.
pub open spec fn spec_bool_word(s: Seq<char>) -> Option<bool> {
    if s == "true"@ || s == "1"@ || s == "yes"@ {
        Some(true)
    } else if s == "false"@ || s == "0"@ || s == "no"@ {
        Some(false)
    } else {
        None
    }
}

/// Read a lowercased boolean word.
pub fn parse_bool_word(s: &str) -> (r: Option<bool>)
    ensures
        r == spec_bool_word(s@),
{
    if str_eq(s, "true") || str_eq(s, "1") || str_eq(s, "yes") {
        Some(true)
    } else if str_eq(s, "false") || str_eq(s, "0") || str_eq(s, "no") {
        Some(false)
    } else {
        None
    }
}

/// The integer written by `raw` if it lies in `[lo, hi]`.
pub open spec fn int_in(raw: Seq<char>, signed: bool, lo: int, hi: int) -> Option<int> {
    match spec_parse_integer(raw, signed) {
        Some(x) => if lo <= x && x <= hi {
            Some(x)
        } else {
            None
        },
        None => None,
    }
}

/// The value that `raw` denotes as a `vtype`.  Integers are read as
/// `str::parse` reads them and must fit the type; booleans are the words of
/// [`spec_bool_word`] in any case; strings are taken verbatim; a float is
/// `float`, the bits of `raw` read as that float type (`None` when it does not
/// read as one).
pub open spec fn spec_parse_value(raw: Seq<char>, vtype: ValueType, float: Option<u64>) -> Option<
    ValueModel,
> {
    match vtype {
        ValueType::U8 => match int_in(raw, false, 0, 0xff) {
            Some(x) => Some(ValueModel::U8(x as u8)),
            None => None,
        },
        ValueType::I8 => match int_in(raw, true, -0x80, 0x7f) {
            Some(x) => Some(ValueModel::I8(x as i8)),
            None => None,
        },
        ValueType::U16 => match int_in(raw, false, 0, 0xffff) {
            Some(x) => Some(ValueModel::U16(x as u16)),
            None => None,
        },
        ValueType::I16 => match int_in(raw, true, -0x8000, 0x7fff) {
            Some(x) => Some(ValueModel::I16(x as i16)),
            None => None,
        },
        ValueType::U32 => match int_in(raw, false, 0, 0xffff_ffff) {
            Some(x) => Some(ValueModel::U32(x as u32)),
            None => None,
        },
        ValueType::I32 => match int_in(raw, true, -0x8000_0000, 0x7fff_ffff) {
            Some(x) => Some(ValueModel::I32(x as i32)),
            None => None,
        },
        ValueType::F32 => match float {
            Some(b) => Some(ValueModel::F32(b as u32)),
            None => None,
        },
        ValueType::U64 => match int_in(raw, false, 0, 0xffff_ffff_ffff_ffff) {
            Some(x) => Some(ValueModel::U64(x as u64)),
            None => None,
        },
        ValueType::I64 => match int_in(raw, true, -0x8000_0000_0000_0000, 0x7fff_ffff_ffff_ffff) {
            Some(x) => Some(ValueModel::I64(x as i64)),
            None => None,
        },
        ValueType::F64 => match float {
            Some(b) => Some(ValueModel::F64(b)),
            None => None,
        },
        ValueType::Bool => match spec_bool_word(lowercase(raw)) {
            Some(b) => Some(ValueModel::Bool(b)),
            None => None,
        },
        ValueType::String => Some(ValueModel::Str(raw)),
    }
}

/// The integer written by `raw`, if it lies in `[lo, hi]`.
fn int_between(raw: &str, signed: bool, lo: i128, hi: i128) -> (r: Option<i128>)
    requires
        -0x8000_0000_0000_0000 <= lo <= hi <= 0xffff_ffff_ffff_ffff,
    ensures
        match int_in(raw@, signed, lo as int, hi as int) {
            Some(x) => r == Some(x as i128),
            None => r is None,
        },
{
    match parse_integer(raw, signed) {
        Some(x) => if lo <= x && x <= hi {
            Some(x)
        } else {
            None
        },
        None => None,
    }
}

/// The message of a value that does not parse: `expected <type>`.
fn expected(vtype: &ValueType) -> (s: String)
    ensures
        s@ == "expected "@ + value_type_name(*vtype),
{
    let mut s = to_string("expected ");
    push_str(&mut s, vtype.type_str());
    s
}

/// Parse the text of a new value as `vtype`.  For `f32` and `f64`, `float`
/// carries the bits of `raw` read as that float type, or `None` when it does
/// not read as one.
pub fn parse_value(raw: &str, vtype: &ValueType, float: Option<u64>) -> (r: Result<
    MetadataValue,
    AppError,
>)
    ensures
        match r {
            Ok(v) => spec_parse_value(raw@, *vtype, float) == Some(model(v)),
            Err(e) => {
                &&& spec_parse_value(raw@, *vtype, float) is None
                &&& e matches AppError::TypeParse { value, type_str, reason }
                &&& value@ == raw@
                &&& type_str@ == value_type_name(*vtype)
                &&& reason@ == "expected "@ + value_type_name(*vtype)
            },
        },
{
    let parsed: Option<MetadataValue> = match vtype {
        ValueType::U8 => match int_between(raw, false, 0, 0xff) {
            Some(x) => Some(MetadataValue::U8(x as u8)),
            None => None,
        },
        ValueType::I8 => match int_between(raw, true, -0x80, 0x7f) {
            Some(x) => Some(MetadataValue::I8(x as i8)),
            None => None,
        },
        ValueType::U16 => match int_between(raw, false, 0, 0xffff) {
            Some(x) => Some(MetadataValue::U16(x as u16)),
            None => None,
        },
        ValueType::I16 => match int_between(raw, true, -0x8000, 0x7fff) {
            Some(x) => Some(MetadataValue::I16(x as i16)),
            None => None,
        },
        ValueType::U32 => match int_between(raw, false, 0, 0xffff_ffff) {
            Some(x) => Some(MetadataValue::U32(x as u32)),
            None => None,
        },
        ValueType::I32 => match int_between(raw, true, -0x8000_0000, 0x7fff_ffff) {
            Some(x) => Some(MetadataValue::I32(x as i32)),
            None => None,
        },
        ValueType::F32 => match float {
            Some(b) => Some(MetadataValue::F32(#[verifier::truncate] (b as u32))),
            None => None,
        },
        ValueType::U64 => match int_between(raw, false, 0, 0xffff_ffff_ffff_ffff) {
            Some(x) => Some(MetadataValue::U64(x as u64)),
            None => None,
        },
        ValueType::I64 => match int_between(
            raw,
            true,
            -0x8000_0000_0000_0000,
            0x7fff_ffff_ffff_ffff,
        ) {
            Some(x) => Some(MetadataValue::I64(x as i64)),
            None => None,
        },
        ValueType::F64 => match float {
            Some(b) => Some(MetadataValue::F64(b)),
            None => None,
        },
        ValueType::Bool => {
            let lowered = to_lowercase(raw);
            match parse_bool_word(lowered.as_str()) {
                Some(b) => Some(MetadataValue::Bool(b)),
                None => None,
            }
        },
        ValueType::String => Some(MetadataValue::String(to_string(raw))),
    };
    match parsed {
        Some(v) => Ok(v),
        None => Err(
            AppError::TypeParse {
                value: to_string(raw),
                type_str: vtype.type_str(),
                reason: expected(vtype),
            },
        ),
    }
}

// ── Reading back a rendered value ────────────────────────────────────────────

/// A scalar that is neither a float nor an array.
pub open spec fn plain_scalar(v: ValueModel) -> bool {
    !(v is F32 || v is F64 || v is Array)
}

/// The value type of a plain scalar.
pub open spec fn scalar_type(v: ValueModel) -> ValueType {
    match v {
        ValueModel::U8(_) => ValueType::U8,
        ValueModel::I8(_) => ValueType::I8,
        ValueModel::U16(_) => ValueType::U16,
        ValueModel::I16(_) => ValueType::I16,
        ValueModel::U32(_) => ValueType::U32,
        ValueModel::I32(_) => ValueType::I32,
        ValueModel::U64(_) => ValueType::U64,
        ValueModel::I64(_) => ValueType::I64,
        ValueModel::Bool(_) => ValueType::Bool,
        _ => ValueType::String,
    }
}

/// The text a plain scalar renders as.
pub open spec fn scalar_text(v: ValueModel) -> Seq<char> {
    match v {
        ValueModel::U8(x) => spec_decimal(x as nat),
        ValueModel::I8(x) => spec_signed_decimal(x as int),
        ValueModel::U16(x) => spec_decimal(x as nat),
        ValueModel::I16(x) => spec_signed_decimal(x as int),
        ValueModel::U32(x) => spec_decimal(x as nat),
        ValueModel::I32(x) => spec_signed_decimal(x as int),
        ValueModel::U64(x) => spec_decimal(x as nat),
        ValueModel::I64(x) => spec_signed_decimal(x as int),
        ValueModel::Bool(b) => if b {
            "true"@
        } else {
            "false"@
        },
        ValueModel::Str(s) => s,
        _ => Seq::empty(),
    }
}

/// Law: a plain scalar renders as one piece of text, and reading that text
/// back as the scalar's type gives the scalar again.
pub proof fn law_parse_rendered_scalar(v: ValueModel, limit: nat, float: Option<u64>)
    requires
        plain_scalar(v),
    ensures
        spec_format_value(v, limit) == text(scalar_text(v)),
        spec_parse_value(scalar_text(v), scalar_type(v), float) == Some(v),
{
    reveal_strlit("true");
    reveal_strlit("false");
    reveal_strlit("1");
    reveal_strlit("yes");
    reveal(lowercase);
    match v {
        ValueModel::U8(x) => lemma_parse_decimal(x as int, false),
        ValueModel::I8(x) => lemma_parse_decimal(x as int, true),
        ValueModel::U16(x) => lemma_parse_decimal(x as int, false),
        ValueModel::I16(x) => lemma_parse_decimal(x as int, true),
        ValueModel::U32(x) => lemma_parse_decimal(x as int, false),
        ValueModel::I32(x) => lemma_parse_decimal(x as int, true),
        ValueModel::U64(x) => lemma_parse_decimal(x as int, false),
        ValueModel::I64(x) => lemma_parse_decimal(x as int, true),
        ValueModel::Bool(b) => {
            let w = scalar_text(v);
            assert(all_ascii(w));
            assert(ascii_lower(w) =~= w);
        },
        _ => {},
    }
}

/// Whether `set` goes on to change the metadata and write a file: the key
/// exists or `--force` is given, the value parses, it is no dry run, and the
/// output does not exist or `--force` is given.
pub open spec fn set_reaches_write(
    m: Seq<crate::metadata::EntryModel>,
    args: SetArgs,
    float: Option<u64>,
    output_exists: bool,
) -> bool {
    &&& has_key(m, args.key@) || args.force
    &&& spec_parse_value(args.value@, args.value_type, float) is Some
    &&& !args.dry_run
    &&& !output_exists || args.force
}

/// What `set` does once the file has been read and the value parsed.
#[derive(Debug)]
pub enum SetOutcome {
    /// A dry run: what would change; nothing is written.  `old` is the
    /// current value of the key, if it has one.
    DryRun { old: Option<Vec<Piece>>, new: Vec<Piece> },
    /// Write `header` to the output file, followed by the source file's
    /// tensor data from its tensor-data offset to its end.
    Write { header: Vec<u8> },
}

/// The decisions of `set`, given the file as read, the arguments, the float
/// reading of the value (see [`parse_value`]) and whether the output path
/// already exists.
///
/// In order: a missing key without `--force` is an error; so is a value that
/// does not parse; a dry run reports the old and new values; an existing
/// output without `--force` is an error; otherwise the key is set in `gguf`
/// and the new header sections, padded to the file's alignment, are returned.
pub fn plan_set(gguf: &mut ParsedGguf, args: &SetArgs, float: Option<u64>, output_exists: bool) -> (r:
    Result<SetOutcome, AppError>)
    ensures
        ({
            let m = old(gguf).metadata@;
            let k = args.key@;
            let parsed = spec_parse_value(args.value@, args.value_type, float);
            &&& !has_key(m, k) && !args.force ==> (r matches Err(AppError::KeyNotFound { key, path })
                && key@ == k && path@ == args.file@)
            &&& (has_key(m, k) || args.force) && parsed is None ==> (r matches Err(
                AppError::TypeParse { .. },
            ))
            &&& (has_key(m, k) || args.force) && parsed is Some && args.dry_run ==> (r matches Ok(
                SetOutcome::DryRun { old, new },
            ) && pieces_model(new@) == spec_format_value(parsed->0, 8) && match old {
                Some(o) => lookup(m, k) matches Some(ov) && pieces_model(o@) == spec_format_value(
                    ov,
                    8,
                ),
                None => !has_key(m, k),
            })
            &&& (has_key(m, k) || args.force) && parsed is Some && !args.dry_run && output_exists
                && !args.force ==> (r matches Err(AppError::OutputExists { path }) && path@
                == args.output@)
            &&& final(gguf).metadata@ == if set_reaches_write(m, *args, float, output_exists) {
                spec_insert(m, k, parsed->0)
            } else {
                m
            }
            &&& set_reaches_write(m, *args, float, output_exists) && header_writable(
                parsed_model(*final(gguf)),
                final(gguf).alignment,
            ) ==> (r matches Ok(SetOutcome::Write { .. }))
            &&& (r matches Err(AppError::GgufLib { path, source }) ==> {
                &&& set_reaches_write(m, *args, float, output_exists)
                &&& path@ == args.output@
                &&& header_error(parsed_model(*final(gguf)), final(gguf).alignment, source)
            })
            &&& r matches Ok(SetOutcome::Write { header }) ==> {
                &&& set_reaches_write(m, *args, float, output_exists)
                &&& {
                    let len = enc_file(parsed_model(*final(gguf))).len();
                    header@ == enc_file(parsed_model(*final(gguf))) + zeros(
                        (spec_align(len as int, final(gguf).alignment as int) - len) as nat,
                    )
                }
            }
            &&& final(gguf).tensor_infos@ == old(gguf).tensor_infos@
            &&& final(gguf).alignment == old(gguf).alignment
            &&& final(gguf).path@ == old(gguf).path@
            &&& final(gguf).tensor_data_offset == old(gguf).tensor_data_offset
        }),
{
    let key_exists = gguf.metadata.contains_key(args.key.as_str());
    if !key_exists && !args.force {
        return Err(
            AppError::KeyNotFound { key: to_string(args.key.as_str()), path: to_string(args.file.as_str()) },
        );
    }
    let new_value = match parse_value(args.value.as_str(), &args.value_type, float) {
        Ok(v) => v,
        Err(e) => return Err(e),
    };
    if args.dry_run {
        let old = match gguf.metadata.get(args.key.as_str()) {
            Some(v) => Some(format_value(v, 8)),
            None => None,
        };
        return Ok(SetOutcome::DryRun { old, new: format_value(&new_value, 8) });
    }
    if output_exists && !args.force {
        return Err(AppError::OutputExists { path: to_string(args.output.as_str()) });
    }
    gguf.metadata.insert(to_string(args.key.as_str()), new_value);
    match gguf.header_bytes() {
        Ok(header) => Ok(SetOutcome::Write { header }),
        Err(e) => Err(AppError::gguf_lib(to_string(args.output.as_str()), e)),
    }
}

} // verus!
