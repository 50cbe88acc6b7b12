//! `remove`: delete one metadata key and write the result to a new file.

use vstd::prelude::*;
use crate::cli::RemoveArgs;
use crate::display::{format_value, pieces_model, spec_format_value, Piece};
use crate::error::AppError;
use crate::gguf::{enc_file, header_error, header_writable, parsed_model, spec_align, zeros, ParsedGguf};
use crate::metadata::{has_key, lookup, spec_remove, EntryModel};
use crate::text::to_string;

verus! {

/// Whether `remove` goes on to change the metadata and write a file: the key
/// exists, it is no dry run, and the output does not exist or `--force` is
/// given.
pub open spec fn remove_reaches_write(m: Seq<EntryModel>, args: RemoveArgs, output_exists: bool) -> bool {
    &&& has_key(m, args.key@)
    &&& !args.dry_run
    &&& !output_exists || args.force
}

/// What `remove` does once the file has been read.
#[derive(Debug)]
pub enum RemoveOutcome {
    /// A dry run: the value that would be removed; nothing is written.
    DryRun { old: Vec<Piece> },
    /// Write `header` to the output file, followed by the source file's
    /// tensor data from its tensor-data offset to its end.
    Write { header: Vec<u8> },
}

/// The decisions of `remove`, given the file as read, the arguments and
/// whether the output path already exists.
///
/// In order: a missing key is an error; a dry run reports the value that
/// would go; an existing output without `--force` is an error; otherwise the
/// key is removed from `gguf` and the new header sections, padded to the
/// file's alignment, are returned.
pub fn plan_remove(gguf: &mut ParsedGguf, args: &RemoveArgs, output_exists: bool) -> (r: Result<
    RemoveOutcome,
    AppError,
>)
    ensures
        ({
            let m = old(gguf).metadata@;
            let k = args.key@;
            &&& !has_key(m, k) ==> (r matches Err(AppError::KeyNotFound { key, path }) && key@ == k
                && path@ == args.file@)
            &&& has_key(m, k) && args.dry_run ==> (r matches Ok(RemoveOutcome::DryRun { old })
                && lookup(m, k) matches Some(ov) && pieces_model(old@) == spec_format_value(ov, 8))
            &&& has_key(m, k) && !args.dry_run && output_exists && !args.force ==> (r matches Err(
                AppError::OutputExists { path },
            ) && path@ == args.output@)
            &&& final(gguf).metadata@ == if remove_reaches_write(m, *args, output_exists) {
                spec_remove(m, k)
            } else {
                m
            }
            &&& remove_reaches_write(m, *args, output_exists) && header_writable(
                parsed_model(*final(gguf)),
                final(gguf).alignment,
            ) ==> (r matches Ok(RemoveOutcome::Write { .. }))
            &&& (r matches Err(AppError::GgufLib { path, source }) ==> {
                &&& remove_reaches_write(m, *args, output_exists)
                &&& path@ == args.output@
                &&& header_error(parsed_model(*final(gguf)), final(gguf).alignment, source)
            })
            &&& r matches Ok(RemoveOutcome::Write { header }) ==> {
                &&& remove_reaches_write(m, *args, output_exists)
                &&& {
                    let len = enc_file(parsed_model(*final(gguf))).len();
                    header@ == enc_file(parsed_model(*final(gguf))) + zeros(
                        (spec_align(len as int, final(gguf).alignment as int) - len) as nat,
                    )
                }
            }
            &&& final(gguf).tensor_infos@ == old(gguf).tensor_infos@
            &&& final(gguf).alignment == old(gguf).alignment
            &&& final(gguf).path@ == old(gguf).path@
            &&& final(gguf).tensor_data_offset == old(gguf).tensor_data_offset
        }),
{
    let old = match gguf.metadata.get(args.key.as_str()) {
        Some(v) => v,
        None => {
            return Err(
                AppError::KeyNotFound {
                    key: to_string(args.key.as_str()),
                    path: to_string(args.file.as_str()),
                },
            );
        },
    };
    if args.dry_run {
        return Ok(RemoveOutcome::DryRun { old: format_value(old, 8) });
    }
    if output_exists && !args.force {
        return Err(AppError::OutputExists { path: to_string(args.output.as_str()) });
    }
    let _removed = gguf.metadata.remove(args.key.as_str());
    match gguf.header_bytes() {
        Ok(header) => Ok(RemoveOutcome::Write { header }),
        Err(e) => Err(AppError::gguf_lib(to_string(args.output.as_str()), e)),
    }
}

} // verus!
