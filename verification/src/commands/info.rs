//! `info`: a summary of a GGUF file as label/value rows.

use vstd::prelude::*;
use crate::display::{format_bytes, spec_format_bytes};
use crate::gguf::ParsedGguf;
use crate::text::{decimal, hex_pad, push_decimal, push_hex, push_str, spec_decimal, to_string};

verus! {

/// The summary rows of a file, in order: path, file size, format version,
/// tensor count, number of metadata entries, alignment, and the offset of
/// the tensor data (in hexadecimal and in IEC units).
pub open spec fn spec_info_rows(g: ParsedGguf) -> Seq<(Seq<char>, Seq<char>)> {
    seq![
        ("File"@, g.path@),
        ("File size"@, spec_format_bytes(g.file_size as nat)),
        ("GGUF version"@, spec_decimal(g.version as nat)),
        ("Tensor count"@, spec_decimal(g.tensor_count as nat)),
        ("Metadata entries"@, spec_decimal(g.metadata@.len())),
        ("Alignment"@, spec_decimal(g.alignment as nat) + " bytes"@),
        (
            "Tensor data offset"@,
            "0x"@ + hex_pad(g.tensor_data_offset as nat, 8, false) + "  ("@ + spec_format_bytes(
                g.tensor_data_offset as nat,
            ) + ")"@,
        ),
    ]
}

/// The summary rows of a file.
pub fn info_rows(gguf: &ParsedGguf) -> (r: Vec<(&'static str, String)>)
    ensures
        r@.map_values(|x: (&'static str, String)| (x.0@, x.1@)) == spec_info_rows(*gguf),
{
    let mut r: Vec<(&'static str, String)> = Vec::new();
    r.push(("File", to_string(gguf.path.as_str())));
    r.push(("File size", format_bytes(gguf.file_size)));
    r.push(("GGUF version", decimal(gguf.version as u64)));
    r.push(("Tensor count", decimal(gguf.tensor_count)));
    r.push(("Metadata entries", decimal(gguf.metadata.len() as u64)));
    let mut alignment = decimal(gguf.alignment);
    push_str(&mut alignment, " bytes");
    r.push(("Alignment", alignment));
    let mut offset = to_string("0x");
    push_hex(&mut offset, gguf.tensor_data_offset, 8, false);
    push_str(&mut offset, "  (");
    let size = format_bytes(gguf.tensor_data_offset);
    push_str(&mut offset, size.as_str());
    push_str(&mut offset, ")");
    r.push(("Tensor data offset", offset));
    proof {
        assert(r@.map_values(|x: (&'static str, String)| (x.0@, x.1@)) =~= spec_info_rows(*gguf));
    }
    r
}

} // verus!
