//! `tensors`: the tensor records selected by a filter, in file order, as
//! rows of name, shape, type, data offset and data size.

use vstd::prelude::*;
use crate::display::{format_bytes, format_shape, spec_format_bytes, spec_format_shape};
use crate::tensor::{tensor_model, tensor_models, tensor_size, TensorInfo, TensorModel};
use crate::text::{hex_pad, push_hex, to_string};

verus! {

broadcast use vstd::seq::group_seq_axioms;

/// One row of the tensor listing.
#[derive(Debug)]
pub struct TensorRow {
    pub name: String,
    pub shape: String,
    pub kind: &'static str,
    pub offset: String,
    pub size: String,
}

/// The model of a row.
pub open spec fn tensor_row_model(r: TensorRow) -> (Seq<char>, Seq<char>, Seq<char>, Seq<char>, Seq<char>) {
    (r.name@, r.shape@, r.kind@, r.offset@, r.size@)
}

/// The row of a tensor: its name, `[d0 × d1 × …]`, its type name, its data
/// offset as `0x` and at least eight lowercase hexadecimal digits, and its
/// data size in IEC units.
pub open spec fn tensor_row(t: TensorModel) -> (Seq<char>, Seq<char>, Seq<char>, Seq<char>, Seq<char>) {
    (
        t.name,
        spec_format_shape(t.dims),
        t.ttype.spec_name(),
        "0x"@ + hex_pad(t.offset as nat, 8, false),
        spec_format_bytes(tensor_size(t) as nat),
    )
}

/// The items of `s` at the positions where `keep` is true, in order.
pub open spec fn kept<T>(s: Seq<T>, keep: Seq<bool>) -> Seq<T>
    decreases s.len(),
{
    if s.len() == 0 {
        Seq::empty()
    } else {
        kept(s.drop_last(), keep.take(s.len() - 1)) + if keep[s.len() - 1] {
            seq![s.last()]
        } else {
            Seq::empty()
        }
    }
}

/// The row of a tensor record.
pub fn tensor_row_of(t: &TensorInfo) -> (r: TensorRow)
    ensures
        tensor_row_model(r) == tensor_row(tensor_model(*t)),
{
    let mut offset = to_string("0x");
    push_hex(&mut offset, t.data_offset, 8, false);
    TensorRow {
        name: to_string(t.name.as_str()),
        shape: format_shape(t.shape.dimensions.as_slice()),
        kind: t.tensor_type.name(),
        offset,
        size: format_bytes(t.expected_data_size()),
    }
}

/// The rows of the tensors at the positions where `keep` is true, in file
/// order.
pub fn tensor_rows(infos: &[TensorInfo], keep: &[bool]) -> (r: Vec<TensorRow>)
    requires
        keep@.len() == infos@.len(),
    ensures
        r@.map_values(|x: TensorRow| tensor_row_model(x)) == kept(tensor_models(infos@), keep@).map_values(
            |t: TensorModel| tensor_row(t),
        ),
{
    let ghost ts = tensor_models(infos@);
    let mut r: Vec<TensorRow> = Vec::new();
    let mut i: usize = 0;
    while i < infos.len()
        invariant
            ts == tensor_models(infos@),
            keep@.len() == infos@.len(),
            i <= infos@.len(),
            r@.map_values(|x: TensorRow| tensor_row_model(x)) == kept(
                ts.take(i as int),
                keep@.take(i as int),
            ).map_values(|t: TensorModel| tensor_row(t)),
        decreases infos@.len() - i,
    {
        let ghost before = r@;
        proof {
            let t1 = ts.take(i + 1);
            assert(t1.drop_last() =~= ts.take(i as int));
            assert(keep@.take(i + 1).take(i as int) =~= keep@.take(i as int));
            assert(t1.last() == tensor_model(infos@[i as int]));
        }
        if keep[i] {
            let row = tensor_row_of(&infos[i]);
            r.push(row);
            proof {
                assert(r@.map_values(|x: TensorRow| tensor_row_model(x)) =~= before.map_values(
                    |x: TensorRow| tensor_row_model(x),
                ).push(tensor_row_model(row)));
                assert(kept(ts.take(i + 1), keep@.take(i + 1)).map_values(|t: TensorModel| tensor_row(t))
                    =~= kept(ts.take(i as int), keep@.take(i as int)).map_values(
                    |t: TensorModel| tensor_row(t),
                ).push(tensor_row(tensor_model(infos@[i as int]))));
            }
        } else {
            proof {
                assert(kept(ts.take(i + 1), keep@.take(i + 1)) =~= kept(
                    ts.take(i as int),
                    keep@.take(i as int),
                ));
            }
        }
        i = i + 1;
    }
    proof {
        assert(ts.take(infos@.len() as int) =~= ts);
        assert(keep@.take(infos@.len() as int) =~= keep@);
    }
    r
}

} // verus!
