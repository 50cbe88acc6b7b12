//! `meta`: the metadata entries selected by a filter, sorted by key, as
//! rows of key, type name and rendered value.

use vstd::prelude::*;
use crate::display::{format_type, format_value, kind_name, pieces_model, spec_format_value, Piece, PieceModel};
use crate::format::MetadataValue;
use crate::metadata::{EntryModel, Metadata, entry_models};
use crate::text::{seq_less, to_string};

verus! {

/// One row of the metadata listing.
#[derive(Debug)]
pub struct MetaRow {
    pub key: String,
    pub kind: &'static str,
    pub value: Vec<Piece>,
}

/// The model of a row: key, type name, rendered value.
pub open spec fn row_model(r: MetaRow) -> (Seq<char>, Seq<char>, Seq<PieceModel>) {
    (r.key@, r.kind@, pieces_model(r.value@))
}

/// The row of an entry.
pub open spec fn entry_row(e: EntryModel, limit: nat) -> (Seq<char>, Seq<char>, Seq<PieceModel>) {
    (e.0, kind_name(e.1.kind()), spec_format_value(e.1, limit))
}

/// `row` is the row of an entry at a position where `keep` is true.
pub open spec fn selected_row(
    row: (Seq<char>, Seq<char>, Seq<PieceModel>),
    m: Seq<EntryModel>,
    keep: Seq<bool>,
    limit: nat,
) -> bool {
    exists|j: int| 0 <= j < m.len() && keep[j] && row == entry_row(#[trigger] m[j], limit)
}

/// Some row has key `k`.
pub open spec fn has_row(r: Seq<MetaRow>, k: Seq<char>) -> bool {
    exists|a: int| 0 <= a < r.len() && (#[trigger] r[a]).key@ == k
}

/// The rows of the entries at the positions where `keep` is true, in
/// increasing key order.
pub fn meta_rows(metadata: &Metadata, keep: &[bool], array_limit: usize) -> (r: Vec<MetaRow>)
    requires
        keep@.len() == metadata@.len(),
    ensures
        forall|i: int|
            0 <= i < r@.len() ==> selected_row(
                #[trigger] row_model(r@[i]),
                metadata@,
                keep@,
                array_limit as nat,
            ),
        forall|j: int| 0 <= j < metadata@.len() && #[trigger] keep@[j] ==> has_row(r@, metadata@[j].0),
        forall|a: int, b: int| 0 <= a < b < r@.len() ==> seq_less(#[trigger] r@[a].key@, #[trigger] r@[b].key@),
{
    let order = metadata.sorted_order();
    let es = metadata.entries();
    let mut r: Vec<MetaRow> = Vec::new();
    let ghost mut src: Seq<int> = Seq::empty();
    let ghost mut at: Seq<int> = Seq::empty();
    let mut i: usize = 0;
    while i < order.len()
        invariant
            entry_models(es@) == metadata@,
            keep@.len() == metadata@.len(),
            order@.len() == metadata@.len(),
            forall|a: int| 0 <= a < order@.len() ==> order@[a] < metadata@.len(),
            forall|j: usize| j < metadata@.len() ==> #[trigger] order@.contains(j),
            forall|a: int, b: int|
                0 <= a < b < order@.len() ==> seq_less(
                    #[trigger] metadata@[order@[a] as int].0,
                    #[trigger] metadata@[order@[b] as int].0,
                ),
            i <= order@.len(),
            src.len() == r@.len(),
            forall|a: int|
                0 <= a < r@.len() ==> 0 <= #[trigger] src[a] < i && keep@[order@[src[a]] as int]
                    && row_model(r@[a]) == entry_row(
                    metadata@[order@[src[a]] as int],
                    array_limit as nat,
                ),
            forall|a: int, b: int| 0 <= a < b < r@.len() ==> #[trigger] src[a] < #[trigger] src[b],
            forall|a: int, b: int| 0 <= a < b < r@.len() ==> seq_less(#[trigger] r@[a].key@, #[trigger] r@[b].key@),
            at.len() == i,
            forall|t: int|
                0 <= t < i && keep@[order@[t] as int] ==> 0 <= #[trigger] at[t] < r@.len()
                    && r@[at[t]].key@ == metadata@[order@[t] as int].0,
        decreases order@.len() - i,
    {
        let idx = order[i];
        let ghost before = r@;
        if keep[idx] {
            let (k, v) = &es[idx];
            let row = MetaRow {
                key: to_string(k.as_str()),
                kind: format_type(v),
                value: format_value(v, array_limit),
            };
            proof {
                assert(entry_models(es@)[idx as int] == metadata@[idx as int]);
                assert(row_model(row) == entry_row(metadata@[idx as int], array_limit as nat));
            }
            r.push(row);
            proof {
                assert forall|a: int| 0 <= a < before.len() implies seq_less(
                    #[trigger] before[a].key@,
                    row.key@,
                ) by {
                    assert(src[a] < i);
                    assert(before[a].key@ == metadata@[order@[src[a]] as int].0);
                    assert(seq_less(
                        metadata@[order@[src[a]] as int].0,
                        metadata@[order@[i as int] as int].0,
                    ));
                }
                assert forall|a: int, b: int| 0 <= a < b < r@.len() implies seq_less(
                    #[trigger] r@[a].key@,
                    #[trigger] r@[b].key@,
                ) by {
                    if b < before.len() {
                        assert(r@[a] == before[a] && r@[b] == before[b]);
                    } else {
                        assert(r@[a] == before[a]);
                    }
                }
                src = src.push(i as int);
                at = at.push(before.len() as int);
            }
        } else {
            proof {
                at = at.push(0);
            }
        }
        i = i + 1;
    }
    proof {
        assert forall|j: int| 0 <= j < metadata@.len() && #[trigger] keep@[j] implies has_row(
            r@,
            metadata@[j].0,
        ) by {
            assert(order@.contains(j as usize));
            let t = choose|t: int| 0 <= t < order@.len() && order@[t] == j as usize;
            assert(keep@[order@[t] as int]);
            let a = at[t];
            assert(r@[a].key@ == metadata@[j].0);
        }
        assert forall|a: int| 0 <= a < r@.len() implies selected_row(
            #[trigger] row_model(r@[a]),
            metadata@,
            keep@,
            array_limit as nat,
        ) by {
            let j = order@[src[a]] as int;
            assert(0 <= j < metadata@.len());
            assert(keep@[j] && row_model(r@[a]) == entry_row(metadata@[j], array_limit as nat));
        }
    }
    r
}

} // verus!
