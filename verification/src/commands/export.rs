//! `export`: metadata as Markdown or CSV text.  [`sorted_entries`] orders
//! the entries by key; [`export_markdown`] and [`export_csv`] render entries
//! in the order given, and `export` gives them the sorted entries.

use vstd::prelude::*;
use crate::display::{format_type, format_value, kind_name, pieces_model, piece_model, spec_format_value, Piece, PieceModel};
use crate::format::{model, MetadataValue, ValueModel};
use crate::metadata::{EntryModel, Metadata};
use crate::text::{push_str, replace_char, spec_replace_char, to_string};

verus! {

broadcast use vstd::seq::group_seq_axioms;

/// The models of borrowed entries.
pub open spec fn borrowed_models(es: Seq<(&String, &MetadataValue)>) -> Seq<EntryModel> {
    es.map_values(|e: (&String, &MetadataValue)| (e.0@, model(*e.1)))
}

/// Text pieces with every `c` replaced by `rep`; float pieces unchanged.
pub open spec fn escape_pieces(ps: Seq<PieceModel>, c: char, rep: Seq<char>) -> Seq<PieceModel> {
    ps.map_values(
        |p: PieceModel|
            match p {
                PieceModel::Text(s) => PieceModel::Text(spec_replace_char(s, c, rep)),
                other => other,
            },
    )
}

/// One Markdown table row: `` | `key` | `type` | value | `` with `|` in the
/// value escaped as `\|`.
pub open spec fn markdown_row(e: EntryModel, limit: nat) -> Seq<PieceModel> {
    seq![PieceModel::Text("| `"@ + e.0 + "` | `"@ + kind_name(e.1.kind()) + "` | "@)] + escape_pieces(
        spec_format_value(e.1, limit),
        '|',
        "\\|"@,
    ) + seq![PieceModel::Text(" |\n"@)]
}

/// One CSV record: `key,type,"value"` with `"` in the value doubled.
pub open spec fn csv_row(e: EntryModel, limit: nat) -> Seq<PieceModel> {
    seq![PieceModel::Text(e.0 + ","@ + kind_name(e.1.kind()) + ",\""@)] + escape_pieces(
        spec_format_value(e.1, limit),
        '"',
        "\"\""@,
    ) + seq![PieceModel::Text("\"\n"@)]
}

/// The rows of all entries, one after the other.
pub open spec fn rows(es: Seq<EntryModel>, limit: nat, markdown: bool) -> Seq<PieceModel>
    decreases es.len(),
{
    if es.len() == 0 {
        Seq::empty()
    } else {
        rows(es.drop_last(), limit, markdown) + if markdown {
            markdown_row(es.last(), limit)
        } else {
            csv_row(es.last(), limit)
        }
    }
}

pub open spec fn spec_export_markdown(es: Seq<EntryModel>, limit: nat) -> Seq<PieceModel> {
    seq![PieceModel::Text("| Key | Type | Value |\n|-----|------|-------|\n"@)] + rows(es, limit, true)
}

pub open spec fn spec_export_csv(es: Seq<EntryModel>, limit: nat) -> Seq<PieceModel> {
    seq![PieceModel::Text("key,type,value\n"@)] + rows(es, limit, false)
}

proof fn lemma_pieces_push(s: Seq<Piece>, p: Piece)
    ensures
        pieces_model(s.push(p)) == pieces_model(s).push(piece_model(p)),
{
    assert(pieces_model(s.push(p)) =~= pieces_model(s).push(piece_model(p)));
}

/// Append `ps` to `out` with `c` replaced by `rep` in its text.
fn push_escaped(out: &mut Vec<Piece>, ps: Vec<Piece>, c: char, rep: &str)
    ensures
        pieces_model(final(out)@) == pieces_model(old(out)@) + escape_pieces(
            pieces_model(ps@),
            c,
            rep@,
        ),
{
    let ghost start = pieces_model(out@);
    let ghost src = ps@;
    let mut i: usize = 0;
    while i < ps.len()
        invariant
            src == ps@,
            i <= ps@.len(),
            pieces_model(out@) == start + escape_pieces(pieces_model(src.take(i as int)), c, rep@),
        decreases ps@.len() - i,
    {
        let ghost before = out@;
        let p = match &ps[i] {
            Piece::Text(s) => Piece::Text(replace_char(s.as_str(), c, rep)),
            Piece::F32(b) => Piece::F32(*b),
            Piece::F64(b) => Piece::F64(*b),
        };
        out.push(p);
        proof {
            lemma_pieces_push(before, p);
            assert(src.take(i + 1) =~= src.take(i as int).push(src[i as int]));
            assert(pieces_model(src.take(i + 1)) =~= pieces_model(src.take(i as int)).push(
                piece_model(src[i as int]),
            ));
            assert(pieces_model(out@) =~= start + escape_pieces(
                pieces_model(src.take(i + 1)),
                c,
                rep@,
            ));
        }
        i = i + 1;
    }
    proof {
        assert(src.take(src.len() as int) =~= src);
    }
}

fn push_text(out: &mut Vec<Piece>, s: String)
    ensures
        pieces_model(final(out)@) == pieces_model(old(out)@).push(PieceModel::Text(s@)),
{
    let ghost before = out@;
    out.push(Piece::Text(s));
    proof {
        lemma_pieces_push(before, Piece::Text(s));
    }
}

/// The rows of `entries`, appended to `out`.
fn push_rows(out: &mut Vec<Piece>, entries: &[(&String, &MetadataValue)], array_limit: usize, markdown: bool)
    ensures
        pieces_model(final(out)@) == pieces_model(old(out)@) + rows(
            borrowed_models(entries@),
            array_limit as nat,
            markdown,
        ),
{
    let ghost start = pieces_model(out@);
    let ghost es = borrowed_models(entries@);
    let mut i: usize = 0;
    while i < entries.len()
        invariant
            es == borrowed_models(entries@),
            i <= entries@.len(),
            pieces_model(out@) == start + rows(es.take(i as int), array_limit as nat, markdown),
        decreases entries@.len() - i,
    {
        let (k, v) = entries[i];
        let ghost mid = pieces_model(out@);
        let mut head = String::new();
        if markdown {
            push_str(&mut head, "| `");
            push_str(&mut head, k.as_str());
            push_str(&mut head, "` | `");
            push_str(&mut head, format_type(v));
            push_str(&mut head, "` | ");
        } else {
            push_str(&mut head, k.as_str());
            push_str(&mut head, ",");
            push_str(&mut head, format_type(v));
            push_str(&mut head, ",\"");
        }
        push_text(out, head);
        if markdown {
            push_escaped(out, format_value(v, array_limit), '|', "\\|");
            push_text(out, to_string(" |\n"));
        } else {
            push_escaped(out, format_value(v, array_limit), '"', "\"\"");
            push_text(out, to_string("\"\n"));
        }
        proof {
            let e = es[i as int];
            assert(e == (k@, model(*v)));
            assert(es.take(i + 1).drop_last() =~= es.take(i as int));
            if markdown {
                assert(pieces_model(out@) =~= mid + markdown_row(e, array_limit as nat));
            } else {
                assert(pieces_model(out@) =~= mid + csv_row(e, array_limit as nat));
            }
            assert(pieces_model(out@) =~= start + rows(es.take(i + 1), array_limit as nat, markdown));
        }
        i = i + 1;
    }
    proof {
        assert(es.take(es.len() as int) =~= es);
    }
}

/// Metadata as a Markdown table: a `Key | Type | Value` header, then one row
/// per entry with `` `key` ``, `` `type` `` and the value (`|` escaped as
/// `\|`).
pub fn export_markdown(entries: &[(&String, &MetadataValue)], array_limit: usize) -> (r: Vec<Piece>)
    ensures
        pieces_model(r@) == spec_export_markdown(borrowed_models(entries@), array_limit as nat),
{
    let mut out: Vec<Piece> = Vec::new();
    push_text(&mut out, to_string("| Key | Type | Value |\n|-----|------|-------|\n"));
    push_rows(&mut out, entries, array_limit, true);
    proof {
        assert(pieces_model(out@) =~= spec_export_markdown(
            borrowed_models(entries@),
            array_limit as nat,
        ));
    }
    out
}

/// Metadata as CSV: a `key,type,value` header, then one record per entry
/// with the value in double quotes (inner `"` doubled).
pub fn export_csv(entries: &[(&String, &MetadataValue)], array_limit: usize) -> (r: Vec<Piece>)
    ensures
        pieces_model(r@) == spec_export_csv(borrowed_models(entries@), array_limit as nat),
{
    let mut out: Vec<Piece> = Vec::new();
    push_text(&mut out, to_string("key,type,value\n"));
    push_rows(&mut out, entries, array_limit, false);
    proof {
        assert(pieces_model(out@) =~= spec_export_csv(borrowed_models(entries@), array_limit as nat));
    }
    out
}

/// The entries of `metadata`, ordered by key.
pub fn sorted_entries(metadata: &Metadata) -> (r: Vec<(&String, &MetadataValue)>)
    ensures
        r@.len() == metadata@.len(),
        forall|i: int| 0 <= i < r@.len() ==> metadata@.contains(#[trigger] borrowed_models(r@)[i]),
        forall|i: int, j: int|
            0 <= i < j < r@.len() ==> crate::text::seq_less(
                #[trigger] borrowed_models(r@)[i].0,
                #[trigger] borrowed_models(r@)[j].0,
            ),
{
    let order = metadata.sorted_order();
    let es = metadata.entries();
    let mut r: Vec<(&String, &MetadataValue)> = Vec::new();
    let mut i: usize = 0;
    while i < order.len()
        invariant
            crate::metadata::entry_models(es@) == metadata@,
            order@.len() == metadata@.len(),
            forall|a: int| 0 <= a < order@.len() ==> order@[a] < metadata@.len(),
            i <= order@.len(),
            r@.len() == i,
            forall|a: int| 0 <= a < i ==> #[trigger] borrowed_models(r@)[a] == metadata@[order@[a] as int],
        decreases order@.len() - i,
    {
        let e = &es[order[i]];
        let ghost before = r@;
        r.push((&e.0, &e.1));
        proof {
            assert forall|a: int| 0 <= a < i + 1 implies #[trigger] borrowed_models(r@)[a] == metadata@[order@[a] as int] by {
                if a < i {
                    assert(borrowed_models(r@)[a] == borrowed_models(before)[a]);
                }
            }
        }
        i = i + 1;
    }
    proof {
        assert forall|a: int| 0 <= a < r@.len() implies metadata@.contains(
            #[trigger] borrowed_models(r@)[a],
        ) by {
            assert(borrowed_models(r@)[a] == metadata@[order@[a] as int]);
        }
    }
    r
}

} // verus!
