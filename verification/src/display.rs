//! Rendering of metadata values, value types, tensor shapes and byte sizes as
//! text.
//!
//! Floating-point values are not rendered here: a rendered value is a list of
//! [`Piece`]s in which each float appears by its bit pattern, and the caller
//! turns those into decimal text.  Everything else is rendered exactly.

use vstd::prelude::*;
use crate::format::{MetadataValue, ValueKind, ValueModel, model, models, lemma_models_index, lemma_models_len};
use crate::text::{decimal, signed_decimal, spec_decimal, spec_signed_decimal, push_str, push_decimal, to_string};

verus! {

broadcast use vstd::seq::group_seq_axioms;

/// One piece of a rendered value: literal text, or a float given by its bits.
#[derive(Debug, PartialEq)]
pub enum Piece {
    Text(String),
    F32(u32),
    F64(u64),
}

/// The model of a [`Piece`].
pub enum PieceModel {
    Text(Seq<char>),
    F32(u32),
    F64(u64),
}

pub open spec fn piece_model(p: Piece) -> PieceModel {
    match p {
        Piece::Text(s) => PieceModel::Text(s@),
        Piece::F32(b) => PieceModel::F32(b),
        Piece::F64(b) => PieceModel::F64(b),
    }
}

pub open spec fn pieces_model(s: Seq<Piece>) -> Seq<PieceModel> {
    s.map_values(|p: Piece| piece_model(p))
}

proof fn lemma_pieces_push(s: Seq<Piece>, p: Piece)
    ensures
        pieces_model(s.push(p)) == pieces_model(s).push(piece_model(p)),
{
    assert(pieces_model(s.push(p)) =~= pieces_model(s).push(piece_model(p)));
}

pub open spec fn text(s: Seq<char>) -> Seq<PieceModel> {
    seq![PieceModel::Text(s)]
}

/// Number of array items shown under `limit` (`0` shows every item).
pub open spec fn shown_items(total: nat, limit: nat) -> nat {
    if limit == 0 || total <= limit {
        total
    } else {
        limit
    }
}

/// The rendering of a metadata value: integers in decimal, booleans as
/// `true`/`false`, strings verbatim, floats as their bits, and arrays as
/// `[a, b, c]`, or `[a, b, … N more]` when only the first `limit` of them are
/// shown.
pub open spec fn spec_format_value(v: ValueModel, limit: nat) -> Seq<PieceModel>
    decreases v, 0nat,
{
    match v {
        ValueModel::U8(x) => text(spec_decimal(x as nat)),
        ValueModel::I8(x) => text(spec_signed_decimal(x as int)),
        ValueModel::U16(x) => text(spec_decimal(x as nat)),
        ValueModel::I16(x) => text(spec_signed_decimal(x as int)),
        ValueModel::U32(x) => text(spec_decimal(x as nat)),
        ValueModel::I32(x) => text(spec_signed_decimal(x as int)),
        ValueModel::F32(b) => seq![PieceModel::F32(b)],
        ValueModel::U64(x) => text(spec_decimal(x as nat)),
        ValueModel::I64(x) => text(spec_signed_decimal(x as int)),
        ValueModel::F64(b) => seq![PieceModel::F64(b)],
        ValueModel::Bool(b) => text(if b { "true"@ } else { "false"@ }),
        ValueModel::Str(s) => text(s),
        ValueModel::Array(_, items) => {
            let shown = shown_items(items.len(), limit);
            text("["@) + spec_join_values(items, shown, limit) + if shown < items.len() {
                text(", … "@ + spec_decimal((items.len() - shown) as nat) + " more]"@)
            } else {
                text("]"@)
            }
        },
    }
}

/// The renderings of the first `n` items, separated by `", "`.
pub open spec fn spec_join_values(items: Seq<ValueModel>, n: nat, limit: nat) -> Seq<PieceModel>
    decreases items, n,
{
    if n == 0 || n > items.len() {
        Seq::empty()
    } else if n == 1 {
        spec_format_value(items[0], limit)
    } else {
        spec_join_values(items, (n - 1) as nat, limit) + text(", "@) + spec_format_value(
            items[n - 1],
            limit,
        )
    }
}

/// Law: an array shows every item, with no `… N more` suffix, when the
/// limit is 0 (unlimited) or at least its length; otherwise it shows the
/// first `limit` items and says how many more there are.
pub proof fn law_array_limit(kind: ValueKind, items: Seq<ValueModel>, limit: nat)
    ensures
        limit == 0 || items.len() <= limit ==> spec_format_value(ValueModel::Array(kind, items), limit)
            == text("["@) + spec_join_values(items, items.len(), limit) + text("]"@),
        0 < limit < items.len() ==> spec_format_value(ValueModel::Array(kind, items), limit) == text(
            "["@,
        ) + spec_join_values(items, limit, limit) + text(
            ", … "@ + spec_decimal((items.len() - limit) as nat) + " more]"@,
        ),
{
}

fn push_text(out: &mut Vec<Piece>, s: String)
    ensures
        pieces_model(final(out)@) == pieces_model(old(out)@) + text(s@),
{
    let ghost before = out@;
    out.push(Piece::Text(s));
    proof {
        lemma_pieces_push(before, Piece::Text(s));
    }
}

/// Append the pieces of `val`.
fn push_value(out: &mut Vec<Piece>, val: &MetadataValue, limit: usize)
    ensures
        pieces_model(final(out)@) == pieces_model(old(out)@) + spec_format_value(
            model(*val),
            limit as nat,
        ),
    decreases val,
{
    let ghost before = out@;
    match val {
        MetadataValue::U8(x) => push_text(out, decimal(*x as u64)),
        MetadataValue::I8(x) => push_text(out, signed_decimal(*x as i64)),
        MetadataValue::U16(x) => push_text(out, decimal(*x as u64)),
        MetadataValue::I16(x) => push_text(out, signed_decimal(*x as i64)),
        MetadataValue::U32(x) => push_text(out, decimal(*x as u64)),
        MetadataValue::I32(x) => push_text(out, signed_decimal(*x as i64)),
        MetadataValue::F32(b) => {
            out.push(Piece::F32(*b));
            proof {
                lemma_pieces_push(before, Piece::F32(*b));
            }
        },
        MetadataValue::U64(x) => push_text(out, decimal(*x)),
        MetadataValue::I64(x) => push_text(out, signed_decimal(*x)),
        MetadataValue::F64(b) => {
            out.push(Piece::F64(*b));
            proof {
                lemma_pieces_push(before, Piece::F64(*b));
            }
        },
        MetadataValue::Bool(b) => {
            if *b {
                push_text(out, to_string("true"));
            } else {
                push_text(out, to_string("false"));
            }
        },
        MetadataValue::String(s) => push_text(out, to_string(s.as_str())),
        MetadataValue::Array(a) => {
            let ghost ms = models(a.items@);
            proof {
                lemma_models_len(a.items@);
            }
            let total = a.items.len();
            let shown = if limit == 0 || total <= limit {
                total
            } else {
                limit
            };
            push_text(out, to_string("["));
            let ghost start = pieces_model(out@);
            let mut i: usize = 0;
            while i < shown
                invariant
                    *val == MetadataValue::Array(*a),
                    ms == models(a.items@),
                    ms.len() == a.items@.len(),
                    total == a.items@.len(),
                    shown <= total,
                    i <= shown,
                    pieces_model(out@) == start + spec_join_values(ms, i as nat, limit as nat),
                decreases shown - i,
            {
                proof {
                    lemma_models_index(a.items@, i as int);
                }
                if i > 0 {
                    push_text(out, to_string(", "));
                }
                proof {
                    assert(decreases_to!(*val => val->Array_0));
                    assert(decreases_to!(*a => a.items));
                    assert(decreases_to!(a.items => a.items@));
                    assert(decreases_to!(a.items@ => a.items@[i as int]));
                    assert(decreases_to!(*val => a.items@[i as int]));
                }
                push_value(out, &a.items[i], limit);
                proof {
                    if i == 0 {
                        assert(pieces_model(out@) =~= start + spec_join_values(ms, 1, limit as nat));
                    } else {
                        assert(pieces_model(out@) =~= start + spec_join_values(
                            ms,
                            (i + 1) as nat,
                            limit as nat,
                        ));
                    }
                }
                i = i + 1;
            }
            if shown < total {
                let mut tail = to_string(", … ");
                push_decimal(&mut tail, (total - shown) as u64);
                push_str(&mut tail, " more]");
                push_text(out, tail);
            } else {
                push_text(out, to_string("]"));
            }
            proof {
                assert(pieces_model(out@) =~= pieces_model(before) + spec_format_value(
                    model(*val),
                    limit as nat,
                ));
            }
        },
    }
}

/// Render a metadata value.  Arrays show at most `array_limit` items (all of
/// them when `array_limit` is `0`) and say how many were left out.
pub fn format_value(val: &MetadataValue, array_limit: usize) -> (r: Vec<Piece>)
    ensures
        pieces_model(r@) == spec_format_value(model(*val), array_limit as nat),
{
    let mut out: Vec<Piece> = Vec::new();
    proof {
        assert(pieces_model(out@) =~= Seq::<PieceModel>::empty());
    }
    push_value(&mut out, val, array_limit);
    proof {
        assert(pieces_model(out@) =~= spec_format_value(model(*val), array_limit as nat));
    }
    out
}

/// The short name of a value kind, as shown in listings and exports.
pub open spec fn kind_name(k: ValueKind) -> Seq<char> {
    match k {
        ValueKind::U8 => "u8"@,
        ValueKind::I8 => "i8"@,
        ValueKind::U16 => "u16"@,
        ValueKind::I16 => "i16"@,
        ValueKind::U32 => "u32"@,
        ValueKind::I32 => "i32"@,
        ValueKind::F32 => "f32"@,
        ValueKind::U64 => "u64"@,
        ValueKind::I64 => "i64"@,
        ValueKind::F64 => "f64"@,
        ValueKind::Bool => "bool"@,
        ValueKind::String => "string"@,
        ValueKind::Array => "array"@,
    }
}

/// Law: the type column names each kind by the lowercase name of its GGUF
/// value type.
pub proof fn law_kind_names()
    ensures
        kind_name(ValueKind::U8) == "u8"@,
        kind_name(ValueKind::I8) == "i8"@,
        kind_name(ValueKind::U16) == "u16"@,
        kind_name(ValueKind::I16) == "i16"@,
        kind_name(ValueKind::U32) == "u32"@,
        kind_name(ValueKind::I32) == "i32"@,
        kind_name(ValueKind::F32) == "f32"@,
        kind_name(ValueKind::U64) == "u64"@,
        kind_name(ValueKind::I64) == "i64"@,
        kind_name(ValueKind::F64) == "f64"@,
        kind_name(ValueKind::Bool) == "bool"@,
        kind_name(ValueKind::String) == "string"@,
        kind_name(ValueKind::Array) == "array"@,
{
}

/// The short name of the kind of `val` (`"u32"`, `"string"`, `"array"`, …).
pub fn format_type(val: &MetadataValue) -> (s: &'static str)
    ensures
        s@ == kind_name(model(*val).kind()),
{
    match val {
        MetadataValue::U8(_) => "u8",
        MetadataValue::I8(_) => "i8",
        MetadataValue::U16(_) => "u16",
        MetadataValue::I16(_) => "i16",
        MetadataValue::U32(_) => "u32",
        MetadataValue::I32(_) => "i32",
        MetadataValue::F32(_) => "f32",
        MetadataValue::U64(_) => "u64",
        MetadataValue::I64(_) => "i64",
        MetadataValue::F64(_) => "f64",
        MetadataValue::Bool(_) => "bool",
        MetadataValue::String(_) => "string",
        MetadataValue::Array(_) => "array",
    }
}

/// The dimensions in decimal, separated by `" × "`.
pub open spec fn spec_join_dims(dims: Seq<u64>) -> Seq<char>
    decreases dims.len(),
{
    if dims.len() == 0 {
        Seq::empty()
    } else if dims.len() == 1 {
        spec_decimal(dims[0] as nat)
    } else {
        spec_join_dims(dims.drop_last()) + " × "@ + spec_decimal(dims.last() as nat)
    }
}

/// A tensor shape as `[d0 × d1 × …]`, or `[]` for no dimensions.
pub open spec fn spec_format_shape(dims: Seq<u64>) -> Seq<char> {
    if dims.len() == 0 {
        "[]"@
    } else {
        "["@ + spec_join_dims(dims) + "]"@
    }
}

/// Render a tensor shape as `[d0 × d1 × …]`.
pub fn format_shape(dims: &[u64]) -> (s: String)
    ensures
        s@ == spec_format_shape(dims@),
{
    if dims.len() == 0 {
        return to_string("[]");
    }
    let mut s = to_string("[");
    let mut i: usize = 0;
    while i < dims.len()
        invariant
            0 < dims@.len(),
            i <= dims@.len(),
            s@ == "["@ + spec_join_dims(dims@.take(i as int)),
        decreases dims@.len() - i,
    {
        if i > 0 {
            push_str(&mut s, " × ");
        }
        push_decimal(&mut s, dims[i]);
        proof {
            let t = dims@.take(i + 1);
            assert(t.drop_last() =~= dims@.take(i as int));
            if i == 0 {
                assert(s@ =~= "["@ + spec_join_dims(t));
            } else {
                assert(s@ =~= "["@ + spec_join_dims(t));
            }
        }
        i = i + 1;
    }
    push_str(&mut s, "]");
    proof {
        assert(dims@.take(dims@.len() as int) =~= dims@);
    }
    s
}

// ── Byte sizes ───────────────────────────────────────────────────────────────

/// `2^e`.
pub open spec fn two_pow(e: nat) -> nat
    decreases e,
{
    if e == 0 {
        1
    } else {
        2 * two_pow((e - 1) as nat)
    }
}

/// Integers below this bound are exactly representable as `f64`.
pub const F64_EXACT_LIMIT: u64 = 9_007_199_254_740_992;

/// How many low bits of `n` do not fit in the 53-bit significand of an `f64`.
pub open spec fn excess_bits(n: nat) -> nat
    decreases n,
{
    if n < F64_EXACT_LIMIT {
        0
    } else {
        1 + excess_bits(n / 2)
    }
}

/// `a / d` rounded to the nearest integer, ties to even.
pub open spec fn div_round_even(a: nat, d: nat) -> nat {
    let q = a / d;
    let r = a % d;
    if 2 * r < d || (2 * r == d && q % 2 == 0) {
        q
    } else {
        q + 1
    }
}

/// The value of `n as f64`: `n` rounded to the nearest multiple of the unit in
/// the last place of a 53-bit significand, ties to even.
pub open spec fn f64_value(n: nat) -> nat {
    let u = two_pow(excess_bits(n));
    div_round_even(n, u) * u
}

/// `(n as f64 / 2^shift)` with `decimals` decimal places, as an integer count
/// of `10^-decimals` (the exact quotient rounded half to even).
pub open spec fn scaled_value(n: nat, shift: nat, scale: nat) -> nat {
    div_round_even(f64_value(n) * scale, two_pow(shift))
}

/// A count of hundredths as `I.FF`.
pub open spec fn fixed2(q: nat) -> Seq<char> {
    spec_decimal(q / 100) + "."@ + spec_decimal((q / 10) % 10) + spec_decimal(q % 10)
}

/// A count of tenths as `I.F`.
pub open spec fn fixed1(q: nat) -> Seq<char> {
    spec_decimal(q / 10) + "."@ + spec_decimal(q % 10)
}

pub const KIB: u64 = 1024;
pub const MIB: u64 = 1_048_576;
pub const GIB: u64 = 1_073_741_824;
pub const TIB: u64 = 1_099_511_627_776;

/// A byte count in IEC units with two decimals above 1 KiB.
pub open spec fn spec_format_bytes(b: nat) -> Seq<char> {
    if b < KIB {
        spec_decimal(b) + " B"@
    } else if b < MIB {
        fixed2(scaled_value(b, 10, 100)) + " KiB"@
    } else if b < GIB {
        fixed2(scaled_value(b, 20, 100)) + " MiB"@
    } else if b < TIB {
        fixed2(scaled_value(b, 30, 100)) + " GiB"@
    } else {
        fixed2(scaled_value(b, 40, 100)) + " TiB"@
    }
}

proof fn lemma_two_pow_pos(e: nat)
    ensures
        two_pow(e) >= 1,
    decreases e,
{
    if e > 0 {
        lemma_two_pow_pos((e - 1) as nat);
    }
}

proof fn lemma_two_pow_add(a: nat, b: nat)
    ensures
        two_pow(a + b) == two_pow(a) * two_pow(b),
    decreases a,
{
    if a == 0 {
        assert(a + b == b);
        assert(two_pow(0) == 1);
    } else {
        lemma_two_pow_add((a - 1) as nat, b);
        assert(two_pow(a) == 2 * two_pow((a - 1) as nat));
        assert(two_pow(a + b) == 2 * two_pow((a - 1 + b) as nat));
        assert(2 * (two_pow((a - 1) as nat) * two_pow(b)) == (2 * two_pow((a - 1) as nat)) * two_pow(
            b,
        )) by (nonlinear_arith);
    }
}

/// The sizes of the binary units as powers of two.
pub proof fn lemma_units()
    ensures
        two_pow(10) == KIB,
        two_pow(20) == MIB,
        two_pow(30) == GIB,
        two_pow(40) == TIB,
{
    assert(two_pow(10) == 1024) by {
        reveal_with_fuel(two_pow, 11);
    }
    lemma_two_pow_add(10, 10);
    lemma_two_pow_add(20, 10);
    lemma_two_pow_add(30, 10);
}

fn div_round_even_exec(a: u128, d: u128) -> (q: u128)
    requires
        d >= 1,
        a < 0xffff_ffff_ffff_ffff_ffff_ffff_ffff_fff0u128,
    ensures
        q == div_round_even(a as nat, d as nat),
        q <= a as nat / (d as nat) + 1,
{
    let q = a / d;
    let r = a % d;
    if r < d - r || (r == d - r && q % 2 == 0) {
        q
    } else {
        proof {
            assert(q <= a) by (nonlinear_arith)
                requires
                    q == a / d,
                    d >= 1,
            ;
        }
        q + 1
    }
}

pub const F64_VALUE_BOUND: u128 = 0x1_0000_0000_0000_1000u128;

/// The value of `n as f64`, as an integer.
fn f64_value_exec(n: u64) -> (r: u128)
    ensures
        r == f64_value(n as nat),
        r <= F64_VALUE_BOUND,
{
    let mut q: u64 = n;
    let mut u: u128 = 1;
    let ghost mut e: nat = 0;
    while q >= F64_EXACT_LIMIT
        invariant
            u == two_pow(e),
            1 <= u <= 4096,
            q as nat == n as nat / (u as nat),
            excess_bits(n as nat) == e + excess_bits(q as nat),
            u * (q as nat) <= n,
        decreases q,
    {
        proof {
            vstd::arithmetic::div_mod::lemma_div_denominator(n as int, u as int, 2);
            assert(u < 2048) by (nonlinear_arith)
                requires
                    u * (q as nat) <= n,
                    q >= F64_EXACT_LIMIT,
                    n <= 0xffff_ffff_ffff_ffffu64,
                    u >= 1,
            ;
            assert(u * 2 * ((q / 2) as nat) <= n) by (nonlinear_arith)
                requires
                    u * (q as nat) <= n,
                    u >= 1,
            ;
        }
        q = q / 2;
        u = u * 2;
        proof {
            e = e + 1;
        }
    }
    let k = div_round_even_exec(n as u128, u);
    proof {
        assert(k * u <= n + u) by (nonlinear_arith)
            requires
                k <= n as nat / (u as nat) + 1,
                u >= 1,
        ;
    }
    k * u
}

/// `scaled_value(n, shift, scale)`, where `unit == 2^shift`.
pub(crate) fn scaled_exec(n: u64, shift: Ghost<nat>, unit: u128, scale: u128) -> (q: u128)
    requires
        unit == two_pow(shift@),
        KIB <= unit <= TIB,
        1 <= scale <= 100,
    ensures
        q == scaled_value(n as nat, shift@, scale as nat),
        q < 0x1_0000_0000_0000_0000u128,
{
    let v = f64_value_exec(n);
    proof {
        assert(v * scale <= F64_VALUE_BOUND * 100) by (nonlinear_arith)
            requires
                v <= F64_VALUE_BOUND,
                scale <= 100,
        ;
    }
    let q = div_round_even_exec(v * scale, unit);
    proof {
        assert((v * scale) as nat / (unit as nat) <= (v * scale) as nat / 1024) by {
            vstd::arithmetic::div_mod::lemma_div_is_ordered_by_denominator(
                (v * scale) as int,
                1024,
                unit as int,
            );
            vstd::arithmetic::div_mod::lemma_div_is_ordered(
                (v * scale) as int,
                (F64_VALUE_BOUND * 100) as int,
                1024,
            );
        }
    }
    q
}

/// Append `q / 100` and two decimals.
pub(crate) fn push_fixed2(s: &mut String, q: u128)
    requires
        q < 0x1_0000_0000_0000_0000u128,
    ensures
        final(s)@ == old(s)@ + fixed2(q as nat),
{
    push_decimal(s, (q / 100) as u64);
    push_str(s, ".");
    push_decimal(s, ((q / 10) % 10) as u64);
    push_decimal(s, (q % 10) as u64);
}

/// Append `q / 10` and one decimal.
pub(crate) fn push_fixed1(s: &mut String, q: u128)
    requires
        q < 0x1_0000_0000_0000_0000u128,
    ensures
        final(s)@ == old(s)@ + fixed1(q as nat),
{
    push_decimal(s, (q / 10) as u64);
    push_str(s, ".");
    push_decimal(s, (q % 10) as u64);
}

/// Render a byte count in IEC units: `"512 B"`, `"1.00 KiB"`, `"3.50 GiB"`.
pub fn format_bytes(bytes: u64) -> (s: String)
    ensures
        s@ == spec_format_bytes(bytes as nat),
{
    let mut s = String::new();
    if bytes < KIB {
        push_decimal(&mut s, bytes);
        push_str(&mut s, " B");
    } else {
        proof {
            lemma_units();
        }
        let q = if bytes < MIB {
            scaled_exec(bytes, Ghost(10), KIB as u128, 100)
        } else if bytes < GIB {
            scaled_exec(bytes, Ghost(20), MIB as u128, 100)
        } else if bytes < TIB {
            scaled_exec(bytes, Ghost(30), GIB as u128, 100)
        } else {
            scaled_exec(bytes, Ghost(40), TIB as u128, 100)
        };
        push_fixed2(&mut s, q);
        if bytes < MIB {
            push_str(&mut s, " KiB");
        } else if bytes < GIB {
            push_str(&mut s, " MiB");
        } else if bytes < TIB {
            push_str(&mut s, " GiB");
        } else {
            push_str(&mut s, " TiB");
        }
    }
    proof {
        assert(s@ =~= spec_format_bytes(bytes as nat));
    }
    s
}

// ── Terminal width and table columns ────────────────────────────────────────

/// `terminal_size::terminal_size`: the width in columns of the first of
/// standard output, error and input that is a terminal.  It depends on the
/// environment, so nothing is stated of it.
#[verifier::external_body]
fn terminal_columns() -> Option<u16> {
    terminal_size::terminal_size().map(|(w, _h)| w.0)
}

/// The width in columns for what the terminal reported: its width, or 80
/// when there is no terminal.
pub fn width_from(cols: Option<u16>) -> (w: usize)
    ensures
        w == match cols {
            Some(c) => c as usize,
            None => 80,
        },
{
    match cols {
        Some(c) => c as usize,
        None => 80,
    }
}

/// The terminal width in columns, or 80 when it cannot be determined.
pub fn term_width() -> (w: usize)
    ensures
        w == 80 || w <= u16::MAX,
{
    width_from(terminal_columns())
}

/// The widths of the key column and of the value column of the metadata
/// table for a terminal `width` columns wide: the key column is as wide as
/// the longest key in bytes (at least 3); the value column takes what is
/// left after the key column, an 8-column type column and 14 columns of
/// borders, and at least 20.
pub open spec fn spec_meta_widths(key_lens: Seq<nat>, width: nat) -> (nat, nat) {
    let key_w = max_len(key_lens, 3);
    let rest = width - (key_w + 8 + 14);
    (key_w, if rest > 20 { rest as nat } else { 20 })
}

/// The largest of `lens` and `floor`.
pub open spec fn max_len(lens: Seq<nat>, floor: nat) -> nat
    decreases lens.len(),
{
    if lens.len() == 0 {
        floor
    } else {
        let m = max_len(lens.drop_last(), floor);
        if lens.last() > m {
            lens.last()
        } else {
            m
        }
    }
}

/// Column widths of the metadata table (see [`spec_meta_widths`]).
pub fn meta_widths(keys: &[&str], width: usize) -> (r: (usize, usize))
    ensures
        (r.0 as nat, r.1 as nat) == spec_meta_widths(
            keys@.map_values(|k: &str| vstd::utf8::encode_utf8(k@).len()),
            width as nat,
        ),
{
    let ghost lens = keys@.map_values(|k: &str| vstd::utf8::encode_utf8(k@).len());
    let mut key_w: usize = 3;
    let mut i: usize = 0;
    while i < keys.len()
        invariant
            lens == keys@.map_values(|k: &str| vstd::utf8::encode_utf8(k@).len()),
            i <= keys@.len(),
            key_w == max_len(lens.take(i as int), 3),
        decreases keys@.len() - i,
    {
        let n = keys[i].as_bytes().len();
        proof {
            assert(lens.take(i + 1).drop_last() =~= lens.take(i as int));
            assert(lens.take(i + 1).last() == n);
        }
        if n > key_w {
            key_w = n;
        }
        i = i + 1;
    }
    proof {
        assert(lens.take(lens.len() as int) =~= lens);
    }
    let value_w = if key_w <= usize::MAX - 42 && width > key_w + 42 {
        width - (key_w + 22)
    } else {
        20
    };
    (key_w, value_w)
}

} // verus!
