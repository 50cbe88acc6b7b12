//! GGUF metadata values and their byte encoding.
//!
//! A metadata value is encoded as its payload only; the value-type tag is
//! written by the enclosing key/value entry or array header.  All integers are
//! little-endian, strings are a `u64` byte length followed by UTF-8 bytes, and
//! an array is its element-type tag (`u32`), its length (`u64`) and then the
//! payloads of its elements.
//!
//! The parser is specified as the inverse of the encoder: it succeeds exactly
//! when the input holds, at the given position, the encoding of a well-formed
//! value of the requested kind, and it then returns that value.

use vstd::bytes::*;
use vstd::prelude::*;
use vstd::slice::*;
use vstd::utf8::*;

verus! {

broadcast use vstd::seq::group_seq_axioms;

/// Why bytes are not a GGUF file.
#[derive(Debug, PartialEq, Eq, Structural)]
pub enum GgufError {
    /// The input ended before the structure it describes.
    UnexpectedEnd,
    /// The first four bytes are not the GGUF magic number.
    InvalidMagic { found: u32 },
    /// The format version is not the supported one.
    UnsupportedVersion(u32),
    /// The header declares more tensors than the format allows.
    TooManyTensors(u64),
    /// The header declares more metadata entries than the format allows.
    TooManyMetadata(u64),
    /// A metadata key or value is malformed.
    InvalidMetadata,
    /// A tensor-info record is malformed.
    InvalidTensor,
    /// Two metadata entries share a key.
    DuplicateKey,
    /// The data ranges of two tensors overlap.
    TensorOverlap,
}

/// Longest string (in bytes) accepted in a GGUF file.
pub const MAX_STRING_LEN: u64 = 65_536;

/// Longest metadata array accepted in a GGUF file.
pub const MAX_ARRAY_LEN: u64 = 524_288;

/// The type tags of GGUF metadata values.
#[derive(Clone, Copy, Debug, PartialEq, Eq, Structural)]
pub enum ValueKind {
    U8,
    I8,
    U16,
    I16,
    U32,
    I32,
    F32,
    Bool,
    String,
    Array,
    U64,
    I64,
    F64,
}

impl ValueKind {
    /// The tag written in the file for this kind.
    pub open spec fn spec_code(self) -> u32 {
        match self {
            ValueKind::U8 => 0,
            ValueKind::I8 => 1,
            ValueKind::U16 => 2,
            ValueKind::I16 => 3,
            ValueKind::U32 => 4,
            ValueKind::I32 => 5,
            ValueKind::F32 => 6,
            ValueKind::Bool => 7,
            ValueKind::String => 8,
            ValueKind::Array => 9,
            ValueKind::U64 => 10,
            ValueKind::I64 => 11,
            ValueKind::F64 => 12,
        }
    }

    /// The kind whose tag is `c`, if any.
    pub open spec fn spec_from_code(c: u32) -> Option<ValueKind> {
        if c == 0 {
            Some(ValueKind::U8)
        } else if c == 1 {
            Some(ValueKind::I8)
        } else if c == 2 {
            Some(ValueKind::U16)
        } else if c == 3 {
            Some(ValueKind::I16)
        } else if c == 4 {
            Some(ValueKind::U32)
        } else if c == 5 {
            Some(ValueKind::I32)
        } else if c == 6 {
            Some(ValueKind::F32)
        } else if c == 7 {
            Some(ValueKind::Bool)
        } else if c == 8 {
            Some(ValueKind::String)
        } else if c == 9 {
            Some(ValueKind::Array)
        } else if c == 10 {
            Some(ValueKind::U64)
        } else if c == 11 {
            Some(ValueKind::I64)
        } else if c == 12 {
            Some(ValueKind::F64)
        } else {
            None
        }
    }

    pub fn code(&self) -> (c: u32)
        ensures
            c == self.spec_code(),
    {
        match self {
            ValueKind::U8 => 0,
            ValueKind::I8 => 1,
            ValueKind::U16 => 2,
            ValueKind::I16 => 3,
            ValueKind::U32 => 4,
            ValueKind::I32 => 5,
            ValueKind::F32 => 6,
            ValueKind::Bool => 7,
            ValueKind::String => 8,
            ValueKind::Array => 9,
            ValueKind::U64 => 10,
            ValueKind::I64 => 11,
            ValueKind::F64 => 12,
        }
    }

    pub fn from_code(c: u32) -> (k: Option<ValueKind>)
        ensures
            k == ValueKind::spec_from_code(c),
            k matches Some(kind) ==> kind.spec_code() == c,
    {
        if c == 0 {
            Some(ValueKind::U8)
        } else if c == 1 {
            Some(ValueKind::I8)
        } else if c == 2 {
            Some(ValueKind::U16)
        } else if c == 3 {
            Some(ValueKind::I16)
        } else if c == 4 {
            Some(ValueKind::U32)
        } else if c == 5 {
            Some(ValueKind::I32)
        } else if c == 6 {
            Some(ValueKind::F32)
        } else if c == 7 {
            Some(ValueKind::Bool)
        } else if c == 8 {
            Some(ValueKind::String)
        } else if c == 9 {
            Some(ValueKind::Array)
        } else if c == 10 {
            Some(ValueKind::U64)
        } else if c == 11 {
            Some(ValueKind::I64)
        } else if c == 12 {
            Some(ValueKind::F64)
        } else {
            None
        }
    }
}

/// Law: the metadata value-type tags are the GGUF ones (U8 = 0, I8 = 1,
/// U16 = 2, I16 = 3, U32 = 4, I32 = 5, F32 = 6, Bool = 7, String = 8,
/// Array = 9, U64 = 10, I64 = 11, F64 = 12); reading a tag gives the kind
/// with that tag, and every larger tag names no kind.
pub proof fn law_value_kind_tags()
    ensures
        ValueKind::U8.spec_code() == 0,
        ValueKind::I8.spec_code() == 1,
        ValueKind::U16.spec_code() == 2,
        ValueKind::I16.spec_code() == 3,
        ValueKind::U32.spec_code() == 4,
        ValueKind::I32.spec_code() == 5,
        ValueKind::F32.spec_code() == 6,
        ValueKind::Bool.spec_code() == 7,
        ValueKind::String.spec_code() == 8,
        ValueKind::Array.spec_code() == 9,
        ValueKind::U64.spec_code() == 10,
        ValueKind::I64.spec_code() == 11,
        ValueKind::F64.spec_code() == 12,
        forall|k: ValueKind| ValueKind::spec_from_code(#[trigger] k.spec_code()) == Some(k),
        forall|c: u32| c > 12 ==> #[trigger] ValueKind::spec_from_code(c) is None,
{
}

/// The tag of a kind determines the kind.
pub proof fn lemma_code_injective(a: ValueKind, b: ValueKind)
    ensures
        a.spec_code() == b.spec_code() ==> a == b,
        ValueKind::spec_from_code(a.spec_code()) == Some(a),
{
}

/// A metadata value.  Floating-point values are held by their IEEE-754 bit
/// patterns, exactly as they are stored in the file.
#[derive(Debug, PartialEq)]
pub enum MetadataValue {
    U8(u8),
    I8(i8),
    U16(u16),
    I16(i16),
    U32(u32),
    I32(i32),
    F32(u32),
    U64(u64),
    I64(i64),
    F64(u64),
    Bool(bool),
    String(String),
    Array(MetadataArray),
}

/// A homogeneous metadata array: every item has kind `value_type`.
#[derive(Debug, PartialEq)]
pub struct MetadataArray {
    pub value_type: ValueKind,
    pub items: Vec<MetadataValue>,
}

/// The mathematical model of a metadata value.
pub enum ValueModel {
    U8(u8),
    I8(i8),
    U16(u16),
    I16(i16),
    U32(u32),
    I32(i32),
    F32(u32),
    U64(u64),
    I64(i64),
    F64(u64),
    Bool(bool),
    Str(Seq<char>),
    Array(ValueKind, Seq<ValueModel>),
}

impl ValueModel {
    pub open spec fn kind(self) -> ValueKind {
        match self {
            ValueModel::U8(_) => ValueKind::U8,
            ValueModel::I8(_) => ValueKind::I8,
            ValueModel::U16(_) => ValueKind::U16,
            ValueModel::I16(_) => ValueKind::I16,
            ValueModel::U32(_) => ValueKind::U32,
            ValueModel::I32(_) => ValueKind::I32,
            ValueModel::F32(_) => ValueKind::F32,
            ValueModel::U64(_) => ValueKind::U64,
            ValueModel::I64(_) => ValueKind::I64,
            ValueModel::F64(_) => ValueKind::F64,
            ValueModel::Bool(_) => ValueKind::Bool,
            ValueModel::Str(_) => ValueKind::String,
            ValueModel::Array(_, _) => ValueKind::Array,
        }
    }
}

/// The model of an executable value.
pub open spec fn model(v: MetadataValue) -> ValueModel
    decreases v,
{
    match v {
        MetadataValue::U8(x) => ValueModel::U8(x),
        MetadataValue::I8(x) => ValueModel::I8(x),
        MetadataValue::U16(x) => ValueModel::U16(x),
        MetadataValue::I16(x) => ValueModel::I16(x),
        MetadataValue::U32(x) => ValueModel::U32(x),
        MetadataValue::I32(x) => ValueModel::I32(x),
        MetadataValue::F32(x) => ValueModel::F32(x),
        MetadataValue::U64(x) => ValueModel::U64(x),
        MetadataValue::I64(x) => ValueModel::I64(x),
        MetadataValue::F64(x) => ValueModel::F64(x),
        MetadataValue::Bool(x) => ValueModel::Bool(x),
        MetadataValue::String(s) => ValueModel::Str(s@),
        MetadataValue::Array(a) => ValueModel::Array(a.value_type, models(a.items@)),
    }
}

/// The models of a sequence of executable values.
pub open spec fn models(s: Seq<MetadataValue>) -> Seq<ValueModel>
    decreases s,
{
    if s.len() == 0 {
        Seq::empty()
    } else {
        models(s.drop_last()).push(model(s.last()))
    }
}

pub proof fn lemma_models_len(s: Seq<MetadataValue>)
    ensures
        models(s).len() == s.len(),
    decreases s.len(),
{
    if s.len() > 0 {
        lemma_models_len(s.drop_last());
    }
}

pub proof fn lemma_models_index(s: Seq<MetadataValue>, i: int)
    requires
        0 <= i < s.len(),
    ensures
        models(s).len() == s.len(),
        models(s)[i] == model(s[i]),
    decreases s.len(),
{
    lemma_models_len(s);
    if i < s.len() - 1 {
        lemma_models_index(s.drop_last(), i);
    }
}

pub proof fn lemma_models_push(s: Seq<MetadataValue>, v: MetadataValue)
    ensures
        models(s.push(v)) == models(s).push(model(v)),
{
    assert(s.push(v).drop_last() =~= s);
}

/// Encoding of a string: byte length then UTF-8 bytes.
pub open spec fn enc_string(s: Seq<char>) -> Seq<u8> {
    spec_u64_to_le_bytes(encode_utf8(s).len() as u64) + encode_utf8(s)
}

/// Encoding of a value's payload.
pub open spec fn enc_payload(v: ValueModel) -> Seq<u8>
    decreases v,
{
    match v {
        ValueModel::U8(x) => seq![x],
        ValueModel::I8(x) => seq![x as u8],
        ValueModel::U16(x) => spec_u16_to_le_bytes(x),
        ValueModel::I16(x) => spec_u16_to_le_bytes(x as u16),
        ValueModel::U32(x) => spec_u32_to_le_bytes(x),
        ValueModel::I32(x) => spec_u32_to_le_bytes(x as u32),
        ValueModel::F32(x) => spec_u32_to_le_bytes(x),
        ValueModel::U64(x) => spec_u64_to_le_bytes(x),
        ValueModel::I64(x) => spec_u64_to_le_bytes(x as u64),
        ValueModel::F64(x) => spec_u64_to_le_bytes(x),
        ValueModel::Bool(b) => seq![if b { 1u8 } else { 0u8 }],
        ValueModel::Str(s) => enc_string(s),
        ValueModel::Array(k, items) => spec_u32_to_le_bytes(k.spec_code()) + spec_u64_to_le_bytes(
            items.len() as u64,
        ) + enc_items(items),
    }
}

/// Encoding of a sequence of payloads, one after the other.
pub open spec fn enc_items(items: Seq<ValueModel>) -> Seq<u8>
    decreases items,
{
    if items.len() == 0 {
        Seq::empty()
    } else {
        enc_items(items.drop_last()) + enc_payload(items.last())
    }
}

/// A value that a GGUF file can hold: strings within the length limit, arrays
/// within the length limit whose items all have the array's element kind.
pub open spec fn wf_value(v: ValueModel) -> bool
    decreases v,
{
    match v {
        ValueModel::Str(s) => encode_utf8(s).len() <= MAX_STRING_LEN,
        ValueModel::Array(k, items) => items.len() <= MAX_ARRAY_LEN && wf_items(k, items),
        _ => true,
    }
}

/// Every item is well formed and of kind `k`.
pub open spec fn wf_items(k: ValueKind, items: Seq<ValueModel>) -> bool
    decreases items,
{
    if items.len() == 0 {
        true
    } else {
        wf_items(k, items.drop_last()) && items.last().kind() == k && wf_value(items.last())
    }
}

/// `e` occurs in `s` starting at `pos`.
pub open spec fn occurs_at(e: Seq<u8>, s: Seq<u8>, pos: int) -> bool {
    0 <= pos && pos + e.len() <= s.len() && s.subrange(pos, pos + e.len()) == e
}

pub proof fn lemma_u16_bytes()
    ensures
        forall|x: u16| #[trigger] spec_u16_to_le_bytes(x).len() == 2,
        forall|x: u16, y: u16|
            #[trigger] spec_u16_to_le_bytes(x) == #[trigger] spec_u16_to_le_bytes(y) ==> x == y,
{
    lemma_auto_spec_u16_to_from_le_bytes();
    assert forall|x: u16, y: u16|
        #[trigger] spec_u16_to_le_bytes(x) == #[trigger] spec_u16_to_le_bytes(y) implies x == y by {
        assert(spec_u16_to_le_bytes(x).len() == 2);
        assert(spec_u16_to_le_bytes(y).len() == 2);
    }
}

pub proof fn lemma_u32_bytes()
    ensures
        forall|x: u32| #[trigger] spec_u32_to_le_bytes(x).len() == 4,
        forall|x: u32, y: u32|
            #[trigger] spec_u32_to_le_bytes(x) == #[trigger] spec_u32_to_le_bytes(y) ==> x == y,
        forall|s: Seq<u8>|
            s.len() == 4 ==> #[trigger] spec_u32_to_le_bytes(spec_u32_from_le_bytes(s)) == s,
        forall|x: u32| #[trigger] spec_u32_from_le_bytes(spec_u32_to_le_bytes(x)) == x,
{
    lemma_auto_spec_u32_to_from_le_bytes();
    assert forall|x: u32| #[trigger] spec_u32_from_le_bytes(spec_u32_to_le_bytes(x)) == x by {
        assert(spec_u32_to_le_bytes(x).len() == 4);
    }
    assert forall|x: u32, y: u32|
        #[trigger] spec_u32_to_le_bytes(x) == #[trigger] spec_u32_to_le_bytes(y) implies x == y by {
        assert(spec_u32_to_le_bytes(x).len() == 4);
        assert(spec_u32_to_le_bytes(y).len() == 4);
    }
}

pub proof fn lemma_u64_bytes()
    ensures
        forall|x: u64| #[trigger] spec_u64_to_le_bytes(x).len() == 8,
        forall|x: u64, y: u64|
            #[trigger] spec_u64_to_le_bytes(x) == #[trigger] spec_u64_to_le_bytes(y) ==> x == y,
        forall|s: Seq<u8>|
            s.len() == 8 ==> #[trigger] spec_u64_to_le_bytes(spec_u64_from_le_bytes(s)) == s,
        forall|x: u64| #[trigger] spec_u64_from_le_bytes(spec_u64_to_le_bytes(x)) == x,
{
    lemma_auto_spec_u64_to_from_le_bytes();
    assert forall|x: u64| #[trigger] spec_u64_from_le_bytes(spec_u64_to_le_bytes(x)) == x by {
        assert(spec_u64_to_le_bytes(x).len() == 8);
    }
    assert forall|x: u64, y: u64|
        #[trigger] spec_u64_to_le_bytes(x) == #[trigger] spec_u64_to_le_bytes(y) implies x == y by {
        assert(spec_u64_to_le_bytes(x).len() == 8);
        assert(spec_u64_to_le_bytes(y).len() == 8);
    }
}

// ── Serialisation ────────────────────────────────────────────────────────────

/// Append `bytes` to `out`.
pub fn append_bytes(out: &mut Vec<u8>, bytes: &[u8])
    ensures
        final(out)@ == old(out)@ + bytes@,
{
    let mut i: usize = 0;
    while i < bytes.len()
        invariant
            i <= bytes@.len(),
            out@ == old(out)@ + bytes@.subrange(0, i as int),
        decreases bytes@.len() - i,
    {
        out.push(bytes[i]);
        i = i + 1;
    }
    assert(bytes@.subrange(0, bytes@.len() as int) =~= bytes@);
}

pub fn write_u16(out: &mut Vec<u8>, x: u16)
    ensures
        final(out)@ == old(out)@ + spec_u16_to_le_bytes(x),
{
    let b = u16_to_le_bytes(x);
    append_bytes(out, b.as_slice());
}

pub fn write_u32(out: &mut Vec<u8>, x: u32)
    ensures
        final(out)@ == old(out)@ + spec_u32_to_le_bytes(x),
{
    let b = u32_to_le_bytes(x);
    append_bytes(out, b.as_slice());
}

pub fn write_u64(out: &mut Vec<u8>, x: u64)
    ensures
        final(out)@ == old(out)@ + spec_u64_to_le_bytes(x),
{
    let b = u64_to_le_bytes(x);
    append_bytes(out, b.as_slice());
}

/// Append the encoding of a string.
pub fn write_string(out: &mut Vec<u8>, s: &str)
    ensures
        final(out)@ == old(out)@ + enc_string(s@),
{
    let b = s.as_bytes();
    write_u64(out, b.len() as u64);
    append_bytes(out, b);
}

/// Append the payload encoding of `v`.
pub fn write_value(out: &mut Vec<u8>, v: &MetadataValue)
    ensures
        final(out)@ == old(out)@ + enc_payload(model(*v)),
    decreases v,
{
    match v {
        MetadataValue::U8(x) => {
            out.push(*x);
        },
        MetadataValue::I8(x) => {
            out.push(#[verifier::truncate] (*x as u8));
        },
        MetadataValue::U16(x) => write_u16(out, *x),
        MetadataValue::I16(x) => write_u16(out, #[verifier::truncate] (*x as u16)),
        MetadataValue::U32(x) => write_u32(out, *x),
        MetadataValue::I32(x) => write_u32(out, #[verifier::truncate] (*x as u32)),
        MetadataValue::F32(x) => write_u32(out, *x),
        MetadataValue::U64(x) => write_u64(out, *x),
        MetadataValue::I64(x) => write_u64(out, #[verifier::truncate] (*x as u64)),
        MetadataValue::F64(x) => write_u64(out, *x),
        MetadataValue::Bool(b) => {
            out.push(if *b { 1u8 } else { 0u8 });
        },
        MetadataValue::String(s) => write_string(out, s.as_str()),
        MetadataValue::Array(a) => {
            let ghost start = out@;
            write_u32(out, a.value_type.code());
            write_u64(out, a.items.len() as u64);
            let ghost header = out@;
            let mut i: usize = 0;
            while i < a.items.len()
                invariant
                    *v == MetadataValue::Array(*a),
                    i <= a.items@.len(),
                    out@ == header + enc_items(models(a.items@.subrange(0, i as int))),
                decreases a.items@.len() - i,
            {
                proof {
                    lemma_models_push(a.items@.subrange(0, i as int), a.items@[i as int]);
                    assert(a.items@.subrange(0, i as int).push(a.items@[i as int]) =~= a.items@.subrange(
                        0,
                        i + 1,
                    ));
                    lemma_models_len(a.items@.subrange(0, i + 1));
                    assert(models(a.items@.subrange(0, i + 1)).drop_last() =~= models(
                        a.items@.subrange(0, i as int),
                    ));
                }
                proof {
                    assert(decreases_to!(*v => v->Array_0));
                    assert(decreases_to!(*a => a.items));
                    assert(decreases_to!(a.items => a.items@));
                    assert(decreases_to!(a.items@ => a.items@[i as int]));
                    assert(decreases_to!(*v => a.items@[i as int]));
                }
                write_value(out, &a.items[i]);
                i = i + 1;
            }
            proof {
                assert(a.items@.subrange(0, a.items@.len() as int) =~= a.items@);
                lemma_models_len(a.items@);
            }
        },
    }
}


// ── Uniqueness of encodings ──────────────────────────────────────────────────

pub proof fn lemma_occurs_split(e1: Seq<u8>, e2: Seq<u8>, s: Seq<u8>, pos: int)
    requires
        occurs_at(e1 + e2, s, pos),
    ensures
        occurs_at(e1, s, pos),
        occurs_at(e2, s, pos + e1.len()),
{
    let whole = s.subrange(pos, pos + e1.len() + e2.len());
    assert(whole == e1 + e2);
    assert(s.subrange(pos, pos + e1.len()) =~= whole.subrange(0, e1.len() as int));
    assert(whole.subrange(0, e1.len() as int) =~= e1);
    assert(s.subrange(pos + e1.len(), pos + e1.len() + e2.len()) =~= whole.subrange(
        e1.len() as int,
        (e1.len() + e2.len()) as int,
    ));
    assert(whole.subrange(e1.len() as int, (e1.len() + e2.len()) as int) =~= e2);
}

pub proof fn lemma_occurs_join(e1: Seq<u8>, e2: Seq<u8>, s: Seq<u8>, pos: int)
    requires
        occurs_at(e1, s, pos),
        occurs_at(e2, s, pos + e1.len()),
    ensures
        occurs_at(e1 + e2, s, pos),
{
    assert(s.subrange(pos, pos + e1.len() + e2.len()) =~= e1 + e2) by {
        assert forall|j: int| 0 <= j < e1.len() + e2.len() implies s.subrange(
            pos,
            pos + e1.len() + e2.len(),
        )[j] == (e1 + e2)[j] by {
            if j < e1.len() {
                assert(s.subrange(pos, pos + e1.len())[j] == e1[j]);
            } else {
                assert(s.subrange(pos + e1.len(), pos + e1.len() + e2.len())[j - e1.len()]
                    == e2[j - e1.len()]);
            }
        }
    }
}

/// Two encodings of the same length occurring at the same place are equal.
pub proof fn lemma_occurs_same_len(e1: Seq<u8>, e2: Seq<u8>, s: Seq<u8>, pos: int)
    requires
        occurs_at(e1, s, pos),
        occurs_at(e2, s, pos),
        e1.len() == e2.len(),
    ensures
        e1 == e2,
{
}

proof fn lemma_signed_casts()
    ensures
        forall|x: i8, y: i8| #[trigger] (x as u8) == #[trigger] (y as u8) ==> x == y,
        forall|x: i16, y: i16| #[trigger] (x as u16) == #[trigger] (y as u16) ==> x == y,
        forall|x: i32, y: i32| #[trigger] (x as u32) == #[trigger] (y as u32) ==> x == y,
        forall|x: i64, y: i64| #[trigger] (x as u64) == #[trigger] (y as u64) ==> x == y,
{
    assert forall|x: i8, y: i8| #[trigger] (x as u8) == #[trigger] (y as u8) implies x == y by {
        assert((x as u8) == (y as u8) ==> x == y) by (bit_vector);
    }
    assert forall|x: i16, y: i16| #[trigger] (x as u16) == #[trigger] (y as u16) implies x
        == y by {
        assert((x as u16) == (y as u16) ==> x == y) by (bit_vector);
    }
    assert forall|x: i32, y: i32| #[trigger] (x as u32) == #[trigger] (y as u32) implies x
        == y by {
        assert((x as u32) == (y as u32) ==> x == y) by (bit_vector);
    }
    assert forall|x: i64, y: i64| #[trigger] (x as u64) == #[trigger] (y as u64) implies x
        == y by {
        assert((x as u64) == (y as u64) ==> x == y) by (bit_vector);
    }
}

/// Length of the encoding of values of fixed-size kinds.
pub open spec fn fixed_len(k: ValueKind) -> int {
    match k {
        ValueKind::U8 | ValueKind::I8 | ValueKind::Bool => 1,
        ValueKind::U16 | ValueKind::I16 => 2,
        ValueKind::U32 | ValueKind::I32 | ValueKind::F32 => 4,
        ValueKind::U64 | ValueKind::I64 | ValueKind::F64 => 8,
        _ => 0,
    }
}

pub proof fn lemma_fixed_len(v: ValueModel)
    requires
        v.kind() != ValueKind::String,
        v.kind() != ValueKind::Array,
    ensures
        enc_payload(v).len() == fixed_len(v.kind()),
{
    lemma_u16_bytes();
    lemma_u32_bytes();
    lemma_u64_bytes();
    match v {
        ValueModel::U16(x) => assert(spec_u16_to_le_bytes(x).len() == 2),
        ValueModel::I16(x) => assert(spec_u16_to_le_bytes(x as u16).len() == 2),
        ValueModel::U32(x) => assert(spec_u32_to_le_bytes(x).len() == 4),
        ValueModel::I32(x) => assert(spec_u32_to_le_bytes(x as u32).len() == 4),
        ValueModel::F32(x) => assert(spec_u32_to_le_bytes(x).len() == 4),
        ValueModel::U64(x) => assert(spec_u64_to_le_bytes(x).len() == 8),
        ValueModel::I64(x) => assert(spec_u64_to_le_bytes(x as u64).len() == 8),
        ValueModel::F64(x) => assert(spec_u64_to_le_bytes(x).len() == 8),
        _ => {},
    }
}

/// Encodings are prefix-free: at most one well-formed value of a given kind
/// has its encoding at a given place.
pub proof fn lemma_payload_unique(a: ValueModel, b: ValueModel, s: Seq<u8>, pos: int)
    requires
        wf_value(a),
        wf_value(b),
        a.kind() == b.kind(),
        occurs_at(enc_payload(a), s, pos),
        occurs_at(enc_payload(b), s, pos),
    ensures
        a == b,
    decreases a,
{
    lemma_u16_bytes();
    lemma_u32_bytes();
    lemma_u64_bytes();
    lemma_signed_casts();
    match a {
        ValueModel::Str(x) => {
            let y = b->Str_0;
            lemma_occurs_split(
                spec_u64_to_le_bytes(encode_utf8(x).len() as u64),
                encode_utf8(x),
                s,
                pos,
            );
            lemma_occurs_split(
                spec_u64_to_le_bytes(encode_utf8(y).len() as u64),
                encode_utf8(y),
                s,
                pos,
            );
            assert(spec_u64_to_le_bytes(encode_utf8(x).len() as u64).len() == 8);
            assert(spec_u64_to_le_bytes(encode_utf8(y).len() as u64).len() == 8);
            lemma_occurs_same_len(
                spec_u64_to_le_bytes(encode_utf8(x).len() as u64),
                spec_u64_to_le_bytes(encode_utf8(y).len() as u64),
                s,
                pos,
            );
            lemma_occurs_same_len(encode_utf8(x), encode_utf8(y), s, pos + 8);
            encode_utf8_decode_utf8(x);
            encode_utf8_decode_utf8(y);
        },
        ValueModel::Array(k, xs) => {
            let k2 = b->Array_0;
            let ys = b->Array_1;
            let h1 = spec_u32_to_le_bytes(k.spec_code());
            let h2 = spec_u32_to_le_bytes(k2.spec_code());
            let n1 = spec_u64_to_le_bytes(xs.len() as u64);
            let n2 = spec_u64_to_le_bytes(ys.len() as u64);
            assert(h1.len() == 4 && h2.len() == 4 && n1.len() == 8 && n2.len() == 8);
            lemma_occurs_split(h1 + n1, enc_items(xs), s, pos);
            lemma_occurs_split(h2 + n2, enc_items(ys), s, pos);
            lemma_occurs_split(h1, n1, s, pos);
            lemma_occurs_split(h2, n2, s, pos);
            lemma_occurs_same_len(h1, h2, s, pos);
            lemma_occurs_same_len(n1, n2, s, pos + 4);
            lemma_code_injective(k, k2);
            lemma_items_unique(k, xs, ys, s, pos + 12);
        },
        _ => {
            lemma_fixed_len(a);
            lemma_fixed_len(b);
            lemma_occurs_same_len(enc_payload(a), enc_payload(b), s, pos);
            match a {
                ValueModel::U8(x) => {
                    assert(seq![x][0] == seq![b->U8_0][0]);
                },
                ValueModel::I8(x) => {
                    assert(seq![x as u8][0] == seq![(b->I8_0) as u8][0]);
                },
                ValueModel::Bool(x) => {
                    assert(seq![if x { 1u8 } else { 0u8 }][0] == seq![
                        if b->Bool_0 { 1u8 } else { 0u8 },
                    ][0]);
                },
                _ => {},
            }
        },
    }
}

pub proof fn lemma_items_unique(
    k: ValueKind,
    xs: Seq<ValueModel>,
    ys: Seq<ValueModel>,
    s: Seq<u8>,
    pos: int,
)
    requires
        wf_items(k, xs),
        wf_items(k, ys),
        xs.len() == ys.len(),
        occurs_at(enc_items(xs), s, pos),
        occurs_at(enc_items(ys), s, pos),
    ensures
        xs == ys,
    decreases xs,
{
    if xs.len() == 0 {
        assert(xs =~= ys);
    } else {
        let xs0 = xs.drop_last();
        let ys0 = ys.drop_last();
        lemma_occurs_split(enc_items(xs0), enc_payload(xs.last()), s, pos);
        lemma_occurs_split(enc_items(ys0), enc_payload(ys.last()), s, pos);
        lemma_items_unique(k, xs0, ys0, s, pos);
        lemma_payload_unique(xs.last(), ys.last(), s, pos + enc_items(xs0).len());
        assert(xs =~= xs0.push(xs.last()));
        assert(ys =~= ys0.push(ys.last()));
    }
}

/// The encoding of a prefix of the items is a prefix of the encoding.
pub proof fn lemma_items_prefix(ys: Seq<ValueModel>, i: int)
    requires
        0 <= i <= ys.len(),
    ensures
        enc_items(ys.take(i)).len() <= enc_items(ys).len(),
        enc_items(ys).subrange(0, enc_items(ys.take(i)).len() as int) == enc_items(ys.take(i)),
    decreases ys.len() - i,
{
    if i == ys.len() {
        assert(ys.take(i) =~= ys);
    } else {
        let ys0 = ys.drop_last();
        assert(ys0.take(i) =~= ys.take(i));
        lemma_items_prefix(ys0, i);
        assert(enc_items(ys) == enc_items(ys0) + enc_payload(ys.last()));
        assert(enc_items(ys).subrange(0, enc_items(ys.take(i)).len() as int) =~= enc_items(
            ys0,
        ).subrange(0, enc_items(ys.take(i)).len() as int));
    }
}

/// Items of a well-formed array are well formed and of the element kind.
pub proof fn lemma_wf_items_index(k: ValueKind, ys: Seq<ValueModel>, i: int)
    requires
        wf_items(k, ys),
        0 <= i < ys.len(),
    ensures
        wf_value(ys[i]),
        ys[i].kind() == k,
        wf_items(k, ys.take(i)),
    decreases ys.len(),
{
    if i == ys.len() - 1 {
        assert(ys.take(i) =~= ys.drop_last());
    } else {
        lemma_wf_items_index(k, ys.drop_last(), i);
        assert(ys.drop_last().take(i) =~= ys.take(i));
    }
}

pub proof fn lemma_take_succ(ys: Seq<ValueModel>, i: int)
    requires
        0 <= i < ys.len(),
    ensures
        enc_items(ys.take(i + 1)) == enc_items(ys.take(i)) + enc_payload(ys[i]),
{
    assert(ys.take(i + 1).drop_last() =~= ys.take(i));
}

// ── Parsing ──────────────────────────────────────────────────────────────────

/// Read the little-endian `u16` at `pos`.
pub fn read_u16(bytes: &[u8], pos: usize) -> (x: u16)
    requires
        pos + 2 <= bytes@.len(),
    ensures
        occurs_at(spec_u16_to_le_bytes(x), bytes@, pos as int),
{
    let _n = bytes.len();
    let sub = slice_subrange(bytes, pos, pos + 2);
    let x = u16_from_le_bytes(sub);
    proof {
        lemma_auto_spec_u16_to_from_le_bytes();
        assert(spec_u16_to_le_bytes(spec_u16_from_le_bytes(sub@)) == sub@);
    }
    x
}

/// Read the little-endian `u32` at `pos`.
pub fn read_u32(bytes: &[u8], pos: usize) -> (x: u32)
    requires
        pos + 4 <= bytes@.len(),
    ensures
        occurs_at(spec_u32_to_le_bytes(x), bytes@, pos as int),
{
    let _n = bytes.len();
    let sub = slice_subrange(bytes, pos, pos + 4);
    let x = u32_from_le_bytes(sub);
    proof {
        lemma_u32_bytes();
        assert(spec_u32_to_le_bytes(spec_u32_from_le_bytes(sub@)) == sub@);
    }
    x
}

/// Read the little-endian `u64` at `pos`.
pub fn read_u64(bytes: &[u8], pos: usize) -> (x: u64)
    requires
        pos + 8 <= bytes@.len(),
    ensures
        occurs_at(spec_u64_to_le_bytes(x), bytes@, pos as int),
{
    let _n = bytes.len();
    let sub = slice_subrange(bytes, pos, pos + 8);
    let x = u64_from_le_bytes(sub);
    proof {
        lemma_u64_bytes();
        assert(spec_u64_to_le_bytes(spec_u64_from_le_bytes(sub@)) == sub@);
    }
    x
}

/// `String::from_utf8`: the bytes decoded as UTF-8, or `None` when they are
/// not valid UTF-8.  The contract states what the standard library documents:
/// success exactly on valid UTF-8, with the string whose encoding is the input.
#[verifier::external_body]
fn string_from_utf8(bytes: Vec<u8>) -> (res: Option<String>)
    ensures
        match res {
            Some(s) => valid_utf8(bytes@) && s@ == decode_utf8(bytes@),
            None => !valid_utf8(bytes@),
        },
{
    String::from_utf8(bytes).ok()
}

/// Parse the encoding of a string at `pos`.
pub fn parse_string(bytes: &[u8], pos: usize) -> (res: Option<(String, usize)>)
    requires
        pos <= bytes@.len(),
    ensures
        match res {
            Some((s, end)) => {
                &&& encode_utf8(s@).len() <= MAX_STRING_LEN
                &&& occurs_at(enc_string(s@), bytes@, pos as int)
                &&& end == pos + enc_string(s@).len()
            },
            None => forall|t: Seq<char>|
                encode_utf8(t).len() <= MAX_STRING_LEN ==> !occurs_at(
                    #[trigger] enc_string(t),
                    bytes@,
                    pos as int,
                ),
        },
{
    proof {
        lemma_u64_bytes();
    }
    if bytes.len() - pos < 8 {
        return None;
    }
    let len = read_u64(bytes, pos);
    if len > MAX_STRING_LEN || (len as usize) > bytes.len() - pos - 8 {
        proof {
            assert forall|t: Seq<char>|
                encode_utf8(t).len() <= MAX_STRING_LEN implies !occurs_at(
                    #[trigger] enc_string(t),
                    bytes@,
                    pos as int,
                ) by {
                if occurs_at(enc_string(t), bytes@, pos as int) {
                    lemma_occurs_split(
                        spec_u64_to_le_bytes(encode_utf8(t).len() as u64),
                        encode_utf8(t),
                        bytes@,
                        pos as int,
                    );
                    lemma_occurs_same_len(
                        spec_u64_to_le_bytes(encode_utf8(t).len() as u64),
                        spec_u64_to_le_bytes(len),
                        bytes@,
                        pos as int,
                    );
                }
            }
        }
        return None;
    }
    let start = pos + 8;
    let end = start + len as usize;
    let raw = slice_to_vec(slice_subrange(bytes, start, end));
    let ghost raw_bytes = raw@;
    match string_from_utf8(raw) {
        Some(s) => {
            proof {
                decode_utf8_encode_utf8(raw_bytes);
                lemma_occurs_join(spec_u64_to_le_bytes(len), raw_bytes, bytes@, pos as int);
            }
            Some((s, end))
        },
        None => {
            proof {
                assert forall|t: Seq<char>|
                    encode_utf8(t).len() <= MAX_STRING_LEN implies !occurs_at(
                        #[trigger] enc_string(t),
                        bytes@,
                        pos as int,
                    ) by {
                    if occurs_at(enc_string(t), bytes@, pos as int) {
                        lemma_occurs_split(
                            spec_u64_to_le_bytes(encode_utf8(t).len() as u64),
                            encode_utf8(t),
                            bytes@,
                            pos as int,
                        );
                        lemma_occurs_same_len(
                            spec_u64_to_le_bytes(encode_utf8(t).len() as u64),
                            spec_u64_to_le_bytes(len),
                            bytes@,
                            pos as int,
                        );
                        assert(encode_utf8(t) == raw_bytes);
                        encode_utf8_valid_utf8(t);
                    }
                }
            }
            None
        },
    }
}


/// No well-formed value of kind `k` has its encoding at `pos`.
pub open spec fn no_value_at(k: ValueKind, s: Seq<u8>, pos: int) -> bool {
    forall|w: ValueModel|
        wf_value(w) && w.kind() == k ==> !occurs_at(#[trigger] enc_payload(w), s, pos)
}

/// Parse the payload of a value of kind `kind` at `pos`.
///
/// Succeeds exactly when a well-formed value of that kind is encoded at
/// `pos`; returns it and the position just past its encoding.
pub fn parse_value(bytes: &[u8], pos: usize, kind: ValueKind) -> (res: Option<(MetadataValue, usize)>)
    requires
        pos <= bytes@.len(),
    ensures
        match res {
            Some((v, end)) => {
                &&& wf_value(model(v))
                &&& model(v).kind() == kind
                &&& occurs_at(enc_payload(model(v)), bytes@, pos as int)
                &&& end == pos + enc_payload(model(v)).len()
            },
            None => no_value_at(kind, bytes@, pos as int),
        },
    decreases bytes@.len() - pos,
{
    proof {
        lemma_u16_bytes();
        lemma_u32_bytes();
        lemma_u64_bytes();
    }
    let n = bytes.len();
    let avail = n - pos;
    let need: usize = match kind {
        ValueKind::U8 | ValueKind::I8 | ValueKind::Bool => 1,
        ValueKind::U16 | ValueKind::I16 => 2,
        ValueKind::U32 | ValueKind::I32 | ValueKind::F32 => 4,
        ValueKind::U64 | ValueKind::I64 | ValueKind::F64 => 8,
        ValueKind::String => 0,
        ValueKind::Array => 12,
    };
    if avail < need {
        proof {
            assert forall|w: ValueModel|
                wf_value(w) && w.kind() == kind implies !occurs_at(
                #[trigger] enc_payload(w),
                bytes@,
                pos as int,
            ) by {
                if kind != ValueKind::Array {
                    lemma_fixed_len(w);
                } else {
                    let k2 = w->Array_0;
                    let ys = w->Array_1;
                    assert(spec_u32_to_le_bytes(k2.spec_code()).len() == 4);
                    assert(spec_u64_to_le_bytes(ys.len() as u64).len() == 8);
                }
            }
        }
        return None;
    }
    match kind {
        ValueKind::U8 => {
            let x = bytes[pos];
            proof {
                assert(bytes@.subrange(pos as int, pos + 1) =~= seq![x]);
            }
            Some((MetadataValue::U8(x), pos + 1))
        },
        ValueKind::I8 => {
            let b = bytes[pos];
            let x = b as i8;
            proof {
                assert((b as i8) as u8 == b) by (bit_vector);
                assert(bytes@.subrange(pos as int, pos + 1) =~= seq![x as u8]);
            }
            Some((MetadataValue::I8(x), pos + 1))
        },
        ValueKind::Bool => {
            let b = bytes[pos];
            if b == 0 {
                proof {
                    assert(bytes@.subrange(pos as int, pos + 1) =~= seq![0u8]);
                }
                Some((MetadataValue::Bool(false), pos + 1))
            } else if b == 1 {
                proof {
                    assert(bytes@.subrange(pos as int, pos + 1) =~= seq![1u8]);
                }
                Some((MetadataValue::Bool(true), pos + 1))
            } else {
                proof {
                    assert forall|w: ValueModel|
                        wf_value(w) && w.kind() == kind implies !occurs_at(
                        #[trigger] enc_payload(w),
                        bytes@,
                        pos as int,
                    ) by {
                        if occurs_at(enc_payload(w), bytes@, pos as int) {
                            assert(bytes@.subrange(pos as int, pos + 1)[0] == bytes@[pos as int]);
                        }
                    }
                }
                None
            }
        },
        ValueKind::U16 => Some((MetadataValue::U16(read_u16(bytes, pos)), pos + 2)),
        ValueKind::I16 => {
            let u = read_u16(bytes, pos);
            let x = u as i16;
            proof {
                assert((u as i16) as u16 == u) by (bit_vector);
            }
            Some((MetadataValue::I16(x), pos + 2))
        },
        ValueKind::U32 => Some((MetadataValue::U32(read_u32(bytes, pos)), pos + 4)),
        ValueKind::I32 => {
            let u = read_u32(bytes, pos);
            let x = u as i32;
            proof {
                assert((u as i32) as u32 == u) by (bit_vector);
            }
            Some((MetadataValue::I32(x), pos + 4))
        },
        ValueKind::F32 => Some((MetadataValue::F32(read_u32(bytes, pos)), pos + 4)),
        ValueKind::U64 => Some((MetadataValue::U64(read_u64(bytes, pos)), pos + 8)),
        ValueKind::I64 => {
            let u = read_u64(bytes, pos);
            let x = u as i64;
            proof {
                assert((u as i64) as u64 == u) by (bit_vector);
            }
            Some((MetadataValue::I64(x), pos + 8))
        },
        ValueKind::F64 => Some((MetadataValue::F64(read_u64(bytes, pos)), pos + 8)),
        ValueKind::String => {
            match parse_string(bytes, pos) {
                Some((s, end)) => Some((MetadataValue::String(s), end)),
                None => {
                    proof {
                        assert forall|w: ValueModel|
                            wf_value(w) && w.kind() == kind implies !occurs_at(
                            #[trigger] enc_payload(w),
                            bytes@,
                            pos as int,
                        ) by {
                            assert(enc_payload(w) == enc_string(w->Str_0));
                        }
                    }
                    None
                },
            }
        },
        ValueKind::Array => parse_array(bytes, pos),
    }
}

/// Parse the payload of an array at `pos` (element tag, count, items).
fn parse_array(bytes: &[u8], pos: usize) -> (res: Option<(MetadataValue, usize)>)
    requires
        pos + 12 <= bytes@.len(),
    ensures
        match res {
            Some((v, end)) => {
                &&& wf_value(model(v))
                &&& model(v).kind() == ValueKind::Array
                &&& occurs_at(enc_payload(model(v)), bytes@, pos as int)
                &&& end == pos + enc_payload(model(v)).len()
            },
            None => no_value_at(ValueKind::Array, bytes@, pos as int),
        },
    decreases bytes@.len() - pos, 0nat,
{
    proof {
        lemma_u32_bytes();
        lemma_u64_bytes();
    }
    let _n = bytes.len();
    let code = read_u32(bytes, pos);
    let count = read_u64(bytes, pos + 4);
    let elem = match ValueKind::from_code(code) {
        Some(k) => k,
        None => {
            proof {
                assert forall|w: ValueModel|
                    wf_value(w) && w.kind() == ValueKind::Array implies !occurs_at(
                    #[trigger] enc_payload(w),
                    bytes@,
                    pos as int,
                ) by {
                    if occurs_at(enc_payload(w), bytes@, pos as int) {
                        let k2 = w->Array_0;
                        let ys = w->Array_1;
                        let h = spec_u32_to_le_bytes(k2.spec_code());
                        let c = spec_u64_to_le_bytes(ys.len() as u64);
                        lemma_occurs_split(h + c, enc_items(ys), bytes@, pos as int);
                        lemma_occurs_split(h, c, bytes@, pos as int);
                        lemma_occurs_same_len(h, spec_u32_to_le_bytes(code), bytes@, pos as int);
                        lemma_code_injective(k2, k2);
                    }
                }
            }
            return None;
        },
    };
    if count > MAX_ARRAY_LEN {
        proof {
            assert forall|w: ValueModel|
                wf_value(w) && w.kind() == ValueKind::Array implies !occurs_at(
                #[trigger] enc_payload(w),
                bytes@,
                pos as int,
            ) by {
                if occurs_at(enc_payload(w), bytes@, pos as int) {
                    let k2 = w->Array_0;
                    let ys = w->Array_1;
                    let h = spec_u32_to_le_bytes(k2.spec_code());
                    let c = spec_u64_to_le_bytes(ys.len() as u64);
                    lemma_occurs_split(h + c, enc_items(ys), bytes@, pos as int);
                    lemma_occurs_split(h, c, bytes@, pos as int);
                    lemma_occurs_same_len(c, spec_u64_to_le_bytes(count), bytes@, pos + 4);
                }
            }
        }
        return None;
    }
    let ghost head = spec_u32_to_le_bytes(code) + spec_u64_to_le_bytes(count);
    proof {
        lemma_occurs_join(spec_u32_to_le_bytes(code), spec_u64_to_le_bytes(count), bytes@, pos as int);
    }
    let mut items: Vec<MetadataValue> = Vec::new();
    let mut p: usize = pos + 12;
    let mut i: u64 = 0;
    proof {
        assert(models(items@) == Seq::<ValueModel>::empty());
        assert(enc_items(models(items@)) == Seq::<u8>::empty());
        assert(bytes@.subrange(pos + 12, pos + 12) =~= Seq::<u8>::empty());
    }
    while i < count
        invariant
            pos + 12 <= p <= bytes@.len(),
            i <= count <= MAX_ARRAY_LEN,
            items@.len() == i,
            head == spec_u32_to_le_bytes(code) + spec_u64_to_le_bytes(count),
            occurs_at(head, bytes@, pos as int),
            code == elem.spec_code(),
            wf_items(elem, models(items@)),
            occurs_at(enc_items(models(items@)), bytes@, pos + 12),
            p == pos + 12 + enc_items(models(items@)).len(),
        decreases count - i,
    {
        match parse_value(bytes, p, elem) {
            Some((v, end)) => {
                proof {
                    lemma_models_push(items@, v);
                    let ms = models(items@);
                    assert(ms.push(model(v)).drop_last() =~= ms);
                    lemma_occurs_join(enc_items(ms), enc_payload(model(v)), bytes@, pos + 12);
                }
                items.push(v);
                p = end;
                i = i + 1;
            },
            None => {
                proof {
                    lemma_u32_bytes();
                    lemma_u64_bytes();
                    lemma_occurs_split(
                        spec_u32_to_le_bytes(code),
                        spec_u64_to_le_bytes(count),
                        bytes@,
                        pos as int,
                    );
                    let ms = models(items@);
                    lemma_models_len(items@);
                    assert forall|w: ValueModel|
                        wf_value(w) && w.kind() == ValueKind::Array implies !occurs_at(
                        #[trigger] enc_payload(w),
                        bytes@,
                        pos as int,
                    ) by {
                        if occurs_at(enc_payload(w), bytes@, pos as int) {
                            let k2 = w->Array_0;
                            let ys = w->Array_1;
                            let h = spec_u32_to_le_bytes(k2.spec_code());
                            let c = spec_u64_to_le_bytes(ys.len() as u64);
                            lemma_occurs_split(h + c, enc_items(ys), bytes@, pos as int);
                            lemma_occurs_split(h, c, bytes@, pos as int);
                            lemma_occurs_same_len(h, spec_u32_to_le_bytes(code), bytes@, pos as int);
                            lemma_occurs_same_len(c, spec_u64_to_le_bytes(count), bytes@, pos + 4);
                            lemma_code_injective(k2, elem);
                            let ii = i as int;
                            lemma_items_prefix(ys, ii);
                            lemma_items_prefix(ys, ii + 1);
                            lemma_take_succ(ys, ii);
                            lemma_wf_items_index(elem, ys, ii);
                            let pre = enc_items(ys.take(ii));
                            assert(occurs_at(pre, bytes@, pos + 12)) by {
                                assert(bytes@.subrange(pos + 12, pos + 12 + pre.len())
                                    =~= enc_items(ys).subrange(0, pre.len() as int));
                            }
                            assert(ys.take(ii).len() == ms.len());
                            lemma_items_unique(elem, ys.take(ii), ms, bytes@, pos + 12);
                            let pre1 = enc_items(ys.take(ii + 1));
                            assert(occurs_at(pre1, bytes@, pos + 12)) by {
                                assert(bytes@.subrange(pos + 12, pos + 12 + pre1.len())
                                    =~= enc_items(ys).subrange(0, pre1.len() as int));
                            }
                            lemma_occurs_split(pre, enc_payload(ys[ii]), bytes@, pos + 12);
                        }
                    }
                }
                return None;
            },
        }
    }
    let ghost ms = models(items@);
    let v = MetadataValue::Array(MetadataArray { value_type: elem, items });
    proof {
        lemma_models_len(items@);
        assert(model(v) == ValueModel::Array(elem, ms));
        lemma_occurs_join(head, enc_items(ms), bytes@, pos as int);
        assert(enc_payload(model(v)) == head + enc_items(ms));
    }
    Some((v, p))
}

} // verus!
