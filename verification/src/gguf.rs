//! The GGUF file layout: header, metadata section, tensor-info section and
//! the alignment of the tensor-data section that follows them.
//!
//! [`parse_gguf`] reads the header sections from the bytes of a file (the
//! tensor data itself is never read), and [`build_gguf_header`] produces the
//! header sections of a modified file, followed by the alignment padding; the
//! tensor data is then copied unchanged after it.

use crate::format::{
    lemma_occurs_join, lemma_occurs_same_len, lemma_occurs_split, lemma_u32_bytes,
    lemma_u64_bytes, occurs_at, read_u32, read_u64, write_u32, write_u64, GgufError,
};
use crate::metadata::{
    as_u64, distinct_keys, enc_entries, has_key, law_insert, law_remove, lookup, parse_metadata,
    spec_insert, spec_remove, wf_entries, wf_entry, EntryModel, Metadata,
};
use crate::error::AppError;
use crate::format::{enc_string, ValueModel};
use crate::tensor::{
    enc_dims, enc_tensor, lemma_tensor_unique, parse_tensor_info, tensor_model, tensor_models,
    tensor_size, wf_tensor, write_tensor_info, TensorInfo, TensorModel,
};
use vstd::bytes::*;
use vstd::prelude::*;

verus! {

broadcast use vstd::seq::group_seq_axioms;

/// Magic number at the start of every GGUF file ("GGUF" read as a
/// little-endian `u32`).
pub const GGUF_MAGIC: u32 = 0x4655_4747;

/// The GGUF format version this library reads and writes.
pub const GGUF_VERSION: u32 = 3;

/// Alignment of the tensor-data section when the file does not declare one.
pub const DEFAULT_ALIGNMENT: u64 = 32;

/// Most tensors a file may declare.
pub const MAX_TENSORS: u64 = 1_000_000;

/// Most metadata entries a file may declare.
pub const MAX_METADATA: u64 = 100_000;

/// Size of the fixed header: magic, version, tensor count, entry count.
pub const HEADER_SIZE: usize = 24;

/// Law: the constants of the format — the magic number is the bytes
/// `G`, `G`, `U`, `F` (0x47, 0x47, 0x55, 0x46) read little-endian; the
/// version is 3; the default alignment is 32 bytes; a file may declare at
/// most a million tensors and a hundred thousand metadata entries; the fixed
/// header is 4 + 4 + 8 + 8 bytes; metadata strings hold at most 65 536 bytes
/// and arrays at most 524 288 items.
pub proof fn law_format_constants()
    ensures
        GGUF_MAGIC == 0x47 + 0x47 * 0x100 + 0x55 * 0x1_0000 + 0x46 * 0x100_0000,
        GGUF_VERSION == 3,
        DEFAULT_ALIGNMENT == 32,
        MAX_TENSORS == 1_000_000,
        MAX_METADATA == 100_000,
        HEADER_SIZE == 4 + 4 + 8 + 8,
        crate::format::MAX_STRING_LEN == 65_536,
        crate::format::MAX_ARRAY_LEN == 524_288,
{
}

/// Law: a file begins with the magic number, the version, the number of
/// tensors and the number of metadata entries, little-endian in 4, 4, 8 and
/// 8 bytes; then come the metadata entries, then the tensor records.  A
/// tensor record is its name as a string, its number of dimensions as a
/// `u32`, each dimension as a `u64`, its type tag as a `u32` and its data
/// offset as a `u64`.
pub proof fn law_file_layout(g: GgufModel, t: TensorModel)
    ensures
        enc_file(g) == spec_u32_to_le_bytes(0x4655_4747) + spec_u32_to_le_bytes(3)
            + spec_u64_to_le_bytes(g.tensors.len() as u64) + spec_u64_to_le_bytes(
            g.metadata.len() as u64,
        ) + enc_entries(g.metadata) + enc_tensors(g.tensors),
        enc_tensor(t) == enc_string(t.name) + spec_u32_to_le_bytes(t.dims.len() as u32) + enc_dims(
            t.dims,
        ) + spec_u32_to_le_bytes(t.ttype.spec_code()) + spec_u64_to_le_bytes(t.offset),
{
}

// ── Alignment ────────────────────────────────────────────────────────────────

/// `offset` rounded up to a multiple of `alignment` (unchanged when
/// `alignment` is zero).
pub open spec fn spec_align(offset: int, alignment: int) -> int {
    if alignment <= 0 || offset % alignment == 0 {
        offset
    } else {
        offset + (alignment - offset % alignment)
    }
}

/// Round `offset` up to the next multiple of `alignment`.
///
/// An already aligned offset is returned unchanged, and so is any offset
/// when `alignment` is zero.
pub fn align_offset(offset: u64, alignment: u64) -> (r: u64)
    requires
        spec_align(offset as int, alignment as int) <= u64::MAX,
    ensures
        r == spec_align(offset as int, alignment as int),
{
    if alignment == 0 {
        return offset;
    }
    let remainder = offset % alignment;
    if remainder == 0 {
        offset
    } else {
        offset + (alignment - remainder)
    }
}

/// The smallest multiple of `alignment` that is at least `offset`.
pub proof fn law_align_offset(offset: int, alignment: int)
    requires
        offset >= 0,
        alignment > 0,
    ensures
        spec_align(offset, alignment) % alignment == 0,
        offset <= spec_align(offset, alignment) < offset + alignment,
        offset % alignment == 0 ==> spec_align(offset, alignment) == offset,
        forall|m: int|
            offset <= m && #[trigger] (m % alignment) == 0 ==> spec_align(offset, alignment) <= m,
{
    let r = offset % alignment;
    let q = offset / alignment;
    assert(offset == q * alignment + r && 0 <= r < alignment) by (nonlinear_arith)
        requires
            alignment > 0,
            r == offset % alignment,
            q == offset / alignment,
    ;
    if r != 0 {
        assert(offset + (alignment - r) == (q + 1) * alignment) by (nonlinear_arith)
            requires
                offset == q * alignment + r,
        ;
        assert((offset + (alignment - r)) % alignment == 0) by (nonlinear_arith)
            requires
                offset == q * alignment + r,
                alignment > 0,
        {
            assert(offset + (alignment - r) == (q + 1) * alignment);
        }
        assert forall|m: int| offset <= m && #[trigger] (m % alignment) == 0 implies spec_align(
            offset,
            alignment,
        ) <= m by {
            let qm = m / alignment;
            assert(m == qm * alignment) by (nonlinear_arith)
                requires
                    alignment > 0,
                    m % alignment == 0,
                    qm == m / alignment,
            ;
            assert(qm > q) by (nonlinear_arith)
                requires
                    m == qm * alignment,
                    offset == q * alignment + r,
                    0 < r < alignment,
                    offset <= m,
            ;
            assert(qm * alignment >= (q + 1) * alignment) by (nonlinear_arith)
                requires
                    qm >= q + 1,
                    alignment > 0,
            ;
        }
    }
}

// ── File model ───────────────────────────────────────────────────────────────

/// The header sections of a GGUF file: metadata entries and tensor records.
pub struct GgufModel {
    pub metadata: Seq<EntryModel>,
    pub tensors: Seq<TensorModel>,
}

pub open spec fn enc_tensors(ts: Seq<TensorModel>) -> Seq<u8>
    decreases ts.len(),
{
    if ts.len() == 0 {
        Seq::empty()
    } else {
        enc_tensors(ts.drop_last()) + enc_tensor(ts.last())
    }
}

/// The fixed header for `tensors` tensor records and `entries` entries.
pub open spec fn enc_fixed_header(tensors: u64, entries: u64) -> Seq<u8> {
    spec_u32_to_le_bytes(GGUF_MAGIC) + spec_u32_to_le_bytes(GGUF_VERSION) + spec_u64_to_le_bytes(
        tensors,
    ) + spec_u64_to_le_bytes(entries)
}

/// Encoding of the header sections of a file.
pub open spec fn enc_file(g: GgufModel) -> Seq<u8> {
    enc_fixed_header(g.tensors.len() as u64, g.metadata.len() as u64) + enc_entries(g.metadata)
        + enc_tensors(g.tensors)
}

/// Two tensors, the first before the second in the file, whose data ranges
/// do not collide: ranges with distinct starts do not overlap, and of two
/// tensors starting at the same offset the earlier one is empty.
pub open spec fn ranges_ok(a: TensorModel, b: TensorModel) -> bool {
    if a.offset < b.offset {
        a.offset + tensor_size(a) <= b.offset
    } else if b.offset < a.offset {
        b.offset + tensor_size(b) <= a.offset
    } else {
        tensor_size(a) == 0
    }
}

pub open spec fn tensors_disjoint(ts: Seq<TensorModel>) -> bool {
    forall|i: int, j: int| 0 <= i < j < ts.len() ==> ranges_ok(#[trigger] ts[i], #[trigger] ts[j])
}

pub open spec fn wf_tensors(ts: Seq<TensorModel>) -> bool {
    forall|i: int| 0 <= i < ts.len() ==> wf_tensor(#[trigger] ts[i])
}

/// Header sections a GGUF file can hold.
pub open spec fn wf_file(g: GgufModel) -> bool {
    &&& g.metadata.len() <= MAX_METADATA
    &&& g.tensors.len() <= MAX_TENSORS
    &&& wf_entries(g.metadata)
    &&& distinct_keys(g.metadata)
    &&& wf_tensors(g.tensors)
    &&& tensors_disjoint(g.tensors)
}

/// `bytes` begin with the header sections `g`.
pub open spec fn decodes_to(bytes: Seq<u8>, g: GgufModel) -> bool {
    wf_file(g) && occurs_at(enc_file(g), bytes, 0)
}

// ── Uniqueness ───────────────────────────────────────────────────────────────

pub proof fn lemma_tensors_unique(xs: Seq<TensorModel>, ys: Seq<TensorModel>, s: Seq<u8>, pos: int)
    requires
        wf_tensors(xs),
        wf_tensors(ys),
        xs.len() == ys.len(),
        occurs_at(enc_tensors(xs), s, pos),
        occurs_at(enc_tensors(ys), s, pos),
    ensures
        xs == ys,
    decreases xs.len(),
{
    if xs.len() == 0 {
        assert(xs =~= ys);
    } else {
        let xs0 = xs.drop_last();
        let ys0 = ys.drop_last();
        lemma_occurs_split(enc_tensors(xs0), enc_tensor(xs.last()), s, pos);
        lemma_occurs_split(enc_tensors(ys0), enc_tensor(ys.last()), s, pos);
        assert(wf_tensors(xs0));
        assert(wf_tensors(ys0));
        lemma_tensors_unique(xs0, ys0, s, pos);
        assert(wf_tensor(xs[xs.len() - 1]));
        assert(wf_tensor(ys[ys.len() - 1]));
        lemma_tensor_unique(xs.last(), ys.last(), s, pos + enc_tensors(xs0).len());
        assert(xs =~= xs0.push(xs.last()));
        assert(ys =~= ys0.push(ys.last()));
    }
}

pub proof fn lemma_tensors_prefix(ys: Seq<TensorModel>, i: int, s: Seq<u8>, pos: int)
    requires
        0 <= i < ys.len(),
        occurs_at(enc_tensors(ys), s, pos),
    ensures
        occurs_at(enc_tensors(ys.take(i)), s, pos),
        occurs_at(enc_tensor(ys[i]), s, pos + enc_tensors(ys.take(i)).len()),
    decreases ys.len() - i,
{
    let ys0 = ys.drop_last();
    lemma_occurs_split(enc_tensors(ys0), enc_tensor(ys.last()), s, pos);
    if i == ys.len() - 1 {
        assert(ys.take(i) =~= ys0);
    } else {
        lemma_tensors_prefix(ys0, i, s, pos);
        assert(ys0.take(i) =~= ys.take(i));
    }
}

proof fn lemma_split_file(g: GgufModel, s: Seq<u8>)
    requires
        occurs_at(enc_file(g), s, 0),
    ensures
        occurs_at(spec_u32_to_le_bytes(GGUF_MAGIC), s, 0),
        occurs_at(spec_u32_to_le_bytes(GGUF_VERSION), s, 4),
        occurs_at(spec_u64_to_le_bytes(g.tensors.len() as u64), s, 8),
        occurs_at(spec_u64_to_le_bytes(g.metadata.len() as u64), s, 16),
        occurs_at(enc_entries(g.metadata), s, 24),
        occurs_at(enc_tensors(g.tensors), s, 24 + enc_entries(g.metadata).len() as int),
{
    lemma_u32_bytes();
    lemma_u64_bytes();
    let m = spec_u32_to_le_bytes(GGUF_MAGIC);
    let v = spec_u32_to_le_bytes(GGUF_VERSION);
    let t = spec_u64_to_le_bytes(g.tensors.len() as u64);
    let e = spec_u64_to_le_bytes(g.metadata.len() as u64);
    assert(m.len() == 4 && v.len() == 4 && t.len() == 8 && e.len() == 8);
    let h = enc_fixed_header(g.tensors.len() as u64, g.metadata.len() as u64);
    lemma_occurs_split(h + enc_entries(g.metadata), enc_tensors(g.tensors), s, 0);
    lemma_occurs_split(h, enc_entries(g.metadata), s, 0);
    lemma_occurs_split(m + v + t, e, s, 0);
    lemma_occurs_split(m + v, t, s, 0);
    lemma_occurs_split(m, v, s, 0);
}

/// Header sections are determined by the bytes that hold them.
pub proof fn law_decode_unique(bytes: Seq<u8>, g1: GgufModel, g2: GgufModel)
    requires
        decodes_to(bytes, g1),
        decodes_to(bytes, g2),
    ensures
        g1 == g2,
{
    lemma_u64_bytes();
    lemma_split_file(g1, bytes);
    lemma_split_file(g2, bytes);
    lemma_occurs_same_len(
        spec_u64_to_le_bytes(g1.tensors.len() as u64),
        spec_u64_to_le_bytes(g2.tensors.len() as u64),
        bytes,
        8,
    );
    lemma_occurs_same_len(
        spec_u64_to_le_bytes(g1.metadata.len() as u64),
        spec_u64_to_le_bytes(g2.metadata.len() as u64),
        bytes,
        16,
    );
    crate::metadata::lemma_entries_unique(g1.metadata, g2.metadata, bytes, 24);
    lemma_tensors_unique(
        g1.tensors,
        g2.tensors,
        bytes,
        24 + enc_entries(g1.metadata).len() as int,
    );
}

/// Encoded header sections, followed by anything, decode to themselves.
pub proof fn law_encode_decodes(g: GgufModel, rest: Seq<u8>)
    requires
        wf_file(g),
    ensures
        decodes_to(enc_file(g) + rest, g),
{
    let s = enc_file(g) + rest;
    assert(s.subrange(0, enc_file(g).len() as int) =~= enc_file(g));
}

// ── Parsing ──────────────────────────────────────────────────────────────────

/// The header sections read from the bytes of a GGUF file.
pub struct GgufHeader {
    pub version: u32,
    pub metadata: Metadata,
    pub tensor_infos: Vec<TensorInfo>,
    /// Byte length of the header sections.
    pub header_len: u64,
    /// Offset of the tensor-data section: the header length rounded up to
    /// the default alignment.
    pub tensor_data_offset: u64,
}

pub open spec fn header_model(h: GgufHeader) -> GgufModel {
    GgufModel { metadata: h.metadata@, tensors: tensor_models(h.tensor_infos@) }
}

/// Read `count` tensor records starting at `pos`.
fn parse_tensor_infos(bytes: &[u8], pos: usize, count: u64) -> (res: Option<(Vec<TensorInfo>, usize)>)
    requires
        pos <= bytes@.len(),
    ensures
        match res {
            Some((ts, end)) => {
                &&& ts@.len() == count
                &&& wf_tensors(tensor_models(ts@))
                &&& occurs_at(enc_tensors(tensor_models(ts@)), bytes@, pos as int)
                &&& end == pos + enc_tensors(tensor_models(ts@)).len()
            },
            None => forall|ys: Seq<TensorModel>|
                ys.len() == count && wf_tensors(ys) ==> !occurs_at(
                    #[trigger] enc_tensors(ys),
                    bytes@,
                    pos as int,
                ),
        },
{
    let mut ts: Vec<TensorInfo> = Vec::new();
    let mut p = pos;
    let mut i: u64 = 0;
    proof {
        assert(tensor_models(ts@) =~= Seq::<TensorModel>::empty());
        assert(bytes@.subrange(pos as int, pos as int) =~= Seq::<u8>::empty());
    }
    while i < count
        invariant
            pos <= p <= bytes@.len(),
            i <= count,
            ts@.len() == i,
            wf_tensors(tensor_models(ts@)),
            occurs_at(enc_tensors(tensor_models(ts@)), bytes@, pos as int),
            p == pos + enc_tensors(tensor_models(ts@)).len(),
        decreases count - i,
    {
        let ghost done = tensor_models(ts@);
        match parse_tensor_info(bytes, p) {
            Some((t, end)) => {
                let ghost m = tensor_model(t);
                ts.push(t);
                proof {
                    assert(tensor_models(ts@) =~= done.push(m));
                    assert(tensor_models(ts@).drop_last() =~= done);
                    lemma_occurs_join(enc_tensors(done), enc_tensor(m), bytes@, pos as int);
                }
                p = end;
                i = i + 1;
            },
            None => {
                proof {
                    assert forall|ys: Seq<TensorModel>|
                        ys.len() == count && wf_tensors(ys) implies !occurs_at(
                        #[trigger] enc_tensors(ys),
                        bytes@,
                        pos as int,
                    ) by {
                        if occurs_at(enc_tensors(ys), bytes@, pos as int) {
                            let ii = i as int;
                            lemma_tensors_prefix(ys, ii, bytes@, pos as int);
                            assert(wf_tensors(ys.take(ii)));
                            lemma_tensors_unique(ys.take(ii), done, bytes@, pos as int);
                            assert(wf_tensor(ys[ii]));
                        }
                    }
                }
                return None;
            },
        }
    }
    Some((ts, p))
}

/// Whether the data ranges of the tensors are pairwise compatible.
pub fn check_tensor_ranges(ts: &[TensorInfo]) -> (ok: bool)
    ensures
        ok == tensors_disjoint(tensor_models(ts@)),
{
    let ghost ms = tensor_models(ts@);
    let mut j: usize = 0;
    while j < ts.len()
        invariant
            j <= ts@.len(),
            ms == tensor_models(ts@),
            forall|a: int, b: int| 0 <= a < b < j ==> ranges_ok(#[trigger] ms[a], #[trigger] ms[b]),
        decreases ts@.len() - j,
    {
        let sj = ts[j].expected_data_size();
        let oj = ts[j].data_offset;
        let mut i: usize = 0;
        while i < j
            invariant
                i <= j < ts@.len(),
                ms == tensor_models(ts@),
                sj == tensor_size(ms[j as int]),
                oj == ms[j as int].offset,
                forall|a: int| 0 <= a < i ==> ranges_ok(#[trigger] ms[a], ms[j as int]),
            decreases j - i,
        {
            let si = ts[i].expected_data_size();
            let oi = ts[i].data_offset;
            let ok = if oi < oj {
                oj - oi >= si
            } else if oj < oi {
                oi - oj >= sj
            } else {
                si == 0
            };
            if !ok {
                proof {
                    assert(!ranges_ok(ms[i as int], ms[j as int]));
                }
                return false;
            }
            i = i + 1;
        }
        j = j + 1;
    }
    true
}

/// Read the header sections from the bytes of a GGUF file.
///
/// Succeeds exactly when the bytes begin with the header sections of a
/// GGUF file (see [`decodes_to`]).  The fixed header is checked first, in
/// order: length, magic number, version, tensor count, entry count.
pub fn parse_gguf(bytes: &[u8]) -> (res: Result<GgufHeader, GgufError>)
    requires
        bytes@.len() <= isize::MAX,
    ensures
        match res {
            Ok(h) => {
                &&& decodes_to(bytes@, header_model(h))
                &&& h.version == GGUF_VERSION
                &&& h.header_len == enc_file(header_model(h)).len()
                &&& h.tensor_data_offset == spec_align(h.header_len as int, DEFAULT_ALIGNMENT as int)
            },
            Err(_) => forall|g: GgufModel| !decodes_to(bytes@, g),
        },
        bytes@.len() < HEADER_SIZE ==> res == Err::<GgufHeader, GgufError>(GgufError::UnexpectedEnd),
        bytes@.len() >= HEADER_SIZE ==> {
            let magic = spec_u32_from_le_bytes(bytes@.subrange(0, 4));
            let version = spec_u32_from_le_bytes(bytes@.subrange(4, 8));
            let tensors = spec_u64_from_le_bytes(bytes@.subrange(8, 16));
            let entries = spec_u64_from_le_bytes(bytes@.subrange(16, 24));
            &&& magic != GGUF_MAGIC ==> res == Err::<GgufHeader, GgufError>(
                GgufError::InvalidMagic { found: magic },
            )
            &&& magic == GGUF_MAGIC && version != GGUF_VERSION ==> res == Err::<
                GgufHeader,
                GgufError,
            >(GgufError::UnsupportedVersion(version))
            &&& magic == GGUF_MAGIC && version == GGUF_VERSION && tensors > MAX_TENSORS ==> res
                == Err::<GgufHeader, GgufError>(GgufError::TooManyTensors(tensors))
            &&& magic == GGUF_MAGIC && version == GGUF_VERSION && tensors <= MAX_TENSORS
                && entries > MAX_METADATA ==> res == Err::<GgufHeader, GgufError>(
                GgufError::TooManyMetadata(entries),
            )
        },
{
    proof {
        lemma_u32_bytes();
        lemma_u64_bytes();
    }
    let n = bytes.len();
    if n < HEADER_SIZE {
        proof {
            assert forall|g: GgufModel| !decodes_to(bytes@, g) by {
                if decodes_to(bytes@, g) {
                    lemma_split_file(g, bytes@);
                }
            }
        }
        return Err(GgufError::UnexpectedEnd);
    }
    let magic = read_u32(bytes, 0);
    let version = read_u32(bytes, 4);
    let tensor_count = read_u64(bytes, 8);
    let entry_count = read_u64(bytes, 16);
    proof {
        assert(spec_u32_from_le_bytes(bytes@.subrange(0, 4)) == magic);
        assert(spec_u32_from_le_bytes(bytes@.subrange(4, 8)) == version);
        assert(spec_u64_from_le_bytes(bytes@.subrange(8, 16)) == tensor_count);
        assert(spec_u64_from_le_bytes(bytes@.subrange(16, 24)) == entry_count);
    }
    let err = if magic != GGUF_MAGIC {
        Some(GgufError::InvalidMagic { found: magic })
    } else if version != GGUF_VERSION {
        Some(GgufError::UnsupportedVersion(version))
    } else if tensor_count > MAX_TENSORS {
        Some(GgufError::TooManyTensors(tensor_count))
    } else if entry_count > MAX_METADATA {
        Some(GgufError::TooManyMetadata(entry_count))
    } else {
        None
    };
    if let Some(e) = err {
        proof {
            assert forall|g: GgufModel| !decodes_to(bytes@, g) by {
                if decodes_to(bytes@, g) {
                    lemma_split_file(g, bytes@);
                    lemma_occurs_same_len(
                        spec_u32_to_le_bytes(GGUF_MAGIC),
                        spec_u32_to_le_bytes(magic),
                        bytes@,
                        0,
                    );
                    lemma_occurs_same_len(
                        spec_u32_to_le_bytes(GGUF_VERSION),
                        spec_u32_to_le_bytes(version),
                        bytes@,
                        4,
                    );
                    lemma_occurs_same_len(
                        spec_u64_to_le_bytes(g.tensors.len() as u64),
                        spec_u64_to_le_bytes(tensor_count),
                        bytes@,
                        8,
                    );
                    lemma_occurs_same_len(
                        spec_u64_to_le_bytes(g.metadata.len() as u64),
                        spec_u64_to_le_bytes(entry_count),
                        bytes@,
                        16,
                    );
                }
            }
        }
        return Err(e);
    }
    // Facts every decoding of these bytes shares with the fixed header.
    proof {
        assert forall|g: GgufModel| decodes_to(bytes@, g) implies g.tensors.len() == tensor_count
            && g.metadata.len() == entry_count && occurs_at(enc_entries(g.metadata), bytes@, 24)
            && occurs_at(
            enc_tensors(g.tensors),
            bytes@,
            24 + enc_entries(g.metadata).len() as int,
        ) by {
            lemma_split_file(g, bytes@);
            lemma_occurs_same_len(
                spec_u64_to_le_bytes(g.tensors.len() as u64),
                spec_u64_to_le_bytes(tensor_count),
                bytes@,
                8,
            );
            lemma_occurs_same_len(
                spec_u64_to_le_bytes(g.metadata.len() as u64),
                spec_u64_to_le_bytes(entry_count),
                bytes@,
                16,
            );
        }
    }
    let (metadata, p1) = match parse_metadata(bytes, HEADER_SIZE, entry_count) {
        Ok(r) => r,
        Err(e) => {
            return Err(e);
        },
    };
    let ghost mm = metadata@;
    proof {
        assert forall|g: GgufModel| decodes_to(bytes@, g) implies g.metadata == mm by {
            crate::metadata::lemma_entries_unique(g.metadata, mm, bytes@, 24);
        }
    }
    let (infos, p2) = match parse_tensor_infos(bytes, p1, tensor_count) {
        Some(r) => r,
        None => {
            return Err(GgufError::InvalidTensor);
        },
    };
    let ghost tm = tensor_models(infos@);
    proof {
        assert forall|g: GgufModel| decodes_to(bytes@, g) implies g.tensors == tm by {
            lemma_tensors_unique(g.tensors, tm, bytes@, p1 as int);
        }
    }
    if !check_tensor_ranges(infos.as_slice()) {
        return Err(GgufError::TensorOverlap);
    }
    let h = GgufHeader {
        version,
        metadata,
        tensor_infos: infos,
        header_len: p2 as u64,
        tensor_data_offset: 0,
    };
    proof {
        let g = header_model(h);
        assert(g.metadata == mm && g.tensors == tm);
        let fh = enc_fixed_header(tensor_count, entry_count);
        assert(occurs_at(fh, bytes@, 0)) by {
            let m = spec_u32_to_le_bytes(GGUF_MAGIC);
            let v = spec_u32_to_le_bytes(GGUF_VERSION);
            let t = spec_u64_to_le_bytes(tensor_count);
            let e = spec_u64_to_le_bytes(entry_count);
            lemma_occurs_join(m, v, bytes@, 0);
            lemma_occurs_join(m + v, t, bytes@, 0);
            lemma_occurs_join(m + v + t, e, bytes@, 0);
        }
        lemma_occurs_join(fh, enc_entries(mm), bytes@, 0);
        lemma_occurs_join(fh + enc_entries(mm), enc_tensors(tm), bytes@, 0);
    }
    let offset = align_offset(p2 as u64, DEFAULT_ALIGNMENT);
    Ok(GgufHeader { tensor_data_offset: offset, ..h })
}


// ── Serialisation ────────────────────────────────────────────────────────────

/// A tensor record the writer accepts: a non-empty name, at least one and at
/// most `u32::MAX` dimensions, and no dimension so large that the element
/// count of the tensor could overflow a `u64` eight times over.
pub open spec fn writable_tensor(t: TensorModel) -> bool {
    &&& t.name.len() > 0
    &&& 1 <= t.dims.len() <= u32::MAX
    &&& forall|i: int|
        0 <= i < t.dims.len() ==> #[trigger] t.dims[i] <= u64::MAX / (t.dims.len() * 8) as u64
}

/// `n` zero bytes.
pub open spec fn zeros(n: nat) -> Seq<u8> {
    Seq::new(n, |i: int| 0u8)
}

/// Whether the writer accepts a tensor record.
pub fn is_writable_tensor(t: &TensorInfo) -> (ok: bool)
    ensures
        ok == writable_tensor(tensor_model(*t)),
{
    let n = t.shape.dimensions.len();
    if t.name.as_str().as_bytes().len() == 0 {
        proof {
            vstd::utf8::encode_utf8_decode_utf8(t.name@);
            assert(vstd::utf8::encode_utf8(t.name@) =~= Seq::<u8>::empty());
            assert(vstd::utf8::decode_utf8(Seq::<u8>::empty()) =~= Seq::<char>::empty());
        }
        return false;
    }
    proof {
        if t.name@.len() == 0 {
            assert(vstd::utf8::encode_utf8(t.name@) =~= Seq::<u8>::empty());
        }
    }
    if n == 0 || n as u64 > u32::MAX as u64 {
        return false;
    }
    let limit = u64::MAX / (n as u64 * 8);
    let mut i: usize = 0;
    while i < n
        invariant
            n == t.shape.dimensions@.len(),
            1 <= n <= u32::MAX,
            limit == u64::MAX / (n * 8) as u64,
            i <= n,
            forall|j: int| 0 <= j < i ==> #[trigger] t.shape.dimensions@[j] <= limit,
        decreases n - i,
    {
        if t.shape.dimensions[i] > limit {
            return false;
        }
        i = i + 1;
    }
    true
}

/// The header sections for `metadata` and `tensor_infos`, followed by zero
/// padding up to a multiple of `alignment` (no padding when `alignment` is
/// zero).
///
/// Fails with [`GgufError::InvalidTensor`] when a tensor record is not
/// writable, and with [`GgufError::UnexpectedEnd`] when the padded length
/// does not fit in memory.
pub fn build_gguf_header(metadata: &Metadata, tensor_infos: &[TensorInfo], alignment: u64) -> (res:
    Result<Vec<u8>, GgufError>)
    ensures
        match res {
            Ok(out) => {
                let g = GgufModel { metadata: metadata@, tensors: tensor_models(tensor_infos@) };
                let len = enc_file(g).len();
                &&& forall|i: int|
                    0 <= i < tensor_infos@.len() ==> writable_tensor(
                        #[trigger] tensor_models(tensor_infos@)[i],
                    )
                &&& out@ == enc_file(g) + zeros(
                    (spec_align(len as int, alignment as int) - len) as nat,
                )
            },
            Err(e) => {
                ||| (e == GgufError::InvalidTensor && exists|i: int|
                    0 <= i < tensor_infos@.len() && !writable_tensor(
                        #[trigger] tensor_models(tensor_infos@)[i],
                    ))
                ||| (e == GgufError::UnexpectedEnd && spec_align(
                    enc_file(
                        GgufModel { metadata: metadata@, tensors: tensor_models(tensor_infos@) },
                    ).len() as int,
                    alignment as int,
                ) > isize::MAX)
            },
        },
{
    let ghost ms = tensor_models(tensor_infos@);
    let mut k: usize = 0;
    while k < tensor_infos.len()
        invariant
            k <= tensor_infos@.len(),
            ms == tensor_models(tensor_infos@),
            forall|j: int| 0 <= j < k ==> writable_tensor(#[trigger] ms[j]),
        decreases tensor_infos@.len() - k,
    {
        if !is_writable_tensor(&tensor_infos[k]) {
            proof {
                assert(!writable_tensor(ms[k as int]));
            }
            return Err(GgufError::InvalidTensor);
        }
        k = k + 1;
    }
    let mut out: Vec<u8> = Vec::new();
    write_u32(&mut out, GGUF_MAGIC);
    write_u32(&mut out, GGUF_VERSION);
    write_u64(&mut out, tensor_infos.len() as u64);
    write_u64(&mut out, metadata.len() as u64);
    metadata.write_to(&mut out);
    let ghost before_tensors = out@;
    let mut i: usize = 0;
    while i < tensor_infos.len()
        invariant
            i <= tensor_infos@.len(),
            ms == tensor_models(tensor_infos@),
            forall|j: int| 0 <= j < tensor_infos@.len() ==> writable_tensor(#[trigger] ms[j]),
            out@ == before_tensors + enc_tensors(ms.take(i as int)),
        decreases tensor_infos@.len() - i,
    {
        proof {
            assert(ms.take(i + 1).drop_last() =~= ms.take(i as int));
            assert(writable_tensor(ms[i as int]));
        }
        write_tensor_info(&mut out, &tensor_infos[i]);
        i = i + 1;
    }
    proof {
        assert(ms.take(ms.len() as int) =~= ms);
    }
    let ghost g = GgufModel { metadata: metadata@, tensors: ms };
    let ghost header = out@;
    proof {
        assert(header =~= enc_file(g));
    }
    let len = out.len();
    if alignment > 0 && len as u64 % alignment != 0 {
        let pad = alignment - len as u64 % alignment;
        let room: usize = if len <= isize::MAX as usize {
            isize::MAX as usize - len
        } else {
            0
        };
        if pad > room as u64 {
            return Err(GgufError::UnexpectedEnd);
        }
        let mut j: u64 = 0;
        while j < pad
            invariant
                j <= pad,
                out@ == header + zeros(j as nat),
            decreases pad - j,
        {
            out.push(0u8);
            proof {
                assert(header + zeros((j + 1) as nat) =~= (header + zeros(j as nat)).push(0u8));
            }
            j = j + 1;
        }
    } else {
        proof {
            assert(out@ =~= header + zeros(0));
        }
    }
    Ok(out)
}

// ── Reading a whole file ─────────────────────────────────────────────────────

/// The alignment a file declares in `general.alignment` (any unsigned integer
/// value), or the default of 32 bytes.
pub open spec fn declared_alignment(m: Seq<EntryModel>) -> u64 {
    match lookup(m, "general.alignment"@) {
        Some(v) => match as_u64(v) {
            Some(a) => a,
            None => DEFAULT_ALIGNMENT,
        },
        None => DEFAULT_ALIGNMENT,
    }
}

/// The error that the fixed header alone determines, if any.
pub open spec fn fixed_header_error(bytes: Seq<u8>) -> Option<GgufError> {
    if bytes.len() < HEADER_SIZE {
        Some(GgufError::UnexpectedEnd)
    } else {
        let magic = spec_u32_from_le_bytes(bytes.subrange(0, 4));
        let version = spec_u32_from_le_bytes(bytes.subrange(4, 8));
        let tensors = spec_u64_from_le_bytes(bytes.subrange(8, 16));
        let entries = spec_u64_from_le_bytes(bytes.subrange(16, 24));
        if magic != GGUF_MAGIC {
            Some(GgufError::InvalidMagic { found: magic })
        } else if version != GGUF_VERSION {
            Some(GgufError::UnsupportedVersion(version))
        } else if tensors > MAX_TENSORS {
            Some(GgufError::TooManyTensors(tensors))
        } else if entries > MAX_METADATA {
            Some(GgufError::TooManyMetadata(entries))
        } else {
            None
        }
    }
}

/// The header sections of `g`, padded to `alignment`, can be written: every
/// tensor record is writable and the padded length fits in memory.
pub open spec fn header_writable(g: GgufModel, alignment: u64) -> bool {
    &&& forall|i: int| 0 <= i < g.tensors.len() ==> writable_tensor(#[trigger] g.tensors[i])
    &&& spec_align(enc_file(g).len() as int, alignment as int) <= isize::MAX
}

/// `e` is a reason why the header sections of `g`, padded to `alignment`,
/// cannot be written.
pub open spec fn header_error(g: GgufModel, alignment: u64, e: GgufError) -> bool {
    ||| (e == GgufError::InvalidTensor && exists|i: int|
        0 <= i < g.tensors.len() && !writable_tensor(#[trigger] g.tensors[i]))
    ||| (e == GgufError::UnexpectedEnd && spec_align(enc_file(g).len() as int, alignment as int)
        > isize::MAX)
}

/// A GGUF file read from its bytes: its header sections and where its tensor
/// data begins.
#[derive(Debug)]
pub struct ParsedGguf {
    /// Path the file was read from (used in messages).
    pub path: String,
    /// GGUF format version.
    pub version: u32,
    /// Number of tensors declared in the header.
    pub tensor_count: u64,
    /// All metadata entries.
    pub metadata: Metadata,
    /// Tensor-info records.
    pub tensor_infos: Vec<TensorInfo>,
    /// Offset in the file where the tensor data begins.
    pub tensor_data_offset: u64,
    /// Alignment declared by `general.alignment`, or the default.
    pub alignment: u64,
    /// Total file size in bytes.
    pub file_size: u64,
}

/// The header sections of a parsed file.
pub open spec fn parsed_model(p: ParsedGguf) -> GgufModel {
    GgufModel { metadata: p.metadata@, tensors: tensor_models(p.tensor_infos@) }
}

impl ParsedGguf {
    /// Read a GGUF file from its bytes; `path` names it in errors.
    ///
    /// Succeeds exactly when the bytes begin with valid header sections.  A
    /// failure is reported as [`AppError::GgufLib`] on `path`, carrying the
    /// format error (the one the fixed header determines, when it does).
    pub fn from_bytes(path: String, bytes: &[u8]) -> (r: Result<ParsedGguf, AppError>)
        requires
            bytes@.len() <= isize::MAX,
        ensures
            match r {
                Ok(p) => {
                    &&& p.path@ == path@
                    &&& decodes_to(bytes@, parsed_model(p))
                    &&& p.version == GGUF_VERSION
                    &&& p.tensor_count == p.tensor_infos@.len()
                    &&& p.tensor_data_offset == spec_align(
                        enc_file(parsed_model(p)).len() as int,
                        DEFAULT_ALIGNMENT as int,
                    )
                    &&& p.alignment == declared_alignment(p.metadata@)
                    &&& p.file_size == bytes@.len()
                },
                Err(e) => {
                    &&& forall|g: GgufModel| !decodes_to(bytes@, g)
                    &&& e matches AppError::GgufLib { path: q, source }
                    &&& q@ == path@
                    &&& fixed_header_error(bytes@) matches Some(f) ==> source == f
                },
            },
    {
        match parse_gguf(bytes) {
            Ok(h) => {
                let alignment = match h.metadata.get_u64("general.alignment") {
                    Some(a) => a,
                    None => DEFAULT_ALIGNMENT,
                };
                let n = h.tensor_infos.len() as u64;
                Ok(ParsedGguf {
                    path,
                    version: h.version,
                    tensor_count: n,
                    metadata: h.metadata,
                    tensor_infos: h.tensor_infos,
                    tensor_data_offset: h.tensor_data_offset,
                    alignment,
                    file_size: bytes.len() as u64,
                })
            },
            Err(e) => Err(AppError::gguf_lib(path, e)),
        }
    }

    /// The header sections of the file with its current metadata, followed
    /// by zero padding up to the file's alignment: what precedes the
    /// unchanged tensor data in a rewritten file.
    pub fn header_bytes(&self) -> (r: Result<Vec<u8>, GgufError>)
        ensures
            match r {
                Ok(out) => {
                    let len = enc_file(parsed_model(*self)).len();
                    out@ == enc_file(parsed_model(*self)) + zeros(
                        (spec_align(len as int, self.alignment as int) - len) as nat,
                    )
                },
                Err(e) => header_error(parsed_model(*self), self.alignment, e),
            },
            header_writable(parsed_model(*self), self.alignment) ==> r is Ok,
    {
        let r = build_gguf_header(&self.metadata, self.tensor_infos.as_slice(), self.alignment);
        proof {
            let g = parsed_model(*self);
            assert(g.tensors.len() == self.tensor_infos@.len());
            if r matches Err(GgufError::InvalidTensor) {
                let i = choose|i: int|
                    0 <= i < self.tensor_infos@.len() && !writable_tensor(
                        #[trigger] tensor_models(self.tensor_infos@)[i],
                    );
                assert(!writable_tensor(g.tensors[i]));
            }
        }
        r
    }
}

// ── Laws of rewriting ────────────────────────────────────────────────────────

/// Law: the bytes `build_gguf_header` writes for header sections the reader
/// accepts (see [`wf_file`]), followed by the padding and any tensor data,
/// read back as exactly those header sections.
pub proof fn law_written_header_reads_back(g: GgufModel, alignment: u64, rest: Seq<u8>)
    requires
        wf_file(g),
    ensures
        ({
            let len = enc_file(g).len();
            let bytes = enc_file(g) + zeros((spec_align(len as int, alignment as int) - len) as nat)
                + rest;
            &&& decodes_to(bytes, g)
            &&& forall|g2: GgufModel| #[trigger] decodes_to(bytes, g2) ==> g2 == g
        }),
{
    let len = enc_file(g).len();
    let pad = zeros((spec_align(len as int, alignment as int) - len) as nat);
    let bytes = enc_file(g) + pad + rest;
    assert(bytes =~= enc_file(g) + (pad + rest));
    law_encode_decodes(g, pad + rest);
    assert forall|g2: GgufModel| #[trigger] decodes_to(bytes, g2) implies g2 == g by {
        law_decode_unique(bytes, g, g2);
    }
}

/// Law: a file rewritten with key `k` set to `v` reads back as the source
/// file with `k` holding `v`: its bytes decode to exactly those header
/// sections, whatever follows them; `k` gives `v`, every other key gives what
/// it gave before, and the tensor records are unchanged.
pub proof fn law_set_then_read(g: GgufModel, k: Seq<char>, v: ValueModel, rest: Seq<u8>)
    requires
        wf_file(g),
        wf_entry((k, v)),
        has_key(g.metadata, k) || g.metadata.len() < MAX_METADATA,
    ensures
        ({
            let g1 = GgufModel { metadata: spec_insert(g.metadata, k, v), tensors: g.tensors };
            &&& decodes_to(enc_file(g1) + rest, g1)
            &&& forall|g2: GgufModel| #[trigger] decodes_to(enc_file(g1) + rest, g2) ==> g2 == g1
            &&& lookup(g1.metadata, k) == Some(v)
            &&& forall|k2: Seq<char>|
                k2 != k ==> #[trigger] lookup(g1.metadata, k2) == lookup(g.metadata, k2)
        }),
{
    let g1 = GgufModel { metadata: spec_insert(g.metadata, k, v), tensors: g.tensors };
    law_insert(g.metadata, k, v);
    assert forall|i: int| 0 <= i < g1.metadata.len() implies wf_entry(#[trigger] g1.metadata[i]) by {
        if has_key(g.metadata, k) {
            let j = crate::metadata::key_index(g.metadata, k);
            if i != j {
                assert(wf_entry(g.metadata[i]));
            }
        } else if i < g.metadata.len() {
            assert(wf_entry(g.metadata[i]));
        }
    }
    law_encode_decodes(g1, rest);
    assert forall|g2: GgufModel| #[trigger] decodes_to(enc_file(g1) + rest, g2) implies g2 == g1 by {
        law_decode_unique(enc_file(g1) + rest, g1, g2);
    }
}

/// Law: a file rewritten without key `k` reads back as the source file
/// without `k`: its bytes decode to exactly those header sections; `k` is
/// absent, every other key gives what it gave before, the number of entries
/// drops by one when `k` was present, and the tensor records are unchanged.
pub proof fn law_remove_then_read(g: GgufModel, k: Seq<char>, rest: Seq<u8>)
    requires
        wf_file(g),
    ensures
        ({
            let g1 = GgufModel { metadata: spec_remove(g.metadata, k), tensors: g.tensors };
            &&& decodes_to(enc_file(g1) + rest, g1)
            &&& forall|g2: GgufModel| #[trigger] decodes_to(enc_file(g1) + rest, g2) ==> g2 == g1
            &&& !has_key(g1.metadata, k)
            &&& forall|k2: Seq<char>|
                k2 != k ==> #[trigger] lookup(g1.metadata, k2) == lookup(g.metadata, k2)
            &&& g1.metadata.len() == if has_key(g.metadata, k) {
                g.metadata.len() - 1
            } else {
                g.metadata.len() as int
            }
        }),
{
    let g1 = GgufModel { metadata: spec_remove(g.metadata, k), tensors: g.tensors };
    law_remove(g.metadata, k);
    assert forall|i: int| 0 <= i < g1.metadata.len() implies wf_entry(#[trigger] g1.metadata[i]) by {
        if has_key(g.metadata, k) {
            let j = crate::metadata::key_index(g.metadata, k);
            if i < j {
                assert(wf_entry(g.metadata[i]));
            } else {
                assert(wf_entry(g.metadata[i + 1]));
            }
        } else {
            assert(wf_entry(g.metadata[i]));
        }
    }
    law_encode_decodes(g1, rest);
    assert forall|g2: GgufModel| #[trigger] decodes_to(enc_file(g1) + rest, g2) implies g2 == g1 by {
        law_decode_unique(enc_file(g1) + rest, g1, g2);
    }
}

} // verus!
