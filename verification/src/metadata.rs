//! The metadata section of a GGUF file: an ordered collection of key/value
//! entries with distinct keys, and its byte encoding.

use crate::format::{
    enc_items, enc_payload, enc_string, lemma_occurs_join, lemma_occurs_same_len, lemma_occurs_split,
    lemma_payload_unique, lemma_u32_bytes, model, no_value_at, occurs_at, parse_string,
    parse_value, wf_value, write_string, write_u32, write_value, GgufError, MetadataValue,
    ValueKind, ValueModel, MAX_STRING_LEN,
};
use crate::text::{lemma_seq_less_order, seq_less, str_eq, str_less};
use vstd::bytes::*;
use vstd::prelude::*;
use vstd::utf8::*;

verus! {

broadcast use vstd::seq::group_seq_axioms;

/// The model of one entry: its key and its value.
pub type EntryModel = (Seq<char>, ValueModel);

/// No two entries share a key.
pub open spec fn distinct_keys(m: Seq<EntryModel>) -> bool {
    forall|i: int, j: int| 0 <= i < j < m.len() ==> #[trigger] m[i].0 != #[trigger] m[j].0
}

/// Some entry has key `k`.
pub open spec fn has_key(m: Seq<EntryModel>, k: Seq<char>) -> bool {
    exists|i: int| 0 <= i < m.len() && #[trigger] m[i].0 == k
}

/// The position of the entry with key `k` (meaningful when `has_key`).
pub open spec fn key_index(m: Seq<EntryModel>, k: Seq<char>) -> int {
    choose|i: int| 0 <= i < m.len() && #[trigger] m[i].0 == k
}

/// The value stored under `k`, if any.
pub open spec fn lookup(m: Seq<EntryModel>, k: Seq<char>) -> Option<ValueModel> {
    if has_key(m, k) {
        Some(m[key_index(m, k)].1)
    } else {
        None
    }
}

/// The entries after setting `k` to `v`: an existing entry keeps its place
/// and takes the new value, a new key is appended.
pub open spec fn spec_insert(m: Seq<EntryModel>, k: Seq<char>, v: ValueModel) -> Seq<EntryModel> {
    if has_key(m, k) {
        m.update(key_index(m, k), (k, v))
    } else {
        m.push((k, v))
    }
}

/// The entries after removing `k`; the others keep their order.
pub open spec fn spec_remove(m: Seq<EntryModel>, k: Seq<char>) -> Seq<EntryModel> {
    if has_key(m, k) {
        m.remove(key_index(m, k))
    } else {
        m
    }
}

/// The unsigned integer held by a value, widened to `u64`.
pub open spec fn as_u64(v: ValueModel) -> Option<u64> {
    match v {
        ValueModel::U8(x) => Some(x as u64),
        ValueModel::U16(x) => Some(x as u64),
        ValueModel::U32(x) => Some(x as u64),
        ValueModel::U64(x) => Some(x),
        _ => None,
    }
}

pub open spec fn entry_model(e: (String, MetadataValue)) -> EntryModel {
    (e.0@, model(e.1))
}

pub open spec fn entry_models(s: Seq<(String, MetadataValue)>) -> Seq<EntryModel> {
    Seq::new(s.len(), |i: int| entry_model(s[i]))
}

/// The metadata of a GGUF file: key/value entries in file order, with
/// distinct keys.
#[derive(Debug)]
pub struct Metadata {
    entries: Vec<(String, MetadataValue)>,
}

impl View for Metadata {
    type V = Seq<EntryModel>;

    closed spec fn view(&self) -> Seq<EntryModel> {
        entry_models(self.entries@)
    }
}

impl Metadata {
    #[verifier::type_invariant]
    closed spec fn inv(&self) -> bool {
        distinct_keys(self@)
    }

    /// Keys are distinct in every metadata collection.
    pub fn keys_are_distinct(&self)
        ensures
            distinct_keys(self@),
    {
        proof {
            use_type_invariant(self);
        }
    }

    /// An empty collection.
    pub fn new() -> (m: Metadata)
        ensures
            m@ == Seq::<EntryModel>::empty(),
    {
        let m = Metadata { entries: Vec::new() };
        proof {
            assert(m@ =~= Seq::<EntryModel>::empty());
        }
        m
    }

    /// Number of entries.
    pub fn len(&self) -> (n: usize)
        ensures
            n == self@.len(),
    {
        self.entries.len()
    }

    pub fn is_empty(&self) -> (b: bool)
        ensures
            b == (self@.len() == 0),
    {
        self.entries.len() == 0
    }

    /// The entries in file order.
    pub fn entries(&self) -> (r: &[(String, MetadataValue)])
        ensures
            entry_models(r@) == self@,
    {
        self.entries.as_slice()
    }

    /// Position of the entry with key `key`.
    fn find(&self, key: &str) -> (r: Option<usize>)
        ensures
            match r {
                Some(i) => i < self@.len() && self@[i as int].0 == key@ && has_key(self@, key@)
                    && key_index(self@, key@) == i,
                None => !has_key(self@, key@),
            },
    {
        proof {
            use_type_invariant(self);
        }
        let mut i: usize = 0;
        while i < self.entries.len()
            invariant
                i <= self.entries@.len(),
                self@.len() == self.entries@.len(),
                distinct_keys(self@),
                forall|j: int| 0 <= j < i ==> #[trigger] self@[j].0 != key@,
            decreases self.entries@.len() - i,
        {
            if str_eq(self.entries[i].0.as_str(), key) {
                proof {
                    assert(self@[i as int].0 == key@);
                    assert(has_key(self@, key@));
                    let c = key_index(self@, key@);
                    if c != i {
                        if c < i {
                            assert(self@[c].0 != self@[i as int].0);
                        } else {
                            assert(self@[i as int].0 != self@[c].0);
                        }
                    }
                }
                return Some(i);
            }
            i = i + 1;
        }
        None
    }

    /// The value stored under `key`.
    pub fn get(&self, key: &str) -> (r: Option<&MetadataValue>)
        ensures
            match r {
                Some(v) => lookup(self@, key@) == Some(model(*v)),
                None => lookup(self@, key@) is None,
            },
    {
        match self.find(key) {
            Some(i) => Some(&self.entries[i].1),
            None => None,
        }
    }

    /// Whether some entry has key `key`.
    pub fn contains_key(&self, key: &str) -> (b: bool)
        ensures
            b == has_key(self@, key@),
    {
        self.find(key).is_some()
    }

    /// The unsigned integer stored under `key`, widened to `u64`; `None` when
    /// the key is absent or holds another kind of value.
    pub fn get_u64(&self, key: &str) -> (r: Option<u64>)
        ensures
            r == (match lookup(self@, key@) {
                Some(v) => as_u64(v),
                None => None,
            }),
    {
        match self.get(key) {
            Some(MetadataValue::U8(x)) => Some(*x as u64),
            Some(MetadataValue::U16(x)) => Some(*x as u64),
            Some(MetadataValue::U32(x)) => Some(*x as u64),
            Some(MetadataValue::U64(x)) => Some(*x),
            _ => None,
        }
    }

    /// Set `key` to `value`: an existing entry keeps its position, a new key
    /// is appended.
    pub fn insert(&mut self, key: String, value: MetadataValue)
        ensures
            final(self)@ == spec_insert(old(self)@, key@, model(value)),
    {
        proof {
            use_type_invariant(&*self);
        }
        let ghost before = self@;
        let found = self.find(key.as_str());
        let ghost e = (key@, model(value));
        let mut es: Vec<(String, MetadataValue)> = Vec::new();
        std::mem::swap(&mut es, &mut self.entries);
        match found {
            Some(i) => {
                es.set(i, (key, value));
                proof {
                    assert(entry_models(es@) =~= before.update(i as int, e));
                    assert forall|a: int, b: int|
                        0 <= a < b < entry_models(es@).len() implies #[trigger] entry_models(es@)[a].0
                        != #[trigger] entry_models(es@)[b].0 by {
                        assert(before[a].0 != before[b].0);
                    }
                }
            },
            None => {
                es.push((key, value));
                proof {
                    assert(entry_models(es@) =~= before.push(e));
                    assert forall|a: int, b: int|
                        0 <= a < b < entry_models(es@).len() implies #[trigger] entry_models(es@)[a].0
                        != #[trigger] entry_models(es@)[b].0 by {
                        if b == before.len() {
                            if entry_models(es@)[a].0 == e.0 {
                                assert(before[a].0 == e.0);
                            }
                        } else {
                            assert(before[a].0 != before[b].0);
                        }
                    }
                }
            },
        }
        self.entries = es;
    }

    /// Remove the entry with key `key`, returning its value; the other
    /// entries keep their order.
    pub fn remove(&mut self, key: &str) -> (r: Option<MetadataValue>)
        ensures
            final(self)@ == spec_remove(old(self)@, key@),
            match r {
                Some(v) => lookup(old(self)@, key@) == Some(model(v)),
                None => !has_key(old(self)@, key@),
            },
    {
        proof {
            use_type_invariant(&*self);
        }
        let ghost before = self@;
        match self.find(key) {
            Some(i) => {
                let mut es: Vec<(String, MetadataValue)> = Vec::new();
                std::mem::swap(&mut es, &mut self.entries);
                let (_k, v) = es.remove(i);
                proof {
                    assert(entry_models(es@) =~= before.remove(i as int));
                    assert forall|a: int, b: int|
                        0 <= a < b < entry_models(es@).len() implies #[trigger] entry_models(es@)[a].0
                        != #[trigger] entry_models(es@)[b].0 by {
                        if b < i {
                            assert(before[a].0 != before[b].0);
                        } else if a < i {
                            assert(before[a].0 != before[b + 1].0);
                        } else {
                            assert(before[a + 1].0 != before[b + 1].0);
                        }
                    }
                }
                self.entries = es;
                Some(v)
            },
            None => None,
        }
    }

    /// The positions of the entries, ordered by key.
    pub fn sorted_order(&self) -> (r: Vec<usize>)
        ensures
            r@.len() == self@.len(),
            forall|i: int| 0 <= i < r@.len() ==> r@[i] < self@.len(),
            forall|j: usize| j < self@.len() ==> #[trigger] r@.contains(j),
            forall|i: int, j: int|
                0 <= i < j < r@.len() ==> seq_less(
                    #[trigger] self@[r@[i] as int].0,
                    #[trigger] self@[r@[j] as int].0,
                ),
    {
        proof {
            use_type_invariant(self);
        }
        let n = self.entries.len();
        let mut r: Vec<usize> = Vec::new();
        let mut i: usize = 0;
        while i < n
            invariant
                n == self@.len(),
                self@.len() == self.entries@.len(),
                distinct_keys(self@),
                i <= n,
                r@.len() == i,
                forall|a: int| 0 <= a < r@.len() ==> r@[a] < i,
                forall|a: usize| a < i ==> #[trigger] r@.contains(a),
                forall|a: int, b: int|
                    0 <= a < b < r@.len() ==> seq_less(
                        #[trigger] self@[r@[a] as int].0,
                        #[trigger] self@[r@[b] as int].0,
                    ),
            decreases n - i,
        {
            let key = self.entries[i].0.as_str();
            let mut p: usize = r.len();
            let mut found = false;
            let mut j: usize = 0;
            while j < r.len()
                invariant
                    n == self@.len(),
                    self@.len() == self.entries@.len(),
                    distinct_keys(self@),
                    i < n,
                    key@ == self@[i as int].0,
                    r@.len() == i,
                    forall|a: int| 0 <= a < r@.len() ==> r@[a] < i,
                    j <= r@.len(),
                    !found ==> p == r@.len() && forall|q: int|
                        0 <= q < j ==> seq_less(#[trigger] self@[r@[q] as int].0, key@),
                    found ==> p < r@.len() && seq_less(key@, self@[r@[p as int] as int].0)
                        && forall|q: int|
                        0 <= q < p ==> seq_less(#[trigger] self@[r@[q] as int].0, key@),
                decreases r@.len() - j,
            {
                if !found {
                    let other = self.entries[r[j]].0.as_str();
                    if str_less(key, other) {
                        p = j;
                        found = true;
                    } else {
                        proof {
                            let y = self@[r@[j as int] as int].0;
                            assert(y != key@) by {
                                assert(r@[j as int] < i);
                                assert(self@[r@[j as int] as int].0 != self@[i as int].0);
                            }
                            lemma_seq_less_order(key@, y, y);
                        }
                    }
                }
                j = j + 1;
            }
            proof {
                assert forall|q: int| p <= q < r@.len() implies seq_less(
                    key@,
                    #[trigger] self@[r@[q] as int].0,
                ) by {
                    if q > p {
                        lemma_seq_less_order(
                            key@,
                            self@[r@[p as int] as int].0,
                            self@[r@[q] as int].0,
                        );
                    }
                }
            }
            let ghost before = r@;
            r.insert(p, i);
            proof {
                assert forall|a: int, b: int|
                    0 <= a < b < r@.len() implies seq_less(
                    #[trigger] self@[r@[a] as int].0,
                    #[trigger] self@[r@[b] as int].0,
                ) by {
                    if b < p {
                        assert(r@[a] == before[a] && r@[b] == before[b]);
                    } else if b == p {
                        assert(r@[a] == before[a]);
                    } else if a < p {
                        assert(r@[a] == before[a] && r@[b] == before[b - 1]);
                        lemma_seq_less_order(
                            self@[before[a] as int].0,
                            key@,
                            self@[before[b - 1] as int].0,
                        );
                    } else if a == p {
                        assert(r@[b] == before[b - 1]);
                    } else {
                        assert(r@[a] == before[a - 1] && r@[b] == before[b - 1]);
                    }
                }
                assert(r@[p as int] == i);
                assert forall|a: usize| a < i + 1 implies #[trigger] r@.contains(a) by {
                    if a < i {
                        assert(before.contains(a));
                        let b = choose|b: int| 0 <= b < before.len() && before[b] == a;
                        if b < p {
                            assert(r@[b] == a);
                        } else {
                            assert(r@[b + 1] == a);
                        }
                    } else {
                        assert(r@[p as int] == a);
                    }
                }
            }
            i = i + 1;
        }
        r
    }

    /// Append the encoding of all entries.
    pub fn write_to(&self, out: &mut Vec<u8>)
        ensures
            final(out)@ == old(out)@ + enc_entries(self@),
    {
        let ghost start = out@;
        let mut i: usize = 0;
        while i < self.entries.len()
            invariant
                i <= self.entries@.len(),
                self@.len() == self.entries@.len(),
                out@ == start + enc_entries(self@.take(i as int)),
            decreases self.entries@.len() - i,
        {
            proof {
                assert(self@.take(i + 1).drop_last() =~= self@.take(i as int));
            }
            let (k, v) = &self.entries[i];
            write_string(out, k.as_str());
            write_u32(out, value_kind(v).code());
            write_value(out, v);
            i = i + 1;
        }
        proof {
            assert(self@.take(self@.len() as int) =~= self@);
        }
    }
}

/// The kind of a value.
pub fn value_kind(v: &MetadataValue) -> (k: ValueKind)
    ensures
        k == model(*v).kind(),
{
    match v {
        MetadataValue::U8(_) => ValueKind::U8,
        MetadataValue::I8(_) => ValueKind::I8,
        MetadataValue::U16(_) => ValueKind::U16,
        MetadataValue::I16(_) => ValueKind::I16,
        MetadataValue::U32(_) => ValueKind::U32,
        MetadataValue::I32(_) => ValueKind::I32,
        MetadataValue::F32(_) => ValueKind::F32,
        MetadataValue::U64(_) => ValueKind::U64,
        MetadataValue::I64(_) => ValueKind::I64,
        MetadataValue::F64(_) => ValueKind::F64,
        MetadataValue::Bool(_) => ValueKind::Bool,
        MetadataValue::String(_) => ValueKind::String,
        MetadataValue::Array(_) => ValueKind::Array,
    }
}

// ── Encoding ─────────────────────────────────────────────────────────────────

/// Encoding of one entry: key, value-type tag, payload.
pub open spec fn enc_entry(e: EntryModel) -> Seq<u8> {
    enc_string(e.0) + spec_u32_to_le_bytes(e.1.kind().spec_code()) + enc_payload(e.1)
}

/// Law: the layout of a metadata entry — the key as a string (its UTF-8
/// byte length as a little-endian `u64`, then its bytes), the value's GGUF
/// type tag as a little-endian `u32`, then the value: integers and floats
/// little-endian in 1, 2, 4 or 8 bytes, a boolean as one byte 1 or 0, a
/// string as a string, an array as its item tag, its length as a `u64` and
/// its items.
pub proof fn law_entry_layout(k: Seq<char>, v: ValueModel)
    ensures
        enc_string(k) == spec_u64_to_le_bytes(encode_utf8(k).len() as u64) + encode_utf8(k),
        enc_entry((k, v)) == enc_string(k) + spec_u32_to_le_bytes(v.kind().spec_code()) + enc_payload(v),
        v matches ValueModel::U8(x) ==> v.kind().spec_code() == 0 && enc_payload(v) == seq![x],
        v matches ValueModel::I8(x) ==> v.kind().spec_code() == 1 && enc_payload(v) == seq![x as u8],
        v matches ValueModel::U16(x) ==> v.kind().spec_code() == 2 && enc_payload(v) == spec_u16_to_le_bytes(x),
        v matches ValueModel::I16(x) ==> v.kind().spec_code() == 3 && enc_payload(v) == spec_u16_to_le_bytes(
            x as u16,
        ),
        v matches ValueModel::U32(x) ==> v.kind().spec_code() == 4 && enc_payload(v) == spec_u32_to_le_bytes(x),
        v matches ValueModel::I32(x) ==> v.kind().spec_code() == 5 && enc_payload(v) == spec_u32_to_le_bytes(
            x as u32,
        ),
        v matches ValueModel::F32(x) ==> v.kind().spec_code() == 6 && enc_payload(v) == spec_u32_to_le_bytes(x),
        v matches ValueModel::Bool(b) ==> v.kind().spec_code() == 7 && enc_payload(v) == seq![
            if b {
                1u8
            } else {
                0u8
            },
        ],
        v matches ValueModel::Str(t) ==> v.kind().spec_code() == 8 && enc_payload(v) == enc_string(t),
        v matches ValueModel::Array(ik, items) ==> v.kind().spec_code() == 9 && enc_payload(v)
            == spec_u32_to_le_bytes(ik.spec_code()) + spec_u64_to_le_bytes(items.len() as u64)
            + enc_items(items),
        v matches ValueModel::U64(x) ==> v.kind().spec_code() == 10 && enc_payload(v) == spec_u64_to_le_bytes(x),
        v matches ValueModel::I64(x) ==> v.kind().spec_code() == 11 && enc_payload(v) == spec_u64_to_le_bytes(
            x as u64,
        ),
        v matches ValueModel::F64(x) ==> v.kind().spec_code() == 12 && enc_payload(v) == spec_u64_to_le_bytes(x),
{
}

pub open spec fn enc_entries(m: Seq<EntryModel>) -> Seq<u8>
    decreases m.len(),
{
    if m.len() == 0 {
        Seq::empty()
    } else {
        enc_entries(m.drop_last()) + enc_entry(m.last())
    }
}

/// An entry a GGUF file can hold.
pub open spec fn wf_entry(e: EntryModel) -> bool {
    encode_utf8(e.0).len() <= MAX_STRING_LEN && wf_value(e.1)
}

pub open spec fn wf_entries(m: Seq<EntryModel>) -> bool {
    forall|i: int| 0 <= i < m.len() ==> wf_entry(#[trigger] m[i])
}

proof fn lemma_split_entry(e: EntryModel, s: Seq<u8>, pos: int)
    requires
        occurs_at(enc_entry(e), s, pos),
    ensures
        occurs_at(enc_string(e.0), s, pos),
        occurs_at(spec_u32_to_le_bytes(e.1.kind().spec_code()), s, pos + enc_string(e.0).len()),
        occurs_at(enc_payload(e.1), s, pos + enc_string(e.0).len() + 4),
{
    lemma_u32_bytes();
    let a = enc_string(e.0);
    let b = spec_u32_to_le_bytes(e.1.kind().spec_code());
    assert(b.len() == 4);
    lemma_occurs_split(a + b, enc_payload(e.1), s, pos);
    lemma_occurs_split(a, b, s, pos);
}

/// At most one well-formed entry is encoded at a given place.
pub proof fn lemma_entry_unique(a: EntryModel, b: EntryModel, s: Seq<u8>, pos: int)
    requires
        wf_entry(a),
        wf_entry(b),
        occurs_at(enc_entry(a), s, pos),
        occurs_at(enc_entry(b), s, pos),
    ensures
        a == b,
{
    lemma_u32_bytes();
    lemma_split_entry(a, s, pos);
    lemma_split_entry(b, s, pos);
    lemma_payload_unique(ValueModel::Str(a.0), ValueModel::Str(b.0), s, pos);
    let p = pos + enc_string(a.0).len();
    lemma_occurs_same_len(
        spec_u32_to_le_bytes(a.1.kind().spec_code()),
        spec_u32_to_le_bytes(b.1.kind().spec_code()),
        s,
        p,
    );
    crate::format::lemma_code_injective(a.1.kind(), b.1.kind());
    lemma_payload_unique(a.1, b.1, s, p + 4);
}

pub proof fn lemma_entries_unique(xs: Seq<EntryModel>, ys: Seq<EntryModel>, s: Seq<u8>, pos: int)
    requires
        wf_entries(xs),
        wf_entries(ys),
        xs.len() == ys.len(),
        occurs_at(enc_entries(xs), s, pos),
        occurs_at(enc_entries(ys), s, pos),
    ensures
        xs == ys,
    decreases xs.len(),
{
    if xs.len() == 0 {
        assert(xs =~= ys);
    } else {
        let xs0 = xs.drop_last();
        let ys0 = ys.drop_last();
        lemma_occurs_split(enc_entries(xs0), enc_entry(xs.last()), s, pos);
        lemma_occurs_split(enc_entries(ys0), enc_entry(ys.last()), s, pos);
        assert(wf_entries(xs0));
        assert(wf_entries(ys0));
        lemma_entries_unique(xs0, ys0, s, pos);
        assert(wf_entry(xs[xs.len() - 1]));
        assert(wf_entry(ys[ys.len() - 1]));
        lemma_entry_unique(xs.last(), ys.last(), s, pos + enc_entries(xs0).len());
        assert(xs =~= xs0.push(xs.last()));
        assert(ys =~= ys0.push(ys.last()));
    }
}

/// The encoding of the first `i` entries is a prefix of the encoding of all,
/// and entry `i` follows it.
pub proof fn lemma_entries_prefix(ys: Seq<EntryModel>, i: int, s: Seq<u8>, pos: int)
    requires
        0 <= i < ys.len(),
        occurs_at(enc_entries(ys), s, pos),
    ensures
        occurs_at(enc_entries(ys.take(i)), s, pos),
        occurs_at(enc_entry(ys[i]), s, pos + enc_entries(ys.take(i)).len()),
    decreases ys.len() - i,
{
    let ys0 = ys.drop_last();
    lemma_occurs_split(enc_entries(ys0), enc_entry(ys.last()), s, pos);
    if i == ys.len() - 1 {
        assert(ys.take(i) =~= ys0);
    } else {
        lemma_entries_prefix(ys0, i, s, pos);
        assert(ys0.take(i) =~= ys.take(i));
    }
}

/// Parse `count` metadata entries starting at `pos`.
///
/// Succeeds exactly when `count` well-formed entries with distinct keys are
/// encoded at `pos`.
pub fn parse_metadata(bytes: &[u8], pos: usize, count: u64) -> (res: Result<(Metadata, usize), GgufError>)
    requires
        pos <= bytes@.len(),
    ensures
        match res {
            Ok((m, end)) => {
                &&& m@.len() == count
                &&& wf_entries(m@)
                &&& distinct_keys(m@)
                &&& occurs_at(enc_entries(m@), bytes@, pos as int)
                &&& end == pos + enc_entries(m@).len()
            },
            Err(_) => forall|ms: Seq<EntryModel>|
                ms.len() == count && wf_entries(ms) && distinct_keys(ms) ==> !occurs_at(
                    #[trigger] enc_entries(ms),
                    bytes@,
                    pos as int,
                ),
        },
{
    let mut entries: Vec<(String, MetadataValue)> = Vec::new();
    let mut p = pos;
    let mut i: u64 = 0;
    proof {
        assert(entry_models(entries@) =~= Seq::<EntryModel>::empty());
        assert(bytes@.subrange(pos as int, pos as int) =~= Seq::<u8>::empty());
    }
    while i < count
        invariant
            pos <= p <= bytes@.len(),
            i <= count,
            entries@.len() == i,
            wf_entries(entry_models(entries@)),
            distinct_keys(entry_models(entries@)),
            occurs_at(enc_entries(entry_models(entries@)), bytes@, pos as int),
            p == pos + enc_entries(entry_models(entries@)).len(),
        decreases count - i,
    {
        let ghost done = entry_models(entries@);
        let step = parse_entry(bytes, p);
        match step {
            Some((k, v, end)) => {
                // Reject a key that is already present.
                let mut j: usize = 0;
                #[verifier::loop_isolation(false)]
                while j < entries.len()
                    invariant
                        j <= entries@.len(),
                        done == entry_models(entries@),
                        forall|q: int| 0 <= q < j ==> #[trigger] done[q].0 != k@,
                    decreases entries@.len() - j,
                {
                    if str_eq(entries[j].0.as_str(), k.as_str()) {
                        proof {
                            assert(done[j as int].0 == k@);
                            assert forall|ms: Seq<EntryModel>|
                                ms.len() == count && wf_entries(ms) && distinct_keys(
                                    ms,
                                ) implies !occurs_at(#[trigger] enc_entries(ms), bytes@, pos as int) by {
                                if occurs_at(enc_entries(ms), bytes@, pos as int) {
                                    let ii = i as int;
                                    lemma_entries_prefix(ms, ii, bytes@, pos as int);
                                    assert(wf_entries(ms.take(ii)));
                                    lemma_entries_unique(ms.take(ii), done, bytes@, pos as int);
                                    assert(wf_entry(ms[ii]));
                                    lemma_entry_unique(ms[ii], (k@, model(v)), bytes@, p as int);
                                    assert(ms[j as int] == done[j as int]);
                                    assert(ms[j as int].0 != ms[ii].0);
                                }
                            }
                        }
                        return Err(GgufError::DuplicateKey);
                    }
                    j = j + 1;
                }
                let ghost e = (k@, model(v));
                entries.push((k, v));
                proof {
                    assert(entry_models(entries@) =~= done.push(e));
                    assert(entry_models(entries@).drop_last() =~= done);
                    lemma_occurs_join(enc_entries(done), enc_entry(e), bytes@, pos as int);
                    assert forall|a: int, b: int|
                        0 <= a < b < entry_models(entries@).len() implies #[trigger] entry_models(
                        entries@,
                    )[a].0 != #[trigger] entry_models(entries@)[b].0 by {
                        if b == done.len() {
                            assert(done[a].0 != k@);
                        }
                    }
                }
                p = end;
                i = i + 1;
            },
            None => {
                proof {
                    assert forall|ms: Seq<EntryModel>|
                        ms.len() == count && wf_entries(ms) && distinct_keys(ms) implies !occurs_at(
                        #[trigger] enc_entries(ms),
                        bytes@,
                        pos as int,
                    ) by {
                        if occurs_at(enc_entries(ms), bytes@, pos as int) {
                            let ii = i as int;
                            lemma_entries_prefix(ms, ii, bytes@, pos as int);
                            assert(wf_entries(ms.take(ii)));
                            lemma_entries_unique(ms.take(ii), done, bytes@, pos as int);
                            assert(wf_entry(ms[ii]));
                        }
                    }
                }
                return Err(GgufError::InvalidMetadata);
            },
        }
    }
    let m = Metadata { entries };
    Ok((m, p))
}

/// Parse one entry at `pos`: its key, value-type tag and value.
fn parse_entry(bytes: &[u8], pos: usize) -> (res: Option<(String, MetadataValue, usize)>)
    requires
        pos <= bytes@.len(),
    ensures
        match res {
            Some((k, v, end)) => {
                &&& wf_entry((k@, model(v)))
                &&& occurs_at(enc_entry((k@, model(v))), bytes@, pos as int)
                &&& end == pos + enc_entry((k@, model(v))).len()
            },
            None => forall|e: EntryModel|
                wf_entry(e) ==> !occurs_at(#[trigger] enc_entry(e), bytes@, pos as int),
        },
{
    proof {
        lemma_u32_bytes();
    }
    let n = bytes.len();
    let (key, p1) = match parse_string(bytes, pos) {
        Some(r) => r,
        None => {
            proof {
                assert forall|e: EntryModel| wf_entry(e) implies !occurs_at(
                    #[trigger] enc_entry(e),
                    bytes@,
                    pos as int,
                ) by {
                    if occurs_at(enc_entry(e), bytes@, pos as int) {
                        lemma_split_entry(e, bytes@, pos as int);
                    }
                }
            }
            return None;
        },
    };
    if n - p1 < 4 {
        proof {
            assert forall|e: EntryModel| wf_entry(e) implies !occurs_at(
                #[trigger] enc_entry(e),
                bytes@,
                pos as int,
            ) by {
                if occurs_at(enc_entry(e), bytes@, pos as int) {
                    lemma_split_entry(e, bytes@, pos as int);
                    lemma_payload_unique(ValueModel::Str(e.0), ValueModel::Str(key@), bytes@, pos as int);
                }
            }
        }
        return None;
    }
    let code = crate::format::read_u32(bytes, p1);
    let kind = match ValueKind::from_code(code) {
        Some(k) => k,
        None => {
            proof {
                assert forall|e: EntryModel| wf_entry(e) implies !occurs_at(
                    #[trigger] enc_entry(e),
                    bytes@,
                    pos as int,
                ) by {
                    if occurs_at(enc_entry(e), bytes@, pos as int) {
                        lemma_split_entry(e, bytes@, pos as int);
                        lemma_payload_unique(
                            ValueModel::Str(e.0),
                            ValueModel::Str(key@),
                            bytes@,
                            pos as int,
                        );
                        lemma_occurs_same_len(
                            spec_u32_to_le_bytes(e.1.kind().spec_code()),
                            spec_u32_to_le_bytes(code),
                            bytes@,
                            p1 as int,
                        );
                        crate::format::lemma_code_injective(e.1.kind(), e.1.kind());
                    }
                }
            }
            return None;
        },
    };
    match parse_value(bytes, p1 + 4, kind) {
        Some((v, end)) => {
            proof {
                let a = enc_string(key@);
                let b = spec_u32_to_le_bytes(code);
                lemma_occurs_join(a, b, bytes@, pos as int);
                lemma_occurs_join(a + b, enc_payload(model(v)), bytes@, pos as int);
            }
            Some((key, v, end))
        },
        None => {
            proof {
                assert forall|e: EntryModel| wf_entry(e) implies !occurs_at(
                    #[trigger] enc_entry(e),
                    bytes@,
                    pos as int,
                ) by {
                    if occurs_at(enc_entry(e), bytes@, pos as int) {
                        lemma_split_entry(e, bytes@, pos as int);
                        lemma_payload_unique(
                            ValueModel::Str(e.0),
                            ValueModel::Str(key@),
                            bytes@,
                            pos as int,
                        );
                        lemma_occurs_same_len(
                            spec_u32_to_le_bytes(e.1.kind().spec_code()),
                            spec_u32_to_le_bytes(code),
                            bytes@,
                            p1 as int,
                        );
                        crate::format::lemma_code_injective(e.1.kind(), kind);
                        assert(no_value_at(kind, bytes@, p1 + 4));
                    }
                }
            }
            None
        },
    }
}

// ── Laws of the collection ───────────────────────────────────────────────────

proof fn lemma_key_index(m: Seq<EntryModel>, k: Seq<char>, i: int)
    requires
        distinct_keys(m),
        0 <= i < m.len(),
        m[i].0 == k,
    ensures
        has_key(m, k),
        key_index(m, k) == i,
{
    assert(has_key(m, k));
    let c = key_index(m, k);
    if c != i {
        if c < i {
            assert(m[c].0 != m[i].0);
        } else {
            assert(m[i].0 != m[c].0);
        }
    }
}

/// Law: after setting `k` to `v`, looking `k` up gives `v`; every other key
/// gives what it gave before; keys stay distinct; the number of entries grows
/// by one exactly when `k` was absent.
pub proof fn law_insert(m: Seq<EntryModel>, k: Seq<char>, v: ValueModel)
    requires
        distinct_keys(m),
    ensures
        distinct_keys(spec_insert(m, k, v)),
        lookup(spec_insert(m, k, v), k) == Some(v),
        forall|k2: Seq<char>| k2 != k ==> #[trigger] lookup(spec_insert(m, k, v), k2) == lookup(m, k2),
        spec_insert(m, k, v).len() == if has_key(m, k) {
            m.len()
        } else {
            m.len() + 1
        },
{
    let r = spec_insert(m, k, v);
    if has_key(m, k) {
        let i = key_index(m, k);
        assert forall|a: int, b: int| 0 <= a < b < r.len() implies #[trigger] r[a].0 != #[trigger] r[b].0 by {
            assert(m[a].0 != m[b].0);
        }
        lemma_key_index(r, k, i);
        assert forall|k2: Seq<char>| k2 != k implies #[trigger] lookup(r, k2) == lookup(m, k2) by {
            if has_key(m, k2) {
                let j = key_index(m, k2);
                assert(r[j].0 == k2);
                lemma_key_index(r, k2, j);
            } else if has_key(r, k2) {
                let j = key_index(r, k2);
                assert(m[j].0 == k2);
            }
        }
    } else {
        assert forall|a: int, b: int| 0 <= a < b < r.len() implies #[trigger] r[a].0 != #[trigger] r[b].0 by {
            if b == m.len() {
                if r[a].0 == k {
                    assert(m[a].0 == k);
                }
            } else {
                assert(m[a].0 != m[b].0);
            }
        }
        lemma_key_index(r, k, m.len() as int);
        assert forall|k2: Seq<char>| k2 != k implies #[trigger] lookup(r, k2) == lookup(m, k2) by {
            if has_key(m, k2) {
                let j = key_index(m, k2);
                assert(r[j].0 == k2);
                lemma_key_index(r, k2, j);
            } else if has_key(r, k2) {
                let j = key_index(r, k2);
                assert(m[j].0 == k2);
            }
        }
    }
}

/// Law: after removing `k`, `k` is absent; every other key gives what it gave
/// before; keys stay distinct; the number of entries drops by one exactly
/// when `k` was present.
pub proof fn law_remove(m: Seq<EntryModel>, k: Seq<char>)
    requires
        distinct_keys(m),
    ensures
        distinct_keys(spec_remove(m, k)),
        !has_key(spec_remove(m, k), k),
        forall|k2: Seq<char>| k2 != k ==> #[trigger] lookup(spec_remove(m, k), k2) == lookup(m, k2),
        spec_remove(m, k).len() == if has_key(m, k) {
            m.len() - 1
        } else {
            m.len() as int
        },
{
    let r = spec_remove(m, k);
    if has_key(m, k) {
        let i = key_index(m, k);
        assert forall|a: int, b: int| 0 <= a < b < r.len() implies #[trigger] r[a].0 != #[trigger] r[b].0 by {
            if b < i {
                assert(m[a].0 != m[b].0);
            } else if a < i {
                assert(m[a].0 != m[b + 1].0);
            } else {
                assert(m[a + 1].0 != m[b + 1].0);
            }
        }
        if has_key(r, k) {
            let j = key_index(r, k);
            if j < i {
                assert(m[j].0 == k);
                assert(m[j].0 != m[i].0);
            } else {
                assert(m[j + 1].0 == k);
                assert(m[i].0 != m[j + 1].0);
            }
        }
        assert forall|k2: Seq<char>| k2 != k implies #[trigger] lookup(r, k2) == lookup(m, k2) by {
            if has_key(m, k2) {
                let j = key_index(m, k2);
                if j < i {
                    assert(r[j].0 == k2);
                    lemma_key_index(r, k2, j);
                } else {
                    assert(j != i);
                    assert(r[j - 1].0 == k2);
                    lemma_key_index(r, k2, j - 1);
                }
            } else if has_key(r, k2) {
                let j = key_index(r, k2);
                if j < i {
                    assert(m[j].0 == k2);
                } else {
                    assert(m[j + 1].0 == k2);
                }
            }
        }
    }
}

/// Law: removing a key just set restores a collection that did not hold it.
pub proof fn law_insert_then_remove(m: Seq<EntryModel>, k: Seq<char>, v: ValueModel)
    requires
        distinct_keys(m),
        !has_key(m, k),
    ensures
        spec_remove(spec_insert(m, k, v), k) == m,
{
    let r = spec_insert(m, k, v);
    lemma_key_index(r, k, m.len() as int);
    assert(r.remove(m.len() as int) =~= m);
}

} // verus!
