//! The metadata layout, read back at the specification level.
//!
//! Nothing here runs: these functions state, over mathematical
//! sequences, how a decoder reads the metadata block that
//! `VdbWriter::write_metadata` emits — length-prefixed name, type tag,
//! declared length, payload, with fixed-width payloads read by the
//! width the tag implies. The round-trip law at the bottom proves the
//! encoding reproduces every ordered (name, variant, value) triple.

use vstd::prelude::*;
use vstd::seq_lib::lemma_concat_associative;
use crate::sink::{spec_le32, spec_le64};
use crate::metadata::{
    Metadata, MetadataValue, spec_tag_string, spec_tag_bool, spec_tag_int32, spec_tag_int64,
    spec_tag_float, spec_tag_vec3i, spec_name_bytes, spec_type_tag, spec_declared_len,
    spec_payload_bytes, spec_entry_bytes, spec_entries_bytes, spec_metadata_bytes,
};

verus! {

/// The decoded form of one metadata value: plain mathematical data.
pub enum MetaVal {
    MStr(Seq<u8>),
    MBool(bool),
    MI32(i32),
    MI64(i64),
    MFloat(u32),
    MVec3i(i32, i32, i32),
    MUnknown(Seq<u8>, Seq<u8>),
}

/// The decoded counterpart of an in-memory value.
pub open spec fn spec_model(v: MetadataValue) -> MetaVal {
    match v {
        MetadataValue::Str(s) => MetaVal::MStr(s@),
        MetadataValue::Bool(b) => MetaVal::MBool(b),
        MetadataValue::I32(i) => MetaVal::MI32(i),
        MetadataValue::I64(i) => MetaVal::MI64(i),
        MetadataValue::Float(bits) => MetaVal::MFloat(bits),
        MetadataValue::Vec3i(w) => MetaVal::MVec3i(w.x, w.y, w.z),
        MetadataValue::Unknown { name, data } => MetaVal::MUnknown(name@, data@),
    }
}

/// The ordered triples an exact decoder must reproduce.
pub open spec fn spec_models(entries: Seq<(Vec<u8>, MetadataValue)>) -> Seq<(Seq<u8>, MetaVal)> {
    entries.map_values(|e: (Vec<u8>, MetadataValue)| (e.0@, spec_model(e.1)))
}

/// Whether a tag is one of the six fixed type names.
pub open spec fn spec_reserved_tag(t: Seq<u8>) -> bool {
    t == spec_tag_string() || t == spec_tag_bool() || t == spec_tag_int32() || t
        == spec_tag_int64() || t == spec_tag_float() || t == spec_tag_vec3i()
}

/// A value whose wire form decodes back to the same variant: a blob may
/// not carry one of the six fixed type names, and every text fits its
/// 64-bit length field.
pub open spec fn spec_value_wf(v: MetadataValue) -> bool {
    match v {
        MetadataValue::Str(s) => s@.len() <= u64::MAX,
        MetadataValue::Unknown { name, data } => !spec_reserved_tag(name@) && name@.len()
            <= u64::MAX && data@.len() <= u64::MAX,
        _ => true,
    }
}

/// A mapping the round-trip law speaks of: every entry well formed.
pub open spec fn spec_metadata_wf(m: Metadata) -> bool {
    &&& m.0@.len() <= u64::MAX
    &&& forall|i: int|
        0 <= i < m.0@.len() ==> (#[trigger] m.0@[i]).0@.len() <= u64::MAX && spec_value_wf(
            m.0@[i].1,
        )
}

/// The value of eight little-endian bytes.
pub open spec fn spec_dec_u64(b: Seq<u8>) -> u64 {
    (b[0] as u64) | ((b[1] as u64) << 8u64) | ((b[2] as u64) << 16u64) | ((b[3] as u64)
        << 24u64) | ((b[4] as u64) << 32u64) | ((b[5] as u64) << 40u64) | ((b[6] as u64)
        << 48u64) | ((b[7] as u64) << 56u64)
}

/// The value of four little-endian bytes.
pub open spec fn spec_dec_u32(b: Seq<u8>) -> u32 {
    (b[0] as u32) | ((b[1] as u32) << 8u32) | ((b[2] as u32) << 16u32) | ((b[3] as u32)
        << 24u32)
}

/// Reads one 64-bit little-endian field.
pub open spec fn spec_parse_u64(b: Seq<u8>) -> Option<(u64, Seq<u8>)> {
    if b.len() < 8 {
        None
    } else {
        Some((spec_dec_u64(b.take(8)), b.skip(8)))
    }
}

/// Reads one length-prefixed text.
pub open spec fn spec_parse_lenstr(b: Seq<u8>) -> Option<(Seq<u8>, Seq<u8>)> {
    match spec_parse_u64(b) {
        None => None,
        Some((l, r)) => if r.len() < l {
            None
        } else {
            Some((r.take(l as int), r.skip(l as int)))
        },
    }
}

/// Reads one payload as the type tag directs: texts and blobs by their
/// declared length, fixed-width values by the width the tag implies.
pub open spec fn spec_parse_value(tag: Seq<u8>, declared: u64, b: Seq<u8>) -> Option<
    (MetaVal, Seq<u8>),
> {
    if tag == spec_tag_string() {
        if b.len() < declared {
            None
        } else {
            Some((MetaVal::MStr(b.take(declared as int)), b.skip(declared as int)))
        }
    } else if tag == spec_tag_bool() {
        if b.len() < 1 {
            None
        } else {
            Some((MetaVal::MBool(b[0] == 1), b.skip(1)))
        }
    } else if tag == spec_tag_int32() {
        if b.len() < 4 {
            None
        } else {
            Some((MetaVal::MI32(spec_dec_u32(b.take(4)) as i32), b.skip(4)))
        }
    } else if tag == spec_tag_int64() {
        if b.len() < 8 {
            None
        } else {
            Some((MetaVal::MI64(spec_dec_u64(b.take(8)) as i64), b.skip(8)))
        }
    } else if tag == spec_tag_float() {
        if b.len() < 4 {
            None
        } else {
            Some((MetaVal::MFloat(spec_dec_u32(b.take(4))), b.skip(4)))
        }
    } else if tag == spec_tag_vec3i() {
        if b.len() < 12 {
            None
        } else {
            Some(
                (
                    MetaVal::MVec3i(
                        spec_dec_u32(b.subrange(0, 4)) as i32,
                        spec_dec_u32(b.subrange(4, 8)) as i32,
                        spec_dec_u32(b.subrange(8, 12)) as i32,
                    ),
                    b.skip(12),
                ),
            )
        }
    } else {
        if b.len() < declared {
            None
        } else {
            Some((MetaVal::MUnknown(tag, b.take(declared as int)), b.skip(declared as int)))
        }
    }
}

/// Reads one whole entry.
pub open spec fn spec_parse_entry(b: Seq<u8>) -> Option<((Seq<u8>, MetaVal), Seq<u8>)> {
    match spec_parse_lenstr(b) {
        None => None,
        Some((name, r1)) => match spec_parse_lenstr(r1) {
            None => None,
            Some((tag, r2)) => match spec_parse_u64(r2) {
                None => None,
                Some((declared, r3)) => match spec_parse_value(tag, declared, r3) {
                    None => None,
                    Some((v, r4)) => Some(((name, v), r4)),
                },
            },
        },
    }
}

/// Reads `n` entries in order.
pub open spec fn spec_parse_entries(b: Seq<u8>, n: nat) -> Option<
    (Seq<(Seq<u8>, MetaVal)>, Seq<u8>),
>
    decreases n,
{
    if n == 0 {
        Some((Seq::<(Seq<u8>, MetaVal)>::empty(), b))
    } else {
        match spec_parse_entry(b) {
            None => None,
            Some((e, r)) => match spec_parse_entries(r, (n - 1) as nat) {
                None => None,
                Some((es, r2)) => Some((seq![e] + es, r2)),
            },
        }
    }
}

/// Reads a whole metadata block, demanding that it is consumed exactly.
pub open spec fn spec_parse_metadata(b: Seq<u8>) -> Option<Seq<(Seq<u8>, MetaVal)>> {
    match spec_parse_u64(b) {
        None => None,
        Some((n, r)) => match spec_parse_entries(r, n as nat) {
            None => None,
            Some((es, rest)) => if rest.len() == 0 {
                Some(es)
            } else {
                None
            },
        },
    }
}

proof fn lemma_dec_le64(v: u64)
    ensures
        spec_dec_u64(spec_le64(v)) == v,
{
    assert(((v >> 0u64) & 0xff) < 256 && ((v >> 8u64) & 0xff) < 256 && ((v >> 16u64) & 0xff)
        < 256 && ((v >> 24u64) & 0xff) < 256 && ((v >> 32u64) & 0xff) < 256 && ((v >> 40u64)
        & 0xff) < 256 && ((v >> 48u64) & 0xff) < 256 && ((v >> 56u64) & 0xff) < 256)
        by (bit_vector);
    assert((((v >> 0u64) & 0xff) | (((v >> 8u64) & 0xff) << 8u64) | (((v >> 16u64) & 0xff)
        << 16u64) | (((v >> 24u64) & 0xff) << 24u64) | (((v >> 32u64) & 0xff) << 32u64) | (((v
        >> 40u64) & 0xff) << 40u64) | (((v >> 48u64) & 0xff) << 48u64) | (((v >> 56u64) & 0xff)
        << 56u64)) == v) by (bit_vector);
    assert(v >> 0u64 == v) by (bit_vector);
}

proof fn lemma_dec_le32(v: u32)
    ensures
        spec_dec_u32(spec_le32(v)) == v,
{
    assert(((v >> 0u32) & 0xff) < 256 && ((v >> 8u32) & 0xff) < 256 && ((v >> 16u32) & 0xff)
        < 256 && ((v >> 24u32) & 0xff) < 256) by (bit_vector);
    assert((((v >> 0u32) & 0xff) | (((v >> 8u32) & 0xff) << 8u32) | (((v >> 16u32) & 0xff)
        << 16u32) | (((v >> 24u32) & 0xff) << 24u32)) == v) by (bit_vector);
    assert(v >> 0u32 == v) by (bit_vector);
}

proof fn lemma_parse_u64(v: u64, rest: Seq<u8>)
    ensures
        spec_parse_u64(spec_le64(v) + rest) == Some((v, rest)),
{
    let b = spec_le64(v) + rest;
    assert(b.take(8) =~= spec_le64(v));
    assert(b.skip(8) =~= rest);
    lemma_dec_le64(v);
}

proof fn lemma_parse_lenstr(s: Seq<u8>, rest: Seq<u8>)
    requires
        s.len() <= u64::MAX,
    ensures
        spec_parse_lenstr(spec_name_bytes(s) + rest) == Some((s, rest)),
{
    let b = spec_name_bytes(s) + rest;
    assert(b =~= spec_le64(s.len() as u64) + (s + rest));
    lemma_parse_u64(s.len() as u64, s + rest);
    let l = s.len() as u64;
    assert((s + rest).take(l as int) =~= s);
    assert((s + rest).skip(l as int) =~= rest);
}

proof fn lemma_parse_value(v: MetadataValue, rest: Seq<u8>)
    requires
        spec_value_wf(v),
    ensures
        spec_parse_value(spec_type_tag(v), spec_declared_len(v), spec_payload_bytes(v) + rest)
            == Some((spec_model(v), rest)),
{
    // the six fixed tags are pairwise distinct
    assert(spec_tag_string().len() == 6 && spec_tag_bool().len() == 4 && spec_tag_int32().len()
        == 5 && spec_tag_int64().len() == 5 && spec_tag_float().len() == 5
        && spec_tag_vec3i().len() == 5);
    assert(spec_tag_int32()[3] == 51u8 && spec_tag_int64()[3] == 54u8);
    assert(spec_tag_int32()[0] == 105u8 && spec_tag_int64()[0] == 105u8 && spec_tag_float()[0]
        == 102u8 && spec_tag_vec3i()[0] == 118u8);
    match v {
        MetadataValue::Str(s) => {
            let b = s@ + rest;
            assert(b.take(s@.len() as u64 as int) =~= s@);
            assert(b.skip(s@.len() as u64 as int) =~= rest);
        },
        MetadataValue::Bool(t) => {
            let b = spec_payload_bytes(v) + rest;
            assert(b[0] == (if t { 1u8 } else { 0u8 }));
            assert(b.skip(1) =~= rest);
        },
        MetadataValue::I32(i) => {
            let b = spec_le32(i as u32) + rest;
            assert(b.take(4) =~= spec_le32(i as u32));
            assert(b.skip(4) =~= rest);
            lemma_dec_le32(i as u32);
            assert(((i as u32) as i32) == i) by (bit_vector);
        },
        MetadataValue::I64(i) => {
            let b = spec_le64(i as u64) + rest;
            assert(b.take(8) =~= spec_le64(i as u64));
            assert(b.skip(8) =~= rest);
            lemma_dec_le64(i as u64);
            assert(((i as u64) as i64) == i) by (bit_vector);
        },
        MetadataValue::Float(bits) => {
            let b = spec_le32(bits) + rest;
            assert(b.take(4) =~= spec_le32(bits));
            assert(b.skip(4) =~= rest);
            lemma_dec_le32(bits);
        },
        MetadataValue::Vec3i(w) => {
            let b = spec_payload_bytes(v) + rest;
            assert(b.subrange(0, 4) =~= spec_le32(w.x as u32));
            assert(b.subrange(4, 8) =~= spec_le32(w.y as u32));
            assert(b.subrange(8, 12) =~= spec_le32(w.z as u32));
            assert(b.skip(12) =~= rest);
            lemma_dec_le32(w.x as u32);
            lemma_dec_le32(w.y as u32);
            lemma_dec_le32(w.z as u32);
            let wx = w.x;
            let wy = w.y;
            let wz = w.z;
            assert(((wx as u32) as i32) == wx) by (bit_vector);
            assert(((wy as u32) as i32) == wy) by (bit_vector);
            assert(((wz as u32) as i32) == wz) by (bit_vector);
        },
        MetadataValue::Unknown { name, data } => {
            let b = data@ + rest;
            assert(b.take(data@.len() as u64 as int) =~= data@);
            assert(b.skip(data@.len() as u64 as int) =~= rest);
        },
    }
}

proof fn lemma_parse_entry(e: (Vec<u8>, MetadataValue), rest: Seq<u8>)
    requires
        e.0@.len() <= u64::MAX,
        spec_value_wf(e.1),
    ensures
        spec_parse_entry(spec_entry_bytes(e.0@, e.1) + rest) == Some(
            ((e.0@, spec_model(e.1)), rest),
        ),
{
    let name = e.0@;
    let v = e.1;
    let tag = spec_type_tag(v);
    let b = spec_entry_bytes(name, v) + rest;
    let r1 = spec_name_bytes(tag) + (spec_le64(spec_declared_len(v)) + (spec_payload_bytes(v)
        + rest));
    let r2 = spec_le64(spec_declared_len(v)) + (spec_payload_bytes(v) + rest);
    let r3 = spec_payload_bytes(v) + rest;
    assert(b =~= spec_name_bytes(name) + r1);
    assert(tag.len() <= u64::MAX);
    lemma_parse_lenstr(name, r1);
    lemma_parse_lenstr(tag, r2);
    lemma_parse_u64(spec_declared_len(v), r3);
    lemma_parse_value(v, rest);
}

proof fn lemma_entries_bytes_first(entries: Seq<(Vec<u8>, MetadataValue)>)
    requires
        entries.len() > 0,
    ensures
        spec_entries_bytes(entries) == spec_entry_bytes(entries[0].0@, entries[0].1)
            + spec_entries_bytes(entries.drop_first()),
    decreases entries.len(),
{
    if entries.len() == 1 {
        assert(entries.drop_last() =~= Seq::<(Vec<u8>, MetadataValue)>::empty());
        assert(entries.drop_first() =~= Seq::<(Vec<u8>, MetadataValue)>::empty());
        assert(entries.last() == entries[0]);
        assert(spec_entries_bytes(entries) =~= spec_entry_bytes(entries[0].0@, entries[0].1)
            + spec_entries_bytes(entries.drop_first()));
    } else {
        let head = entries.drop_last();
        lemma_entries_bytes_first(head);
        assert(head.drop_first() =~= entries.drop_first().drop_last());
        assert(head[0] == entries[0]);
        assert(entries.drop_first().last() == entries.last());
        assert(spec_entries_bytes(entries.drop_first()) == spec_entries_bytes(
            entries.drop_first().drop_last(),
        ) + spec_entry_bytes(entries.last().0@, entries.last().1));
        assert(spec_entries_bytes(entries) =~= spec_entry_bytes(entries[0].0@, entries[0].1)
            + spec_entries_bytes(entries.drop_first()));
    }
}

#[verifier::rlimit(100)]
#[verifier::spinoff_prover]
proof fn lemma_parse_entries(entries: Seq<(Vec<u8>, MetadataValue)>, rest: Seq<u8>)
    requires
        forall|i: int|
            0 <= i < entries.len() ==> (#[trigger] entries[i]).0@.len() <= u64::MAX
                && spec_value_wf(entries[i].1),
    ensures
        spec_parse_entries(spec_entries_bytes(entries) + rest, entries.len()) == Some(
            (spec_models(entries), rest),
        ),
    decreases entries.len(),
{
    if entries.len() == 0 {
        assert(spec_entries_bytes(entries) + rest =~= rest);
        assert(spec_models(entries) =~= Seq::<(Seq<u8>, MetaVal)>::empty());
    } else {
        let e = entries[0];
        let tail = entries.drop_first();
        let hd = spec_entry_bytes(e.0@, e.1);
        let tl = spec_entries_bytes(tail);
        let b = spec_entries_bytes(entries) + rest;
        assert(b == hd + (tl + rest)) by {
            lemma_entries_bytes_first(entries);
            lemma_concat_associative(hd, tl, rest);
        }
        assert(spec_parse_entry(b) == Some(((e.0@, spec_model(e.1)), tl + rest))) by {
            lemma_parse_entry(e, tl + rest);
        }
        assert(spec_parse_entries(tl + rest, tail.len()) == Some((spec_models(tail), rest))) by {
            assert(forall|i: int|
                0 <= i < tail.len() ==> (#[trigger] tail[i]).0@.len() <= u64::MAX
                    && spec_value_wf(tail[i].1));
            lemma_parse_entries(tail, rest);
        }
        assert(spec_models(entries) == seq![(e.0@, spec_model(e.1))] + spec_models(tail)) by {
            assert forall|i: int| 0 <= i < entries.len() implies spec_models(entries)[i] == (
            seq![(e.0@, spec_model(e.1))] + spec_models(tail))[i] by {
                if i > 0 {
                    assert(tail[i - 1] == entries[i]);
                }
            }
            assert(spec_models(entries) =~= seq![(e.0@, spec_model(e.1))] + spec_models(tail));
        }
        assert((entries.len() - 1) as nat == tail.len());
    }
}

/// The round-trip law of the metadata codec: reading an encoded block
/// back, by the layout the encoder documents, yields exactly the
/// original ordered sequence of (name, variant, value) triples, with
/// the exact entry count and nothing left over.
pub proof fn lemma_metadata_round_trip(m: Metadata)
    requires
        spec_metadata_wf(m),
    ensures
        spec_parse_metadata(spec_metadata_bytes(m)) == Some(spec_models(m.0@)),
{
    let b = spec_metadata_bytes(m);
    let n = m.0@.len() as u64;
    assert(b =~= spec_le64(n) + (spec_entries_bytes(m.0@) + Seq::<u8>::empty()));
    lemma_parse_u64(n, spec_entries_bytes(m.0@) + Seq::<u8>::empty());
    lemma_parse_entries(m.0@, Seq::<u8>::empty());
    assert(spec_entries_bytes(m.0@) + Seq::<u8>::empty() =~= spec_entries_bytes(m.0@));
}

} // verus!
