//! Typed metadata and its self-describing tagged encoding.
//!
//! A metadata bag is an ordered mapping from a textual name to a typed
//! value. Each entry goes out as: length-prefixed name, length-prefixed
//! type tag, a declared payload length, and the payload itself. The
//! declared length of every fixed-width value (bool, integers, float,
//! vector) is zero by design: a decoder learns those widths from the type
//! tag alone. This quirk is part of the wire format and is kept.

use vstd::prelude::*;
use crate::sink::{ByteSink, spec_le32, spec_le64};
use crate::names::copy_bytes;

verus! {

/// Three 32-bit integer components, x then y then z.
pub struct Vec3I {
    pub x: i32,
    pub y: i32,
    pub z: i32,
}

/// A typed metadata value. Floating-point values are carried as the bit
/// pattern of the 32-bit float, which is also exactly what the wire holds.
pub enum MetadataValue {
    Str(Vec<u8>),
    Bool(bool),
    I32(i32),
    I64(i64),
    Float(u32),
    Vec3i(Vec3I),
    Unknown { name: Vec<u8>, data: Vec<u8> },
}

/// An ordered mapping from name to typed value.
pub struct Metadata(pub Vec<(Vec<u8>, MetadataValue)>);

/// The fixed type tag `"string"`.
pub open spec fn spec_tag_string() -> Seq<u8> {
    seq![115u8, 116u8, 114u8, 105u8, 110u8, 103u8]
}

/// The fixed type tag `"bool"`.
pub open spec fn spec_tag_bool() -> Seq<u8> {
    seq![98u8, 111u8, 111u8, 108u8]
}

/// The fixed type tag `"int32"`.
pub open spec fn spec_tag_int32() -> Seq<u8> {
    seq![105u8, 110u8, 116u8, 51u8, 50u8]
}

/// The fixed type tag `"int64"`.
pub open spec fn spec_tag_int64() -> Seq<u8> {
    seq![105u8, 110u8, 116u8, 54u8, 52u8]
}

/// The fixed type tag `"float"`.
pub open spec fn spec_tag_float() -> Seq<u8> {
    seq![102u8, 108u8, 111u8, 97u8, 116u8]
}

/// The fixed type tag `"vec3i"`.
pub open spec fn spec_tag_vec3i() -> Seq<u8> {
    seq![118u8, 101u8, 99u8, 51u8, 105u8]
}

/// The synthesized key `"is_saved_as_half_float"`.
pub open spec fn spec_half_float_key() -> Seq<u8> {
    seq![
        105u8, 115u8, 95u8, 115u8, 97u8, 118u8, 101u8, 100u8, 95u8, 97u8, 115u8, 95u8, 104u8,
        97u8, 108u8, 102u8, 95u8, 102u8, 108u8, 111u8, 97u8, 116u8,
    ]
}

/// A length-prefixed text: 8-byte little-endian length, then the bytes.
pub open spec fn spec_name_bytes(s: Seq<u8>) -> Seq<u8> {
    spec_le64(s.len() as u64) + s
}

/// The type tag written for a value.
pub open spec fn spec_type_tag(v: MetadataValue) -> Seq<u8> {
    match v {
        MetadataValue::Str(_) => spec_tag_string(),
        MetadataValue::Bool(_) => spec_tag_bool(),
        MetadataValue::I32(_) => spec_tag_int32(),
        MetadataValue::I64(_) => spec_tag_int64(),
        MetadataValue::Float(_) => spec_tag_float(),
        MetadataValue::Vec3i(_) => spec_tag_vec3i(),
        MetadataValue::Unknown { name, data: _ } => name@,
    }
}

/// The declared payload length: the real length for texts and blobs,
/// zero for every fixed-width value.
pub open spec fn spec_declared_len(v: MetadataValue) -> u64 {
    match v {
        MetadataValue::Str(s) => s@.len() as u64,
        MetadataValue::Unknown { name: _, data } => data@.len() as u64,
        _ => 0u64,
    }
}

/// The payload bytes of a value.
pub open spec fn spec_payload_bytes(v: MetadataValue) -> Seq<u8> {
    match v {
        MetadataValue::Str(s) => s@,
        MetadataValue::Bool(b) => seq![if b { 1u8 } else { 0u8 }],
        MetadataValue::I32(i) => spec_le32(i as u32),
        MetadataValue::I64(i) => spec_le64(i as u64),
        MetadataValue::Float(bits) => spec_le32(bits),
        MetadataValue::Vec3i(w) => spec_le32(w.x as u32) + spec_le32(w.y as u32) + spec_le32(
            w.z as u32,
        ),
        MetadataValue::Unknown { name: _, data } => data@,
    }
}

/// One whole entry on the wire.
pub open spec fn spec_entry_bytes(name: Seq<u8>, v: MetadataValue) -> Seq<u8> {
    spec_name_bytes(name) + spec_name_bytes(spec_type_tag(v)) + spec_le64(spec_declared_len(v))
        + spec_payload_bytes(v)
}

/// All entries, in mapping order.
pub open spec fn spec_entries_bytes(entries: Seq<(Vec<u8>, MetadataValue)>) -> Seq<u8>
    decreases entries.len(),
{
    if entries.len() == 0 {
        Seq::<u8>::empty()
    } else {
        spec_entries_bytes(entries.drop_last()) + spec_entry_bytes(
            entries.last().0@,
            entries.last().1,
        )
    }
}

/// The whole metadata block: 8-byte entry count, then the entries.
/// An empty mapping writes the zero count and nothing else.
pub open spec fn spec_metadata_bytes(m: Metadata) -> Seq<u8> {
    spec_le64(m.0@.len() as u64) + spec_entries_bytes(m.0@)
}

/// Whether the bag marks its grid values as half-precision floats.
pub open spec fn spec_is_half_float(m: Metadata) -> bool {
    exists|i: int|
        0 <= i < m.0@.len() && (#[trigger] m.0@[i]).0@ == spec_half_float_key() && m.0@[i].1
            == MetadataValue::Bool(true)
}

impl Metadata {
    /// Whether this bag holds the entry `is_saved_as_half_float: true`.
    pub fn is_half_float(&self) -> (r: bool)
        ensures
            r == spec_is_half_float(*self),
    {
        let key = half_float_key();
        let mut i: usize = 0;
        while i < self.0.len()
            invariant
                i <= self.0@.len(),
                key@ == spec_half_float_key(),
                forall|t: int|
                    0 <= t < i ==> !((#[trigger] self.0@[t]).0@ == spec_half_float_key()
                        && self.0@[t].1 == MetadataValue::Bool(true)),
            decreases self.0@.len() - i,
        {
            let hit = match &self.0[i].1 {
                MetadataValue::Bool(b) => *b,
                _ => false,
            };
            if hit {
                if crate::names::eq_bytes(&self.0[i].0, &key) {
                    proof {
                        assert(self.0@[i as int].0@ == spec_half_float_key());
                        assert(self.0@[i as int].1 == MetadataValue::Bool(true));
                    }
                    return true;
                }
            }
            i = i + 1;
        }
        false
    }
}

/// The bytes of `"is_saved_as_half_float"`.
pub fn half_float_key() -> (r: Vec<u8>)
    ensures
        r@ == spec_half_float_key(),
{
    let mut v: Vec<u8> = Vec::new();
    v.push(105);
    v.push(115);
    v.push(95);
    v.push(115);
    v.push(97);
    v.push(118);
    v.push(101);
    v.push(100);
    v.push(95);
    v.push(97);
    v.push(115);
    v.push(95);
    v.push(104);
    v.push(97);
    v.push(108);
    v.push(102);
    v.push(95);
    v.push(102);
    v.push(108);
    v.push(111);
    v.push(97);
    v.push(116);
    proof {
        assert(v@ =~= spec_half_float_key());
    }
    v
}

/// The type tag of a value as a fresh vector.
pub fn type_tag_of(v: &MetadataValue) -> (r: Vec<u8>)
    ensures
        r@ == spec_type_tag(*v),
{
    match v {
        MetadataValue::Str(_) => {
            let mut t: Vec<u8> = Vec::new();
            t.push(115);
            t.push(116);
            t.push(114);
            t.push(105);
            t.push(110);
            t.push(103);
            proof {
                assert(t@ =~= spec_tag_string());
            }
            t
        },
        MetadataValue::Bool(_) => {
            let mut t: Vec<u8> = Vec::new();
            t.push(98);
            t.push(111);
            t.push(111);
            t.push(108);
            proof {
                assert(t@ =~= spec_tag_bool());
            }
            t
        },
        MetadataValue::I32(_) => {
            let mut t: Vec<u8> = Vec::new();
            t.push(105);
            t.push(110);
            t.push(116);
            t.push(51);
            t.push(50);
            proof {
                assert(t@ =~= spec_tag_int32());
            }
            t
        },
        MetadataValue::I64(_) => {
            let mut t: Vec<u8> = Vec::new();
            t.push(105);
            t.push(110);
            t.push(116);
            t.push(54);
            t.push(52);
            proof {
                assert(t@ =~= spec_tag_int64());
            }
            t
        },
        MetadataValue::Float(_) => {
            let mut t: Vec<u8> = Vec::new();
            t.push(102);
            t.push(108);
            t.push(111);
            t.push(97);
            t.push(116);
            proof {
                assert(t@ =~= spec_tag_float());
            }
            t
        },
        MetadataValue::Vec3i(_) => {
            let mut t: Vec<u8> = Vec::new();
            t.push(118);
            t.push(101);
            t.push(99);
            t.push(51);
            t.push(105);
            proof {
                assert(t@ =~= spec_tag_vec3i());
            }
            t
        },
        MetadataValue::Unknown { name, data: _ } => copy_bytes(name),
    }
}

/// Writes one value's payload bytes.
pub fn write_payload(sink: &mut ByteSink, v: &MetadataValue)
    ensures
        final(sink)@ == old(sink)@ + spec_payload_bytes(*v),
{
    match v {
        MetadataValue::Str(s) => {
            sink.write_bytes(s);
        },
        MetadataValue::Bool(b) => {
            sink.write_u8(if *b {
                1
            } else {
                0
            });
            proof {
                assert(old(sink)@.push(if *b { 1u8 } else { 0u8 }) =~= old(sink)@
                    + spec_payload_bytes(*v));
            }
        },
        MetadataValue::I32(i) => {
            sink.write_i32(*i);
        },
        MetadataValue::I64(i) => {
            sink.write_u64(*i as u64);
        },
        MetadataValue::Float(bits) => {
            sink.write_u32(*bits);
        },
        MetadataValue::Vec3i(w) => {
            sink.write_i32(w.x);
            sink.write_i32(w.y);
            sink.write_i32(w.z);
            proof {
                assert(sink@ =~= old(sink)@ + spec_payload_bytes(*v));
            }
        },
        MetadataValue::Unknown { name: _, data } => {
            sink.write_bytes(data);
        },
    }
}

} // verus!
