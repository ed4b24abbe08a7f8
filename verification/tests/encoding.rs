use vdb_writer::metadata::{Metadata, MetadataValue, Vec3I};
use vdb_writer::names::{add_suffix, dec_bytes, resolve_names};
use vdb_writer::sink::ByteSink;
use vdb_writer::tree::{mask_popcount, popcount64};
use vdb_writer::uuid::format_uuid;
use vdb_writer::writer::VdbWriter;

fn le32(v: u32) -> Vec<u8> {
    v.to_le_bytes().to_vec()
}

fn le64(v: u64) -> Vec<u8> {
    v.to_le_bytes().to_vec()
}

fn name_bytes(s: &[u8]) -> Vec<u8> {
    let mut out = le64(s.len() as u64);
    out.extend_from_slice(s);
    out
}

#[test]
fn decimal_digits_exact() {
    assert_eq!(dec_bytes(0), b"0".to_vec());
    assert_eq!(dec_bytes(7), b"7".to_vec());
    assert_eq!(dec_bytes(10), b"10".to_vec());
    assert_eq!(dec_bytes(90217), b"90217".to_vec());
}

#[test]
fn suffix_exact() {
    assert_eq!(add_suffix(&b"a".to_vec(), 10), b"a[10]".to_vec());
    assert_eq!(add_suffix(&b"".to_vec(), 0), b"[0]".to_vec());
}

#[test]
fn unique_names_kept() {
    let names = vec![b"a".to_vec(), b"b".to_vec(), b"c".to_vec()];
    let resolved = resolve_names(&names);
    assert_eq!(resolved, names);
}

#[test]
fn empty_names_get_distinct_suffixes() {
    let names = vec![b"".to_vec(), b"".to_vec()];
    let resolved = resolve_names(&names);
    assert_eq!(resolved[0], b"[0]".to_vec());
    assert_eq!(resolved[1], b"[1]".to_vec());
    assert_ne!(resolved[0], resolved[1]);
}

#[test]
fn duplicate_names_get_distinct_suffixes() {
    let names = vec![b"density".to_vec(), b"density".to_vec()];
    let resolved = resolve_names(&names);
    assert_eq!(resolved[0], b"density[0]".to_vec());
    assert_eq!(resolved[1], b"density[1]".to_vec());
}

#[test]
fn suffix_collision_with_requested_name() {
    // the third grid's requested name is already taken by the first
    // duplicate's suffixed form, so it gets a suffix of its own
    let names = vec![b"a".to_vec(), b"a".to_vec(), b"a[0]".to_vec()];
    let resolved = resolve_names(&names);
    assert_eq!(resolved[0], b"a[0]".to_vec());
    assert_eq!(resolved[1], b"a[1]".to_vec());
    assert_eq!(resolved[2], b"a[0][1]".to_vec());
}

#[test]
fn popcount_exact() {
    assert_eq!(popcount64(0), 0);
    assert_eq!(popcount64(1), 1);
    assert_eq!(popcount64(0xff), 8);
    assert_eq!(popcount64(u64::MAX), 64);
    assert_eq!(mask_popcount(&vec![1u64, 3u64, 0u64]), 3);
}

#[test]
fn uuid_all_zero_words() {
    let u = format_uuid(0, 0, 0, 0);
    assert_eq!(u, b"00000000-0000-0000-0000-000000000000".to_vec());
}

#[test]
fn uuid_low_nibble_first() {
    let u = format_uuid(0x89ABCDEF, 0, 0, 0);
    assert_eq!(&u[0..8], b"FEDCBA98");
    assert_eq!(u[8], b'-');
    assert_eq!(u.len(), 36);
}

#[test]
fn empty_metadata_writes_zero_count_only() {
    let mut sink = ByteSink::new();
    let m = Metadata(vec![]);
    VdbWriter::write_metadata(&mut sink, &m);
    assert_eq!(sink.into_vec(), le64(0));
}

#[test]
fn metadata_entries_exact_bytes() {
    let m = Metadata(vec![
        (b"title".to_vec(), MetadataValue::Str(b"hi".to_vec())),
        (b"on".to_vec(), MetadataValue::Bool(true)),
        (b"off".to_vec(), MetadataValue::Bool(false)),
        (b"count".to_vec(), MetadataValue::I32(-1)),
        (b"big".to_vec(), MetadataValue::I64(2)),
        (b"scale".to_vec(), MetadataValue::Float(1.0f32.to_bits())),
        (b"dim".to_vec(), MetadataValue::Vec3i(Vec3I { x: 1, y: -2, z: 3 })),
        (
            b"blob".to_vec(),
            MetadataValue::Unknown { name: b"mytype".to_vec(), data: vec![9, 8, 7] },
        ),
    ]);
    let mut sink = ByteSink::new();
    VdbWriter::write_metadata(&mut sink, &m);

    let mut expected = le64(8);
    // a text declares and carries its length
    expected.extend(name_bytes(b"title"));
    expected.extend(name_bytes(b"string"));
    expected.extend(le64(2));
    expected.extend_from_slice(b"hi");
    // fixed-width values declare a zero length by design
    expected.extend(name_bytes(b"on"));
    expected.extend(name_bytes(b"bool"));
    expected.extend(le64(0));
    expected.push(1);
    expected.extend(name_bytes(b"off"));
    expected.extend(name_bytes(b"bool"));
    expected.extend(le64(0));
    expected.push(0);
    expected.extend(name_bytes(b"count"));
    expected.extend(name_bytes(b"int32"));
    expected.extend(le64(0));
    expected.extend((-1i32).to_le_bytes());
    expected.extend(name_bytes(b"big"));
    expected.extend(name_bytes(b"int64"));
    expected.extend(le64(0));
    expected.extend(2i64.to_le_bytes());
    expected.extend(name_bytes(b"scale"));
    expected.extend(name_bytes(b"float"));
    expected.extend(le64(0));
    expected.extend(1.0f32.to_le_bytes());
    expected.extend(name_bytes(b"dim"));
    expected.extend(name_bytes(b"vec3i"));
    expected.extend(le64(0));
    expected.extend(le32(1i32 as u32));
    expected.extend(le32(-2i32 as u32));
    expected.extend(le32(3i32 as u32));
    // a blob carries its own type name and its raw bytes verbatim
    expected.extend(name_bytes(b"blob"));
    expected.extend(name_bytes(b"mytype"));
    expected.extend(le64(3));
    expected.extend_from_slice(&[9, 8, 7]);

    assert_eq!(sink.into_vec(), expected);
}

#[test]
fn half_float_flag_detected() {
    let m = Metadata(vec![(
        b"is_saved_as_half_float".to_vec(),
        MetadataValue::Bool(true),
    )]);
    assert!(m.is_half_float());
    let n = Metadata(vec![(
        b"is_saved_as_half_float".to_vec(),
        MetadataValue::Bool(false),
    )]);
    assert!(!n.is_half_float());
    let o = Metadata(vec![]);
    assert!(!o.is_half_float());
}
