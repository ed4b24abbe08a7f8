use vdb_writer::metadata::{Metadata, MetadataValue, Vec3I};
use vdb_writer::tree::{
    Compression, Node, Node3, Node4, Node5, NodeHeader, NodeMetaData, Tree, tree_wf_check,
};
use vdb_writer::writer::{Grid, GridDescriptor, VdbWriter, WriteError};

fn le32(v: u32) -> Vec<u8> {
    v.to_le_bytes().to_vec()
}

fn le64(v: u64) -> Vec<u8> {
    v.to_le_bytes().to_vec()
}

fn name_bytes(s: &[u8]) -> Vec<u8> {
    let mut out = le64(s.len() as u64);
    out.extend_from_slice(s);
    out
}

fn header(words: usize, first_word: u64) -> NodeHeader {
    let mut mask = vec![0u64; words];
    mask[0] = first_word;
    NodeHeader { origin: Vec3I { x: 0, y: 0, z: 0 }, mask, compression: Compression::Uncompressed }
}

/// A tree holding one active voxel at mask index 0 with the given value.
fn single_voxel_tree(value: u64) -> Tree {
    let leaf = Node { header: header(8, 1), meta: NodeMetaData { stats: vec![] }, values: vec![value] };
    let n3 = Node3 { header: header(8, 1), meta: NodeMetaData { stats: vec![] }, children: vec![leaf] };
    let n4 = Node4 { header: header(64, 1), meta: NodeMetaData { stats: vec![] }, children: vec![n3] };
    let n5 = Node5 { header: header(512, 1), meta: NodeMetaData { stats: vec![] }, children: vec![n4] };
    Tree { root: n5 }
}

/// The expected bytes of `single_voxel_tree` with one `width`-byte value.
fn single_voxel_tree_bytes(value: u64, width: usize) -> Vec<u8> {
    let mut out = Vec::new();
    for words in [512usize, 64, 8, 8] {
        out.extend(le32(0)); // origin x
        out.extend(le32(0)); // origin y
        out.extend(le32(0)); // origin z
        out.extend(le64(1)); // first mask word: bit 0 set
        for _ in 1..words {
            out.extend(le64(0));
        }
        out.push(0); // compression byte
        out.extend(le64(0)); // empty bookkeeping block
    }
    out.extend_from_slice(&value.to_le_bytes()[..width]);
    out
}

fn grid(name: &[u8], gtype: &[u8], tree_id: usize, meta: Metadata) -> Grid {
    Grid {
        descriptor: GridDescriptor {
            name: name.to_vec(),
            file_version: 224,
            instance_parent: vec![],
            grid_type: gtype.to_vec(),
            grid_pos: 0,
            block_pos: 0,
            end_pos: 0,
            compression: Compression::Uncompressed,
            meta_data: meta,
        },
        tree_id,
    }
}

fn descriptor_bytes(
    name: &[u8],
    parent: &[u8],
    gtype: &[u8],
    gp: u64,
    bp: u64,
    ep: u64,
    bag: &[u8],
) -> Vec<u8> {
    let mut out = name_bytes(name);
    out.extend(le32(224));
    out.extend(name_bytes(parent));
    out.extend(name_bytes(gtype));
    out.extend(le64(gp));
    out.extend(le64(bp));
    out.extend(le64(ep));
    out.push(0);
    out.extend_from_slice(bag);
    out
}

fn check_header(bytes: &[u8], seekable: u8) {
    assert_eq!(&bytes[0..8], &0x2042445600000000u64.to_le_bytes());
    assert_eq!(&bytes[8..12], &224u32.to_le_bytes());
    assert_eq!(&bytes[12..16], &11u32.to_le_bytes());
    assert_eq!(&bytes[16..20], &0u32.to_le_bytes());
    assert_eq!(bytes[20], seekable);
    let uuid = &bytes[21..57];
    for (i, b) in uuid.iter().enumerate() {
        if i == 8 || i == 13 || i == 18 || i == 23 {
            assert_eq!(*b, b'-');
        } else {
            assert!(b.is_ascii_digit() || (b'A'..=b'F').contains(b));
        }
    }
}

#[test]
fn header_is_57_bytes_with_well_formed_uuid() {
    let w = VdbWriter::new(true);
    let uuid = w.uuid.clone();
    let bytes = w.into_bytes();
    assert_eq!(bytes.len(), 57);
    check_header(&bytes, 1);
    assert_eq!(&bytes[21..57], &uuid[..]);
    assert_eq!(uuid.len(), 36);

    let w2 = VdbWriter::new(false);
    let bytes2 = w2.into_bytes();
    check_header(&bytes2, 0);
}

#[test]
fn single_density_grid_archive_exact_bytes() {
    let value = 1.0f32.to_bits() as u64;
    let trees = vec![single_voxel_tree(value)];
    let grids = vec![grid(b"density", b"float", 0, Metadata(vec![]))];
    let metadata = Metadata(vec![]);

    let mut w = VdbWriter::new(true);
    assert_eq!(w.write(&trees, &grids, &metadata), Ok(()));
    let bytes = w.into_bytes();

    check_header(&bytes, 1);

    let mut expected = Vec::new();
    expected.extend(le64(0)); // archive-level metadata: zero entries
    expected.extend(le64(1)); // grid count
    // descriptor: 8+7 name, 4 version, 8 empty parent, 8+5 type,
    // 24 offsets, 1 compression, 8 empty bag = 73 bytes
    let desc_end = 57 + 8 + 8 + 73;
    let tree_bytes = single_voxel_tree_bytes(value, 4);
    let end = desc_end + tree_bytes.len();
    expected.extend(descriptor_bytes(
        b"density",
        b"",
        b"float",
        desc_end as u64,
        desc_end as u64,
        end as u64,
        &le64(0),
    ));
    expected.extend(tree_bytes);
    assert_eq!(&bytes[57..], &expected[..]);
    assert_eq!(bytes.len(), end);
}

#[test]
fn shared_tree_written_once() {
    let value = 1.0f32.to_bits() as u64;
    let trees = vec![single_voxel_tree(value)];
    let grids = vec![
        grid(b"a", b"float", 0, Metadata(vec![])),
        grid(b"b", b"float", 0, Metadata(vec![])),
    ];
    let metadata = Metadata(vec![]);

    let mut w = VdbWriter::new(true);
    assert_eq!(w.write(&trees, &grids, &metadata), Ok(()));
    let bytes = w.into_bytes();

    let mut expected = Vec::new();
    expected.extend(le64(0));
    expected.extend(le64(2));
    // first descriptor: 8+1 name, 4, 8 parent, 8+5 type, 24, 1, 8 = 67
    let desc_end = 57 + 8 + 8 + 67;
    let tree_bytes = single_voxel_tree_bytes(value, 4);
    let end = desc_end + tree_bytes.len();
    expected.extend(descriptor_bytes(
        b"a",
        b"",
        b"float",
        desc_end as u64,
        desc_end as u64,
        end as u64,
        &le64(0),
    ));
    expected.extend(tree_bytes);
    // the second grid shares the tree: only a descriptor goes out, its
    // parent is the first grid's resolved name and its offsets mirror it
    expected.extend(descriptor_bytes(
        b"b",
        b"a",
        b"float",
        desc_end as u64,
        desc_end as u64,
        end as u64,
        &le64(0),
    ));
    assert_eq!(&bytes[57..], &expected[..]);
}

#[test]
fn half_float_grid_synthesizes_bag_entry() {
    let trees = vec![single_voxel_tree(0x3c00)]; // half-precision 1.0
    let meta = Metadata(vec![(
        b"is_saved_as_half_float".to_vec(),
        MetadataValue::Bool(true),
    )]);
    let grids = vec![grid(b"g", b"half", 0, meta)];

    let mut w = VdbWriter::new(false);
    assert_eq!(w.write(&trees, &grids, &Metadata(vec![])), Ok(()));
    let bytes = w.into_bytes();

    let mut bag = le64(1);
    bag.extend(name_bytes(b"is_saved_as_half_float"));
    bag.extend(name_bytes(b"bool"));
    bag.extend(le64(0));
    bag.push(1);

    let mut expected = Vec::new();
    expected.extend(le64(0));
    expected.extend(le64(1));
    // descriptor: 8+1 name, 4, 8 parent, 8+4 type, 24, 1, bag
    let desc_len = 8 + 1 + 4 + 8 + 8 + 4 + 24 + 1 + bag.len();
    let desc_end = 57 + 8 + 8 + desc_len;
    let tree_bytes = single_voxel_tree_bytes(0x3c00, 2);
    let end = desc_end + tree_bytes.len();
    expected.extend(descriptor_bytes(
        b"g",
        b"",
        b"half",
        desc_end as u64,
        desc_end as u64,
        end as u64,
        &bag,
    ));
    expected.extend(tree_bytes);
    assert_eq!(&bytes[57..], &expected[..]);
}

#[test]
fn mismatched_mask_fails_fast() {
    // the leaf mask claims one active voxel but no value is stored
    let mut t = single_voxel_tree(7);
    t.root.children[0].children[0].children[0].values.clear();
    assert!(!tree_wf_check(&t));

    let trees = vec![t];
    let grids = vec![grid(b"g", b"float", 0, Metadata(vec![]))];
    let mut w = VdbWriter::new(true);
    assert_eq!(
        w.write(&trees, &grids, &Metadata(vec![])),
        Err(WriteError::TopologyMismatch)
    );
    // nothing of the body was written
    assert_eq!(w.into_bytes().len(), 57);
}

#[test]
fn wrong_mask_shape_fails_fast() {
    let mut t = single_voxel_tree(7);
    t.root.header.mask.pop();
    assert!(!tree_wf_check(&t));
    let trees = vec![t];
    let grids = vec![grid(b"g", b"float", 0, Metadata(vec![]))];
    let mut w = VdbWriter::new(true);
    assert_eq!(
        w.write(&trees, &grids, &Metadata(vec![])),
        Err(WriteError::TopologyMismatch)
    );
}

#[test]
fn unregistered_value_type_is_refused() {
    let trees = vec![single_voxel_tree(1)];
    let grids = vec![grid(b"g", b"double", 0, Metadata(vec![]))];
    let mut w = VdbWriter::new(true);
    assert_eq!(
        w.write(&trees, &grids, &Metadata(vec![])),
        Err(WriteError::UnsupportedValueType)
    );
    assert_eq!(w.into_bytes().len(), 57);
}

#[test]
fn int_grids_use_registered_widths() {
    let trees = vec![single_voxel_tree(0x1122334455667788)];
    let grids = vec![grid(b"g", b"int64", 0, Metadata(vec![]))];
    let mut w = VdbWriter::new(false);
    assert_eq!(w.write(&trees, &grids, &Metadata(vec![])), Ok(()));
    let bytes = w.into_bytes();
    // the archive ends with the single 8-byte value
    assert_eq!(&bytes[bytes.len() - 8..], &0x1122334455667788u64.to_le_bytes());
}

#[test]
fn distinct_trees_are_both_written() {
    let trees = vec![single_voxel_tree(1), single_voxel_tree(2)];
    let grids = vec![
        grid(b"a", b"float", 0, Metadata(vec![])),
        grid(b"b", b"float", 1, Metadata(vec![])),
    ];
    let mut w = VdbWriter::new(true);
    assert_eq!(w.write(&trees, &grids, &Metadata(vec![])), Ok(()));
    let bytes = w.into_bytes();

    let mut expected = Vec::new();
    expected.extend(le64(0));
    expected.extend(le64(2));
    let tree_a = single_voxel_tree_bytes(1, 4);
    let tree_b = single_voxel_tree_bytes(2, 4);
    let desc_a_end = 57 + 8 + 8 + 67;
    let end_a = desc_a_end + tree_a.len();
    expected.extend(descriptor_bytes(
        b"a", b"", b"float", desc_a_end as u64, desc_a_end as u64, end_a as u64, &le64(0),
    ));
    expected.extend(tree_a);
    let desc_b_end = end_a + 67;
    let end_b = desc_b_end + tree_b.len();
    expected.extend(descriptor_bytes(
        b"b", b"", b"float", desc_b_end as u64, desc_b_end as u64, end_b as u64, &le64(0),
    ));
    expected.extend(tree_b);
    assert_eq!(&bytes[57..], &expected[..]);
}
