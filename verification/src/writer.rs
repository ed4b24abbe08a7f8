//! The archive writer.
//!
//! `VdbWriter::new` emits the fixed header: magic, file-format version,
//! library versions, the seekable flag, and a fresh 36-character UUID.
//! `VdbWriter::write` then emits the archive-level metadata, the grid
//! count, and each grid: a descriptor whose three offset fields are
//! reserved and backpatched once the grid's byte extent is known, then
//! the tree body — unless the grid's tree was already written for an
//! earlier grid, in which case only a descriptor goes out, naming that
//! grid as instance parent and mirroring its offsets. Tree identity is
//! an arena index: grids name their tree by position in the caller's
//! tree table, so sharing is detected by index, never by content.

use vstd::prelude::*;
use crate::sink::{ByteSink, spec_le32, spec_le64};
use crate::metadata::{
    Metadata, MetadataValue, Vec3I, spec_metadata_bytes, spec_entry_bytes, spec_name_bytes,
    spec_half_float_key, spec_is_half_float, spec_tag_float, spec_tag_int32, spec_tag_int64,
    spec_declared_len, half_float_key, type_tag_of,
    write_payload, spec_entries_bytes,
};
use crate::tree::{Tree, spec_tree_wf, spec_tree_bytes, tree_wf_check, encode_tree};
use crate::names::{
    copy_bytes, eq_bytes, views_of, spec_suffix, spec_resolution, resolve_names,
};
use crate::uuid::{format_uuid, spec_uuid_wf, spec_uuid_bytes};

verus! {

/// The 8-byte magic constant that opens every archive.
pub const VDB_MAGIC: u64 = 0x2042445600000000;

/// The file-format version written into headers and descriptors.
pub const OPENVDB_FILE_VERSION: u32 = 224;

/// The library's major version number.
pub const OPENVDB_MAJOR_VERSION: u32 = 11;

/// The library's minor version number.
pub const OPENVDB_MINOR_VERSION: u32 = 0;

/// What can go wrong while writing an archive.
#[derive(Debug, Clone, Copy, PartialEq, Eq, Structural)]
pub enum WriteError {
    /// A grid declares a value type with no registered wire width.
    UnsupportedValueType,
    /// A node's topology mask population does not match the children or
    /// values present: structural corruption, nothing is written for
    /// the archive body.
    TopologyMismatch,
}

/// The archive header: format versions, the seekable flag, and the
/// 36-character UUID text. Written once, never mutated.
pub struct ArchiveHeader {
    pub file_version: u32,
    pub library_major: u32,
    pub library_minor: u32,
    pub seekable: bool,
    pub uuid: Vec<u8>,
}

/// The header on the wire.
pub open spec fn spec_archive_header_bytes(h: ArchiveHeader) -> Seq<u8> {
    spec_le64(VDB_MAGIC) + spec_le32(h.file_version) + spec_le32(h.library_major) + spec_le32(
        h.library_minor,
    ) + seq![if h.seekable { 1u8 } else { 0u8 }] + h.uuid@
}

/// One grid's record in the archive: resolved name, versions, instance
/// parentage, declared value type, the three backpatched offsets, the
/// compression scheme and the synthesized metadata bag.
pub struct GridDescriptor {
    pub name: Vec<u8>,
    pub file_version: u32,
    pub instance_parent: Vec<u8>,
    pub grid_type: Vec<u8>,
    pub grid_pos: u64,
    pub block_pos: u64,
    pub end_pos: u64,
    pub compression: crate::tree::Compression,
    pub meta_data: Metadata,
}

impl GridDescriptor {
    /// The requested name with the numeric suffix `[n]`.
    pub fn add_suffix(name: &Vec<u8>, n: u64) -> (r: Vec<u8>)
        ensures
            r@ == spec_suffix(name@, n as nat),
    {
        crate::names::add_suffix(name, n)
    }
}

/// A grid handed in for archiving: its requested descriptor data and
/// the arena index of its tree in the caller's tree table.
pub struct Grid {
    pub descriptor: GridDescriptor,
    pub tree_id: usize,
}

/// The fixed value-type tag `"half"`.
pub open spec fn spec_tag_half() -> Seq<u8> {
    seq![104u8, 97u8, 108u8, 102u8]
}

/// The registry of value types this writer can put on the wire: the
/// declared type tag decides the fixed byte width of one leaf value.
pub open spec fn spec_value_width(tag: Seq<u8>) -> Option<usize> {
    if tag == spec_tag_float() {
        Some(4usize)
    } else if tag == spec_tag_half() {
        Some(2usize)
    } else if tag == spec_tag_int32() {
        Some(4usize)
    } else if tag == spec_tag_int64() {
        Some(8usize)
    } else {
        None
    }
}

/// The width used in byte computations; zero stands for "unregistered"
/// and is never reached on a validated archive.
pub open spec fn spec_width_of(tag: Seq<u8>) -> nat {
    match spec_value_width(tag) {
        Some(w) => w as nat,
        None => 0,
    }
}

/// Looks a declared value type up in the registry.
pub fn value_width(tag: &Vec<u8>) -> (r: Option<usize>)
    ensures
        r == spec_value_width(tag@),
        r matches Some(w) ==> w <= 8,
{
    let mut t: Vec<u8> = Vec::new();
    t.push(102);
    t.push(108);
    t.push(111);
    t.push(97);
    t.push(116);
    proof {
        assert(t@ =~= spec_tag_float());
    }
    if eq_bytes(tag, &t) {
        return Some(4);
    }
    let mut h: Vec<u8> = Vec::new();
    h.push(104);
    h.push(97);
    h.push(108);
    h.push(102);
    proof {
        assert(h@ =~= spec_tag_half());
    }
    if eq_bytes(tag, &h) {
        return Some(2);
    }
    let mut t32: Vec<u8> = Vec::new();
    t32.push(105);
    t32.push(110);
    t32.push(116);
    t32.push(51);
    t32.push(50);
    proof {
        assert(t32@ =~= spec_tag_int32());
    }
    if eq_bytes(tag, &t32) {
        return Some(4);
    }
    let mut t64: Vec<u8> = Vec::new();
    t64.push(105);
    t64.push(110);
    t64.push(116);
    t64.push(54);
    t64.push(52);
    proof {
        assert(t64@ =~= spec_tag_int64());
    }
    if eq_bytes(tag, &t64) {
        return Some(8);
    }
    None
}

/// The synthesized per-descriptor metadata bag on the wire: empty, or
/// the single boolean entry marking half-precision values.
pub open spec fn spec_bag_bytes(half: bool) -> Seq<u8> {
    if half {
        spec_le64(1) + spec_entry_bytes(spec_half_float_key(), MetadataValue::Bool(true))
    } else {
        spec_le64(0)
    }
}

/// The part of a descriptor before the three offset fields.
pub open spec fn spec_desc_prefix(name: Seq<u8>, parent: Seq<u8>, gtype: Seq<u8>) -> Seq<u8> {
    spec_name_bytes(name) + spec_le32(OPENVDB_FILE_VERSION) + spec_name_bytes(parent)
        + spec_name_bytes(gtype)
}

/// A whole descriptor on the wire. The compression byte is the default
/// scheme; the offsets are the backpatched values.
pub open spec fn spec_desc_bytes(
    name: Seq<u8>,
    parent: Seq<u8>,
    gtype: Seq<u8>,
    gp: u64,
    bp: u64,
    ep: u64,
    half: bool,
) -> Seq<u8> {
    spec_desc_prefix(name, parent, gtype) + spec_le64(gp) + spec_le64(bp) + spec_le64(ep)
        + seq![0u8] + spec_bag_bytes(half)
}

/// The byte length of a descriptor that owns its tree; the offset
/// fields are fixed-width, so any offsets give this length.
pub open spec fn spec_desc_len(name: Seq<u8>, gtype: Seq<u8>, half: bool) -> int {
    spec_desc_bytes(name, Seq::<u8>::empty(), gtype, 0, 0, 0, half).len() as int
}

/// The requested names of a grid sequence.
pub open spec fn spec_grid_names(grids: Seq<Grid>) -> Seq<Seq<u8>> {
    grids.map_values(|g: Grid| g.descriptor.name@)
}

/// The grid section of the archive, folded grid by grid from the start
/// position `pos0`: the bytes written for the first `n` grids, and the
/// registry mapping each written tree's arena index to its offsets and
/// its owning grid's resolved name.
pub open spec fn spec_grids_fold(
    trees: Seq<Tree>,
    grids: Seq<Grid>,
    resolved: Seq<Seq<u8>>,
    n: int,
    pos0: int,
) -> (Seq<u8>, Map<int, (u64, u64, u64, Seq<u8>)>)
    decreases n,
{
    if n <= 0 {
        (Seq::<u8>::empty(), Map::<int, (u64, u64, u64, Seq<u8>)>::empty())
    } else {
        let prev = spec_grids_fold(trees, grids, resolved, n - 1, pos0);
        let b = prev.0;
        let reg = prev.1;
        let g = grids[n - 1];
        let tid = g.tree_id as int;
        let half = spec_is_half_float(g.descriptor.meta_data);
        let gtype = g.descriptor.grid_type@;
        if reg.contains_key(tid) {
            let e = reg[tid];
            (b + spec_desc_bytes(resolved[n - 1], e.3, gtype, e.0, e.1, e.2, half), reg)
        } else {
            let tb = spec_tree_bytes(trees[tid], spec_width_of(gtype));
            let dlen = spec_desc_len(resolved[n - 1], gtype, half);
            let gp = pos0 + b.len() + dlen;
            let ep = gp + tb.len();
            (
                b + spec_desc_bytes(
                    resolved[n - 1],
                    Seq::<u8>::empty(),
                    gtype,
                    gp as u64,
                    gp as u64,
                    ep as u64,
                    half,
                ) + tb,
                reg.insert(tid, (gp as u64, gp as u64, ep as u64, resolved[n - 1])),
            )
        }
    }
}

/// What is wrong with one grid, if anything: an unregistered value
/// type first, then a malformed tree.
pub open spec fn spec_problem_at(trees: Seq<Tree>, grids: Seq<Grid>, i: int) -> Option<
    WriteError,
> {
    if spec_value_width(grids[i].descriptor.grid_type@) is None {
        Some(WriteError::UnsupportedValueType)
    } else if !spec_tree_wf(trees[grids[i].tree_id as int]) {
        Some(WriteError::TopologyMismatch)
    } else {
        None
    }
}

/// The first problem at or after position `i`, scanning in grid order.
pub open spec fn spec_validate_from(trees: Seq<Tree>, grids: Seq<Grid>, i: int) -> Option<
    WriteError,
>
    decreases grids.len() - i,
{
    if i < 0 || i >= grids.len() {
        None
    } else if spec_problem_at(trees, grids, i) is Some {
        spec_problem_at(trees, grids, i)
    } else {
        spec_validate_from(trees, grids, i + 1)
    }
}

/// The first problem of the whole batch, or nothing.
pub open spec fn spec_validate(trees: Seq<Tree>, grids: Seq<Grid>) -> Option<WriteError> {
    spec_validate_from(trees, grids, 0)
}

proof fn lemma_validate_none(trees: Seq<Tree>, grids: Seq<Grid>, i: int)
    requires
        0 <= i <= grids.len(),
        spec_validate_from(trees, grids, i) is None,
    ensures
        forall|t: int| i <= t < grids.len() ==> spec_problem_at(trees, grids, t) is None,
    decreases grids.len() - i,
{
    if i < grids.len() {
        lemma_validate_none(trees, grids, i + 1);
    }
}

/// An entry of the tree registry: the arena index of a tree already
/// written, the offsets its owning grid was patched with, and that
/// grid's resolved name.
struct RegEntry {
    tree_id: usize,
    grid_pos: u64,
    block_pos: u64,
    end_pos: u64,
    name: Vec<u8>,
}

/// The exec registry carries exactly the spec registry's content.
spec fn reg_matches(reg: Seq<RegEntry>, m: Map<int, (u64, u64, u64, Seq<u8>)>) -> bool {
    &&& forall|k: int|
        0 <= k < reg.len() ==> m.contains_key((#[trigger] reg[k]).tree_id as int) && m[
            reg[k].tree_id as int
        ] == (reg[k].grid_pos, reg[k].block_pos, reg[k].end_pos, reg[k].name@)
    &&& forall|t: int|
        m.contains_key(t) ==> exists|k: int| 0 <= k < reg.len() && (#[trigger] reg[k]).tree_id
            as int == t
}

/// Finds the registry entry of a tree, if that tree was written before.
fn find_reg(reg: &Vec<RegEntry>, tid: usize) -> (r: Option<usize>)
    ensures
        r matches Some(k) ==> 0 <= k < reg@.len() && reg@[k as int].tree_id == tid,
        r is None ==> forall|k: int| 0 <= k < reg@.len() ==> (#[trigger] reg@[k]).tree_id != tid,
{
    let mut j: usize = 0;
    while j < reg.len()
        invariant
            j <= reg@.len(),
            forall|k: int| 0 <= k < j ==> (#[trigger] reg@[k]).tree_id != tid,
        decreases reg@.len() - j,
    {
        if reg[j].tree_id == tid {
            return Some(j);
        }
        j = j + 1;
    }
    None
}

/// The synthesized descriptor bag: empty, or the half-float marker.
fn make_bag(half: bool) -> (m: Metadata)
    ensures
        spec_metadata_bytes(m) == spec_bag_bytes(half),
{
    let mut entries: Vec<(Vec<u8>, MetadataValue)> = Vec::new();
    if half {
        let key = half_float_key();
        entries.push((key, MetadataValue::Bool(true)));
        let m = Metadata(entries);
        proof {
            assert(m.0@.len() == 1);
            assert(m.0@.last().0@ == spec_half_float_key());
            assert(m.0@.last().1 == MetadataValue::Bool(true));
            assert(m.0@.drop_last() =~= Seq::<(Vec<u8>, MetadataValue)>::empty());
            assert(spec_entries_bytes(m.0@.drop_last()) == Seq::<u8>::empty());
            assert(spec_entries_bytes(m.0@) =~= spec_entry_bytes(
                spec_half_float_key(),
                MetadataValue::Bool(true),
            ));
            assert(spec_metadata_bytes(m) =~= spec_bag_bytes(true));
        }
        m
    } else {
        let m = Metadata(entries);
        proof {
            assert(spec_metadata_bytes(m) =~= spec_bag_bytes(false));
        }
        m
    }
}

/// Relies on rand 0.10's `rand::random`: draws one value from the
/// thread-local generator; nothing is promised of the result.
pub assume_specification<T>[ rand::random::<T> ]() -> (r: T)
    where
        rand::distr::StandardUniform: rand::distr::Distribution<T>,
;

/// Writes archives to an in-memory byte buffer that the caller then
/// hands to whatever stream it likes.
pub struct VdbWriter {
    pub writer: ByteSink,
    pub uuid: Vec<u8>,
}

impl VdbWriter {
    /// Opens an archive: writes the header and a freshly drawn UUID.
    /// Whatever the four random draws were, the UUID field is exactly
    /// 36 characters: 32 hex digits and hyphens at 8, 13, 18 and 23.
    pub fn new(is_seekable: bool) -> (w: VdbWriter)
        ensures
            spec_uuid_wf(w.uuid@),
            w.writer@ == spec_archive_header_bytes(
                ArchiveHeader {
                    file_version: OPENVDB_FILE_VERSION,
                    library_major: OPENVDB_MAJOR_VERSION,
                    library_minor: OPENVDB_MINOR_VERSION,
                    seekable: is_seekable,
                    uuid: w.uuid,
                },
            ),
            w.writer@.len() == 57,
    {
        let r0: u32 = rand::random();
        let r1: u32 = rand::random();
        let r2: u32 = rand::random();
        let r3: u32 = rand::random();
        let uuid = format_uuid(r0, r1, r2, r3);
        let header = ArchiveHeader {
            file_version: OPENVDB_FILE_VERSION,
            library_major: OPENVDB_MAJOR_VERSION,
            library_minor: OPENVDB_MINOR_VERSION,
            seekable: is_seekable,
            uuid,
        };
        let mut sink = ByteSink::new();
        sink.write_u64(VDB_MAGIC);
        sink.write_u32(header.file_version);
        sink.write_u32(header.library_major);
        sink.write_u32(header.library_minor);
        sink.write_u8(if header.seekable {
            1
        } else {
            0
        });
        sink.write_bytes(&header.uuid);
        proof {
            assert(sink@ =~= spec_archive_header_bytes(header));
            assert(spec_uuid_bytes(r0, r1, r2, r3).len() == 36);
        }
        let ArchiveHeader { uuid, .. } = header;
        VdbWriter { writer: sink, uuid }
    }

    /// Hands the finished archive bytes out.
    pub fn into_bytes(self) -> (r: Vec<u8>)
        ensures
            r@ == self.writer@,
    {
        self.writer.into_vec()
    }

    /// Checks every grid before any byte goes out: each declared value
    /// type must be registered and each referenced tree well formed.
    fn validate(trees: &Vec<Tree>, grids: &Vec<Grid>) -> (r: Option<WriteError>)
        requires
            forall|i: int|
                0 <= i < grids@.len() ==> (#[trigger] grids@[i]).tree_id < trees@.len(),
        ensures
            r == spec_validate(trees@, grids@),
    {
        let mut i: usize = 0;
        while i < grids.len()
            invariant
                i <= grids@.len(),
                forall|t: int|
                    0 <= t < grids@.len() ==> (#[trigger] grids@[t]).tree_id < trees@.len(),
                spec_validate_from(trees@, grids@, 0) == spec_validate_from(
                    trees@,
                    grids@,
                    i as int,
                ),
            decreases grids@.len() - i,
        {
            if value_width(&grids[i].descriptor.grid_type).is_none() {
                return Some(WriteError::UnsupportedValueType);
            }
            if !tree_wf_check(&trees[grids[i].tree_id]) {
                return Some(WriteError::TopologyMismatch);
            }
            i = i + 1;
        }
        None
    }

    /// Writes the archive body: metadata, grid count, then every grid,
    /// resolving names, sharing trees by arena index and backpatching
    /// offsets. On success the buffer grows by exactly the bytes the
    /// fold specification gives for the resolved names; on failure
    /// nothing at all is written.
    #[verifier::rlimit(100)]
    pub fn write(&mut self, trees: &Vec<Tree>, grids: &Vec<Grid>, metadata: &Metadata) -> (r:
        Result<(), WriteError>)
        requires
            forall|i: int|
                0 <= i < grids@.len() ==> (#[trigger] grids@[i]).tree_id < trees@.len(),
        ensures
            r is Ok <==> spec_validate(trees@, grids@) is None,
            r matches Err(e) ==> spec_validate(trees@, grids@) == Some(e) && *final(self) == *old(
                self,
            ),
            final(self).uuid == old(self).uuid,
            r is Ok ==> exists|resolved: Seq<Seq<u8>>|
                {
                    &&& #[trigger] spec_resolution(spec_grid_names(grids@), resolved)
                    &&& final(self).writer@ == old(self).writer@ + spec_metadata_bytes(*metadata)
                        + spec_le64(grids@.len() as u64) + spec_grids_fold(
                        trees@,
                        grids@,
                        resolved,
                        grids@.len() as int,
                        old(self).writer@.len() as int + spec_metadata_bytes(*metadata).len() as int + 8,
                    ).0
                },
    {
        match Self::validate(trees, grids) {
            Some(e) => {
                return Err(e);
            },
            None => {},
        }
        proof {
            lemma_validate_none(trees@, grids@, 0);
        }
        let ghost gnames = spec_grid_names(grids@);
        let mut req: Vec<Vec<u8>> = Vec::new();
        let mut i: usize = 0;
        while i < grids.len()
            invariant
                i <= grids@.len(),
                req@.len() == i,
                forall|t: int| 0 <= t < i ==> views_of(req@)[t] == spec_grid_names(grids@)[t],
            decreases grids@.len() - i,
        {
            let name = copy_bytes(&grids[i].descriptor.name);
            req.push(name);
            i = i + 1;
        }
        proof {
            assert(views_of(req@) =~= gnames);
        }
        let resolved = resolve_names(&req);
        let ghost rviews = views_of(resolved@);

        Self::write_metadata(&mut self.writer, metadata);
        self.writer.write_u64(grids.len() as u64);
        let ghost pre = self.writer@;
        let ghost pos0 = pre.len() as int;

        let mut reg: Vec<RegEntry> = Vec::new();
        let mut i: usize = 0;
        while i < grids.len()
            invariant
                i <= grids@.len(),
                resolved@.len() == grids@.len(),
                rviews == views_of(resolved@),
                forall|t: int|
                    0 <= t < grids@.len() ==> (#[trigger] grids@[t]).tree_id < trees@.len(),
                forall|t: int|
                    0 <= t < grids@.len() ==> spec_problem_at(trees@, grids@, t) is None,
                pos0 == pre.len(),
                self.writer@ == pre + spec_grids_fold(trees@, grids@, rviews, i as int, pos0).0,
                reg_matches(reg@, spec_grids_fold(trees@, grids@, rviews, i as int, pos0).1),
                self.uuid == old(self).uuid,
            decreases grids@.len() - i,
        {
            let g = &grids[i];
            let half = g.descriptor.meta_data.is_half_float();
            let ghost foldi = spec_grids_fold(trees@, grids@, rviews, i as int, pos0);
            let ghost foldn = spec_grids_fold(trees@, grids@, rviews, i + 1, pos0);
            let ghost sink0 = self.writer@;
            proof {
                assert(rviews[i as int] == resolved@[i as int]@);
            }
            match find_reg(&reg, g.tree_id) {
                Some(k) => {
                    Self::write_name(&mut self.writer, &resolved[i]);
                    self.writer.write_u32(OPENVDB_FILE_VERSION);
                    Self::write_name(&mut self.writer, &reg[k].name);
                    Self::write_name(&mut self.writer, &g.descriptor.grid_type);
                    self.writer.write_u64(reg[k].grid_pos);
                    self.writer.write_u64(reg[k].block_pos);
                    self.writer.write_u64(reg[k].end_pos);
                    self.writer.write_u8(0);
                    let bag = make_bag(half);
                    Self::write_metadata(&mut self.writer, &bag);
                    proof {
                        let tid = g.tree_id as int;
                        let e = foldi.1[tid];
                        assert(foldi.1.contains_key(tid));
                        assert(e == (
                            reg@[k as int].grid_pos,
                            reg@[k as int].block_pos,
                            reg@[k as int].end_pos,
                            reg@[k as int].name@,
                        ));
                        assert(self.writer@ =~= sink0 + spec_desc_bytes(
                            rviews[i as int],
                            e.3,
                            g.descriptor.grid_type@,
                            e.0,
                            e.1,
                            e.2,
                            half,
                        ));
                        assert(foldn.0 =~= foldi.0 + spec_desc_bytes(
                            rviews[i as int],
                            e.3,
                            g.descriptor.grid_type@,
                            e.0,
                            e.1,
                            e.2,
                            half,
                        ));
                        assert(self.writer@ =~= pre + foldn.0);
                        assert(foldn.1 == foldi.1);
                    }
                },
                None => {
                    Self::write_name(&mut self.writer, &resolved[i]);
                    self.writer.write_u32(OPENVDB_FILE_VERSION);
                    let empty_name: Vec<u8> = Vec::new();
                    Self::write_name(&mut self.writer, &empty_name);
                    Self::write_name(&mut self.writer, &g.descriptor.grid_type);
                    let patch_base = self.writer.len();
                    self.writer.write_u64(0);
                    self.writer.write_u64(0);
                    self.writer.write_u64(0);
                    self.writer.write_u8(0);
                    let bag = make_bag(half);
                    Self::write_metadata(&mut self.writer, &bag);
                    let desc_end = self.writer.len();
                    let w: usize = match value_width(&g.descriptor.grid_type) {
                        Some(w) => w,
                        None => {
                            proof {
                                assert(spec_problem_at(trees@, grids@, i as int) is None);
                                assert(false);
                            }
                            0
                        },
                    };
                    encode_tree(&mut self.writer, &trees[g.tree_id], w);
                    let end = self.writer.len();
                    self.writer.patch3_u64(
                        patch_base,
                        desc_end as u64,
                        desc_end as u64,
                        end as u64,
                    );
                    let name_copy = copy_bytes(&resolved[i]);
                    let ghost old_reg = reg@;
                    reg.push(
                        RegEntry {
                            tree_id: g.tree_id,
                            grid_pos: desc_end as u64,
                            block_pos: desc_end as u64,
                            end_pos: end as u64,
                            name: name_copy,
                        },
                    );
                    proof {
                        let tid = g.tree_id as int;
                        let gtype = g.descriptor.grid_type@;
                        let nm = rviews[i as int];
                        let prefix = spec_desc_prefix(nm, Seq::<u8>::empty(), gtype);
                        let tb = spec_tree_bytes(trees@[tid], spec_width_of(gtype));
                        let dlen = spec_desc_len(nm, gtype, half);
                        // the spec registry holds nothing for this tree yet
                        assert(!foldi.1.contains_key(tid)) by {
                            if foldi.1.contains_key(tid) {
                                let kk = choose|kk: int|
                                    0 <= kk < old_reg.len() && (#[trigger] old_reg[kk]).tree_id
                                        as int == tid;
                                assert(old_reg[kk].tree_id != g.tree_id);
                            }
                        }
                        // bytes before the patch
                        assert(self.writer@.len() == end);
                        // the unpatched descriptor bytes
                        let zeros = spec_le64(0) + spec_le64(0) + spec_le64(0);
                        let tail = seq![0u8] + spec_bag_bytes(half);
                        assert(desc_end as int == sink0.len() + prefix.len() + 24 + tail.len());
                        assert(dlen == prefix.len() + 24 + tail.len());
                        assert(patch_base as int == sink0.len() + prefix.len());
                        assert(spec_width_of(gtype) == w as nat);
                        // final bytes equal the descriptor with real offsets plus the tree
                        assert(self.writer@ =~= sink0 + prefix + spec_le64(desc_end as u64)
                            + spec_le64(desc_end as u64) + spec_le64(end as u64) + tail + tb);
                        assert(self.writer@ =~= sink0 + spec_desc_bytes(
                            nm,
                            Seq::<u8>::empty(),
                            gtype,
                            desc_end as u64,
                            desc_end as u64,
                            end as u64,
                            half,
                        ) + tb);
                        // the fold computes the same offsets
                        assert(sink0.len() == pos0 + foldi.0.len());
                        assert(pos0 + foldi.0.len() + dlen == desc_end as int);
                        assert(desc_end + tb.len() == end as int);
                        assert(foldn.0 =~= foldi.0 + spec_desc_bytes(
                            nm,
                            Seq::<u8>::empty(),
                            gtype,
                            desc_end as u64,
                            desc_end as u64,
                            end as u64,
                            half,
                        ) + tb);
                        assert(self.writer@ =~= pre + foldn.0);
                        assert(foldn.1 == foldi.1.insert(
                            tid,
                            (desc_end as u64, desc_end as u64, end as u64, nm),
                        ));
                        // registry correspondence after the push
                        assert(reg@ == old_reg.push(
                            RegEntry {
                                tree_id: g.tree_id,
                                grid_pos: desc_end as u64,
                                block_pos: desc_end as u64,
                                end_pos: end as u64,
                                name: name_copy,
                            },
                        ));
                        assert forall|t: int| foldn.1.contains_key(t) implies exists|kk: int|
                            0 <= kk < reg@.len() && (#[trigger] reg@[kk]).tree_id as int == t by {
                            if t == tid {
                                assert(reg@[reg@.len() - 1].tree_id as int == t);
                            } else {
                                assert(foldi.1.contains_key(t));
                                let kk = choose|kk: int|
                                    0 <= kk < old_reg.len() && (#[trigger] old_reg[kk]).tree_id
                                        as int == t;
                                assert(reg@[kk].tree_id as int == t);
                            }
                        }
                        assert forall|k: int| 0 <= k < reg@.len() implies foldn.1.contains_key(
                            (#[trigger] reg@[k]).tree_id as int,
                        ) && foldn.1[reg@[k].tree_id as int] == (
                            reg@[k].grid_pos,
                            reg@[k].block_pos,
                            reg@[k].end_pos,
                            reg@[k].name@,
                        ) by {
                            if k < reg@.len() - 1 {
                                assert(reg@[k] == old_reg[k]);
                                assert(old_reg[k].tree_id != g.tree_id);
                                assert(foldi.1.contains_key(old_reg[k].tree_id as int));
                            } else {
                                assert(reg@[k].tree_id == g.tree_id);
                                assert(reg@[k].name@ == nm);
                            }
                        }
                    }
                },
            }
            i = i + 1;
        }
        proof {
            assert(self.writer@ == pre + spec_grids_fold(
                trees@,
                grids@,
                rviews,
                grids@.len() as int,
                pos0,
            ).0);
            assert(spec_resolution(gnames, rviews));
        }
        Ok(())
    }

    /// Writes a whole metadata block: entry count, then each entry's
    /// name, type tag, declared length and payload, in mapping order.
    pub fn write_metadata(writer: &mut ByteSink, metadata: &Metadata)
        ensures
            final(writer)@ == old(writer)@ + spec_metadata_bytes(*metadata),
    {
        writer.write_u64(metadata.0.len() as u64);
        let ghost mid = writer@;
        let mut i: usize = 0;
        while i < metadata.0.len()
            invariant
                i <= metadata.0@.len(),
                writer@ == mid + spec_entries_bytes(metadata.0@.take(i as int)),
            decreases metadata.0@.len() - i,
        {
            Self::write_name(writer, &metadata.0[i].0);
            let tag = type_tag_of(&metadata.0[i].1);
            Self::write_name(writer, &tag);
            let dl = declared_len_of(&metadata.0[i].1);
            writer.write_u64(dl);
            write_payload(writer, &metadata.0[i].1);
            proof {
                assert(metadata.0@.take(i + 1).drop_last() =~= metadata.0@.take(i as int));
                assert(metadata.0@.take(i + 1).last() == metadata.0@[i as int]);
                assert(writer@ =~= mid + spec_entries_bytes(metadata.0@.take(i + 1)));
            }
            i = i + 1;
        }
        proof {
            assert(metadata.0@.take(metadata.0@.len() as int) =~= metadata.0@);
            assert(writer@ =~= old(writer)@ + spec_metadata_bytes(*metadata));
        }
    }

    /// Writes a length-prefixed text: 8-byte length, then the bytes.
    pub fn write_name(writer: &mut ByteSink, string: &Vec<u8>)
        ensures
            final(writer)@ == old(writer)@ + spec_name_bytes(string@),
    {
        writer.write_u64(string.len() as u64);
        Self::write_string(writer, string);
        proof {
            assert(writer@ =~= old(writer)@ + spec_name_bytes(string@));
        }
    }

    /// Writes a text's bytes with no prefix.
    pub fn write_string(writer: &mut ByteSink, string: &Vec<u8>)
        ensures
            final(writer)@ == old(writer)@ + string@,
    {
        writer.write_bytes(string);
    }

    /// Writes a three-component integer vector, x then y then z.
    pub fn write_i_vec3(writer: &mut ByteSink, iv: &Vec3I)
        ensures
            final(writer)@ == old(writer)@ + spec_le32(iv.x as u32) + spec_le32(iv.y as u32)
                + spec_le32(iv.z as u32),
    {
        writer.write_i32(iv.x);
        writer.write_i32(iv.y);
        writer.write_i32(iv.z);
    }
}

/// The declared payload length of a value.
fn declared_len_of(v: &MetadataValue) -> (l: u64)
    ensures
        l == spec_declared_len(*v),
{
    match v {
        MetadataValue::Str(s) => s.len() as u64,
        MetadataValue::Unknown { name: _, data } => data.len() as u64,
        _ => 0,
    }
}

/// When two grids name the same tree in the arena, the fold writes the
/// tree body once: the later grid contributes a descriptor and nothing
/// else, its instance parent is the earlier grid's resolved name, and
/// its offset fields equal the earlier grid's exactly.
pub proof fn lemma_shared_tree_written_once(
    trees: Seq<Tree>,
    grids: Seq<Grid>,
    resolved: Seq<Seq<u8>>,
    pos0: int,
)
    requires
        grids.len() == 2,
        resolved.len() == 2,
        grids[0].tree_id == grids[1].tree_id,
    ensures
        ({
            let one = spec_grids_fold(trees, grids, resolved, 1, pos0);
            let two = spec_grids_fold(trees, grids, resolved, 2, pos0);
            let e = one.1[grids[1].tree_id as int];
            &&& one.1.contains_key(grids[1].tree_id as int)
            &&& e.3 == resolved[0]
            &&& two.0 == one.0 + spec_desc_bytes(
                resolved[1],
                resolved[0],
                grids[1].descriptor.grid_type@,
                e.0,
                e.1,
                e.2,
                spec_is_half_float(grids[1].descriptor.meta_data),
            )
        }),
{
    let zero = spec_grids_fold(trees, grids, resolved, 0, pos0);
    let one = spec_grids_fold(trees, grids, resolved, 1, pos0);
    let two = spec_grids_fold(trees, grids, resolved, 2, pos0);
    assert(!zero.1.contains_key(grids[0].tree_id as int));
    assert(one.1.contains_key(grids[1].tree_id as int));
    assert(one.1[grids[1].tree_id as int].3 == resolved[0]);
}

} // verus!
