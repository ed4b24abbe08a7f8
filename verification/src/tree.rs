//! The fixed-depth sparse tree and its serializer.
//!
//! A tree is a root internal node of the coarsest shape, whose children
//! are internal nodes of the middle shape, then of the finest internal
//! shape, ending in leaf nodes that hold voxel values directly. Each node
//! carries a topology bitmask; the number of set bits must equal the
//! number of children or values stored, and the children stand in
//! bitmask-index order, so the encoding is a pure pre-order walk. Values
//! are fixed-width words; the node's compression choice is recorded as a
//! byte, the byte transform itself being an outside collaborator (with
//! none attached, the value run goes out raw).

use vstd::prelude::*;
use crate::sink::{ByteSink, spec_le32, spec_le64, spec_le_n};
use crate::metadata::Vec3I;

verus! {

/// Mask words of the coarsest internal node shape (32768 child slots).
pub const NODE5_MASK_WORDS: usize = 512;

/// Mask words of the middle internal node shape (4096 child slots).
pub const NODE4_MASK_WORDS: usize = 64;

/// Mask words of the finest internal node shape (512 child slots).
pub const NODE3_MASK_WORDS: usize = 8;

/// Mask words of a leaf node (512 voxel slots).
pub const LEAF_MASK_WORDS: usize = 8;

/// The byte-transform scheme attached to a grid or node.
pub enum Compression {
    Uncompressed,
    Simple,
    Adaptive,
}

impl Compression {
    /// A fresh copy of this scheme.
    pub fn dup(&self) -> (c: Compression)
        ensures
            c == *self,
    {
        match self {
            Compression::Uncompressed => Compression::Uncompressed,
            Compression::Simple => Compression::Simple,
            Compression::Adaptive => Compression::Adaptive,
        }
    }
}

impl Default for Compression {
    /// The default scheme: no transform at all.
    fn default() -> (c: Compression)
        ensures
            c == Compression::Uncompressed,
    {
        Compression::Uncompressed
    }
}

/// The byte that records a compression scheme on the wire.
pub open spec fn spec_compression_byte(c: Compression) -> u8 {
    match c {
        Compression::Uncompressed => 0u8,
        Compression::Simple => 1u8,
        Compression::Adaptive => 2u8,
    }
}

/// Writes the byte of a compression scheme.
pub fn compression_byte(c: &Compression) -> (b: u8)
    ensures
        b == spec_compression_byte(*c),
{
    match c {
        Compression::Uncompressed => 0,
        Compression::Simple => 1,
        Compression::Adaptive => 2,
    }
}

/// What every node carries: its origin coordinate, its topology bitmask
/// (little-endian 64-bit words), and its compression choice.
pub struct NodeHeader {
    pub origin: Vec3I,
    pub mask: Vec<u64>,
    pub compression: Compression,
}

/// Auxiliary per-node bookkeeping written right after the header,
/// carried as raw bytes with a length prefix.
pub struct NodeMetaData {
    pub stats: Vec<u8>,
}

/// A leaf node: per-voxel values, one per set mask bit, in mask order.
/// A value occupies the low `width` bytes of its word when written.
pub struct Node {
    pub header: NodeHeader,
    pub meta: NodeMetaData,
    pub values: Vec<u64>,
}

/// The finest internal node shape: its children are leaves.
pub struct Node3 {
    pub header: NodeHeader,
    pub meta: NodeMetaData,
    pub children: Vec<Node>,
}

/// The middle internal node shape.
pub struct Node4 {
    pub header: NodeHeader,
    pub meta: NodeMetaData,
    pub children: Vec<Node3>,
}

/// The coarsest internal node shape: the root of a tree.
pub struct Node5 {
    pub header: NodeHeader,
    pub meta: NodeMetaData,
    pub children: Vec<Node4>,
}

/// One complete sparse field.
pub struct Tree {
    pub root: Node5,
}

/// Set bits of `w` among the lowest `n` bit positions.
pub open spec fn spec_pc64(w: u64, n: nat) -> nat
    decreases n,
{
    if n == 0 {
        0
    } else {
        spec_pc64(w, (n - 1) as nat) + (if (w >> (((n - 1)) as u64)) & 1 == 1 {
            1nat
        } else {
            0nat
        })
    }
}

/// Set bits of one 64-bit mask word.
pub open spec fn spec_popcount64(w: u64) -> nat {
    spec_pc64(w, 64)
}

/// Set bits of a whole mask.
pub open spec fn spec_mask_popcount(ws: Seq<u64>) -> nat
    decreases ws.len(),
{
    if ws.len() == 0 {
        0
    } else {
        spec_mask_popcount(ws.drop_last()) + spec_popcount64(ws.last())
    }
}

/// Counts the set bits of one word.
pub fn popcount64(w: u64) -> (c: u32)
    ensures
        c == spec_popcount64(w),
{
    let mut c: u32 = 0;
    let mut j: usize = 0;
    while j < 64
        invariant
            j <= 64,
            c <= j,
            c == spec_pc64(w, j as nat),
        decreases 64 - j,
    {
        if (w >> (j as u64)) & 1 == 1 {
            c = c + 1;
        }
        j = j + 1;
    }
    c
}

/// Counts the set bits of a whole mask.
pub fn mask_popcount(ws: &Vec<u64>) -> (c: usize)
    requires
        64 * ws@.len() <= usize::MAX,
    ensures
        c == spec_mask_popcount(ws@),
{
    let mut c: usize = 0;
    let mut i: usize = 0;
    while i < ws.len()
        invariant
            i <= ws@.len(),
            64 * ws@.len() <= usize::MAX,
            c <= 64 * i,
            c == spec_mask_popcount(ws@.take(i as int)),
        decreases ws@.len() - i,
    {
        let pc = popcount64(ws[i]);
        proof {
            assert(spec_pc64(ws@[i as int], 64) <= 64) by {
                lemma_pc64_bound(ws@[i as int], 64);
            }
            assert(ws@.take(i + 1).drop_last() =~= ws@.take(i as int));
            assert(ws@.take(i + 1).last() == ws@[i as int]);
        }
        c = c + (pc as usize);
        i = i + 1;
    }
    proof {
        assert(ws@.take(ws@.len() as int) =~= ws@);
    }
    c
}

proof fn lemma_pc64_bound(w: u64, n: nat)
    ensures
        spec_pc64(w, n) <= n,
    decreases n,
{
    if n > 0 {
        lemma_pc64_bound(w, (n - 1) as nat);
    }
}

/// A leaf is well formed when its mask has the leaf shape and the mask
/// population equals the number of stored values.
pub open spec fn spec_leaf_wf(n: Node) -> bool {
    &&& n.header.mask@.len() == LEAF_MASK_WORDS
    &&& spec_mask_popcount(n.header.mask@) == n.values@.len()
}

/// An internal node of the finest shape is well formed when its mask has
/// that shape, the mask population equals the number of children, and
/// every child is a well-formed leaf.
pub open spec fn spec_node3_wf(n: Node3) -> bool {
    &&& n.header.mask@.len() == NODE3_MASK_WORDS
    &&& spec_mask_popcount(n.header.mask@) == n.children@.len()
    &&& forall|i: int| 0 <= i < n.children@.len() ==> spec_leaf_wf(#[trigger] n.children@[i])
}

/// Well-formedness of the middle internal shape.
pub open spec fn spec_node4_wf(n: Node4) -> bool {
    &&& n.header.mask@.len() == NODE4_MASK_WORDS
    &&& spec_mask_popcount(n.header.mask@) == n.children@.len()
    &&& forall|i: int| 0 <= i < n.children@.len() ==> spec_node3_wf(#[trigger] n.children@[i])
}

/// Well-formedness of the coarsest internal shape.
pub open spec fn spec_node5_wf(n: Node5) -> bool {
    &&& n.header.mask@.len() == NODE5_MASK_WORDS
    &&& spec_mask_popcount(n.header.mask@) == n.children@.len()
    &&& forall|i: int| 0 <= i < n.children@.len() ==> spec_node4_wf(#[trigger] n.children@[i])
}

/// A tree is well formed when every node of it is: at every level the
/// set bits of the topology mask count exactly the children or values
/// present there.
pub open spec fn spec_tree_wf(t: Tree) -> bool {
    spec_node5_wf(t.root)
}

/// The mask words on the wire, in order, each little-endian.
pub open spec fn spec_words_bytes(ws: Seq<u64>) -> Seq<u8>
    decreases ws.len(),
{
    if ws.len() == 0 {
        Seq::<u8>::empty()
    } else {
        spec_words_bytes(ws.drop_last()) + spec_le64(ws.last())
    }
}

/// A node header on the wire: origin, mask, compression byte.
pub open spec fn spec_node_header_bytes(h: NodeHeader) -> Seq<u8> {
    spec_le32(h.origin.x as u32) + spec_le32(h.origin.y as u32) + spec_le32(h.origin.z as u32)
        + spec_words_bytes(h.mask@) + seq![spec_compression_byte(h.compression)]
}

/// Node bookkeeping on the wire: length-prefixed raw bytes.
pub open spec fn spec_node_meta_bytes(m: NodeMetaData) -> Seq<u8> {
    spec_le64(m.stats@.len() as u64) + m.stats@
}

/// A leaf's value run: each value's low `width` bytes, in mask order.
pub open spec fn spec_values_bytes(vs: Seq<u64>, width: nat) -> Seq<u8>
    decreases vs.len(),
{
    if vs.len() == 0 {
        Seq::<u8>::empty()
    } else {
        spec_values_bytes(vs.drop_last(), width) + spec_le_n(vs.last(), width)
    }
}

/// A leaf node on the wire.
pub open spec fn spec_leaf_bytes(n: Node, width: nat) -> Seq<u8> {
    spec_node_header_bytes(n.header) + spec_node_meta_bytes(n.meta) + spec_values_bytes(
        n.values@,
        width,
    )
}

/// The finest internal nodes' children, concatenated in mask order.
pub open spec fn spec_leaves_bytes(cs: Seq<Node>, width: nat) -> Seq<u8>
    decreases cs.len(),
{
    if cs.len() == 0 {
        Seq::<u8>::empty()
    } else {
        spec_leaves_bytes(cs.drop_last(), width) + spec_leaf_bytes(cs.last(), width)
    }
}

/// A finest-shape internal node on the wire.
pub open spec fn spec_node3_bytes(n: Node3, width: nat) -> Seq<u8> {
    spec_node_header_bytes(n.header) + spec_node_meta_bytes(n.meta) + spec_leaves_bytes(
        n.children@,
        width,
    )
}

pub open spec fn spec_node3s_bytes(cs: Seq<Node3>, width: nat) -> Seq<u8>
    decreases cs.len(),
{
    if cs.len() == 0 {
        Seq::<u8>::empty()
    } else {
        spec_node3s_bytes(cs.drop_last(), width) + spec_node3_bytes(cs.last(), width)
    }
}

/// A middle-shape internal node on the wire.
pub open spec fn spec_node4_bytes(n: Node4, width: nat) -> Seq<u8> {
    spec_node_header_bytes(n.header) + spec_node_meta_bytes(n.meta) + spec_node3s_bytes(
        n.children@,
        width,
    )
}

pub open spec fn spec_node4s_bytes(cs: Seq<Node4>, width: nat) -> Seq<u8>
    decreases cs.len(),
{
    if cs.len() == 0 {
        Seq::<u8>::empty()
    } else {
        spec_node4s_bytes(cs.drop_last(), width) + spec_node4_bytes(cs.last(), width)
    }
}

/// A coarsest-shape internal node on the wire.
pub open spec fn spec_node5_bytes(n: Node5, width: nat) -> Seq<u8> {
    spec_node_header_bytes(n.header) + spec_node_meta_bytes(n.meta) + spec_node4s_bytes(
        n.children@,
        width,
    )
}

/// A whole tree on the wire: the pre-order walk from the root.
pub open spec fn spec_tree_bytes(t: Tree, width: nat) -> Seq<u8> {
    spec_node5_bytes(t.root, width)
}

/// Writes all mask words.
fn write_words(sink: &mut ByteSink, ws: &Vec<u64>)
    ensures
        final(sink)@ == old(sink)@ + spec_words_bytes(ws@),
{
    let mut i: usize = 0;
    while i < ws.len()
        invariant
            i <= ws@.len(),
            sink@ == old(sink)@ + spec_words_bytes(ws@.take(i as int)),
        decreases ws@.len() - i,
    {
        sink.write_u64(ws[i]);
        proof {
            assert(ws@.take(i + 1).drop_last() =~= ws@.take(i as int));
            assert(ws@.take(i + 1).last() == ws@[i as int]);
        }
        i = i + 1;
    }
    proof {
        assert(ws@.take(ws@.len() as int) =~= ws@);
    }
}

/// Writes a node header.
fn write_node_header(sink: &mut ByteSink, h: &NodeHeader)
    ensures
        final(sink)@ == old(sink)@ + spec_node_header_bytes(*h),
{
    sink.write_i32(h.origin.x);
    sink.write_i32(h.origin.y);
    sink.write_i32(h.origin.z);
    write_words(sink, &h.mask);
    let b = compression_byte(&h.compression);
    sink.write_u8(b);
    proof {
        assert(sink@ =~= old(sink)@ + spec_node_header_bytes(*h));
    }
}

/// Writes a node's bookkeeping block.
fn write_node_meta(sink: &mut ByteSink, m: &NodeMetaData)
    ensures
        final(sink)@ == old(sink)@ + spec_node_meta_bytes(*m),
{
    sink.write_u64(m.stats.len() as u64);
    sink.write_bytes(&m.stats);
    proof {
        assert(sink@ =~= old(sink)@ + spec_node_meta_bytes(*m));
    }
}

/// Encodes one leaf node.
fn encode_leaf(sink: &mut ByteSink, n: &Node, width: usize)
    requires
        width <= 8,
    ensures
        final(sink)@ == old(sink)@ + spec_leaf_bytes(*n, width as nat),
{
    write_node_header(sink, &n.header);
    write_node_meta(sink, &n.meta);
    let ghost mid = sink@;
    let mut i: usize = 0;
    while i < n.values.len()
        invariant
            i <= n.values@.len(),
            width <= 8,
            sink@ == mid + spec_values_bytes(n.values@.take(i as int), width as nat),
        decreases n.values@.len() - i,
    {
        sink.write_le_n(n.values[i], width);
        proof {
            assert(n.values@.take(i + 1).drop_last() =~= n.values@.take(i as int));
            assert(n.values@.take(i + 1).last() == n.values@[i as int]);
        }
        i = i + 1;
    }
    proof {
        assert(n.values@.take(n.values@.len() as int) =~= n.values@);
        assert(sink@ =~= old(sink)@ + spec_leaf_bytes(*n, width as nat));
    }
}

/// Encodes one finest-shape internal node and its leaves.
fn encode_node3(sink: &mut ByteSink, n: &Node3, width: usize)
    requires
        width <= 8,
    ensures
        final(sink)@ == old(sink)@ + spec_node3_bytes(*n, width as nat),
{
    write_node_header(sink, &n.header);
    write_node_meta(sink, &n.meta);
    let ghost mid = sink@;
    let mut i: usize = 0;
    while i < n.children.len()
        invariant
            i <= n.children@.len(),
            width <= 8,
            sink@ == mid + spec_leaves_bytes(n.children@.take(i as int), width as nat),
        decreases n.children@.len() - i,
    {
        encode_leaf(sink, &n.children[i], width);
        proof {
            assert(n.children@.take(i + 1).drop_last() =~= n.children@.take(i as int));
            assert(n.children@.take(i + 1).last() == n.children@[i as int]);
        }
        i = i + 1;
    }
    proof {
        assert(n.children@.take(n.children@.len() as int) =~= n.children@);
        assert(sink@ =~= old(sink)@ + spec_node3_bytes(*n, width as nat));
    }
}

/// Encodes one middle-shape internal node and everything below it.
fn encode_node4(sink: &mut ByteSink, n: &Node4, width: usize)
    requires
        width <= 8,
    ensures
        final(sink)@ == old(sink)@ + spec_node4_bytes(*n, width as nat),
{
    write_node_header(sink, &n.header);
    write_node_meta(sink, &n.meta);
    let ghost mid = sink@;
    let mut i: usize = 0;
    while i < n.children.len()
        invariant
            i <= n.children@.len(),
            width <= 8,
            sink@ == mid + spec_node3s_bytes(n.children@.take(i as int), width as nat),
        decreases n.children@.len() - i,
    {
        encode_node3(sink, &n.children[i], width);
        proof {
            assert(n.children@.take(i + 1).drop_last() =~= n.children@.take(i as int));
            assert(n.children@.take(i + 1).last() == n.children@[i as int]);
        }
        i = i + 1;
    }
    proof {
        assert(n.children@.take(n.children@.len() as int) =~= n.children@);
        assert(sink@ =~= old(sink)@ + spec_node4_bytes(*n, width as nat));
    }
}

/// Encodes a whole tree in one deterministic pre-order walk; returns the
/// byte extent written, which the caller backpatches into offsets.
pub fn encode_tree(sink: &mut ByteSink, t: &Tree, width: usize) -> (extent: usize)
    requires
        width <= 8,
    ensures
        final(sink)@ == old(sink)@ + spec_tree_bytes(*t, width as nat),
        extent == spec_tree_bytes(*t, width as nat).len(),
{
    let before = sink.len();
    write_node_header(sink, &t.root.header);
    write_node_meta(sink, &t.root.meta);
    let ghost mid = sink@;
    let mut i: usize = 0;
    while i < t.root.children.len()
        invariant
            i <= t.root.children@.len(),
            width <= 8,
            sink@ == mid + spec_node4s_bytes(t.root.children@.take(i as int), width as nat),
        decreases t.root.children@.len() - i,
    {
        encode_node4(sink, &t.root.children[i], width);
        proof {
            assert(t.root.children@.take(i + 1).drop_last() =~= t.root.children@.take(i as int));
            assert(t.root.children@.take(i + 1).last() == t.root.children@[i as int]);
        }
        i = i + 1;
    }
    proof {
        assert(t.root.children@.take(t.root.children@.len() as int) =~= t.root.children@);
        assert(sink@ =~= old(sink)@ + spec_tree_bytes(*t, width as nat));
    }
    let after = sink.len();
    after - before
}

/// Checks a leaf's well-formedness.
fn leaf_wf_check(n: &Node) -> (r: bool)
    ensures
        r == spec_leaf_wf(*n),
{
    if n.header.mask.len() != LEAF_MASK_WORDS {
        return false;
    }
    let pc = mask_popcount(&n.header.mask);
    pc == n.values.len()
}

/// Checks a finest-shape internal node and its leaves.
fn node3_wf_check(n: &Node3) -> (r: bool)
    ensures
        r == spec_node3_wf(*n),
{
    if n.header.mask.len() != NODE3_MASK_WORDS {
        return false;
    }
    let pc = mask_popcount(&n.header.mask);
    if pc != n.children.len() {
        return false;
    }
    let mut i: usize = 0;
    while i < n.children.len()
        invariant
            i <= n.children@.len(),
            forall|t: int| 0 <= t < i ==> spec_leaf_wf(#[trigger] n.children@[t]),
        decreases n.children@.len() - i,
    {
        if !leaf_wf_check(&n.children[i]) {
            return false;
        }
        i = i + 1;
    }
    true
}

/// Checks a middle-shape internal node and everything below it.
fn node4_wf_check(n: &Node4) -> (r: bool)
    ensures
        r == spec_node4_wf(*n),
{
    if n.header.mask.len() != NODE4_MASK_WORDS {
        return false;
    }
    let pc = mask_popcount(&n.header.mask);
    if pc != n.children.len() {
        return false;
    }
    let mut i: usize = 0;
    while i < n.children.len()
        invariant
            i <= n.children@.len(),
            forall|t: int| 0 <= t < i ==> spec_node3_wf(#[trigger] n.children@[t]),
        decreases n.children@.len() - i,
    {
        if !node3_wf_check(&n.children[i]) {
            return false;
        }
        i = i + 1;
    }
    true
}

/// Checks a whole tree: at every node the set bits of the topology mask
/// must count exactly the children or values present.
pub fn tree_wf_check(t: &Tree) -> (r: bool)
    ensures
        r == spec_tree_wf(*t),
{
    if t.root.header.mask.len() != NODE5_MASK_WORDS {
        return false;
    }
    let pc = mask_popcount(&t.root.header.mask);
    if pc != t.root.children.len() {
        return false;
    }
    let mut i: usize = 0;
    while i < t.root.children.len()
        invariant
            i <= t.root.children@.len(),
            forall|t2: int| 0 <= t2 < i ==> spec_node4_wf(#[trigger] t.root.children@[t2]),
        decreases t.root.children@.len() - i,
    {
        if !node4_wf_check(&t.root.children[i]) {
            return false;
        }
        i = i + 1;
    }
    true
}

} // verus!
