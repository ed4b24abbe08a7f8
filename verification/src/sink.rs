//! In-memory byte sink: the binary primitive writer.
//!
//! All multi-byte integers go out little-endian. Each writing method's
//! contract states the exact bytes appended; `patch3_u64` overwrites a
//! reserved 24-byte region, which is how deferred offsets are backpatched.

use vstd::prelude::*;

verus! {

/// Little-endian bytes of a 32-bit value.
pub open spec fn spec_le32(v: u32) -> Seq<u8> {
    Seq::new(4, |i: int| (((v >> ((8 * i) as u32)) & 0xff) as u8))
}

/// Little-endian bytes of a 64-bit value.
pub open spec fn spec_le64(v: u64) -> Seq<u8> {
    Seq::new(8, |i: int| (((v >> ((8 * i) as u64)) & 0xff) as u8))
}

/// The low `w` bytes of a 64-bit value, little-endian.
pub open spec fn spec_le_n(v: u64, w: nat) -> Seq<u8> {
    Seq::new(w, |i: int| (((v >> ((8 * i) as u64)) & 0xff) as u8))
}


/// The `j`-th little-endian byte of a 32-bit value.
fn le32_byte(v: u32, j: usize) -> (b: u8)
    requires
        j < 4,
    ensures
        b == spec_le32(v)[j as int],
{
    let s: u32 = (8 * j) as u32;
    proof {
        assert(((v >> s) & 0xff) < 256) by (bit_vector);
    }
    ((v >> s) & 0xff) as u8
}

/// The `j`-th little-endian byte of a 64-bit value.
fn le64_byte(v: u64, j: usize) -> (b: u8)
    requires
        j < 8,
    ensures
        b == (((v >> ((8 * j as int) as u64)) & 0xff) as u8),
{
    let s: u64 = (8 * j) as u64;
    proof {
        assert(((v >> s) & 0xff) < 256) by (bit_vector);
    }
    ((v >> s) & 0xff) as u8
}

/// A growable byte buffer that stands for the output stream.
pub struct ByteSink {
    pub buf: Vec<u8>,
}

impl View for ByteSink {
    type V = Seq<u8>;

    open spec fn view(&self) -> Seq<u8> {
        self.buf@
    }
}

impl ByteSink {
    pub fn new() -> (s: ByteSink)
        ensures
            s@ == Seq::<u8>::empty(),
    {
        ByteSink { buf: Vec::new() }
    }

    pub fn len(&self) -> (n: usize)
        ensures
            n == self@.len(),
    {
        self.buf.len()
    }

    pub fn write_u8(&mut self, b: u8)
        ensures
            final(self)@ == old(self)@.push(b),
    {
        self.buf.push(b);
    }

    pub fn write_u32(&mut self, v: u32)
        ensures
            final(self)@ == old(self)@ + spec_le32(v),
    {
        let mut j: usize = 0;
        while j < 4
            invariant
                j <= 4,
                self@ == old(self)@ + spec_le32(v).take(j as int),
            decreases 4 - j,
        {
            let b = le32_byte(v, j);
            self.buf.push(b);
            proof {
                assert(spec_le32(v).take(j + 1) =~= spec_le32(v).take(j as int).push(
                    spec_le32(v)[j as int],
                ));
                assert(self@ =~= old(self)@ + spec_le32(v).take(j + 1));
            }
            j = j + 1;
        }
        proof {
            assert(spec_le32(v).take(4) =~= spec_le32(v));
        }
    }

    pub fn write_i32(&mut self, v: i32)
        ensures
            final(self)@ == old(self)@ + spec_le32(v as u32),
    {
        self.write_u32(v as u32);
    }

    pub fn write_u64(&mut self, v: u64)
        ensures
            final(self)@ == old(self)@ + spec_le64(v),
    {
        let mut j: usize = 0;
        while j < 8
            invariant
                j <= 8,
                self@ == old(self)@ + spec_le64(v).take(j as int),
            decreases 8 - j,
        {
            let b = le64_byte(v, j);
            self.buf.push(b);
            proof {
                assert(spec_le64(v).take(j + 1) =~= spec_le64(v).take(j as int).push(
                    spec_le64(v)[j as int],
                ));
                assert(self@ =~= old(self)@ + spec_le64(v).take(j + 1));
            }
            j = j + 1;
        }
        proof {
            assert(spec_le64(v).take(8) =~= spec_le64(v));
        }
    }

    /// Writes the low `w` bytes of `v`, little-endian.
    pub fn write_le_n(&mut self, v: u64, w: usize)
        requires
            w <= 8,
        ensures
            final(self)@ == old(self)@ + spec_le_n(v, w as nat),
    {
        let mut j: usize = 0;
        while j < w
            invariant
                j <= w <= 8,
                self@ == old(self)@ + spec_le_n(v, w as nat).take(j as int),
            decreases w - j,
        {
            let b = le64_byte(v, j);
            self.buf.push(b);
            proof {
                assert(spec_le_n(v, w as nat).take(j + 1) =~= spec_le_n(v, w as nat).take(
                    j as int,
                ).push(spec_le_n(v, w as nat)[j as int]));
                assert(self@ =~= old(self)@ + spec_le_n(v, w as nat).take(j + 1));
            }
            j = j + 1;
        }
        proof {
            assert(spec_le_n(v, w as nat).take(w as int) =~= spec_le_n(v, w as nat));
        }
    }

    /// Appends a run of raw bytes verbatim.
    pub fn write_bytes(&mut self, data: &Vec<u8>)
        ensures
            final(self)@ == old(self)@ + data@,
    {
        let mut j: usize = 0;
        while j < data.len()
            invariant
                j <= data@.len(),
                self@ == old(self)@ + data@.take(j as int),
            decreases data@.len() - j,
        {
            self.buf.push(data[j]);
            proof {
                assert(data@.take(j + 1) =~= data@.take(j as int).push(data@[j as int]));
                assert(self@ =~= old(self)@ + data@.take(j + 1));
            }
            j = j + 1;
        }
        proof {
            assert(data@.take(data@.len() as int) =~= data@);
        }
    }

    /// Overwrites the 8 bytes at `i` with `v`, little-endian.
    pub fn patch_u64(&mut self, i: usize, v: u64)
        requires
            i + 8 <= old(self)@.len(),
        ensures
            final(self)@.len() == old(self)@.len(),
            forall|k: int|
                0 <= k < final(self)@.len() ==> final(self)@[k] == (if i <= k < i + 8 {
                    spec_le64(v)[k - i]
                } else {
                    old(self)@[k]
                }),
    {
        let n = self.len();
        let mut j: usize = 0;
        while j < 8
            invariant
                j <= 8,
                i + 8 <= n == old(self)@.len(),
                self@.len() == old(self)@.len(),
                forall|k: int|
                    0 <= k < self@.len() ==> self@[k] == (if i <= k < i + j {
                        spec_le64(v)[k - i]
                    } else {
                        old(self)@[k]
                    }),
            decreases 8 - j,
        {
            let b = le64_byte(v, j);
            self.buf[i + j] = b;
            j = j + 1;
        }
    }

    /// Overwrites the 24 bytes at `i` with three 64-bit values: the
    /// backpatch of a descriptor's three reserved offset fields.
    pub fn patch3_u64(&mut self, i: usize, a: u64, b: u64, c: u64)
        requires
            i + 24 <= old(self)@.len(),
        ensures
            final(self)@ == old(self)@.subrange(0, i as int) + spec_le64(a) + spec_le64(b)
                + spec_le64(c) + old(self)@.subrange(i + 24, old(self)@.len() as int),
    {
        let n = self.len();
        self.patch_u64(i, a);
        self.patch_u64(i + 8, b);
        self.patch_u64(i + 16, c);
        proof {
            assert(self@ =~= old(self)@.subrange(0, i as int) + spec_le64(a) + spec_le64(b)
                + spec_le64(c) + old(self)@.subrange(i + 24, old(self)@.len() as int));
        }
    }

    /// Hands the finished archive bytes out.
    pub fn into_vec(self) -> (r: Vec<u8>)
        ensures
            r@ == self@,
    {
        self.buf
    }
}

} // verus!
