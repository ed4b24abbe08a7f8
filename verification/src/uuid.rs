//! The archive's textual UUID.
//!
//! Four independently drawn 32-bit values are rendered as 32 hex
//! characters, nibble by nibble from the low end of each word, and four
//! hyphens are put at character offsets 8, 13, 18 and 23; the four hex
//! characters displaced by the hyphens move to the tail. The field is
//! exactly 36 bytes of text with no terminator.

use vstd::prelude::*;

verus! {

/// The hex character of the low four bits of `n`: `0-9` then `A-F`.
pub open spec fn spec_hex_digit(n: u32) -> u8 {
    if n < 10 {
        (48 + n) as u8
    } else {
        (55 + n) as u8
    }
}

/// The eight hex characters of one 32-bit word, low nibble first.
pub open spec fn spec_hex32(r: u32) -> Seq<u8> {
    Seq::new(8, |j: int| spec_hex_digit((r >> ((4 * j) as u32)) & 0xf))
}

/// The 32 raw hex characters of the four words.
pub open spec fn spec_uuid_raw(r0: u32, r1: u32, r2: u32, r3: u32) -> Seq<u8> {
    spec_hex32(r0) + spec_hex32(r1) + spec_hex32(r2) + spec_hex32(r3)
}

/// The 36-byte UUID text: hyphens at 8, 13, 18 and 23, the displaced
/// hex characters at the tail.
pub open spec fn spec_uuid_bytes(r0: u32, r1: u32, r2: u32, r3: u32) -> Seq<u8> {
    Seq::new(
        36,
        |i: int|
            {
                let raw = spec_uuid_raw(r0, r1, r2, r3);
                if i == 8 || i == 13 || i == 18 || i == 23 {
                    45u8
                } else if i == 32 {
                    raw[8]
                } else if i == 33 {
                    raw[13]
                } else if i == 34 {
                    raw[18]
                } else if i == 35 {
                    raw[23]
                } else {
                    raw[i]
                }
            },
    )
}

/// Whether a byte is a hex character as this writer emits them.
pub open spec fn spec_is_hex_char(b: u8) -> bool {
    (48 <= b && b <= 57) || (65 <= b && b <= 70)
}

/// A well-formed UUID field: exactly 36 characters, 32 of them hex
/// digits, with hyphens at offsets 8, 13, 18 and 23.
pub open spec fn spec_uuid_wf(u: Seq<u8>) -> bool {
    &&& u.len() == 36
    &&& forall|i: int|
        0 <= i < 36 ==> (if i == 8 || i == 13 || i == 18 || i == 23 {
            u[i] == 45u8
        } else {
            spec_is_hex_char(#[trigger] u[i])
        })
}

/// Every UUID this writer builds is well formed, whatever the four
/// random words were.
pub proof fn lemma_uuid_wf(r0: u32, r1: u32, r2: u32, r3: u32)
    ensures
        spec_uuid_wf(spec_uuid_bytes(r0, r1, r2, r3)),
{
    let raw = spec_uuid_raw(r0, r1, r2, r3);
    assert forall|j: int| 0 <= j < 32 implies spec_is_hex_char(raw[j]) by {
        let r: u32 = if j < 8 {
            r0
        } else if j < 16 {
            r1
        } else if j < 24 {
            r2
        } else {
            r3
        };
        let s: u32 = (4 * (j % 8)) as u32;
        assert(((r >> s) & 0xf) < 16) by (bit_vector);
    }
}

/// One hex character.
fn hex_digit(n: u32) -> (b: u8)
    requires
        n < 16,
    ensures
        b == spec_hex_digit(n),
{
    if n < 10 {
        48 + (n as u8)
    } else {
        55 + (n as u8)
    }
}

/// Appends the eight hex characters of one word.
fn push_hex32(v: &mut Vec<u8>, r: u32)
    ensures
        final(v)@ == old(v)@ + spec_hex32(r),
{
    let mut j: usize = 0;
    while j < 8
        invariant
            j <= 8,
            v@ == old(v)@ + spec_hex32(r).take(j as int),
        decreases 8 - j,
    {
        let s: u32 = (4 * j) as u32;
        proof {
            assert(((r >> s) & 0xf) < 16) by (bit_vector);
        }
        let d = hex_digit((r >> s) & 0xf);
        v.push(d);
        proof {
            assert(spec_hex32(r).take(j + 1) =~= spec_hex32(r).take(j as int).push(
                spec_hex32(r)[j as int],
            ));
            assert(v@ =~= old(v)@ + spec_hex32(r).take(j + 1));
        }
        j = j + 1;
    }
    proof {
        assert(spec_hex32(r).take(8) =~= spec_hex32(r));
    }
}

/// Builds the 36-byte UUID text from four random words.
pub fn format_uuid(r0: u32, r1: u32, r2: u32, r3: u32) -> (u: Vec<u8>)
    ensures
        u@ == spec_uuid_bytes(r0, r1, r2, r3),
        spec_uuid_wf(u@),
{
    let mut raw: Vec<u8> = Vec::new();
    push_hex32(&mut raw, r0);
    push_hex32(&mut raw, r1);
    push_hex32(&mut raw, r2);
    push_hex32(&mut raw, r3);
    proof {
        assert(raw@ =~= spec_uuid_raw(r0, r1, r2, r3));
    }
    let mut u: Vec<u8> = Vec::new();
    let mut i: usize = 0;
    while i < 36
        invariant
            i <= 36,
            raw@ == spec_uuid_raw(r0, r1, r2, r3),
            raw@.len() == 32,
            u@ == spec_uuid_bytes(r0, r1, r2, r3).take(i as int),
        decreases 36 - i,
    {
        let b: u8 = if i == 8 || i == 13 || i == 18 || i == 23 {
            45
        } else if i == 32 {
            raw[8]
        } else if i == 33 {
            raw[13]
        } else if i == 34 {
            raw[18]
        } else if i == 35 {
            raw[23]
        } else {
            raw[i]
        };
        u.push(b);
        proof {
            let s = spec_uuid_bytes(r0, r1, r2, r3);
            assert(b == s[i as int]);
            assert(s.take(i + 1) =~= s.take(i as int).push(s[i as int]));
        }
        i = i + 1;
    }
    proof {
        assert(spec_uuid_bytes(r0, r1, r2, r3).take(36) =~= spec_uuid_bytes(r0, r1, r2, r3));
        lemma_uuid_wf(r0, r1, r2, r3);
    }
    u
}

} // verus!
