//! Fixed-width integers on the wire: little-endian words in scene files,
//! big-endian words in the network protocol.

use vstd::prelude::*;

verus! {

/// The value of four bytes read as a little-endian word.
pub open spec fn le_word(b0: u8, b1: u8, b2: u8, b3: u8) -> int {
    b0 + 256 * b1 + 65536 * b2 + 16777216 * b3
}

/// The value of four bytes read as a big-endian word.
pub open spec fn be_word(b0: u8, b1: u8, b2: u8, b3: u8) -> int {
    le_word(b3, b2, b1, b0)
}

/// The four bytes of a word, most significant first.
pub open spec fn be_bytes(x: u32) -> Seq<u8> {
    seq![
        (x / 16777216) as u8,
        ((x / 65536) % 256) as u8,
        ((x / 256) % 256) as u8,
        (x % 256) as u8,
    ]
}

/// Reads a little-endian word.
pub fn u32_from_le(b0: u8, b1: u8, b2: u8, b3: u8) -> (r: u32)
    ensures
        r == le_word(b0, b1, b2, b3),
{
    (b0 as u32) + 256 * (b1 as u32) + 65536 * (b2 as u32) + 16777216 * (b3 as u32)
}

/// Reads a big-endian word.
pub fn u32_from_be(b0: u8, b1: u8, b2: u8, b3: u8) -> (r: u32)
    ensures
        r == be_word(b0, b1, b2, b3),
{
    u32_from_le(b3, b2, b1, b0)
}

/// Appends the four bytes of `x`, most significant first.
pub fn push_be(out: &mut Vec<u8>, x: u32)
    ensures
        final(out)@ == old(out)@ + be_bytes(x),
{
    out.push((x / 16777216) as u8);
    out.push(((x / 65536) % 256) as u8);
    out.push(((x / 256) % 256) as u8);
    out.push((x % 256) as u8);
    proof {
        assert(final(out)@ =~= old(out)@ + be_bytes(x));
    }
}

/// Reading back the bytes that `push_be` writes gives the word that was written.
pub proof fn lemma_be_round_trip(x: u32)
    ensures
        be_word(be_bytes(x)[0], be_bytes(x)[1], be_bytes(x)[2], be_bytes(x)[3]) == x,
{
    let b = be_bytes(x);
    assert(b[0] == x / 16777216);
    assert(b[1] == (x / 65536) % 256);
    assert(b[2] == (x / 256) % 256);
    assert(b[3] == x % 256);
}

} // verus!
