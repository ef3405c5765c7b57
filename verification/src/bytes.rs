//! Little-endian 32-bit words inside byte buffers.

use vstd::prelude::*;

verus! {

/// The value of the little-endian 32-bit word stored at byte offset `i` of `s`.
pub open spec fn le32_at(s: Seq<u8>, i: int) -> nat
    recommends
        0 <= i,
        i + 4 <= s.len(),
{
    (s[i] as nat) + 0x100 * (s[i + 1] as nat) + 0x10000 * (s[i + 2] as nat) + 0x1000000 * (s[i
        + 3] as nat)
}

/// Reads the little-endian `u32` at byte offset `pos`.
pub(crate) fn read_u32_le(data: &[u8], pos: usize) -> (r: u32)
    requires
        pos + 4 <= data@.len(),
    ensures
        r as nat == le32_at(data@, pos as int),
{
    let b0 = data[pos] as u32;
    let b1 = data[pos + 1] as u32;
    let b2 = data[pos + 2] as u32;
    let b3 = data[pos + 3] as u32;
    b0 + 0x100 * b1 + 0x10000 * b2 + 0x1000000 * b3
}

/// Writes `v` as a little-endian `u32` at byte offset `pos`, leaving every
/// other byte unchanged.
pub(crate) fn write_u32_le(data: &mut [u8], pos: usize, v: u32)
    requires
        pos + 4 <= old(data)@.len(),
    ensures
        final(data)@.len() == old(data)@.len(),
        le32_at(final(data)@, pos as int) == v as nat,
        final(data)@[pos as int] == (v % 0x100) as u8,
        final(data)@[pos as int + 1] == ((v / 0x100) % 0x100) as u8,
        final(data)@[pos as int + 2] == ((v / 0x10000) % 0x100) as u8,
        final(data)@[pos as int + 3] == ((v / 0x1000000) % 0x100) as u8,
        forall|j: int|
            0 <= j < old(data)@.len() && !(pos <= j < pos + 4) ==> final(data)@[j] == old(
                data,
            )@[j],
{
    data[pos] = (v % 0x100) as u8;
    data[pos + 1] = ((v / 0x100) % 0x100) as u8;
    data[pos + 2] = ((v / 0x10000) % 0x100) as u8;
    data[pos + 3] = ((v / 0x1000000) % 0x100) as u8;
    proof {
        assert(v as nat == (v % 0x100) as nat + 0x100 * ((v / 0x100) % 0x100) as nat + 0x10000 * ((
        v / 0x10000) % 0x100) as nat + 0x1000000 * ((v / 0x1000000) % 0x100) as nat) by (bit_vector);
    }
}

} // verus!
