//! The tail trailer of a compressed buffer and the two size oracles.
//!
//! Every compressed buffer ends in a little-endian `u32`. A zero there marks
//! stored form: the payload is the raw data zero-padded to a 4-byte boundary.
//! A strictly positive value is `inc_len` of packed form, and the two words
//! before it are `hdr_len` and `enc_len`.

use vstd::prelude::*;
use crate::bytes::le32_at;
use crate::bytes::read_u32_le;
use crate::BlzResult;
use crate::Error;

verus! {

/// Worst-case compressed size for `n` raw bytes.
pub open spec fn spec_worst_compressed_size(n: int) -> int {
    n + (n + 7) / 8 + 15
}

/// `n` rounded up to a multiple of 4.
pub open spec fn spec_pad4(n: int) -> int {
    ((n + 3) / 4) * 4
}

/// Total size of the stored form of `n` raw bytes.
pub open spec fn spec_stored_total(n: int) -> int {
    spec_pad4(n) + 4
}

/// The size triple `(dec_len, pak_len, raw_len)` described by the trailer of
/// `c`, or `None` when the trailer is malformed.
///
/// `dec_len` is the length of the verbatim raw prefix, `pak_len` the length of
/// the reversed packed region that follows it, and `raw_len` the size of the
/// decompressed output. A buffer whose sizes are inconsistent (`hdr_len` not
/// smaller than the buffer, `enc_len` below `hdr_len` or beyond the buffer)
/// is rejected.
pub open spec fn spec_sizes(c: Seq<u8>) -> Option<(int, int, int)> {
    let n = c.len() as int;
    if n < 4 {
        None
    } else {
        let inc = le32_at(c, n - 4) as int;
        if inc == 0 {
            Some((n - 4, 0, n - 4))
        } else if n < 12 {
            None
        } else {
            let hdr = le32_at(c, n - 8) as int;
            let enc = le32_at(c, n - 12) as int;
            if n <= hdr || enc < hdr || n < enc {
                None
            } else {
                Some((n - enc, enc - hdr, n + inc))
            }
        }
    }
}

/// Returns `raw_len + ceil(raw_len / 8) + 15`, the smallest compression
/// buffer that `compress_raw` accepts for `raw_len` input bytes.
pub fn get_worst_compression_buffer_size(raw_len: usize) -> (r: usize)
    requires
        spec_worst_compressed_size(raw_len as int) <= usize::MAX,
    ensures
        r == spec_worst_compressed_size(raw_len as int),
{
    raw_len + (raw_len + 7) / 8 + 15
}

/// Parses the trailer of `data` into `(dec_len, pak_len, raw_len)`.
pub(crate) fn get_size_for_decompression(data: &[u8]) -> (r: BlzResult<(usize, usize, u128)>)
    ensures
        match r {
            Ok(t) => spec_sizes(data@) == Some((t.0 as int, t.1 as int, t.2 as int)),
            Err(e) => e == Error::InvalidBlz && spec_sizes(data@) is None,
        },
{
    let n = data.len();
    if n < 4 {
        return Err(Error::InvalidBlz);
    }
    let inc_len = read_u32_le(data, n - 4);
    if inc_len == 0 {
        Ok((n - 4, 0, (n - 4) as u128))
    } else {
        if n < 12 {
            return Err(Error::InvalidBlz);
        }
        let header_len = read_u32_le(data, n - 8);
        let enc_len = read_u32_le(data, n - 12);
        if (n as u128) <= header_len as u128 || enc_len < header_len || (n as u128) < enc_len as u128 {
            return Err(Error::InvalidBlz);
        }
        let dec_len = n - enc_len as usize;
        let pak_len = enc_len as usize - header_len as usize;
        let raw_len = n as u128 + inc_len as u128;
        Ok((dec_len, pak_len, raw_len))
    }
}

/// Returns the exact decompressed size that the trailer of `data` promises.
///
/// Calling this twice on the same buffer returns the same value: the result is
/// fully determined by `spec_sizes(data@)`.
pub fn get_decompression_buffer_size(data: &[u8]) -> (r: BlzResult<usize>)
    ensures
        match r {
            Ok(sz) => spec_sizes(data@) matches Some((d, p, rl)) && rl == sz as int,
            Err(e) => e == Error::InvalidBlz && (spec_sizes(data@) is None || (spec_sizes(data@)
                matches Some((d, p, rl)) && rl > usize::MAX)),
        },
        spec_sizes(data@) matches Some((d, p, rl)) ==> rl <= usize::MAX ==> r == Ok::<
            usize,
            Error,
        >(rl as usize),
        spec_sizes(data@) is None ==> r == Err::<usize, Error>(Error::InvalidBlz),
{
    match get_size_for_decompression(data) {
        Ok((_dec_len, _pak_len, raw_len)) => {
            if raw_len <= usize::MAX as u128 {
                Ok(raw_len as usize)
            } else {
                Err(Error::InvalidBlz)
            }
        },
        Err(e) => Err(e),
    }
}

} // verus!
