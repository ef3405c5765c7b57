//! The greedy reverse-order LZSS compressor with one-symbol lookahead.

use vstd::prelude::*;
use crate::bytes::le32_at;
use crate::bytes::write_u32_le;
use crate::reversal::invert_slice;
use crate::search::compression_search;
use crate::trailer::spec_sizes;
use crate::trailer::spec_worst_compressed_size;
use crate::trailer::spec_pad4;
use crate::trailer::spec_stored_total;
use crate::BlzResult;
use crate::Error;

verus! {

/// The flag bit in use after `t` emitted tokens: a fresh flag byte starts at
/// bit 0x80 and rotates right once per token.
pub open spec fn mask_of(t: int) -> u8 {
    if t <= 0 {
        0u8
    } else {
        let r = (t - 1) % 8;
        if r == 0 {
            0x80u8
        } else if r == 1 {
            0x40u8
        } else if r == 2 {
            0x20u8
        } else if r == 3 {
            0x10u8
        } else if r == 4 {
            0x8u8
        } else if r == 5 {
            0x4u8
        } else if r == 6 {
            0x2u8
        } else {
            0x1u8
        }
    }
}

/// What a successful `compress_raw` run guarantees of the output prefix of
/// length `n`: it parses back, and its form is told apart by the final `u32`.
/// A zero there is stored form, a copy of the raw bytes zero-padded to the
/// 4-byte boundary plus a zero word; anything else is packed form, whose
/// trailer promises exactly the raw length back, whose header is 12 plus up to
/// three `0xFF` pad bytes, and which is only ever chosen when it is smaller
/// than the stored form.
pub open spec fn compress_ok_post(raw: Seq<u8>, out: Seq<u8>, n: int) -> bool {
    let nn = raw.len() as int;
    let o = out.subrange(0, n);
    &&& 4 <= n <= out.len()
    &&& n % 4 == 0
    &&& match spec_sizes(o) {
        Some((d, p, rl)) => {
            if le32_at(o, n - 4) == 0 {
                &&& n == spec_stored_total(nn)
                &&& d == n - 4
                &&& p == 0
                &&& rl == n - 4
                &&& o.subrange(0, nn) == raw
                &&& (forall|j: int| nn <= j < n ==> o[j] == 0)
            } else {
                &&& rl == nn
                &&& 0 <= d <= nn
                &&& 1 <= p
                &&& 12 <= n - d - p <= 15
                &&& d + p + 12 <= n
                &&& o.subrange(0, d) == raw.subrange(0, d)
                &&& (forall|j: int| d + p <= j < n - 12 ==> o[j] == 0xFF)
                &&& n < spec_stored_total(nn)
            }
        },
        None => false,
    }
}

/// Emits the stored form: the raw bytes, zero padding to a 4-byte boundary,
/// and a zero trailer word.
fn emit_stored(raw: &[u8], out: &mut [u8]) -> (n: usize)
    requires
        spec_worst_compressed_size(raw@.len() as int) <= old(out)@.len(),
    ensures
        final(out)@.len() == old(out)@.len(),
        n == spec_stored_total(raw@.len() as int),
        compress_ok_post(raw@, final(out)@, n as int),
{
    let buf_len = out.len();
    let nn = raw.len();
    let ghost pad4 = spec_pad4(nn as int);
    proof {
        assert(buf_len == out@.len());
    }
    proof {
        vstd::arithmetic::div_mod::lemma_fundamental_div_mod(nn as int + 3, 4);
        vstd::arithmetic::div_mod::lemma_mod_multiples_basic((nn as int + 3) / 4, 4);
        assert(nn <= pad4 <= nn + 3);
        assert(pad4 % 4 == 0);
    }
    let mut cpos: usize = 0;
    while cpos < nn
        invariant
            cpos <= nn,
            nn == raw@.len(),
            spec_worst_compressed_size(nn as int) <= out@.len(),
            out@.len() == old(out)@.len(),
            forall|j: int| 0 <= j < cpos ==> out@[j] == raw@[j],
        decreases nn - cpos,
    {
        let b = raw[cpos];
        out[cpos] = b;
        cpos = cpos + 1;
    }
    while cpos % 4 != 0
        invariant
            nn == raw@.len(),
            nn <= cpos <= pad4,
            pad4 == spec_pad4(nn as int),
            nn <= pad4 <= nn + 3,
            pad4 % 4 == 0,
            spec_worst_compressed_size(nn as int) <= out@.len(),
            out@.len() == old(out)@.len(),
            forall|j: int| 0 <= j < nn ==> out@[j] == raw@[j],
            forall|j: int| nn <= j < cpos ==> out@[j] == 0,
        decreases pad4 - cpos,
    {
        proof {
            assert(cpos < pad4) by {
                if cpos == pad4 {
                    assert(cpos % 4 == 0);
                }
            }
        }
        out[cpos] = 0;
        cpos = cpos + 1;
    }
    proof {
        assert(cpos == pad4);
    }
    write_u32_le(out, cpos, 0);
    let n = cpos + 4;
    proof {
        let o = out@.subrange(0, n as int);
        assert(le32_at(o, n as int - 4) == 0);
        assert(spec_sizes(o) == Some((n as int - 4, 0int, n as int - 4)));
        assert(o.subrange(0, nn as int) =~= raw@);
    }
    n
}

/// Emits the packed form. The final `stream_cut` bytes of the reversed token
/// stream `out[0..stream_len]` move to position `raw_keep`, the first
/// `raw_keep` raw bytes become the verbatim prefix, `0xFF` bytes pad to the
/// 4-byte boundary, and the three trailer words close the buffer.
#[verifier::rlimit(50)]
fn emit_packed(raw: &[u8], out: &mut [u8], stream_cut: usize, raw_keep: usize, stream_len: usize)
    -> (n: usize)
    requires
        1 <= stream_cut,
        stream_cut + raw_keep <= stream_len,
        stream_len <= old(out)@.len(),
        raw_keep <= raw@.len(),
        raw@.len() >= spec_pad4((stream_cut + raw_keep) as int) + 13,
        raw@.len() <= 0xFFFF_FFFF,
        spec_worst_compressed_size(raw@.len() as int) <= old(out)@.len(),
    ensures
        final(out)@.len() == old(out)@.len(),
        n == spec_pad4((stream_cut + raw_keep) as int) + 12,
        compress_ok_post(raw@, final(out)@, n as int),
{
    let buf_len = out.len();
    let nn = raw.len();
    let cs = stream_cut;
    proof {
        assert(buf_len == out@.len());
    }
    let ds = raw_keep;
    let a_sum = cs + ds;
    let ghost pad4 = spec_pad4(a_sum as int);
    proof {
        vstd::arithmetic::div_mod::lemma_fundamental_div_mod(a_sum as int + 3, 4);
        vstd::arithmetic::div_mod::lemma_mod_multiples_basic((a_sum as int + 3) / 4, 4);
        assert(a_sum <= pad4 <= a_sum + 3);
        assert(pad4 % 4 == 0);
    }
    let ghost s0 = out@;

    // Move the kept tail of the token stream to its final place. The copy
    // runs ascending and moves left or stays (`raw_keep <= stream_len -
    // stream_cut`), so no source byte is overwritten before it is read.
    let mut i: usize = 0;
    while i < cs
        invariant
            i <= cs,
            cs + ds <= stream_len,
            stream_len <= out@.len(),
            out@.len() == s0.len(),
            forall|j: int| ds <= j < ds + i ==> out@[j] == s0[j + stream_len - cs - ds],
            forall|j: int| 0 <= j < s0.len() && !(ds <= j < ds + i) ==> out@[j] == s0[j],
        decreases cs - i,
    {
        let b = out[stream_len - cs + i];
        out[ds + i] = b;
        i = i + 1;
    }

    // Copy the raw prefix.
    let mut k: usize = 0;
    while k < ds
        invariant
            k <= ds,
            ds <= raw@.len(),
            cs + ds <= stream_len <= out@.len(),
            out@.len() == s0.len(),
            forall|j: int| 0 <= j < k ==> out@[j] == raw@[j],
            forall|j: int| ds <= j < ds + cs ==> out@[j] == s0[j + stream_len - cs - ds],
        decreases ds - k,
    {
        let b = raw[k];
        out[k] = b;
        k = k + 1;
    }

    // Pad to alignment with 0xFF; each pad byte grows the header.
    let mut cpos: usize = a_sum;
    let mut header_size: usize = 12;
    while cpos % 4 != 0
        invariant
            a_sum == cs + ds,
            a_sum <= cpos <= pad4,
            pad4 == spec_pad4(a_sum as int),
            a_sum <= pad4 <= a_sum + 3,
            pad4 % 4 == 0,
            header_size == 12 + cpos - a_sum,
            nn == raw@.len(),
            nn >= pad4 + 13,
            spec_worst_compressed_size(nn as int) <= out@.len(),
            out@.len() == s0.len(),
            forall|j: int| 0 <= j < ds ==> out@[j] == raw@[j],
            forall|j: int| ds <= j < ds + cs ==> out@[j] == s0[j + stream_len - cs - ds],
            forall|j: int| a_sum <= j < cpos ==> out@[j] == 0xFF,
        decreases pad4 - cpos,
    {
        proof {
            assert(cpos < pad4) by {
                if cpos == pad4 {
                    assert(cpos % 4 == 0);
                }
            }
        }
        out[cpos] = 0xFF;
        cpos = cpos + 1;
        header_size = header_size + 1;
    }
    proof {
        assert(cpos == pad4);
        assert(header_size == 12 + pad4 - a_sum);
        assert(header_size <= 15);
    }

    let enc_len = cs + header_size;
    let inc_word = nn - cs - ds - header_size;
    write_u32_le(out, cpos, enc_len as u32);
    write_u32_le(out, cpos + 4, header_size as u32);
    write_u32_le(out, cpos + 8, inc_word as u32);
    let n = cpos + 12;

    proof {
        let o = out@.subrange(0, n as int);
        assert(le32_at(o, n - 12) == enc_len as nat);
        assert(le32_at(o, n - 8) == header_size as nat);
        assert(le32_at(o, n - 4) == inc_word as nat);
        assert(inc_word >= 1);
        assert(spec_sizes(o) == Some((ds as int, cs as int, nn as int)));
        assert(o.subrange(0, ds as int) =~= raw@.subrange(0, ds as int));
        assert(n < spec_stored_total(nn as int)) by {
            vstd::arithmetic::div_mod::lemma_fundamental_div_mod(nn as int + 3, 4);
            assert(spec_pad4(nn as int) >= nn);
        }
    }
    n
}

/// Compresses `decompressed_buffer` into `compression_buffer` and returns the
/// total bytes written.
///
/// The raw buffer is reversed in place for the scan and restored before
/// returning. The call succeeds exactly when the output buffer holds at least
/// `worst_case` bytes; the emitted buffer always parses back
/// (`compress_ok_post`): stored form is the padded raw copy with a zero
/// trailer, and packed form promises exactly the input length to the
/// decompressor.
#[verifier::rlimit(100)]
pub fn compress_raw(decompressed_buffer: &mut [u8], compression_buffer: &mut [u8]) -> (r:
    BlzResult<usize>)
    requires
        old(decompressed_buffer)@.len() <= 0xFFFF_FFFF,
    ensures
        final(decompressed_buffer)@ == old(decompressed_buffer)@,
        final(compression_buffer)@.len() == old(compression_buffer)@.len(),
        r is Err <==> (old(compression_buffer)@.len() as int) < spec_worst_compressed_size(
            old(decompressed_buffer)@.len() as int,
        ),
        r is Err ==> r == Err::<usize, Error>(Error::CompressionBufferTooSmall)
            && final(compression_buffer)@ == old(compression_buffer)@,
        r matches Ok(n) ==> compress_ok_post(
            old(decompressed_buffer)@,
            final(compression_buffer)@,
            n as int,
        ),
{
    let n_raw = decompressed_buffer.len();
    let m_out = compression_buffer.len();
    if (m_out as u128) < n_raw as u128 + (n_raw as u128 + 7) / 8 + 15 {
        return Err(Error::CompressionBufferTooSmall);
    }

    let ghost raw0 = decompressed_buffer@;
    invert_slice(decompressed_buffer, 0, n_raw);
    let ghost rev = decompressed_buffer@;
    proof {
        assert(raw0.subrange(0, raw0.len() as int) =~= raw0);
        assert(rev.subrange(0, rev.len() as int) =~= rev);
        assert(rev == raw0.reverse());
    }

    let mut compressed_size_tmp: usize = 0;
    let mut decompressed_size_tmp: usize = n_raw;
    let mut mask: u8 = 0;
    let mut decompressed_pos: usize = 0;
    let mut compressed_pos: usize = 0;
    let mut flag_pos: usize = 0;
    let ghost mut t: int = 0;
    let ghost mut nf: int = 0;
    let ghost mut fl: int = 0;

    while decompressed_pos < n_raw
        invariant
            decompressed_buffer@ == rev,
            rev.len() == n_raw,
            compression_buffer@.len() == m_out,
            n_raw as int + (n_raw as int + 7) / 8 + 15 <= m_out as int,
            decompressed_pos <= n_raw,
            0 <= nf <= decompressed_pos,
            0 <= t <= decompressed_pos,
            fl == (t + 7) / 8,
            compressed_pos == nf + fl,
            mask == mask_of(t),
            t >= 1 ==> flag_pos < compressed_pos,
            compressed_size_tmp + decompressed_size_tmp <= compressed_pos + (n_raw
                - decompressed_pos),
            compressed_size_tmp + decompressed_size_tmp <= n_raw,
            compressed_size_tmp == 0 ==> decompressed_size_tmp == n_raw,
            compressed_size_tmp <= compressed_pos,
            decompressed_size_tmp <= n_raw,
        decreases n_raw - decompressed_pos,
    {
        mask = mask / 2;
        if mask == 0 {
            flag_pos = compressed_pos;
            compression_buffer[flag_pos] = 0;
            compressed_pos = compressed_pos + 1;
            mask = 0x80;
            proof {
                fl = fl + 1;
            }
        }

        let (len_found, pos_best) = compression_search(decompressed_buffer, decompressed_pos);
        let mut len_best = len_found;
        if len_best > 2 && decompressed_pos + len_best < n_raw {
            let (len_next0, _) = compression_search(
                decompressed_buffer,
                decompressed_pos + len_best,
            );
            let (len_post0, _) = compression_search(decompressed_buffer, decompressed_pos + 1);
            let len_next: usize = if len_next0 <= 2 {
                1
            } else {
                len_next0
            };
            let len_post: usize = if len_post0 <= 2 {
                1
            } else {
                len_post0
            };
            if len_best + len_next <= 1 + len_post {
                len_best = 1;
            }
        }

        let fb = compression_buffer[flag_pos];
        if len_best > 2 {
            compression_buffer[flag_pos] = (fb << 1) | 1;
            let b0 = ((len_best - 3) * 16 + (pos_best - 3) / 256) as u8;
            let b1 = ((pos_best - 3) % 256) as u8;
            compression_buffer[compressed_pos] = b0;
            compression_buffer[compressed_pos + 1] = b1;
            compressed_pos = compressed_pos + 2;
            decompressed_pos = decompressed_pos + len_best;
            proof {
                nf = nf + 2;
            }
        } else {
            compression_buffer[flag_pos] = fb << 1;
            let lit = decompressed_buffer[decompressed_pos];
            compression_buffer[compressed_pos] = lit;
            compressed_pos = compressed_pos + 1;
            decompressed_pos = decompressed_pos + 1;
            proof {
                nf = nf + 1;
            }
        }

        if (compressed_pos as u128) + ((n_raw - decompressed_pos) as u128) < (
        compressed_size_tmp as u128) + (decompressed_size_tmp as u128) {
            compressed_size_tmp = compressed_pos;
            decompressed_size_tmp = n_raw - decompressed_pos;
        }

        proof {
            assert(mask == mask_of(t + 1));
            assert(fl == (t + 1 + 7) / 8);
            t = t + 1;
        }
    }

    // Drain the flag byte: rotate until the final bit position.
    while mask != 0 && mask != 1
        invariant
            compression_buffer@.len() == m_out,
            compressed_pos <= m_out,
            mask != 0 ==> flag_pos < compressed_pos,
        decreases mask,
    {
        mask = mask / 2;
        let fb = compression_buffer[flag_pos];
        compression_buffer[flag_pos] = fb << 1;
    }

    let compressed_size = compressed_pos;

    invert_slice(decompressed_buffer, 0, n_raw);
    proof {
        let back = decompressed_buffer@;
        assert(back.subrange(0, back.len() as int) =~= back);
        assert(rev.subrange(0, rev.len() as int) =~= rev);
        assert(back == rev.reverse());
        assert(raw0.reverse().reverse() =~= raw0);
        assert(back == raw0);
    }
    invert_slice(compression_buffer, 0, compressed_size);

    let a_sum = compressed_size_tmp + decompressed_size_tmp;
    let aligned = (a_sum + 3) / 4 * 4;

    let result_size: usize;
    if compressed_size_tmp == 0 || (n_raw as u128) < aligned as u128 + 13 {
        result_size = emit_stored(decompressed_buffer, compression_buffer);
    } else {
        result_size = emit_packed(
            decompressed_buffer,
            compression_buffer,
            compressed_size_tmp,
            decompressed_size_tmp,
            compressed_size,
        );
    }
    Ok(result_size)
}

} // verus!
