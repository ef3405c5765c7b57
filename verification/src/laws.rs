//! Laws relating the compressor, the trailer, and the decoder.

use vstd::prelude::*;
use crate::bytes::le32_at;
use crate::trailer::spec_sizes;
use crate::trailer::spec_pad4;
use crate::trailer::spec_stored_total;
use crate::compress::compress_ok_post;
use crate::decompress::spec_decoded_body;

verus! {

proof fn lemma_pad4_exact(nn: int)
    requires
        nn >= 0,
        nn % 4 == 0,
    ensures
        spec_pad4(nn) == nn,
{
    vstd::arithmetic::div_mod::lemma_fundamental_div_mod(nn, 4);
    assert((nn + 3) / 4 * 4 == nn) by (nonlinear_arith)
        requires
            nn >= 0,
            nn % 4 == 0,
    ;
}

/// Trailer dichotomy: every buffer that `compress_raw` emits parses back, its
/// final `u32` is zero exactly for the stored form (no packed region), and any
/// other value marks a packed form that decompresses to the raw length.
pub proof fn lemma_trailer_dichotomy(raw: Seq<u8>, out: Seq<u8>, n: int)
    requires
        compress_ok_post(raw, out, n),
    ensures
        spec_sizes(out.subrange(0, n)) is Some,
        ({
            let o = out.subrange(0, n);
            let (d, p, rl) = spec_sizes(o).unwrap();
            &&& (le32_at(o, n - 4) == 0 <==> p == 0)
            &&& (le32_at(o, n - 4) == 0 ==> rl == spec_pad4(raw.len() as int))
            &&& (le32_at(o, n - 4) != 0 ==> rl == raw.len())
        }),
{
    let o = out.subrange(0, n);
    if le32_at(o, n - 4) == 0 {
        assert(n == spec_stored_total(raw.len() as int));
    }
}

/// Size-oracle agreement: the trailer of a compressed buffer promises at
/// least the raw length back and at most three padding bytes more; exactly the
/// raw length whenever the packed form was chosen or the raw length is a
/// multiple of four.
pub proof fn lemma_oracle_agreement(raw: Seq<u8>, out: Seq<u8>, n: int)
    requires
        compress_ok_post(raw, out, n),
    ensures
        ({
            let o = out.subrange(0, n);
            spec_sizes(o) matches Some((d, p, rl)) && raw.len() <= rl <= raw.len() + 3 && (
            raw.len() % 4 == 0 ==> rl == raw.len()) && (le32_at(o, n - 4) != 0 ==> rl
                == raw.len())
        }),
{
    let o = out.subrange(0, n);
    let nn = raw.len() as int;
    vstd::arithmetic::div_mod::lemma_fundamental_div_mod(nn + 3, 4);
    if le32_at(o, n - 4) == 0 {
        assert(n == spec_pad4(nn) + 4);
        assert(nn <= spec_pad4(nn) <= nn + 3);
        if nn % 4 == 0 {
            lemma_pad4_exact(nn);
        }
    }
}

/// Packed-form alignment: a packed output has a length that is a multiple of
/// four, a header word between 12 and 15, and an `enc_len` word between the
/// header word and the buffer length.
pub proof fn lemma_packed_alignment(raw: Seq<u8>, out: Seq<u8>, n: int)
    requires
        compress_ok_post(raw, out, n),
        le32_at(out.subrange(0, n), n - 4) != 0,
    ensures
        n % 4 == 0,
        ({
            let o = out.subrange(0, n);
            &&& n >= 12
            &&& 12 <= le32_at(o, n - 8) <= 15
            &&& le32_at(o, n - 8) <= le32_at(o, n - 12)
            &&& le32_at(o, n - 12) <= n
        }),
{
    let o = out.subrange(0, n);
    let (d, p, rl) = spec_sizes(o).unwrap();
    assert(le32_at(o, n - 8) == n - d - p);
    assert(le32_at(o, n - 12) == n - d);
}

/// Stored-form round trip: when the stored form was chosen for a raw buffer
/// whose length is a multiple of four, the compressed buffer's trailer names
/// exactly that length, its decoded body is empty, and its verbatim prefix is
/// the raw buffer itself — so decompression returns the input unchanged.
pub proof fn lemma_stored_round_trip(raw: Seq<u8>, out: Seq<u8>, n: int)
    requires
        compress_ok_post(raw, out, n),
        le32_at(out.subrange(0, n), n - 4) == 0,
        raw.len() % 4 == 0,
    ensures
        spec_sizes(out.subrange(0, n)) == Some(
            (raw.len() as int, 0int, raw.len() as int),
        ),
        spec_decoded_body(out.subrange(0, n)) == Seq::<u8>::empty(),
        out.subrange(0, raw.len() as int) == raw,
{
    let o = out.subrange(0, n);
    let nn = raw.len() as int;
    lemma_pad4_exact(nn);
    assert(n == nn + 4);
    assert(spec_sizes(o) == Some((nn, 0int, nn)));
    assert(spec_decoded_body(o) =~= Seq::<u8>::empty());
    assert(out.subrange(0, nn) =~= o.subrange(0, nn));
}

} // verus!
