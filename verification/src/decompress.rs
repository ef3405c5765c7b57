//! The streaming decompressor and its exact specification.

use vstd::prelude::*;
use crate::trailer::spec_sizes;
use crate::trailer::get_size_for_decompression;
use crate::reversal::invert_slice;
use crate::BlzResult;
use crate::Error;

verus! {

/// `acc` extended by `len` bytes of a back-reference at distance `dist`: each
/// new byte repeats the byte `dist` positions earlier, so the appended run has
/// period `dist`.
pub open spec fn backref_bytes(acc: Seq<u8>, dist: int, len: int) -> Seq<u8>
    recommends
        1 <= dist <= acc.len(),
        0 <= len,
{
    acc + Seq::new(len as nat, |i: int| acc[acc.len() - dist + (i % dist)])
}

/// One token of the packed stream: a literal byte or a back-reference,
/// dispatched on the flag bit `mask` of `flags`. Decoding stops at the first
/// bounds hazard: a truncated token or a distance that reaches before the
/// start of the decoded region.
pub open spec fn decode_token(pak: Seq<u8>, r_len: int, pp: int, mask: u8, flags: u8, acc: Seq<
    u8,
>) -> Seq<u8>
    decreases r_len - acc.len(), 0int,
{
    if acc.len() as int >= r_len {
        acc
    } else if flags & mask == 0 {
        if pp >= pak.len() {
            acc
        } else {
            decode_from(pak, r_len, pp + 1, mask, flags, acc.push(pak[pp]))
        }
    } else {
        if pp + 1 >= pak.len() {
            acc
        } else {
            let code = (pak[pp] as int) * 0x100 + (pak[pp + 1] as int);
            let mlen = code / 0x1000 + 3;
            let dist = code % 0x1000 + 3;
            let take = if mlen > r_len - acc.len() {
                r_len - acc.len()
            } else {
                mlen
            };
            if dist > acc.len() {
                acc
            } else {
                decode_from(pak, r_len, pp + 2, mask, flags, backref_bytes(acc, dist, take))
            }
        }
    }
}

/// The bytes decoded from the reversed packed region `pak` into a region of
/// `r_len` bytes, starting from flag state `(mask, flags)` with `acc` already
/// decoded. The flag bit rotates right each token; when it runs out, the next
/// packed byte is the next flag byte.
pub open spec fn decode_from(pak: Seq<u8>, r_len: int, pp: int, mask: u8, flags: u8, acc: Seq<
    u8,
>) -> Seq<u8>
    decreases r_len - acc.len(), 1int,
{
    if acc.len() as int >= r_len {
        acc
    } else {
        let m1 = mask / 2;
        if m1 == 0 {
            if pp >= pak.len() {
                acc
            } else {
                decode_token(pak, r_len, pp + 1, 0x80u8, pak[pp], acc)
            }
        } else {
            decode_token(pak, r_len, pp, m1, flags, acc)
        }
    }
}

/// The body that decoding the packed region of `c` produces, in stream order
/// (reversed relative to the final output).
pub open spec fn spec_decoded_body(c: Seq<u8>) -> Seq<u8>
    recommends
        spec_sizes(c) is Some,
{
    let (d, p, rl) = spec_sizes(c).unwrap();
    decode_from(c.subrange(d, d + p).reverse(), rl - d, 0, 0u8, 0u8, Seq::empty())
}

/// Expands the buffer described by the trailer of `compressed_data` into
/// `decompression_buffer` and returns how many bytes of it are populated.
///
/// The packed region of `compressed_data` is reversed in place and left so.
/// The output holds the verbatim raw prefix followed by the reversal of the
/// whole decoded region; on a well-formed buffer the decoded body fills that
/// region exactly and the returned count equals the trailer's `raw_len`. On a
/// truncated stream, decoding stops at the first bounds hazard and the count
/// reports only the prefix and the decoded bytes.
pub fn decompress_raw(compressed_data: &mut [u8], decompression_buffer: &mut [u8]) -> (r:
    BlzResult<usize>)
    ensures
        final(compressed_data)@.len() == old(compressed_data)@.len(),
        final(decompression_buffer)@.len() == old(decompression_buffer)@.len(),
        spec_sizes(old(compressed_data)@) is None ==> r == Err::<usize, Error>(Error::InvalidBlz)
            && final(compressed_data)@ == old(compressed_data)@ && final(decompression_buffer)@
            == old(decompression_buffer)@,
        spec_sizes(old(compressed_data)@) matches Some((d, p, rl)) ==> {
            if rl > old(decompression_buffer)@.len() {
                &&& r == Err::<usize, Error>(Error::DecompressionBufferTooSmall)
                &&& final(compressed_data)@ == old(compressed_data)@
                &&& final(decompression_buffer)@ == old(decompression_buffer)@
            } else {
                let body = spec_decoded_body(old(compressed_data)@);
                &&& r == Ok::<usize, Error>((d + body.len()) as usize)
                &&& d + body.len() <= rl
                &&& final(compressed_data)@ == old(compressed_data)@.subrange(0, d) + old(
                    compressed_data,
                )@.subrange(d, d + p).reverse() + old(compressed_data)@.subrange(
                    d + p,
                    old(compressed_data)@.len() as int,
                )
                &&& final(decompression_buffer)@ == old(compressed_data)@.subrange(0, d) + (body
                    + old(decompression_buffer)@.subrange(d + body.len(), rl)).reverse() + old(
                    decompression_buffer,
                )@.subrange(rl, old(decompression_buffer)@.len() as int)
            }
        },
{
    let ghost c0 = compressed_data@;
    let ghost o0 = decompression_buffer@;
    let (dec_len, pak_len, raw_len_wide) = match get_size_for_decompression(compressed_data) {
        Ok(t) => t,
        Err(e) => {
            return Err(e);
        },
    };
    if (decompression_buffer.len() as u128) < raw_len_wide {
        return Err(Error::DecompressionBufferTooSmall);
    }
    let raw_len = raw_len_wide as usize;
    let d = dec_len;
    let p = pak_len;

    // Copy the verbatim raw prefix.
    let mut i: usize = 0;
    while i < d
        invariant
            compressed_data@ == c0,
            i <= d,
            d + p <= c0.len(),
            d <= raw_len <= decompression_buffer@.len(),
            decompression_buffer@.len() == o0.len(),
            forall|j: int| 0 <= j < i ==> decompression_buffer@[j] == c0[j],
            forall|j: int| i <= j < o0.len() ==> decompression_buffer@[j] == o0[j],
        decreases d - i,
    {
        let b = compressed_data[i];
        decompression_buffer[i] = b;
        i = i + 1;
    }

    // Reverse the packed region in place.
    invert_slice(compressed_data, d, d + p);
    let ghost c1 = compressed_data@;
    let ghost pak = c1.subrange(d as int, d as int + p as int);
    proof {
        assert(pak == c0.subrange(d as int, d as int + p as int).reverse());
    }

    let region_len = raw_len - d;
    let ghost body = decode_from(pak, region_len as int, 0, 0u8, 0u8, Seq::empty());
    let ghost o1 = decompression_buffer@;

    let total_len = compressed_data.len();
    let out_len = decompression_buffer.len();

    let mut rp: usize = 0;
    let mut pp: usize = 0;
    let mut mask: u8 = 0;
    let mut flags: u8 = 0;

    proof {
        assert(decompression_buffer@.subrange(d as int, d as int) =~= Seq::<u8>::empty());
    }

    while rp < region_len
        invariant_except_break
            body == decode_from(
                pak,
                region_len as int,
                pp as int,
                mask,
                flags,
                decompression_buffer@.subrange(d as int, d as int + rp as int),
            ),
        invariant
            compressed_data@ == c1,
            pak == c1.subrange(d as int, d as int + p as int),
            d + p <= c1.len(),
            c1.len() == total_len,
            d + region_len <= decompression_buffer@.len(),
            decompression_buffer@.len() == o1.len(),
            o1.len() == out_len,
            rp <= region_len,
            pp <= p,
            forall|j: int|
                0 <= j < o1.len() && !(d <= j < d + rp) ==> decompression_buffer@[j] == o1[j],
        ensures
            compressed_data@ == c1,
            decompression_buffer@.len() == o1.len(),
            rp <= region_len,
            body == decompression_buffer@.subrange(d as int, d as int + rp as int),
            forall|j: int|
                0 <= j < o1.len() && !(d <= j < d + rp) ==> decompression_buffer@[j] == o1[j],
        decreases region_len - rp,
    {
        let ghost acc = decompression_buffer@.subrange(d as int, d as int + rp as int);
        let ghost m0 = mask;
        mask = mask / 2;
        if mask == 0 {
            if pp == p {
                proof {
                    assert(body == acc);
                }
                break ;
            }
            flags = compressed_data[d + pp];
            pp = pp + 1;
            mask = 0x80;
        }
        proof {
            assert(body == decode_token(pak, region_len as int, pp as int, mask, flags, acc));
        }
        if flags & mask == 0 {
            if pp == p {
                proof {
                    assert(body == acc);
                }
                break ;
            }
            let b = compressed_data[d + pp];
            decompression_buffer[d + rp] = b;
            proof {
                assert(decompression_buffer@.subrange(d as int, d as int + rp as int + 1)
                    =~= acc.push(pak[pp as int]));
            }
            rp = rp + 1;
            pp = pp + 1;
        } else {
            if p - pp < 2 {
                proof {
                    assert(body == acc);
                }
                break ;
            }
            let ghost ppb = pp as int;
            let hi = compressed_data[d + pp] as u32;
            let lo = compressed_data[d + pp + 1] as u32;
            pp = pp + 2;
            let code = hi * 0x100 + lo;
            let mut mlen = (code / 0x1000) as usize + 3;
            let dist = (code % 0x1000) as usize + 3;
            if mlen > region_len - rp {
                mlen = region_len - rp;
            }
            if dist > rp {
                proof {
                    assert(body == acc);
                }
                break ;
            }
            let ghost take = mlen as int;
            let ghost ob = decompression_buffer@;
            proof {
                assert(backref_bytes(acc, dist as int, 0) =~= acc);
                assert(decompression_buffer@.subrange(d as int, d as int + rp as int)
                    == backref_bytes(acc, dist as int, 0));
            }
            let mut k: usize = 0;
            while k < mlen
                invariant
                    decompression_buffer@.len() == ob.len(),
                    ob.len() == out_len,
                    d + region_len <= ob.len(),
                    acc == ob.subrange(d as int, d as int + rp as int),
                    k <= mlen,
                    3 <= dist <= rp,
                    rp + mlen <= region_len,
                    take == mlen as int,
                    acc.len() == rp as int,
                    decompression_buffer@.subrange(d as int, d as int + rp as int + k as int)
                        == backref_bytes(acc, dist as int, k as int),
                    forall|j: int|
                        0 <= j < ob.len() && !(d + rp <= j < d + rp + k)
                            ==> decompression_buffer@[j] == ob[j],
                decreases mlen - k,
            {
                let b = decompression_buffer[d + rp + k - dist];
                decompression_buffer[d + rp + k] = b;
                proof {
                    let di = dist as int;
                    let bb = backref_bytes(acc, di, k as int);
                    let bb1 = backref_bytes(acc, di, k as int + 1);
                    if k < dist {
                        vstd::arithmetic::div_mod::lemma_small_mod(k as nat, dist as nat);
                        assert(b == acc[rp as int + k - di]);
                    } else {
                        vstd::arithmetic::div_mod::lemma_mod_sub_multiples_vanish(k as int, di);
                        assert(b == bb[rp as int + k - di]);
                        assert(bb[rp as int + k - di] == acc[rp - di + ((k - di) % di)]);
                    }
                    assert(b == acc[rp - di + ((k as int) % di)]);
                    assert(bb1[rp as int + k as int] == b);
                    assert forall|j: int| 0 <= j < rp + k + 1 implies decompression_buffer@.subrange(
                        d as int,
                        d as int + rp as int + k as int + 1,
                    )[j] == bb1[j] by {
                        if j < rp {
                            assert(bb1[j] == acc[j]);
                            assert(bb[j] == acc[j]);
                        } else if j < rp + k {
                            assert(bb1[j] == acc[rp - di + ((j - rp) % di)]);
                            assert(bb[j] == acc[rp - di + ((j - rp) % di)]);
                        }
                    }
                    assert(decompression_buffer@.subrange(
                        d as int,
                        d as int + rp as int + k as int + 1,
                    ) =~= bb1);
                }
                k = k + 1;
            }
            proof {
                assert(decompression_buffer@.subrange(d as int, d as int + rp as int
                    + mlen as int) == backref_bytes(acc, dist as int, take));
                assert(body == decode_from(
                    pak,
                    region_len as int,
                    ppb + 2,
                    mask,
                    flags,
                    backref_bytes(acc, dist as int, take),
                ));
            }
            rp = rp + mlen;
        }
    }

    proof {
        assert(body == decompression_buffer@.subrange(d as int, d as int + rp as int));
        assert(decompression_buffer@.subrange(d as int, raw_len as int) =~= body + o0.subrange(
            d as int + rp as int,
            raw_len as int,
        ));
    }

    // Restore original order in the decoded region.
    invert_slice(decompression_buffer, d, raw_len);

    proof {
        assert(decompression_buffer@ =~= c0.subrange(0, d as int) + (body + o0.subrange(
            d as int + rp as int,
            raw_len as int,
        )).reverse() + o0.subrange(raw_len as int, o0.len() as int));
        assert(compressed_data@ =~= c0.subrange(0, d as int) + c0.subrange(
            d as int,
            d as int + p as int,
        ).reverse() + c0.subrange(d as int + p as int, c0.len() as int));
    }
    Ok(rp + d)
}

} // verus!
