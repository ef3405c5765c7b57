use blz_nx::compress_raw;
use blz_nx::decompress_raw;
use blz_nx::get_decompression_buffer_size;
use blz_nx::get_worst_compression_buffer_size;
use blz_nx::Error;

fn compress_vec(input: &[u8]) -> Vec<u8> {
    let mut raw = input.to_vec();
    let mut out = vec![0u8; get_worst_compression_buffer_size(raw.len())];
    let n = compress_raw(&mut raw, &mut out).unwrap();
    assert_eq!(raw, input, "the raw buffer must be restored");
    out.truncate(n);
    out
}

fn decompress_vec(compressed: &[u8]) -> Vec<u8> {
    let mut c = compressed.to_vec();
    let size = get_decompression_buffer_size(&c).unwrap();
    let mut out = vec![0u8; size];
    let n = decompress_raw(&mut c, &mut out).unwrap();
    out.truncate(n);
    out
}

fn last_u32(buf: &[u8]) -> u32 {
    let n = buf.len();
    u32::from_le_bytes([buf[n - 4], buf[n - 3], buf[n - 2], buf[n - 1]])
}

#[test]
fn worst_case_formula() {
    assert_eq!(get_worst_compression_buffer_size(0), 15);
    assert_eq!(get_worst_compression_buffer_size(1), 17);
    assert_eq!(get_worst_compression_buffer_size(8), 24);
    assert_eq!(get_worst_compression_buffer_size(9), 26);
    assert_eq!(get_worst_compression_buffer_size(1 << 20), (1 << 20) + (1 << 17) + 15);
}

#[test]
fn empty_input_gives_zero_trailer() {
    let out = compress_vec(&[]);
    assert_eq!(out, vec![0u8, 0, 0, 0]);
    assert_eq!(decompress_vec(&out), Vec::<u8>::new());
    assert_eq!(get_decompression_buffer_size(&out).unwrap(), 0);
}

#[test]
fn single_byte_stored_form() {
    let out = compress_vec(&[0x41]);
    assert_eq!(out, vec![0x41, 0, 0, 0, 0, 0, 0, 0]);
    // The stored-form rule pads the raw prefix to the 4-byte boundary, so the
    // round trip returns the padded prefix; its first byte is the input.
    let back = decompress_vec(&out);
    assert_eq!(back, vec![0x41, 0, 0, 0]);
    assert_eq!(back[0], 0x41);
}

#[test]
fn four_distinct_bytes_stored_form() {
    let input = [0x01u8, 0x02, 0x03, 0x04];
    let out = compress_vec(&input);
    assert_eq!(out, vec![0x01, 0x02, 0x03, 0x04, 0, 0, 0, 0]);
    assert_eq!(decompress_vec(&out), input.to_vec());
    assert_eq!(get_decompression_buffer_size(&out).unwrap(), 4);
}

#[test]
fn repetitive_input_picks_packed_form() {
    let input = vec![0xAAu8; 32];
    let out = compress_vec(&input);
    assert!(last_u32(&out) > 0, "packed form must be chosen");
    assert!(out.len() < 36, "packed output must beat the 36-byte stored form");
    assert_eq!(out.len() % 4, 0);
    assert_eq!(get_decompression_buffer_size(&out).unwrap(), 32);
    assert_eq!(decompress_vec(&out), input);
}

#[test]
fn three_byte_buffer_is_invalid() {
    let buf = [0u8, 0, 0];
    assert!(matches!(get_decompression_buffer_size(&buf), Err(Error::InvalidBlz)));
    let mut c = buf.to_vec();
    let mut out = vec![0u8; 16];
    assert!(matches!(decompress_raw(&mut c, &mut out), Err(Error::InvalidBlz)));
}

#[test]
fn five_byte_zero_trailer_decodes_one_byte() {
    let buf = [0x7Fu8, 0, 0, 0, 0];
    assert_eq!(get_decompression_buffer_size(&buf).unwrap(), 1);
    let mut c = buf.to_vec();
    let mut out = vec![0u8; 4];
    assert_eq!(decompress_raw(&mut c, &mut out).unwrap(), 1);
    assert_eq!(out[0], 0x7F);
}

#[test]
fn buffer_sizing_boundary() {
    let input: Vec<u8> = (0u8..=9).collect();
    let worst = get_worst_compression_buffer_size(input.len());
    let mut raw = input.clone();
    let mut exact = vec![0u8; worst];
    assert!(compress_raw(&mut raw, &mut exact).is_ok());
    let mut raw2 = input.clone();
    let mut short = vec![0u8; worst - 1];
    assert!(matches!(
        compress_raw(&mut raw2, &mut short),
        Err(Error::CompressionBufferTooSmall)
    ));
    assert_eq!(raw2, input, "a rejected call leaves the raw buffer untouched");
}

#[test]
fn decompression_buffer_too_small() {
    let out = compress_vec(&[1, 2, 3, 4]);
    let mut c = out.clone();
    let mut small = vec![0u8; 3];
    assert!(matches!(
        decompress_raw(&mut c, &mut small),
        Err(Error::DecompressionBufferTooSmall)
    ));
}

#[test]
fn size_oracle_is_idempotent() {
    let inputs: Vec<Vec<u8>> = vec![
        vec![],
        vec![0xAA; 32],
        (0u8..64).collect(),
        vec![7u8; 100],
    ];
    for input in inputs {
        let out = compress_vec(&input);
        let a = get_decompression_buffer_size(&out);
        let b = get_decompression_buffer_size(&out);
        assert_eq!(a.as_ref().unwrap(), b.as_ref().unwrap());
        if input.len() % 4 == 0 {
            assert_eq!(a.unwrap(), input.len());
        }
    }
}

#[test]
fn compression_is_deterministic() {
    let mut input = Vec::new();
    let mut state = 0x12345678u32;
    for _ in 0..5000 {
        state = state.wrapping_mul(1103515245).wrapping_add(12345);
        input.push((state >> 16) as u8 & 0x3F);
    }
    let a = compress_vec(&input);
    let b = compress_vec(&input);
    assert_eq!(a, b);
}

#[test]
fn round_trip_diverse_inputs() {
    let mut cases: Vec<Vec<u8>> = Vec::new();
    cases.push(vec![0u8; 1024]);
    cases.push((0u8..=255).cycle().take(4096).collect());
    let mut state = 0x9E3779B9u32;
    let mut random = Vec::new();
    for _ in 0..2000 {
        state ^= state << 13;
        state ^= state >> 17;
        state ^= state << 5;
        random.push(state as u8);
    }
    cases.push(random);
    let text: Vec<u8> = b"the quick brown fox jumps over the lazy dog "
        .iter()
        .cycle()
        .take(1980)
        .cloned()
        .collect();
    cases.push(text);
    for input in cases {
        let out = compress_vec(&input);
        assert_eq!(out.len() % 4, 0);
        let trailer = last_u32(&out);
        let size = get_decompression_buffer_size(&out).unwrap();
        if trailer > 0 {
            assert_eq!(size, input.len());
        } else {
            assert_eq!(size, (input.len() + 3) / 4 * 4);
        }
        let back = decompress_vec(&out);
        assert_eq!(&back[..input.len()], &input[..]);
        if input.len() % 4 == 0 {
            assert_eq!(back, input);
        }
    }
}

#[test]
fn boundary_back_reference() {
    // Reversed-scan layout: an 18-byte pattern, 4080 bytes of compressible
    // 4-periodic filler, then the pattern again, so the second occurrence
    // matches the first at distance 4098 with length 18. The token for it is
    // `0xFF 0xFF`: length field 15, offset field 4095.
    let mut reversed = Vec::new();
    let pattern: Vec<u8> = (0u8..18).map(|i| 100 + i * 3).collect();
    reversed.extend_from_slice(&pattern);
    for i in 0..4080u32 {
        reversed.push(1 + (i % 4) as u8);
    }
    reversed.extend_from_slice(&pattern);
    assert_eq!(reversed.len(), 4116);
    let input: Vec<u8> = reversed.iter().rev().cloned().collect();

    let out = compress_vec(&input);
    assert!(last_u32(&out) > 0, "packed form must be chosen");
    assert_eq!(decompress_vec(&out), input);

    // Find the packed region and look for the maximal token inside it.
    let c = out.len();
    let hdr = u32::from_le_bytes([out[c - 8], out[c - 7], out[c - 6], out[c - 5]]) as usize;
    let enc = u32::from_le_bytes([out[c - 12], out[c - 11], out[c - 10], out[c - 9]]) as usize;
    let dec_len = c - enc;
    let pak_len = enc - hdr;
    let pak = &out[dec_len..dec_len + pak_len];
    let has_max_token = pak.windows(2).any(|w| w == [0xFF, 0xFF]);
    assert!(has_max_token, "a length-18 match at distance 4098 must encode as FF FF");
}
