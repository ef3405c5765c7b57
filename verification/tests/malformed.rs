use blz_nx::decompress_raw;
use blz_nx::get_decompression_buffer_size;
use blz_nx::Error;

fn push_u32(buf: &mut Vec<u8>, v: u32) {
    buf.extend_from_slice(&v.to_le_bytes());
}

#[test]
fn short_nonzero_trailer_is_invalid() {
    // A buffer of fewer than 12 bytes whose final u32 is nonzero cannot hold
    // the packed trailer.
    let mut buf = vec![0u8; 4];
    push_u32(&mut buf, 7);
    assert_eq!(buf.len(), 8);
    assert!(matches!(get_decompression_buffer_size(&buf), Err(Error::InvalidBlz)));
}

#[test]
fn header_reaching_buffer_is_invalid() {
    let mut buf = vec![0u8; 4];
    push_u32(&mut buf, 13);
    push_u32(&mut buf, 16); // hdr_len == buffer length
    push_u32(&mut buf, 9);
    assert_eq!(buf.len(), 16);
    assert!(matches!(get_decompression_buffer_size(&buf), Err(Error::InvalidBlz)));
}

#[test]
fn inconsistent_sizes_are_rejected() {
    // enc_len below hdr_len.
    let mut low = vec![0u8; 4];
    push_u32(&mut low, 3); // enc_len
    push_u32(&mut low, 15); // hdr_len
    push_u32(&mut low, 5); // inc_len
    assert!(matches!(get_decompression_buffer_size(&low), Err(Error::InvalidBlz)));

    // enc_len beyond the buffer.
    let mut high = vec![0u8; 4];
    push_u32(&mut high, 100);
    push_u32(&mut high, 12);
    push_u32(&mut high, 5);
    assert!(matches!(get_decompression_buffer_size(&high), Err(Error::InvalidBlz)));
}

#[test]
fn truncated_packed_stream_stops_gracefully() {
    // A packed buffer whose single packed byte is one flag byte and nothing
    // more: the decoder stops at the end of the packed region and reports the
    // bytes it reconstructed, here none.
    let mut buf = vec![0x00u8, 0xFF, 0xFF, 0xFF];
    push_u32(&mut buf, 16); // enc_len = pak(1) + hdr(15)
    push_u32(&mut buf, 15); // hdr_len = 12 + 3 pad bytes
    push_u32(&mut buf, 10); // inc_len
    assert_eq!(buf.len(), 16);
    let raw_len = get_decompression_buffer_size(&buf).unwrap();
    assert_eq!(raw_len, 26);
    let mut c = buf.clone();
    let mut out = vec![0u8; raw_len];
    assert_eq!(decompress_raw(&mut c, &mut out).unwrap(), 0);
}
