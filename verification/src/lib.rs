//! Back-to-front LZSS byte codec for self-describing compressed containers.
//!
//! The codec produces a buffer whose tail trailer describes how to expand the
//! payload in place: either a stored copy of the raw bytes (zero trailer) or a
//! raw prefix followed by a reversed, bit-packed token stream and a 12..15 byte
//! trailer of three little-endian `u32` sizes.

use vstd::prelude::*;

mod bytes;
mod reversal;
mod trailer;
mod search;
mod compress;
mod decompress;
mod laws;

pub use trailer::get_worst_compression_buffer_size;
pub use trailer::get_decompression_buffer_size;
pub use trailer::spec_sizes;
pub use trailer::spec_worst_compressed_size;
pub use trailer::spec_stored_total;
pub use compress::compress_raw;
pub use compress::compress_ok_post;
pub use decompress::decompress_raw;
pub use decompress::spec_decoded_body;
pub use decompress::decode_from;
pub use laws::lemma_trailer_dichotomy;
pub use laws::lemma_oracle_agreement;
pub use laws::lemma_packed_alignment;
pub use laws::lemma_stored_round_trip;

verus! {

/// Errors reported at the codec boundary.
#[derive(Debug, Clone, Copy, PartialEq, Eq, Structural)]
pub enum Error {
    Unknown,
    InvalidBlz,
    DecompressionBufferTooSmall,
    CompressionBufferTooSmall,
}

pub type BlzResult<T> = core::result::Result<T, Error>;

} // verus!
