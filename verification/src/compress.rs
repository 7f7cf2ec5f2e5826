//! The compression layer under a snapshot: Brotli streams held in memory.

use vstd::prelude::*;

verus! {

/// The largest buffer, in bytes, that a stream is processed with.
pub const MAX_BUFFER_SIZE: usize = 0x100_0000;

/// What the Brotli decompressor makes of `stream` when it reads through a
/// buffer of `buffer_size` bytes: the decompressed bytes, or `None` when it
/// rejects the stream.
pub uninterp spec fn brotli_decoded(stream: Seq<u8>, buffer_size: usize) -> Option<Seq<u8>>;

/// Compresses `input` with `brotli::CompressorWriter` writing into a vector,
/// and returns the finished stream; an error of the compressor would give
/// `None`. Believed, not proved: a stream is always returned, since a
/// vector takes every byte and one write followed by the finish is a use
/// that the compressor accepts; and the stream decompresses, through a
/// buffer of the same size, to exactly `input`.
#[verifier::external_body]
pub(crate) fn compress(input: &[u8], buffer_size: usize, quality: u32, lg_window: u32) -> (stream:
    Option<Vec<u8>>)
    requires
        0 < buffer_size <= MAX_BUFFER_SIZE,
        quality <= 11,
        10 <= lg_window <= 24,
    ensures
        stream.is_some(),
        brotli_decoded(stream.unwrap()@, buffer_size) == Some(input@),
{
    let mut writer = brotli::CompressorWriter::new(Vec::new(), buffer_size, quality, lg_window);
    match std::io::Write::write_all(&mut writer, input) {
        Ok(()) => Some(writer.into_inner()),
        Err(_) => None,
    }
}

/// Decompresses `stream` with `brotli::Decompressor` reading to the end.
/// Believed, not proved: the outcome is the one that [`brotli_decoded`]
/// names for these arguments, with `None` for every error the decompressor
/// reports (a corrupt or truncated stream). Bytes that follow a complete
/// stream are left unread and are no error.
#[verifier::external_body]
pub(crate) fn decompress(stream: &[u8], buffer_size: usize) -> (plain: Option<Vec<u8>>)
    requires
        0 < buffer_size <= MAX_BUFFER_SIZE,
    ensures
        match plain {
            Some(plain) => brotli_decoded(stream@, buffer_size) == Some(plain@),
            None => brotli_decoded(stream@, buffer_size).is_none(),
        },
{
    let mut reader = brotli::Decompressor::new(stream, buffer_size);
    let mut plain: Vec<u8> = Vec::new();
    match std::io::Read::read_to_end(&mut reader, &mut plain) {
        Ok(_) => Some(plain),
        Err(_) => None,
    }
}

} // verus!
