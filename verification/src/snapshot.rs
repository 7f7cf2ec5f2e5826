//! Snapshots: the encoded store inside a Brotli stream.

use crate::layout::decoding;
use crate::compress::{brotli_decoded, compress, decompress};
use crate::store::{TOSMFile, TosmView};
use vstd::prelude::*;

verus! {

/// The buffer size, in bytes, that snapshots are compressed and
/// decompressed with.
pub const BUFFER_SIZE: usize = 4096;

/// The compression quality of snapshots.
pub const QUALITY: u32 = 4;

/// The base-two logarithm of the compression window of snapshots.
pub const LG_WINDOW: u32 = 21;

/// The stage at which reading a snapshot failed.
#[derive(Clone, Copy, Debug, PartialEq, Eq, Structural)]
pub enum SnapshotError {
    /// The decompressor rejected the stream.
    Decompress,
    /// The decompressed bytes are not the encoding of a store.
    Decode,
}

/// What the outcome of decompression holds: the store, or the stage at
/// which reading fails.
pub open spec fn decompressed_contents(plain: Option<Seq<u8>>) -> Result<TosmView, SnapshotError> {
    match plain {
        None => Err(SnapshotError::Decompress),
        Some(plain) => match decoding(plain) {
            None => Err(SnapshotError::Decode),
            Some(store) => Ok(store),
        },
    }
}

/// What a snapshot stream holds: the store, or the stage at which reading
/// it fails.
pub open spec fn snapshot_contents(stream: Seq<u8>) -> Result<TosmView, SnapshotError> {
    decompressed_contents(brotli_decoded(stream, BUFFER_SIZE))
}

/// The bytes of an optional vector.
pub open spec fn optional_bytes(plain: Option<Vec<u8>>) -> Option<Seq<u8>> {
    match plain {
        Some(plain) => Some(plain@),
        None => None,
    }
}

impl TOSMFile {
    /// Finishes reading a snapshot from the outcome of decompression:
    /// `None` is a decompression failure, and decompressed bytes give the
    /// store they encode or a decode failure.
    pub fn from_decompressed(plain: Option<Vec<u8>>) -> (result: Result<TOSMFile, SnapshotError>)
        ensures
            match result {
                Ok(file) => decompressed_contents(optional_bytes(plain)) == Ok::<
                    TosmView,
                    SnapshotError,
                >(file@) && file@.well_formed(),
                Err(error) => decompressed_contents(optional_bytes(plain)) == Err::<
                    TosmView,
                    SnapshotError,
                >(error),
            },
    {
        match plain {
            None => Err(SnapshotError::Decompress),
            Some(plain) => match TOSMFile::decode(plain.as_slice()) {
                Some(file) => Ok(file),
                None => Err(SnapshotError::Decode),
            },
        }
    }

    /// Writes the store as a snapshot stream. Reading the stream gives back
    /// a store equal to this one in every field.
    pub fn write_snapshot(&self) -> (stream: Vec<u8>)
        ensures
            snapshot_contents(stream@) == Ok::<TosmView, SnapshotError>(self@),
    {
        let plain = self.encode();
        compress(plain.as_slice(), BUFFER_SIZE, QUALITY, LG_WINDOW).unwrap()
    }

    /// Reads a store from a snapshot stream, naming the stage that failed
    /// when the stream does not hold one.
    pub fn read_snapshot(stream: &[u8]) -> (result: Result<TOSMFile, SnapshotError>)
        ensures
            match result {
                Ok(file) => snapshot_contents(stream@) == Ok::<TosmView, SnapshotError>(file@)
                    && file@.well_formed(),
                Err(error) => snapshot_contents(stream@) == Err::<TosmView, SnapshotError>(error),
            },
    {
        TOSMFile::from_decompressed(decompress(stream, BUFFER_SIZE))
    }
}

} // verus!
