//! Compression and decompression of the LC_LZ5 format found in 16-bit console ROMs.
//!
//! An encoded stream is a sequence of commands, each a one- or two-byte header
//! followed by a payload, and ends with the sentinel byte `0xFF`.
use vstd::prelude::*;

pub mod address_converter;
pub mod compression;
pub mod decompression;
pub mod errors;
pub mod format;

pub use compression::compress;
pub use decompression::decompress;

verus! {

/// The compression formats that the library knows.
#[derive(Debug, Clone, Copy, PartialEq, Eq, Structural)]
pub enum CompressionType {
    LZ5,
}

impl CompressionType {
    /// The name of the format, as it is shown to users.
    pub fn name(&self) -> (r: String)
        ensures
            r@ == seq!['L', 'Z', '5'],
    {
        let r = "LZ5".to_owned();
        proof {
            reveal_strlit("LZ5");
        }
        r
    }
}

} // verus!
