//! Error values returned by compression and decompression.
use vstd::prelude::*;

verus! {

/// What a failed decompression saw: the whole encoded input and the output
/// decoded before the failing command.
#[derive(Debug, PartialEq)]
pub struct DecompressionErrorInfo {
    pub source: Vec<u8>,
    pub result: Vec<u8>,
}

impl DecompressionErrorInfo {
    pub fn new(source: &[u8], result: &[u8]) -> (r: Self)
        ensures
            r.source@ == source@,
            r.result@ == result@,
    {
        DecompressionErrorInfo {
            source: vstd::slice::slice_to_vec(source),
            result: vstd::slice::slice_to_vec(result),
        }
    }
}

/// Why a decompression failed.
#[derive(Debug, Clone, Copy, PartialEq, Eq, Structural)]
pub enum DecompressionErrorKind {
    /// The requested format has no decoder.
    UnsupportedFormat,
    /// A header names no known command, or a command's arguments are impossible.
    InvalidCommand,
    /// A payload is cut short, or a back-reference points outside the decoded output.
    IndexOutOfBounds,
}

/// A failed decompression: its kind and what was seen.
#[derive(Debug, PartialEq)]
pub struct DecompressionError {
    pub error_info: DecompressionErrorInfo,
    pub kind: DecompressionErrorKind,
}

impl DecompressionError {
    pub fn new(kind: DecompressionErrorKind, error_info: DecompressionErrorInfo) -> (r: Self)
        ensures
            r.kind == kind,
            r.error_info == error_info,
    {
        DecompressionError { error_info, kind }
    }
}

/// Why a compression failed.
#[derive(Debug, PartialEq)]
pub enum CompressionError {
    /// The requested format has no encoder; holds the format's name.
    UnsupportedFormat { compression_type: String },
    /// The fallback command could not cover part of the input.
    CompressionFailed,
}

} // verus!
