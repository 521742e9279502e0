use snes_compress::decompression::command_callbacks::{
    byte_fill, direct_copy, increasing_fill, negative_repeat, negative_xor_repeat_le, repeat_be,
    repeat_le, word_fill, xor_repeat_be, xor_repeat_le,
};
use snes_compress::errors::{DecompressionErrorInfo, DecompressionErrorKind};
use snes_compress::{decompress, CompressionType};

#[test]
fn can_terminate() {
    let result = decompress(&[0xFF], CompressionType::LZ5).unwrap();
    assert_eq!(result, vec![]);
}

#[test]
fn mod_direct_copy_works() {
    let first_byte = 0b00000010;
    let source = vec![first_byte, 0xA1, 0xA2, 0xA3, 0xFF];
    match decompress(&source, CompressionType::LZ5) {
        Ok(decompressed) => assert_eq!(decompressed, vec![0xA1, 0xA2, 0xA3]),
        Err(_) => panic!("Direct copy failed"),
    };
}

#[test]
fn mod_byte_fill_works() {
    let first_byte = 0b00100010;
    let source = vec![first_byte, 0xA1, 0xFF];
    match decompress(&source, CompressionType::LZ5) {
        Ok(decompressed) => assert_eq!(decompressed, vec![0xA1, 0xA1, 0xA1]),
        Err(_) => panic!("Byte fill failed"),
    };
}

#[test]
fn mod_word_fill_works() {
    let first_byte = 0b01000011;
    let source = vec![first_byte, 0xAA, 0xBB];
    match decompress(&source, CompressionType::LZ5) {
        Ok(decompressed) => assert_eq!(decompressed, vec![0xAA, 0xBB, 0xAA, 0xBB]),
        Err(_) => panic!("Word fill failed"),
    };
}

#[test]
fn sigma_fill_works() {
    let first_byte = 0b01100011;
    let source = vec![first_byte, 0x01];
    match decompress(&source, CompressionType::LZ5) {
        Ok(decompressed) => assert_eq!(decompressed, vec![0x01, 0x02, 0x03, 0x04]),
        Err(_) => panic!("Word fill failed"),
    };
}

#[test]
fn single_byte_direct_copy() {
    let decoded = decompress(&[0b000_00000, 0xAA, 0xFF], CompressionType::LZ5).unwrap();
    assert_eq!(decoded, vec![0xAA]);
}

#[test]
fn byte_fill_of_seven() {
    let decoded = decompress(&[0b001_00110, 0xAA, 0xFF], CompressionType::LZ5).unwrap();
    assert_eq!(decoded, vec![0xAA; 7]);
}

#[test]
fn empty_input_decodes_to_nothing() {
    assert_eq!(decompress(&[], CompressionType::LZ5).unwrap(), Vec::<u8>::new());
}

#[test]
fn decoding_stops_at_the_sentinel() {
    let decoded = decompress(&[0x00, 0x41, 0xFF, 0x00, 0x42], CompressionType::LZ5).unwrap();
    assert_eq!(decoded, vec![0x41]);
}

#[test]
fn extended_header_lengths() {
    // byte fill, extended, length 0x123 + 1
    let decoded = decompress(&[0xE5, 0x23, 0x09, 0xFF], CompressionType::LZ5).unwrap();
    assert_eq!(decoded, vec![0x09; 0x124]);
}

#[test]
fn repeats_read_the_decoded_output() {
    // "ABC", then repeat from position 1 for 4 bytes: B C B C
    let encoded = [0x02, b'A', b'B', b'C', 0x83, 0x01, 0x00, 0xFF];
    let decoded = decompress(&encoded, CompressionType::LZ5).unwrap();
    assert_eq!(decoded, b"ABCBCBC".to_vec());
    // negative repeat one back: run of the last byte
    let encoded = [0x00, 0x10, 0xC2, 0x01, 0xFF];
    assert_eq!(decompress(&encoded, CompressionType::LZ5).unwrap(), vec![0x10; 4]);
    // negative XOR repeat two back, extended only
    let encoded = [0x01, 0x0F, 0xF0, 0xFC, 0x02, 0x02, 0xFF];
    assert_eq!(
        decompress(&encoded, CompressionType::LZ5).unwrap(),
        vec![0x0F, 0xF0, 0xF0, 0x0F, 0x0F]
    );
    // XOR repeat from position 0
    let encoded = [0x00, 0x0F, 0xA0, 0x00, 0x00, 0xFF];
    assert_eq!(decompress(&encoded, CompressionType::LZ5).unwrap(), vec![0x0F, 0xF0]);
}

#[test]
fn truncated_payload_is_out_of_bounds() {
    let source = [0x02, 0xA1];
    let err = decompress(&source, CompressionType::LZ5).unwrap_err();
    assert_eq!(err.kind, DecompressionErrorKind::IndexOutOfBounds);
    assert_eq!(err.error_info, DecompressionErrorInfo::new(&source, &[]));
}

#[test]
fn truncated_extended_header_is_out_of_bounds() {
    let source = [0x00, 0x33, 0xE0];
    let err = decompress(&source, CompressionType::LZ5).unwrap_err();
    assert_eq!(err.kind, DecompressionErrorKind::IndexOutOfBounds);
    assert_eq!(err.error_info.result, vec![0x33]);
    assert_eq!(err.error_info.source, source.to_vec());
}

#[test]
fn back_reference_past_the_output_is_out_of_bounds() {
    let err = decompress(&[0x00, 0x33, 0x80, 0x01, 0x00], CompressionType::LZ5).unwrap_err();
    assert_eq!(err.kind, DecompressionErrorKind::IndexOutOfBounds);
    assert_eq!(err.error_info.result, vec![0x33]);
    let err = decompress(&[0x00, 0x33, 0xC0, 0x02], CompressionType::LZ5).unwrap_err();
    assert_eq!(err.kind, DecompressionErrorKind::IndexOutOfBounds);
    let err = decompress(&[0x00, 0x33, 0xC0, 0x00], CompressionType::LZ5).unwrap_err();
    assert_eq!(err.kind, DecompressionErrorKind::IndexOutOfBounds);
}

#[test]
fn increasing_fill_past_ff_is_invalid() {
    let err = decompress(&[0b011_00001, 0xFF], CompressionType::LZ5).unwrap_err();
    assert_eq!(err.kind, DecompressionErrorKind::InvalidCommand);
    assert_eq!(
        decompress(&[0b011_00000, 0xFF], CompressionType::LZ5).unwrap(),
        vec![0xFF]
    );
}

#[test]
fn decoder_callbacks_report_payload_read() {
    let mut out = vec![];
    assert_eq!(direct_copy(&[1, 2, 3], &mut out, 2), Ok(2));
    assert_eq!(out, vec![1, 2]);
    assert_eq!(direct_copy(&[1], &mut out, 2), Err(DecompressionErrorKind::IndexOutOfBounds));
    assert_eq!(out, vec![1, 2]);
    assert_eq!(byte_fill(&[9], &mut out, 2), Ok(1));
    assert_eq!(word_fill(&[5, 6], &mut out, 3), Ok(2));
    assert_eq!(increasing_fill(&[0xFE], &mut out, 2), Ok(1));
    assert_eq!(out, vec![1, 2, 9, 9, 5, 6, 5, 0xFE, 0xFF]);
    assert_eq!(byte_fill(&[], &mut out, 2), Err(DecompressionErrorKind::IndexOutOfBounds));
    assert_eq!(word_fill(&[5], &mut out, 2), Err(DecompressionErrorKind::IndexOutOfBounds));
}

#[test]
fn decoder_repeat_callbacks() {
    let mut out = vec![0x10, 0x20, 0x30];
    assert_eq!(repeat_le(&[0x01, 0x00], &mut out, 2), Ok(2));
    assert_eq!(out, vec![0x10, 0x20, 0x30, 0x20, 0x30]);
    assert_eq!(repeat_be(&[0x00, 0x02], &mut out, 1), Ok(2));
    assert_eq!(out, vec![0x10, 0x20, 0x30, 0x20, 0x30, 0x30]);
    assert_eq!(xor_repeat_le(&[0x00, 0x00], &mut out, 1), Ok(2));
    assert_eq!(out[6], 0xEF);
    assert_eq!(xor_repeat_be(&[0x00, 0x01], &mut out, 1), Ok(2));
    assert_eq!(out[7], 0xDF);
    assert_eq!(negative_repeat(&[0x01], &mut out, 2), Ok(1));
    assert_eq!(&out[8..], &[0xDF, 0xDF]);
    assert_eq!(negative_xor_repeat_le(&[0x01], &mut out, 1), Ok(1));
    assert_eq!(out[10], 0x20);
    assert_eq!(
        repeat_be(&[0x01, 0x00], &mut out, 1),
        Err(DecompressionErrorKind::IndexOutOfBounds)
    );
    assert_eq!(
        negative_repeat(&[0x20], &mut out, 1),
        Err(DecompressionErrorKind::IndexOutOfBounds)
    );
}
