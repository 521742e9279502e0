use snes_compress::compression::strategies::get_compression_strategy;
use snes_compress::{compress, decompress, CompressionType};

fn round_trip(source: &[u8]) -> Vec<u8> {
    let compressed = compress(source, CompressionType::LZ5).unwrap();
    assert_eq!(compressed.last(), Some(&0xFF));
    let decompressed = decompress(&compressed, CompressionType::LZ5).unwrap();
    assert_eq!(decompressed, source.to_vec());
    compressed
}

#[test]
fn lib_compress_and_decompress_simple() {
    let source = vec![0xA, 0xA, 0xA, 0xA, 1, 2, 3, 4, 3, 2, 1, 0xB];
    let compressed = compress(&source, CompressionType::LZ5).unwrap();
    let decompressed = decompress(&compressed, CompressionType::LZ5).unwrap();
    assert_eq!(decompressed, source);
    assert!(compressed.len() < decompressed.len());
}

#[test]
fn mod_compress_and_decompress_simple() {
    let source = vec![0xA, 0xA, 0xA, 0xA, 1, 2, 3, 4, 3, 2, 1, 0xB];
    let compressed = compress(&source, CompressionType::LZ5).unwrap();
    let decompressed = decompress(&compressed, CompressionType::LZ5).unwrap();
    assert_eq!(decompressed, source);
    assert!(compressed.len() < decompressed.len());
}

#[test]
fn empty_input_compresses_to_the_sentinel() {
    assert_eq!(compress(&[], CompressionType::LZ5).unwrap(), vec![0xFF]);
    assert_eq!(decompress(&[0xFF], CompressionType::LZ5).unwrap(), Vec::<u8>::new());
}

#[test]
fn exact_encodings_of_runs() {
    assert_eq!(compress(&[0x07; 40], CompressionType::LZ5).unwrap(), vec![0xE4, 0x27, 0x07, 0xFF]);
    let counting: Vec<u8> = (0..=255).collect();
    assert_eq!(compress(&counting, CompressionType::LZ5).unwrap(), vec![0xEC, 0xFF, 0x00, 0xFF]);
    assert_eq!(compress(&[0x42], CompressionType::LZ5).unwrap(), vec![0x00, 0x42, 0xFF]);
}

#[test]
fn round_trips_of_varied_inputs() {
    round_trip(&[1]);
    round_trip(&[1, 2]);
    round_trip(b"ASDF_ASDF_APPLEAPPLE");
    let mut flipped = b"ASDF_APPLE".to_vec();
    flipped.extend(b"APPLE".iter().map(|&x| x ^ 0xFF));
    round_trip(&flipped);
    round_trip(&[0xFF; 3000]);
    let mut words = vec![];
    for _ in 0..700 {
        words.extend([0x12, 0x34]);
    }
    round_trip(&words);
}

#[test]
fn round_trip_of_noise_longer_than_a_block() {
    let mut state: u32 = 0x1234_5678;
    let mut noise = vec![];
    for _ in 0..5000 {
        state = state.wrapping_mul(1_103_515_245).wrapping_add(12_345);
        noise.push((state >> 16) as u8);
    }
    let compressed = round_trip(&noise);
    assert!(compressed.len() <= noise.len() + (noise.len() + 1023) / 1024 * 2 + 1 + noise.len() / 16);
}

#[test]
fn round_trip_of_mixed_data_with_far_repeats() {
    let mut data = vec![];
    let mut state: u32 = 99;
    let mut chunk = vec![];
    for _ in 0..300 {
        state = state.wrapping_mul(1_103_515_245).wrapping_add(12_345);
        chunk.push((state >> 16) as u8);
    }
    data.extend(&chunk);
    data.extend(vec![0u8; 500]);
    data.extend(&chunk);
    data.extend(chunk.iter().map(|b| b ^ 0xFF));
    data.extend((10u8..200).collect::<Vec<u8>>());
    data.extend(&chunk);
    let compressed = round_trip(&data);
    assert!(compressed.len() < data.len());
}

#[test]
fn lz5_strategy_has_seven_commands_and_a_fallback() {
    let strategy = get_compression_strategy(CompressionType::LZ5).unwrap();
    assert_eq!(strategy.commands.len(), 7);
    assert!(strategy.fallback_command.is_some());
    assert_eq!(strategy.max_block_size, 1024);
    assert_eq!(CompressionType::LZ5.name(), "LZ5");
}

#[test]
fn fallback_blocks_tile_a_long_gap() {
    let strategy = get_compression_strategy(CompressionType::LZ5).unwrap();
    let source = vec![0x5Au8; 2500];
    let history = snes_compress::compression::history_table::HistoryTable::new(&source);
    let blocks = strategy.get_fallback_blocks(&source, 100, 2500, &history).unwrap();
    let sizes: Vec<usize> = blocks.iter().map(|b| b.num_bytes_consumed).collect();
    assert_eq!(sizes, vec![1024, 1024, 352]);
    assert_eq!(blocks[1].index, 1124);
    assert_eq!(&blocks[0].data[..2], &[0xE3, 0xFF]);
    assert_eq!(&blocks[2].data[..2], &[0xE1, 0x5F]);
}
