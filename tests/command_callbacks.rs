use snes_compress::compression::block::Block;
use snes_compress::compression::command::{Command, CommandConfiguration, CommandKind};
use snes_compress::compression::command_callbacks::{
    byte_fill, direct_copy, increasing_fill, negative_repeat, negative_xor_repeat, repeat_le,
    word_fill, xor_repeat_le,
};
use snes_compress::compression::history_table::HistoryTable;

#[test]
fn command_callbacks_direct_copy_works() {
    let cmd_config = CommandConfiguration::new(0b000, 3, 1024, false);
    let source = &[0xAA, 0xAB, 0xAC, 0xAD];
    let history_table = HistoryTable::new(source);
    let block = direct_copy(&cmd_config, source, 0, &history_table).unwrap();
    assert_eq!(block.index, 0);
    assert_eq!(block.num_bytes_consumed, 4);
    assert_eq!(block.data, vec![0x03, 0xAA, 0xAb, 0xAC, 0xAD]);
}

#[test]
fn direct_copy_returns_none_if_source_is_empty() {
    let cmd_config = CommandConfiguration::new(0b000, 3, 1024, false);
    let source = &[];
    let history_table = HistoryTable::new(source);
    let block = direct_copy(&cmd_config, source, 0, &history_table);
    assert!(block.is_none());
}

#[test]
fn command_callbacks_byte_fill_works() {
    let cmd_config = CommandConfiguration::new(0b001, 3, 1024, false);
    let source = &[0xAA, 0xAA, 0xAA, 0xAA, 0xAA, 0xAA, 0xAA];
    let history_table = HistoryTable::new(source);
    let block = byte_fill(&cmd_config, source, 0, &history_table).unwrap();
    assert_eq!(block.index, 0);
    assert_eq!(block.num_bytes_consumed, 7);
    assert_eq!(block.data, vec![0x26, 0xAA]);
}

#[test]
fn byte_fill_returns_none_if_source_is_empty() {
    let cmd_config = CommandConfiguration::new(0b001, 3, 1024, false);
    let source = &[];
    let history_table = HistoryTable::new(source);
    let block = byte_fill(&cmd_config, source, 0, &history_table);
    assert!(block.is_none());
}

#[test]
fn command_callbacks_word_fill_works() {
    let cmd_config = CommandConfiguration::new(0b010, 3, 1024, false);
    let source = &[0xAA, 0xBB, 0xAA, 0xBB, 0xAA, 0xBB, 0xAA];
    let history_table = HistoryTable::new(source);
    let block = word_fill(&cmd_config, source, 0, &history_table).unwrap();
    assert_eq!(block.index, 0);
    assert_eq!(block.num_bytes_consumed, 7);
    assert_eq!(block.data, vec![0x46, 0xAA, 0xBB]);
}

#[test]
fn word_fill_returns_none_if_source_is_one_byte() {
    let cmd_config = CommandConfiguration::new(0b010, 3, 1024, false);
    let source = &[0xAA];
    let history_table = HistoryTable::new(source);
    let block = word_fill(&cmd_config, source, 0, &history_table);
    assert!(block.is_none());
}

#[test]
fn word_fill_returns_none_if_source_is_empty() {
    let cmd_config = CommandConfiguration::new(0b010, 3, 1024, false);
    let source = &[];
    let history_table = HistoryTable::new(source);
    let block = word_fill(&cmd_config, source, 0, &history_table);
    assert!(block.is_none());
}

#[test]
fn increasing_fill_works() {
    let cmd_config = CommandConfiguration::new(0b011, 3, 1024, false);
    let source = &[0xAA, 0xAB, 0xAC, 0xAD, 0xAE, 0xAF, 0xB0];
    let history_table = HistoryTable::new(source);
    let block = increasing_fill(&cmd_config, source, 0, &history_table).unwrap();
    assert_eq!(block.index, 0);
    assert_eq!(block.num_bytes_consumed, 7);
    assert_eq!(block.data, vec![0x66, 0xAA]);
}

#[test]
fn increasing_fill_returns_none_if_source_is_empty() {
    let cmd_config = CommandConfiguration::new(0b011, 3, 1024, false);
    let source = &[];
    let history_table = HistoryTable::new(source);
    let block = increasing_fill(&cmd_config, source, 0, &history_table);
    assert!(block.is_none());
}

#[test]
fn repeat_le_works() {
    let cmd_config = CommandConfiguration::new(0b100, 3, 1024, false);
    let source = b"ASDF_APPLEAPPLE";
    let mut history_table = HistoryTable::new(source);
    history_table.insert(b'A', b'P', 5);
    let block = repeat_le(&cmd_config, &source[10..], 10, &history_table).unwrap();
    assert_eq!(block.index, 10);
    assert_eq!(block.num_bytes_consumed, 5);
    assert_eq!(block.data, vec![0x84, 0x05, 0x00]);
}

#[test]
fn repeat_le_returns_none_if_source_is_empty() {
    let cmd_config = CommandConfiguration::new(0b100, 3, 1024, false);
    let source = &[];
    let history_table = HistoryTable::new(source);
    let block = repeat_le(&cmd_config, source, 0, &history_table);
    assert!(block.is_none());
}

#[test]
fn xor_repeat_le_works() {
    let cmd_config = CommandConfiguration::new(0b101, 3, 1024, false);
    let mut source: Vec<u8> = b"ASDF_APPLE".iter().map(|&x| x).collect();
    source.append(&mut b"APPLE".iter().map(|&x| x ^ 0xFF).collect());
    let mut history_table = HistoryTable::new(&source);
    history_table.insert(b'A', b'P', 5);
    let block = xor_repeat_le(&cmd_config, &source[10..], 10, &history_table).unwrap();
    assert_eq!(block.index, 10);
    assert_eq!(block.num_bytes_consumed, 5);
    assert_eq!(block.data, vec![0xA4, 0x05, 0x00]);
}

#[test]
fn xor_repeat_le_returns_none_if_source_is_empty() {
    let cmd_config = CommandConfiguration::new(0b101, 3, 1024, false);
    let source = &[];
    let history_table = HistoryTable::new(source);
    let block = xor_repeat_le(&cmd_config, source, 0, &history_table);
    assert!(block.is_none());
}

#[test]
fn negative_repeat_works() {
    let cmd_config = CommandConfiguration::new(0b110, 3, 1024, false);
    let source = b"ASDF_ASDF_APPLEAPPLE";
    let mut history_table = HistoryTable::new(source);
    history_table.insert(b'A', b'P', 10);
    let block = negative_repeat(&cmd_config, &source[15..], 15, &history_table).unwrap();
    assert_eq!(block.index, 15);
    assert_eq!(block.num_bytes_consumed, 5);
    assert_eq!(block.data, vec![0xC4, 0x05]);
}

#[test]
fn negative_repeat_returns_none_if_source_is_empty() {
    let cmd_config = CommandConfiguration::new(0b110, 3, 1024, false);
    let source = &[];
    let history_table = HistoryTable::new(source);
    let block = negative_repeat(&cmd_config, source, 0, &history_table);
    assert!(block.is_none());
}

#[test]
fn negative_xor_repeat_le_works() {
    let cmd_config = CommandConfiguration::new(0b111, 3, 1024, true);
    let mut source: Vec<u8> = b"ASDF_APPLE".iter().map(|&x| x).collect();
    source.append(&mut b"APPLE".iter().map(|&x| x ^ 0xFF).collect());
    let mut history_table = HistoryTable::new(&source);
    history_table.insert(b'A', b'P', 5);
    let block = xor_repeat_le(&cmd_config, &source[10..], 10, &history_table).unwrap();
    assert_eq!(block.index, 10);
    assert_eq!(block.num_bytes_consumed, 5);
    assert_eq!(block.data, vec![0xFC, 0x04, 0x05, 0x00]);
}

#[test]
fn negative_xor_repeat_le_returns_none_if_source_is_empty() {
    let cmd_config = CommandConfiguration::new(0b111, 3, 1024, true);
    let source = &[];
    let history_table = HistoryTable::new(source);
    let block = xor_repeat_le(&cmd_config, source, 0, &history_table);
    assert!(block.is_none());
}

#[test]
fn negative_xor_repeat_finds_flipped_bytes_nearby() {
    let cmd_config = CommandConfiguration::new(0b111, 3, 1024, true);
    let mut source: Vec<u8> = b"ASDF_APPLE".to_vec();
    source.extend(b"APPLE".iter().map(|&x| x ^ 0xFF));
    let mut history_table = HistoryTable::new(&source);
    history_table.insert(b'A', b'P', 5);
    let block = negative_xor_repeat(&cmd_config, &source[10..], 10, &history_table).unwrap();
    assert_eq!(block.index, 10);
    assert_eq!(block.num_bytes_consumed, 5);
    assert_eq!(block.data, vec![0xFC, 0x04, 0x05]);
}

#[test]
fn proposal_not_shorter_than_its_bytes_is_discarded() {
    let cmd_config = CommandConfiguration::new(0b001, 3, 1024, false);
    let two = &[0x11, 0x11];
    let history_table = HistoryTable::new(two);
    assert!(byte_fill(&cmd_config, two, 0, &history_table).is_none());
    let three = &[0x11, 0x11, 0x11];
    let history_table = HistoryTable::new(three);
    let block = byte_fill(&cmd_config, three, 0, &history_table).unwrap();
    assert_eq!(block.data, vec![0x22, 0x11]);
    let word_config = CommandConfiguration::new(0b010, 3, 1024, false);
    let word = &[0x11, 0x22, 0x11];
    let history_table = HistoryTable::new(word);
    assert!(word_fill(&word_config, word, 0, &history_table).is_none());
}

#[test]
fn long_run_gets_an_extended_header() {
    let cmd_config = CommandConfiguration::new(0b001, 3, 1024, false);
    let source = vec![0x07u8; 40];
    let history_table = HistoryTable::new(&source);
    let block = byte_fill(&cmd_config, &source, 0, &history_table).unwrap();
    assert_eq!(block.num_bytes_consumed, 40);
    assert_eq!(block.data, vec![0xE4, 0x27, 0x07]);
}

#[test]
fn run_longer_than_a_block_is_refused() {
    let cmd_config = CommandConfiguration::new(0b001, 3, 1024, false);
    let source = vec![0x07u8; 1025];
    let history_table = HistoryTable::new(&source);
    assert!(byte_fill(&cmd_config, &source, 0, &history_table).is_none());
    let block = byte_fill(&cmd_config, &source[..1024], 0, &history_table).unwrap();
    assert_eq!(block.data, vec![0xE7, 0xFF, 0x07]);
}

#[test]
fn increasing_fill_stops_after_ff() {
    let cmd_config = CommandConfiguration::new(0b011, 3, 1024, false);
    let source = &[0xFC, 0xFD, 0xFE, 0xFF, 0x00, 0x01];
    let history_table = HistoryTable::new(source);
    let block = increasing_fill(&cmd_config, source, 0, &history_table).unwrap();
    assert_eq!(block.num_bytes_consumed, 4);
    assert_eq!(block.data, vec![0x63, 0xFC]);
}

#[test]
fn longest_repeat_prefers_the_first_on_a_tie() {
    let source = b"ABCxABCyABCz";
    let mut history_table = HistoryTable::new(source);
    history_table.insert(b'A', b'B', 0);
    history_table.insert(b'A', b'B', 4);
    let info = history_table.find_longest_repeat(&source[8..], 0).unwrap();
    assert_eq!(info.start_index, 0);
    assert_eq!(info.size, 3);
    let info = history_table.find_longest_repeat(&source[8..], 1).unwrap();
    assert_eq!(info.start_index, 4);
    assert!(history_table.find_longest_repeat(&source[8..], 5).is_none());
    assert!(history_table.find_longest_repeat_xor(&source[8..], 0).is_none());
}

#[test]
fn block_comparison_and_accessors() {
    let a = Block::new(3, 5, vec![1, 2]);
    let b = Block::new(3, 5, vec![1, 2, 3]);
    let c = Block::new(3, 6, vec![1, 2, 3, 4]);
    assert!(a.is_better(&b));
    assert!(!b.is_better(&a));
    assert!(c.is_better(&a));
    assert!(!a.is_better(&a));
    assert_eq!(a.len(), 2);
    assert_eq!(a.difference(), 3);
    let a = a.set_debug_message("note");
    assert_eq!(a.debug_message.as_deref(), Some("note"));
    assert_eq!(a.collect(), vec![1, 2]);
}

#[test]
fn command_dispatches_to_its_callback() {
    let command = Command::new(
        CommandConfiguration::new(0b001, 3, 1024, false),
        CommandKind::ByteFill,
    );
    let source = &[0x05, 0x05, 0x05, 0x05];
    let history_table = HistoryTable::new(source);
    let block = command.call(source, 0, &history_table).unwrap();
    assert_eq!(block.data, vec![0x23, 0x05]);
}
