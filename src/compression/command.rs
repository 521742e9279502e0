//! The commands of a compression strategy: a configuration and the encoder
//! callback that proposes blocks for it.
use vstd::prelude::*;

use super::block::{opt_view, Block, BlockView};
use super::command_callbacks::{
    byte_fill, byte_fill_spec, direct_copy, direct_copy_spec, increasing_fill,
    increasing_fill_spec, negative_repeat, negative_repeat_spec, negative_xor_repeat,
    negative_xor_repeat_spec, repeat_le, repeat_le_spec, word_fill, word_fill_spec, xor_repeat_le,
    xor_repeat_le_spec,
};
use super::history_table::{HistoryTable, HistoryView};
use crate::format::{header_spec, MAX_BLOCK_SIZE};

verus! {

/// How a command is written: its selector, the width of the selector in bits,
/// the most source bytes one block may stand for, and whether the command has
/// only the extended header layout.
#[derive(Clone, Copy)]
pub struct CommandConfiguration {
    pub cmd_num: u8,
    pub cmd_size: usize,
    pub max_block_size: usize,
    pub is_extended_only: bool,
}

impl CommandConfiguration {
    pub fn new(cmd_num: u8, cmd_size: usize, max_block_size: usize, is_extended_only: bool) -> (r:
        Self)
        ensures
            r.cmd_num == cmd_num,
            r.cmd_size == cmd_size,
            r.max_block_size == max_block_size,
            r.is_extended_only == is_extended_only,
    {
        CommandConfiguration { cmd_num, cmd_size, max_block_size, is_extended_only }
    }

    /// A configuration of the LZ5 layout: a three-bit selector and at most 1024
    /// bytes per block.
    pub open spec fn wf(&self) -> bool {
        &&& self.cmd_num < 8
        &&& self.cmd_size == 3
        &&& 1 <= self.max_block_size <= MAX_BLOCK_SIZE
    }
}

/// The encoder callbacks, one per LZ5 command.
#[derive(Clone, Copy, PartialEq, Eq, Structural)]
pub enum CommandKind {
    DirectCopy,
    ByteFill,
    WordFill,
    IncreasingFill,
    RepeatLe,
    XorRepeatLe,
    NegativeRepeat,
    NegativeXorRepeat,
}

impl CommandKind {
    /// The selector under which the decoder expands what this callback encodes.
    pub open spec fn selector(self) -> u8 {
        match self {
            CommandKind::DirectCopy => 0,
            CommandKind::ByteFill => 1,
            CommandKind::WordFill => 2,
            CommandKind::IncreasingFill => 3,
            CommandKind::RepeatLe => 4,
            CommandKind::XorRepeatLe => 5,
            CommandKind::NegativeRepeat => 6,
            CommandKind::NegativeXorRepeat => 7,
        }
    }

    /// Whether the callback encodes a distance back from its own position, which
    /// needs every recorded position to lie before it.
    pub open spec fn encodes_distance(self) -> bool {
        match self {
            CommandKind::NegativeRepeat | CommandKind::NegativeXorRepeat => true,
            _ => false,
        }
    }

    /// Whether the callback looks up earlier positions in the history.
    pub open spec fn reads_history(self) -> bool {
        match self {
            CommandKind::RepeatLe | CommandKind::XorRepeatLe | CommandKind::NegativeRepeat
            | CommandKind::NegativeXorRepeat => true,
            _ => false,
        }
    }
}

/// A command: its configuration and its encoder callback.
pub struct Command {
    pub config: CommandConfiguration,
    pub callback: CommandKind,
}

impl Command {
    pub fn new(config: CommandConfiguration, callback: CommandKind) -> (r: Self)
        ensures
            r.config == config,
            r.callback == callback,
    {
        Command { config, callback }
    }

    /// A command whose blocks the decoder reads back as they were meant: its
    /// selector is its callback's, and selector 7 is extended only.
    pub open spec fn wf(&self) -> bool {
        &&& self.config.wf()
        &&& self.config.cmd_num == self.callback.selector()
        &&& self.config.cmd_num == 7 ==> self.config.is_extended_only
    }

    /// The block this command proposes for `src`, found at `index` of the source.
    pub open spec fn proposal_spec(&self, src: Seq<u8>, index: int, history: HistoryView) -> Option<
        BlockView,
    > {
        let cfg = self.config;
        match self.callback {
            CommandKind::DirectCopy => direct_copy_spec(cfg, src, index),
            CommandKind::ByteFill => byte_fill_spec(cfg, src, index),
            CommandKind::WordFill => word_fill_spec(cfg, src, index),
            CommandKind::IncreasingFill => increasing_fill_spec(cfg, src, index),
            CommandKind::RepeatLe => repeat_le_spec(cfg, src, index, history),
            CommandKind::XorRepeatLe => xor_repeat_le_spec(cfg, src, index, history),
            CommandKind::NegativeRepeat => negative_repeat_spec(cfg, src, index, history),
            CommandKind::NegativeXorRepeat => negative_xor_repeat_spec(cfg, src, index, history),
        }
    }

    /// Runs the callback on `source`, found at `index` of the source.
    pub fn call(&self, source: &[u8], index: usize, history_table: &HistoryTable) -> (r: Option<
        Block,
    >)
        requires
            self.config.wf(),
            history_table.wf(),
            self.callback.encodes_distance() ==> history_table@.positions_below(index as int),
        ensures
            opt_view(r) == self.proposal_spec(source@, index as int, history_table@),
    {
        let cfg = &self.config;
        match self.callback {
            CommandKind::DirectCopy => direct_copy(cfg, source, index, history_table),
            CommandKind::ByteFill => byte_fill(cfg, source, index, history_table),
            CommandKind::WordFill => word_fill(cfg, source, index, history_table),
            CommandKind::IncreasingFill => increasing_fill(cfg, source, index, history_table),
            CommandKind::RepeatLe => repeat_le(cfg, source, index, history_table),
            CommandKind::XorRepeatLe => xor_repeat_le(cfg, source, index, history_table),
            CommandKind::NegativeRepeat => negative_repeat(cfg, source, index, history_table),
            CommandKind::NegativeXorRepeat => negative_xor_repeat(cfg, source, index, history_table),
        }
    }
}

/// A block proposed by any command but the direct-copy fallback stands for more
/// source bytes than it takes, and so for more than its header's length: a
/// proposal that would stand for no more than its header is never made.
pub proof fn lemma_proposals_save_bytes(
    cmd: Command,
    src: Seq<u8>,
    index: int,
    history: HistoryView,
)
    requires
        cmd.callback != CommandKind::DirectCopy,
    ensures
        cmd.proposal_spec(src, index, history) matches Some(b) ==> {
            &&& b.num_bytes_consumed > b.data.len()
            &&& b.num_bytes_consumed > header_spec(
                cmd.config.cmd_num,
                (b.num_bytes_consumed - 1) as nat,
                cmd.config.is_extended_only,
            ).len()
        },
{
}

} // verus!
