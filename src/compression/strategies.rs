//! A compression strategy: the commands to try at each position, and the
//! fallback that covers what none of them covers.
use vstd::prelude::*;

use super::block::{better_spec, opt_view, Block, BlockView};
use super::command::{Command, CommandConfiguration, CommandKind};
use super::history_table::{HistoryTable, HistoryView};
use super::round_trip::{block_decodes, lemma_proposal_decodes};
use crate::format::MAX_BLOCK_SIZE;
use crate::CompressionType;

verus! {

/// Width in bits of an LZ5 command selector.
pub const LZ5_CMD_SIZE: usize = 3;

pub struct CompressionStrategy {
    pub commands: Vec<Command>,
    pub fallback_command: Option<Command>,
    pub cmd_size: usize,
    pub max_block_size: usize,
}

/// The best of the blocks that `cmds` propose for `src` at `index`, in order;
/// on a tie the earlier command's block stays.
pub open spec fn best_spec(cmds: Seq<Command>, src: Seq<u8>, index: int, history: HistoryView) -> Option<
    BlockView,
>
    decreases cmds.len(),
{
    if cmds.len() == 0 {
        None
    } else {
        let best = best_spec(cmds.drop_last(), src, index, history);
        match cmds.last().proposal_spec(src, index, history) {
            Some(cur) => match best {
                Some(b) => if better_spec(cur, b) {
                    Some(cur)
                } else {
                    best
                },
                None => Some(cur),
            },
            None => best,
        }
    }
}

/// The blocks of `fallback` that cover `[pos, end)` of `source` from left to
/// right, each as long as `max_block_size` allows.
pub open spec fn fallback_tiling(
    fallback: Command,
    source: Seq<u8>,
    pos: int,
    end: int,
    max_block_size: int,
    history: HistoryView,
) -> Seq<BlockView>
    decreases end - pos,
{
    if pos >= end || max_block_size < 1 {
        Seq::empty()
    } else {
        let n = if end - pos > max_block_size {
            max_block_size
        } else {
            end - pos
        };
        match fallback.proposal_spec(source.subrange(pos, pos + n), pos, history) {
            Some(b) => seq![b] + fallback_tiling(fallback, source, pos + n, end, max_block_size, history),
            None => Seq::empty(),
        }
    }
}

/// The encoded bytes of a list of blocks, one after another.
pub open spec fn blocks_bytes(blocks: Seq<BlockView>) -> Seq<u8>
    decreases blocks.len(),
{
    if blocks.len() == 0 {
        Seq::empty()
    } else {
        blocks[0].data + blocks_bytes(blocks.skip(1))
    }
}

/// The LZ5 command with selector `cmd`; only selector 7 is extended only.
pub open spec fn lz5_command(cmd: u8, callback: CommandKind) -> Command {
    Command {
        config: CommandConfiguration {
            cmd_num: cmd,
            cmd_size: LZ5_CMD_SIZE,
            max_block_size: MAX_BLOCK_SIZE,
            is_extended_only: cmd == 7,
        },
        callback,
    }
}

/// The commands that LZ5 tries at each position, in selector order.
pub open spec fn lz5_commands() -> Seq<Command> {
    seq![
        lz5_command(1, CommandKind::ByteFill),
        lz5_command(2, CommandKind::WordFill),
        lz5_command(3, CommandKind::IncreasingFill),
        lz5_command(4, CommandKind::RepeatLe),
        lz5_command(5, CommandKind::XorRepeatLe),
        lz5_command(6, CommandKind::NegativeRepeat),
        lz5_command(7, CommandKind::NegativeXorRepeat),
    ]
}

/// The fallback of LZ5: direct copy.
pub open spec fn lz5_fallback() -> Command {
    lz5_command(0, CommandKind::DirectCopy)
}

/// The values of a list of blocks.
pub open spec fn views(blocks: Seq<Block>) -> Seq<BlockView> {
    blocks.map_values(|b: Block| b@)
}

/// The part of `source` from `start_index` on that one block may cover.
pub open spec fn source_slice_spec(source: Seq<u8>, start_index: int, max_size: int) -> Seq<u8> {
    if source.len() - start_index > max_size {
        source.subrange(start_index, start_index + max_size)
    } else {
        source.subrange(start_index, source.len() as int)
    }
}

impl CompressionStrategy {
    /// A strategy for the LZ5 layout whose blocks decode back: commands that
    /// match their selectors, and a direct-copy fallback.
    pub open spec fn wf(&self) -> bool {
        &&& self.cmd_size == LZ5_CMD_SIZE
        &&& 1 <= self.max_block_size <= MAX_BLOCK_SIZE
        &&& forall|k: int| 0 <= k < self.commands@.len() ==> (#[trigger] self.commands@[k]).wf()
        &&& self.fallback_command matches Some(f) && f.wf() && f.callback == CommandKind::DirectCopy
            && f.config.max_block_size == self.max_block_size
    }

    /// The best block that the commands propose at `start_index`.
    pub fn get_best_block(&self, source: &[u8], start_index: usize, history_table: &HistoryTable) -> (r:
        Option<Block>)
        requires
            self.wf(),
            history_table.wf(),
            history_table@.positions_below(start_index as int),
            start_index <= source@.len(),
        ensures
            opt_view(r) == best_spec(
                self.commands@,
                source_slice_spec(source@, start_index as int, self.max_block_size as int),
                start_index as int,
                history_table@,
            ),
    {
        let slice = get_source_slice(source, start_index, self.max_block_size);
        let mut best_block: Option<Block> = None;
        let mut k: usize = 0;
        assert(self.commands@.take(0) =~= Seq::<Command>::empty());
        while k < self.commands.len()
            invariant
                self.wf(),
                history_table.wf(),
                history_table@.positions_below(start_index as int),
                k <= self.commands@.len(),
                slice@ == source_slice_spec(source@, start_index as int, self.max_block_size as int),
                opt_view(best_block) == best_spec(
                    self.commands@.take(k as int),
                    slice@,
                    start_index as int,
                    history_table@,
                ),
            decreases self.commands@.len() - k,
        {
            let command = &self.commands[k];
            assert(self.commands@.take(k + 1).drop_last() =~= self.commands@.take(k as int));
            assert(self.commands@.take(k + 1).last() == self.commands@[k as int]);
            if let Some(current_block) = command.call(slice, start_index, history_table) {
                let replace = match &best_block {
                    Some(best) => current_block.is_better(best),
                    None => true,
                };
                if replace {
                    best_block = Some(current_block);
                }
            }
            k += 1;
        }
        assert(self.commands@.take(k as int) =~= self.commands@);
        best_block
    }

    /// Blocks of the fallback command that cover `[start_index, end_index)`, each
    /// as long as the strategy allows.
    pub fn get_fallback_blocks(
        &self,
        source: &[u8],
        start_index: usize,
        end_index: usize,
        history_table: &HistoryTable,
    ) -> (r: Option<Vec<Block>>)
        requires
            self.wf(),
            history_table.wf(),
            start_index <= end_index <= source@.len(),
        ensures
            r matches Some(v) && views(v@) == fallback_tiling(
                self.fallback_command->Some_0,
                source@,
                start_index as int,
                end_index as int,
                self.max_block_size as int,
                history_table@,
            ),
    {
        let fallback_command = match &self.fallback_command {
            Some(f) => f,
            None => {
                return None;
            },
        };
        let ghost f = *fallback_command;
        let ghost whole = fallback_tiling(
            f,
            source@,
            start_index as int,
            end_index as int,
            self.max_block_size as int,
            history_table@,
        );
        let mut blocks: Vec<Block> = Vec::new();
        let mut pos = start_index;
        assert(views(blocks@) + whole =~= whole);
        while pos < end_index
            invariant
                self.wf(),
                history_table.wf(),
                *fallback_command == f,
                f == self.fallback_command->Some_0,
                start_index <= pos <= end_index <= source@.len(),
                views(blocks@) + fallback_tiling(
                    f,
                    source@,
                    pos as int,
                    end_index as int,
                    self.max_block_size as int,
                    history_table@,
                ) == whole,
            decreases end_index - pos,
        {
            let n = if end_index - pos > self.max_block_size {
                self.max_block_size
            } else {
                end_index - pos
            };
            let chunk = &source[pos..pos + n];
            let block = match fallback_command.call(chunk, pos, history_table) {
                Some(block) => block,
                None => {
                    return None;
                },
            };
            let ghost b = block@;
            let ghost old_views = views(blocks@);
            blocks.push(block);
            assert(views(blocks@) =~= old_views.push(b));
            assert(old_views.push(b) + fallback_tiling(
                f,
                source@,
                pos + n,
                end_index as int,
                self.max_block_size as int,
                history_table@,
            ) =~= old_views + (seq![b] + fallback_tiling(
                f,
                source@,
                pos + n,
                end_index as int,
                self.max_block_size as int,
                history_table@,
            )));
            pos = pos + n;
        }
        assert(views(blocks@) =~= views(blocks@) + Seq::<BlockView>::empty());
        Some(blocks)
    }

    fn new(cmd_size: usize, max_block_size: usize) -> (r: Self)
        ensures
            r.commands@.len() == 0,
            r.fallback_command.is_none(),
            r.cmd_size == cmd_size,
            r.max_block_size == max_block_size,
    {
        CompressionStrategy {
            commands: Vec::new(),
            fallback_command: None,
            cmd_size,
            max_block_size,
        }
    }

    /// The strategy with one more command, configured with the strategy's sizes.
    fn insert_command(self, cmd_num: u8, is_extended_only: bool, callback: CommandKind) -> (r: Self)
        ensures
            r.commands@ == self.commands@.push(
                Command {
                    config: CommandConfiguration {
                        cmd_num,
                        cmd_size: self.cmd_size,
                        max_block_size: self.max_block_size,
                        is_extended_only,
                    },
                    callback,
                },
            ),
            r.fallback_command == self.fallback_command,
            r.cmd_size == self.cmd_size,
            r.max_block_size == self.max_block_size,
    {
        let mut strategy = self;
        let command_config = CommandConfiguration::new(
            cmd_num,
            strategy.cmd_size,
            strategy.max_block_size,
            is_extended_only,
        );
        let cmd = Command::new(command_config, callback);
        strategy.commands.push(cmd);
        strategy
    }

    /// The strategy with its fallback command set, configured with the strategy's sizes.
    fn set_fallback_command(self, cmd_num: u8, is_extended_only: bool, callback: CommandKind) -> (r:
        Self)
        ensures
            r.fallback_command == Some(
                Command {
                    config: CommandConfiguration {
                        cmd_num,
                        cmd_size: self.cmd_size,
                        max_block_size: self.max_block_size,
                        is_extended_only,
                    },
                    callback,
                },
            ),
            r.commands@ == self.commands@,
            r.cmd_size == self.cmd_size,
            r.max_block_size == self.max_block_size,
    {
        let mut strategy = self;
        let command_config = CommandConfiguration::new(
            cmd_num,
            strategy.cmd_size,
            strategy.max_block_size,
            is_extended_only,
        );
        strategy.fallback_command = Some(Command::new(command_config, callback));
        strategy
    }
}

/// The strategy of a format.
pub fn get_compression_strategy(compression_type: CompressionType) -> (r: Option<CompressionStrategy>)
    ensures
        r matches Some(s) && s.wf() && s.max_block_size == MAX_BLOCK_SIZE && s.commands@
            == lz5_commands() && s.fallback_command == Some(lz5_fallback()),
{
    match compression_type {
        CompressionType::LZ5 => Some(lz5_compression_strategy()),
    }
}

/// LZ5: direct copy as the fallback, and the seven other commands in selector order.
fn lz5_compression_strategy() -> (r: CompressionStrategy)
    ensures
        r.wf(),
        r.max_block_size == MAX_BLOCK_SIZE,
        r.commands@ == lz5_commands(),
        r.fallback_command == Some(lz5_fallback()),
{
    let r = CompressionStrategy::new(LZ5_CMD_SIZE, MAX_BLOCK_SIZE).set_fallback_command(
        0b000,
        false,
        CommandKind::DirectCopy,
    ).insert_command(0b001, false, CommandKind::ByteFill).insert_command(
        0b010,
        false,
        CommandKind::WordFill,
    ).insert_command(0b011, false, CommandKind::IncreasingFill).insert_command(
        0b100,
        false,
        CommandKind::RepeatLe,
    ).insert_command(0b101, false, CommandKind::XorRepeatLe).insert_command(
        0b110,
        false,
        CommandKind::NegativeRepeat,
    ).insert_command(0b111, true, CommandKind::NegativeXorRepeat);
    assert(r.commands@ =~= lz5_commands());
    r
}

/// The part of `source` from `start_index` on that one block may cover.
fn get_source_slice(source: &[u8], start_index: usize, max_size: usize) -> (r: &[u8])
    requires
        start_index <= source@.len(),
    ensures
        r@ == source_slice_spec(source@, start_index as int, max_size as int),
{
    let upper_bound = if source.len() - start_index > max_size {
        start_index + max_size
    } else {
        source.len()
    };
    &source[start_index..upper_bound]
}

/// The best block is a proposal, so it decodes back whenever proposals do.
pub proof fn lemma_best_decodes(
    cmds: Seq<Command>,
    src: Seq<u8>,
    index: int,
    history: HistoryView,
    whole: Seq<u8>,
)
    requires
        forall|k: int| 0 <= k < cmds.len() ==> (#[trigger] cmds[k]).wf(),
        history.wf(),
        history.source == whole,
        history.positions_below(index),
        0 <= index <= usize::MAX,
        index + src.len() <= whole.len(),
        src == whole.subrange(index, index + src.len()),
    ensures
        best_spec(cmds, src, index, history) matches Some(b) ==> {
            &&& block_decodes(b, whole)
            &&& b.index == index
            &&& b.num_bytes_consumed <= src.len()
        },
    decreases cmds.len(),
{
    if cmds.len() > 0 {
        lemma_best_decodes(cmds.drop_last(), src, index, history, whole);
        assert(cmds.last() == cmds[cmds.len() - 1]);
        lemma_proposal_decodes(cmds.last(), src, index, history, whole);
    }
}

} // verus!
