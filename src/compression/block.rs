//! One emitted command together with the part of the source it stands for.
use vstd::prelude::*;

verus! {

/// A proposed or emitted command: the source position it starts at, how many
/// source bytes it stands for, and its encoded bytes.
pub struct Block {
    pub index: usize,
    pub num_bytes_consumed: usize,
    pub data: Vec<u8>,
    pub debug_message: Option<String>,
}

/// The mathematical value of a [`Block`].
pub struct BlockView {
    pub index: int,
    pub num_bytes_consumed: int,
    pub data: Seq<u8>,
}

impl View for Block {
    type V = BlockView;

    open spec fn view(&self) -> BlockView {
        BlockView {
            index: self.index as int,
            num_bytes_consumed: self.num_bytes_consumed as int,
            data: self.data@,
        }
    }
}

/// The value of an optional block.
pub open spec fn opt_view(b: Option<Block>) -> Option<BlockView> {
    match b {
        Some(b) => Some(b@),
        None => None,
    }
}

/// Whether `a` is better than `b` when both start at the same position: it
/// stands for more source bytes, or as many with fewer encoded bytes.
pub open spec fn better_spec(a: BlockView, b: BlockView) -> bool {
    a.num_bytes_consumed > b.num_bytes_consumed || (a.num_bytes_consumed == b.num_bytes_consumed
        && a.data.len() < b.data.len())
}

impl Block {
    pub fn new(index: usize, num_bytes_consumed: usize, data: Vec<u8>) -> (r: Self)
        ensures
            r@ == (BlockView { index: index as int, num_bytes_consumed: num_bytes_consumed as int, data: data@ }),
            r.debug_message.is_none(),
    {
        Block { index, num_bytes_consumed, data, debug_message: None }
    }

    /// The block with a note that says what made it.
    pub fn set_debug_message(self, message: &str) -> (r: Self)
        ensures
            r@ == self@,
            r.debug_message matches Some(m) && m@ == message@,
    {
        let mut b = self;
        b.debug_message = Some(message.to_owned());
        b
    }

    /// The number of encoded bytes.
    pub fn len(&self) -> (r: usize)
        ensures
            r == self.data@.len(),
    {
        self.data.len()
    }

    pub fn is_better(&self, other: &Block) -> (r: bool)
        ensures
            r == better_spec(self@, other@),
    {
        if self.num_bytes_consumed > other.num_bytes_consumed {
            return true;
        }
        if self.num_bytes_consumed == other.num_bytes_consumed {
            return self.len() < other.len();
        }
        false
    }

    /// The encoded bytes.
    pub fn collect(self) -> (r: Vec<u8>)
        ensures
            r@ == self.data@,
    {
        self.data
    }

    /// How many bytes the block saves: source bytes it stands for less its encoded bytes.
    pub fn difference(&self) -> (r: usize)
        requires
            self.data@.len() <= self.num_bytes_consumed,
        ensures
            r == self.num_bytes_consumed - self.data@.len(),
    {
        self.num_bytes_consumed - self.len()
    }
}

} // verus!
