//! Blocks, block handles and the errors of the journal.
use vstd::prelude::*;

verus! {

/// Identifier of a block: a data-block id or a journal-slot id.
pub type BlockID = u32;

/// Size in bytes of one block.
pub const BLOCK_SIZE_USIZE: usize = 4096;

/// Size in bytes of one block, as a file length.
pub const BLOCK_SIZE_U64: u64 = 4096;

/// Whether a byte sequence holds the whole of block `i`.
pub open spec fn has_block(s: Seq<u8>, i: int) -> bool {
    0 <= i && (i + 1) * 4096 <= s.len()
}

/// The 4096 bytes of block `i` of a byte sequence.
pub open spec fn block_at(s: Seq<u8>, i: int) -> Seq<u8> {
    s.subrange(i * 4096, i * 4096 + 4096)
}

/// `s` with the bytes from `at` on replaced by `src`.
pub open spec fn overwrite(s: Seq<u8>, at: int, src: Seq<u8>) -> Seq<u8> {
    Seq::new(s.len(), |i: int| if at <= i < at + src.len() { src[i - at] } else { s[i] })
}

/// Overwriting bytes inside block `blk` leaves every other block as it was.
pub proof fn lemma_overwrite_other_block(s: Seq<u8>, blk: int, at: int, src: Seq<u8>, other: int)
    requires
        has_block(s, blk),
        has_block(s, other),
        blk != other,
        blk * 4096 <= at,
        at + src.len() <= blk * 4096 + 4096,
    ensures
        block_at(overwrite(s, at, src), other) == block_at(s, other),
{
    assert(block_at(overwrite(s, at, src), other) =~= block_at(s, other));
}

/// Overwriting bytes inside block `blk` overwrites the same bytes of that block.
pub proof fn lemma_overwrite_same_block(s: Seq<u8>, blk: int, at: int, src: Seq<u8>)
    requires
        has_block(s, blk),
        blk * 4096 <= at,
        at + src.len() <= blk * 4096 + 4096,
    ensures
        block_at(overwrite(s, at, src), blk) == overwrite(block_at(s, blk), at - blk * 4096, src),
{
    assert(block_at(overwrite(s, at, src), blk) =~= overwrite(block_at(s, blk), at - blk * 4096, src));
}

/// Read access to one block. `writable` tells that the block's bytes lie in
/// the journal, at slot `index`; otherwise they lie in the data file, and
/// `index` is the block's own id there.
#[derive(Debug, Clone, Copy, PartialEq, Eq, Structural)]
pub struct ReadBlock {
    pub data_block_id: BlockID,
    pub writable: bool,
    pub index: BlockID,
}

/// Write access to one block, whose bytes lie in the journal at slot `index`.
#[derive(Debug, Clone, Copy, PartialEq, Eq, Structural)]
pub struct WriteBlock {
    pub data_block_id: BlockID,
    pub index: BlockID,
}

/// What can go wrong in the journal.
#[derive(Debug, Clone, Copy, PartialEq, Eq, Structural)]
pub enum JournalError {
    /// The journal has no free slot: the journal file must be remapped at
    /// `journal_len` bytes and installed with this `capacity` first.
    JournalFull { capacity: u32, journal_len: u64 },
    /// The journal capacity cannot grow past the largest slot id.
    CapacityExhausted,
    /// A handle no longer names where its block lives.
    StaleHandle,
    /// A byte range runs past the end of the block.
    OutOfBlock,
    /// A replacement mapping does not hold what the journal needs.
    MapMismatch,
    /// The data file cannot shrink.
    ShrinkUnsupported,
    /// Flushing a mapping to stable storage failed.
    Io,
}

} // verus!
