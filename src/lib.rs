//! A copy-on-write block journal over two memory-mapped files: a data file
//! holding the last committed image and a journal file holding shadow copies
//! of the blocks modified since.
pub mod block;
pub mod dirty;
pub mod laws;
pub mod mapped;
pub mod phase;
pub mod record;

pub use block::{BlockID, JournalError, ReadBlock, WriteBlock, BLOCK_SIZE_U64, BLOCK_SIZE_USIZE};
pub use phase::{CommitPhase, JournalPhase};
