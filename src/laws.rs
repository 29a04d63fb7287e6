//! What holds of the journal across several operations.
use vstd::prelude::*;
use crate::block::{block_at, overwrite, WriteBlock};
use crate::phase::{applied, applies_to, commits_to, loaded_for_write, wrote, CommitPhase, JournalPhase};
use crate::block::JournalError;

verus! {

/// A block that has not been written since the last commit is read from the
/// data file, through a handle that is not writable.
pub proof fn lemma_clean_block_reads_data(jp: JournalPhase, b: u32)
    requires
        jp.wf(),
        !jp.dirty().contains_key(b),
    ensures
        !jp.read_handle_for(b).writable,
        jp.block_view(b) == block_at(jp.data_view(), b as int),
{
}

/// After a whole block `p` is written through a write handle, a read of that
/// block goes through a writable handle and gives `p`.
pub proof fn lemma_written_block_reads_back(pre: JournalPhase, post: JournalPhase, h: WriteBlock, p: Seq<u8>)
    requires
        post.wf(),
        post.dirty() == pre.dirty(),
        p.len() == 4096,
        wrote(pre, post, h, 0, p),
    ensures
        post.read_handle_for(h.data_block_id).writable,
        post.block_view(h.data_block_id) == p,
{
    assert(overwrite(pre.block_view(h.data_block_id), 0, p) =~= p);
}

/// A valid write handle and the read handle of the same block name the same
/// journal slot.
pub proof fn lemma_write_and_read_handles_agree(jp: JournalPhase, h: WriteBlock)
    requires
        jp.wf(),
        jp.write_handle_valid(h),
    ensures
        jp.read_handle_for(h.data_block_id).writable,
        jp.read_handle_for(h.data_block_id).index == h.index,
{
}

/// Writing back an empty dirty set leaves the data file byte for byte as it was.
pub proof fn lemma_apply_empty_keeps_data(data: Seq<u8>, journal: Seq<u8>)
    ensures
        applied(data, journal, Map::<u32, u32>::empty()) == data,
{
    assert(applied(data, journal, Map::<u32, u32>::empty()) =~= data);
}

/// Committing a journal phase and writing it back gives a journal phase that
/// shows every block of the data file with the bytes it showed before.
pub proof fn lemma_commit_then_apply_keeps_blocks(jp: JournalPhase, c: CommitPhase, next: JournalPhase)
    requires
        jp.wf(),
        commits_to(jp, c),
        applies_to(c, next),
    ensures
        forall|b: u32| jp.holds_block(b) ==> #[trigger] next.block_view(b) == jp.block_view(b),
{
    let order = choose|order: Seq<(u32, u32)>|
        crate::dirty::lists(jp.dirty(), order) && #[trigger] c.journal_view() == jp.journal_view().take(
            jp.next_slot() as int * 4096,
        ) + crate::record::commit_record(order);
    let used = jp.next_slot() as int * 4096;
    assert forall|b: u32| jp.holds_block(b) implies #[trigger] next.block_view(b) == jp.block_view(b) by {
        assert forall|i: int| 0 <= i < 4096 implies #[trigger] next.block_view(b)[i] == jp.block_view(b)[i] by {
            let x = b as int * 4096 + i;
            assert(x / 4096 == b as int);
            assert(x % 4096 == i);
            if jp.dirty().contains_key(b) {
                let s = jp.dirty()[b] as int;
                assert(s * 4096 + i < used);
                assert(c.journal_view()[s * 4096 + i] == jp.journal_view()[s * 4096 + i]);
            }
        }
        assert(next.block_view(b) =~= jp.block_view(b));
    }
}

/// `post` shows `p` as block `b` and every other block as `pre` does.
pub open spec fn puts_block(pre: JournalPhase, post: JournalPhase, b: u32, p: Seq<u8>) -> bool {
    &&& post.block_view(b) == p
    &&& forall|c: u32| c != b ==> #[trigger] post.block_view(c) == pre.block_view(c)
}

/// `post` shows every block as `pre` does: a load for write, a refused load,
/// a journal that grew (`install_journal`) or a data file that grew.
pub open spec fn keeps_blocks(pre: JournalPhase, post: JournalPhase) -> bool {
    forall|c: u32| #[trigger] post.block_view(c) == pre.block_view(c)
}

/// A run of steps over `states`: step `k` puts `patterns[k]` into block
/// `blocks[k]` where `writes[k]`, and keeps every block otherwise.
pub open spec fn is_run(states: Seq<JournalPhase>, blocks: Seq<u32>, patterns: Seq<Seq<u8>>, writes: Seq<bool>) -> bool {
    &&& states.len() == blocks.len() + 1
    &&& patterns.len() == blocks.len()
    &&& writes.len() == blocks.len()
    &&& forall|k: int| 0 <= k < blocks.len() ==> if #[trigger] writes[k] {
        puts_block(states[k], states[k + 1], blocks[k], patterns[k])
    } else {
        keeps_blocks(states[k], states[k + 1])
    }
}

/// Loading a block for write and then writing the whole block puts those
/// bytes in that block and keeps every other block.
pub proof fn lemma_load_then_write_puts_block(
    s0: JournalPhase,
    s1: JournalPhase,
    s2: JournalPhase,
    b: u32,
    h: WriteBlock,
    p: Seq<u8>,
)
    requires
        s1.wf(),
        loaded_for_write(s0, s1, b, Ok::<WriteBlock, JournalError>(h)),
        p.len() == 4096,
        wrote(s1, s2, h, 0, p),
    ensures
        puts_block(s0, s2, b, p),
{
    assert(overwrite(s1.block_view(b), 0, p) =~= p);
    assert forall|c: u32| c != b implies #[trigger] s2.block_view(c) == s0.block_view(c) by {
        assert(s1.block_view(c) == s0.block_view(c));
    }
}

proof fn lemma_write_kept_until(
    states: Seq<JournalPhase>,
    blocks: Seq<u32>,
    patterns: Seq<Seq<u8>>,
    writes: Seq<bool>,
    i: int,
    k: int,
)
    requires
        is_run(states, blocks, patterns, writes),
        0 <= i < k <= blocks.len(),
        writes[i],
        forall|j: int| i < j < k && #[trigger] writes[j] ==> blocks[j] != blocks[i],
    ensures
        states[k].block_view(blocks[i]) == patterns[i],
    decreases k - i,
{
    assert(writes[i] ==> puts_block(states[i], states[i + 1], blocks[i], patterns[i]));
    if k > i + 1 {
        lemma_write_kept_until(states, blocks, patterns, writes, i, k - 1);
        let j = k - 1;
        if writes[j] {
            assert(puts_block(states[j], states[j + 1], blocks[j], patterns[j]));
        } else {
            assert(keeps_blocks(states[j], states[j + 1]));
        }
    }
}

/// Over a run of writes to distinct blocks, with any number of steps that
/// keep every block between them (such as the journal growing), the last
/// state shows each block with the bytes written to it.
pub proof fn lemma_every_write_survives(
    states: Seq<JournalPhase>,
    blocks: Seq<u32>,
    patterns: Seq<Seq<u8>>,
    writes: Seq<bool>,
)
    requires
        is_run(states, blocks, patterns, writes),
        forall|i: int, j: int| 0 <= i < j < blocks.len() && writes[i] && writes[j] ==> blocks[i] != blocks[j],
    ensures
        forall|i: int| 0 <= i < blocks.len() && #[trigger] writes[i] ==> states.last().block_view(blocks[i]) == patterns[i],
{
    assert forall|i: int| 0 <= i < blocks.len() && #[trigger] writes[i] implies states.last().block_view(blocks[i])
        == patterns[i] by {
        assert forall|j: int| i < j < blocks.len() && #[trigger] writes[j] implies blocks[j] != blocks[i] by {}
        lemma_write_kept_until(states, blocks, patterns, writes, i, blocks.len() as int);
    }
}

/// Over such a run, a commit and its write-back leave each written block of
/// the data file with the bytes written to it.
pub proof fn lemma_every_write_written_back(
    states: Seq<JournalPhase>,
    blocks: Seq<u32>,
    patterns: Seq<Seq<u8>>,
    writes: Seq<bool>,
    c: CommitPhase,
    next: JournalPhase,
)
    requires
        is_run(states, blocks, patterns, writes),
        forall|i: int, j: int| 0 <= i < j < blocks.len() && writes[i] && writes[j] ==> blocks[i] != blocks[j],
        forall|i: int| 0 <= i < blocks.len() && #[trigger] writes[i] ==> states.last().holds_block(blocks[i]),
        states.last().wf(),
        commits_to(states.last(), c),
        applies_to(c, next),
    ensures
        forall|i: int| 0 <= i < blocks.len() && #[trigger] writes[i] ==> block_at(next.data_view(), blocks[i] as int)
            == patterns[i],
{
    lemma_every_write_survives(states, blocks, patterns, writes);
    lemma_commit_then_apply_keeps_blocks(states.last(), c, next);
    assert forall|i: int| 0 <= i < blocks.len() && #[trigger] writes[i] implies block_at(
        next.data_view(),
        blocks[i] as int,
    ) == patterns[i] by {
        assert(next.block_view(blocks[i]) == states.last().block_view(blocks[i]));
    }
}

} // verus!
