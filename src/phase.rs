//! The two phases of the journal: `JournalPhase` serves reads and
//! copy-on-write writes; `CommitPhase` holds a durable record of the dirty set
//! until its blocks are written back into the data file.
use vstd::prelude::*;
use ahash::AHashMap;
use memmap2::MmapMut;
use crate::block::{lemma_overwrite_other_block, lemma_overwrite_same_block, block_at, has_block, overwrite, BlockID, JournalError, ReadBlock, WriteBlock, BLOCK_SIZE_USIZE};
use crate::dirty::{dirty_clear, dirty_entries, dirty_get, dirty_insert, dirty_map, dirty_new, lists};
use crate::mapped::{map_bytes, map_copy_in, map_flush, map_len, map_range};
use crate::record::{commit_record, encode_record};

verus! {

/// The active phase: reads and copy-on-write writes over the data file, with
/// shadow copies of modified blocks in the journal file.
pub struct JournalPhase {
    data: MmapMut,
    journal: MmapMut,
    journal_capacity: u32,
    next_journal_block_id: BlockID,
    block_hashmap: AHashMap<BlockID, BlockID>,
}

/// The capacity that a full journal grows to: a quarter more, at least one slot.
pub open spec fn grown_capacity(capacity: u32) -> int {
    capacity + if capacity / 4 > 1 { capacity / 4 } else { 1 }
}

/// What a phase with this dirty set shows as block `b`.
pub open spec fn block_view_of(data: Seq<u8>, journal: Seq<u8>, dirty: Map<u32, u32>, b: u32) -> Seq<u8> {
    if dirty.contains_key(b) {
        block_at(journal, dirty[b] as int)
    } else {
        block_at(data, b as int)
    }
}

/// The well-formedness shared by both phases: `next` slots are used, one per
/// dirty block, each in a distinct slot that the journal holds, and each
/// dirty block is a block of the data file.
pub open spec fn slots_wf(data: Seq<u8>, journal: Seq<u8>, dirty: Map<u32, u32>, next: u32) -> bool {
    &&& data.len() <= usize::MAX
    &&& journal.len() <= usize::MAX
    &&& dirty.dom().finite()
    &&& dirty.dom().len() == next
    &&& next as int * 4096 <= journal.len()
    &&& forall|b: u32| #[trigger] dirty.contains_key(b) ==> has_block(data, b as int) && dirty[b] < next
    &&& forall|b1: u32, b2: u32|
        #[trigger] dirty.contains_key(b1) && #[trigger] dirty.contains_key(b2) && b1 != b2 ==> dirty[b1] != dirty[b2]
}

/// How `load_write_block` of block `b` takes the phase from `pre` to `post`
/// with result `r`. No block changes its bytes. A dirty block keeps its slot;
/// a new one gets the next slot, holding a copy of its data-file bytes, when
/// the journal has room; otherwise the error says how the journal must grow.
pub open spec fn loaded_for_write(pre: JournalPhase, post: JournalPhase, b: u32, r: Result<WriteBlock, JournalError>) -> bool {
    &&& forall|c: u32| #[trigger] post.block_view(c) == pre.block_view(c)
    &&& post.data_view() == pre.data_view()
    &&& post.capacity() == pre.capacity()
    &&& match r {
        Ok(h) => {
            &&& h.data_block_id == b
            &&& post.write_handle_valid(h)
            &&& if pre.dirty().contains_key(b) {
                post == pre
            } else {
                &&& pre.has_room()
                &&& post.dirty() == pre.dirty().insert(b, pre.next_slot())
                &&& post.next_slot() == pre.next_slot() + 1
                &&& post.journal_view() == overwrite(
                    pre.journal_view(),
                    pre.next_slot() * 4096,
                    block_at(pre.data_view(), b as int),
                )
            }
        },
        Err(e) => !pre.dirty().contains_key(b) && !pre.has_room() && e == pre.growth_error() && post == pre,
    }
}

/// How a successful `write_bytes` through `h` of `bytes` at `offset` takes
/// the phase from `pre` to `post`: the handle's block gets those bytes, every
/// other block keeps its own.
pub open spec fn wrote(pre: JournalPhase, post: JournalPhase, h: WriteBlock, offset: int, bytes: Seq<u8>) -> bool {
    &&& pre.write_handle_valid(h)
    &&& offset + bytes.len() <= 4096
    &&& post.journal_view() == overwrite(pre.journal_view(), h.index as int * 4096 + offset, bytes)
    &&& post.block_view(h.data_block_id) == overwrite(pre.block_view(h.data_block_id), offset, bytes)
    &&& forall|c: u32| c != h.data_block_id ==> #[trigger] post.block_view(c) == pre.block_view(c)
}

/// Whether two byte slices hold the same bytes.
fn bytes_equal(a: &[u8], b: &[u8]) -> (r: bool)
    ensures
        r == (a@ == b@),
{
    if a.len() != b.len() {
        return false;
    }
    let mut i: usize = 0;
    while i < a.len()
        invariant
            a@.len() == b@.len(),
            i <= a@.len(),
            a@.take(i as int) == b@.take(i as int),
        decreases a@.len() - i,
    {
        if a[i] != b[i] {
            assert(a@[i as int] != b@[i as int]);
            return false;
        }
        assert(a@.take(i as int + 1) =~= a@.take(i as int).push(a@[i as int]));
        assert(b@.take(i as int + 1) =~= b@.take(i as int).push(b@[i as int]));
        i = i + 1;
    }
    assert(a@ =~= a@.take(i as int));
    assert(b@ =~= b@.take(i as int));
    true
}

impl JournalPhase {
    /// The bytes of the data file.
    pub closed spec fn data_view(&self) -> Seq<u8> {
        map_bytes(self.data)
    }

    /// The bytes of the journal file.
    pub closed spec fn journal_view(&self) -> Seq<u8> {
        map_bytes(self.journal)
    }

    /// The dirty set, from data-block id to journal-slot id.
    pub closed spec fn dirty(&self) -> Map<u32, u32> {
        dirty_map(self.block_hashmap)
    }

    /// The number of journal slots that may be used before the journal grows.
    pub closed spec fn capacity(&self) -> u32 {
        self.journal_capacity
    }

    /// The next journal slot to be used.
    pub closed spec fn next_slot(&self) -> u32 {
        self.next_journal_block_id
    }

    pub open spec fn wf(&self) -> bool {
        &&& slots_wf(self.data_view(), self.journal_view(), self.dirty(), self.next_slot())
        &&& self.next_slot() <= self.capacity()
    }

    /// The current bytes of block `b`.
    pub open spec fn block_view(&self, b: u32) -> Seq<u8> {
        block_view_of(self.data_view(), self.journal_view(), self.dirty(), b)
    }

    /// Whether `b` is a block of the data file.
    pub open spec fn holds_block(&self, b: u32) -> bool {
        has_block(self.data_view(), b as int)
    }

    /// The read handle that names where block `b` lives now.
    pub open spec fn read_handle_for(&self, b: u32) -> ReadBlock {
        if self.dirty().contains_key(b) {
            ReadBlock { data_block_id: b, writable: true, index: self.dirty()[b] }
        } else {
            ReadBlock { data_block_id: b, writable: false, index: b }
        }
    }

    /// Whether a read handle still names where its block lives.
    pub open spec fn read_handle_valid(&self, h: ReadBlock) -> bool {
        self.holds_block(h.data_block_id) && h == self.read_handle_for(h.data_block_id)
    }

    /// Whether a write handle still names the journal slot of its block.
    pub open spec fn write_handle_valid(&self, h: WriteBlock) -> bool {
        self.dirty().contains_key(h.data_block_id) && self.dirty()[h.data_block_id] == h.index
    }

    /// Whether the next new dirty block finds a free slot in the journal.
    pub open spec fn has_room(&self) -> bool {
        self.next_slot() < self.capacity() && (self.next_slot() + 1) * 4096 <= self.journal_view().len()
    }

    /// The error that a write to a new block meets when there is no room.
    pub open spec fn growth_error(&self) -> JournalError {
        if self.next_slot() < self.capacity() {
            JournalError::JournalFull {
                capacity: self.capacity(),
                journal_len: (self.capacity() * 4096) as u64,
            }
        } else if grown_capacity(self.capacity()) <= u32::MAX {
            JournalError::JournalFull {
                capacity: grown_capacity(self.capacity()) as u32,
                journal_len: (grown_capacity(self.capacity()) * 4096) as u64,
            }
        } else {
            JournalError::CapacityExhausted
        }
    }

    /// A fresh phase over a data map and a journal map, with no dirty block.
    /// The two maps must be of two different files, and nothing else may
    /// change those files while they are mapped: every statement about the
    /// bytes of a map rests on that.
    pub fn new(data: MmapMut, journal: MmapMut, journal_capacity: u32) -> (r: Self)
        ensures
            r.wf(),
            r.data_view() == map_bytes(data),
            r.journal_view() == map_bytes(journal),
            r.dirty() == Map::<u32, u32>::empty(),
            r.next_slot() == 0,
            r.capacity() == journal_capacity,
    {
        // Both lengths are `usize`: every offset into the maps fits.
        let _data_len = map_len(&data);
        let _journal_len = map_len(&journal);
        let block_hashmap = dirty_new();
        JournalPhase { data, journal, journal_capacity, next_journal_block_id: 0, block_hashmap }
    }

    /// The number of whole blocks in the data file.
    pub fn block_count(&self) -> (r: u64)
        ensures
            r as int == self.data_view().len() / 4096,
    {
        (map_len(&self.data) / BLOCK_SIZE_USIZE) as u64
    }

    /// The length of the data file in bytes.
    pub fn data_len(&self) -> (r: usize)
        ensures
            r == self.data_view().len(),
    {
        map_len(&self.data)
    }

    /// The length of the journal file in bytes.
    pub fn journal_len(&self) -> (r: usize)
        ensures
            r == self.journal_view().len(),
    {
        map_len(&self.journal)
    }

    /// The number of journal slots that may be used before the journal grows.
    pub fn journal_capacity(&self) -> (r: u32)
        ensures
            r == self.capacity(),
    {
        self.journal_capacity
    }

    /// The next journal slot to be used, which is also the number of dirty blocks.
    pub fn next_journal_block_id(&self) -> (r: BlockID)
        ensures
            r == self.next_slot(),
    {
        self.next_journal_block_id
    }

    /// The bytes of the data file.
    pub fn data_bytes(&self) -> (r: &[u8])
        ensures
            r@ == self.data_view(),
    {
        let n = map_len(&self.data);
        map_range(&self.data, 0, n)
    }

    /// The bytes of the journal file.
    pub fn journal_bytes(&self) -> (r: &[u8])
        ensures
            r@ == self.journal_view(),
    {
        let n = map_len(&self.journal);
        map_range(&self.journal, 0, n)
    }

    /// A handle on block `block_id`: into its journal slot, writable, if the
    /// block is dirty, else into the data file.
    pub fn load_read_block(&self, block_id: BlockID) -> (r: ReadBlock)
        requires
            self.wf(),
        ensures
            r == self.read_handle_for(block_id),
    {
        match dirty_get(&self.block_hashmap, block_id) {
            Some(slot) => ReadBlock { data_block_id: block_id, writable: true, index: slot },
            None => ReadBlock { data_block_id: block_id, writable: false, index: block_id },
        }
    }

    /// A write handle on block `block_id`, which is not dirty: copies its
    /// bytes from the data file into the next journal slot.
    fn allocate_slot(&mut self, block_id: BlockID) -> (r: Result<WriteBlock, JournalError>)
        requires
            old(self).wf(),
            old(self).holds_block(block_id),
            !old(self).dirty().contains_key(block_id),
        ensures
            final(self).wf(),
            loaded_for_write(*old(self), *final(self), block_id, r),
    {
        let journal_len = map_len(&self.journal);
        let next = self.next_journal_block_id;
        let cap = self.journal_capacity;
        if next >= cap || (next as u64 + 1) * 4096 > journal_len as u64 {
            if next < cap {
                return Err(JournalError::JournalFull { capacity: cap, journal_len: cap as u64 * 4096 });
            }
            let step: u32 = if cap / 4 > 1 { cap / 4 } else { 1 };
            if cap as u64 + step as u64 > u32::MAX as u64 {
                return Err(JournalError::CapacityExhausted);
            }
            let grown = cap + step;
            return Err(JournalError::JournalFull { capacity: grown, journal_len: grown as u64 * 4096 });
        }
        let src = (block_id as usize) * BLOCK_SIZE_USIZE;
        let at = (next as usize) * BLOCK_SIZE_USIZE;
        let ghost pre = *self;
        let bytes = map_range(&self.data, src, src + BLOCK_SIZE_USIZE);
        map_copy_in(&mut self.journal, at, bytes);
        dirty_insert(&mut self.block_hashmap, block_id, next);
        self.next_journal_block_id = next + 1;
        proof {
            let j = pre.journal_view();
            let d = pre.dirty();
            assert(self.dirty().dom() =~= d.dom().insert(block_id));
            assert forall|c: u32| #[trigger] self.block_view(c) == pre.block_view(c) by {
                if c == block_id {
                    assert(block_at(self.journal_view(), next as int) =~= block_at(pre.data_view(), c as int));
                } else if d.contains_key(c) {
                    lemma_overwrite_other_block(j, next as int, next as int * 4096, bytes@, d[c] as int);
                }
            }
        }
        Ok(WriteBlock { data_block_id: block_id, index: next })
    }

    /// A write handle on block `block_id`. A dirty block is written in its
    /// own journal slot; a new one gets the next slot, holding a copy of its
    /// data-file bytes. When the journal has no room for it, the error names
    /// the capacity and the journal length to install first.
    pub fn load_write_block(&mut self, block_id: BlockID) -> (r: Result<WriteBlock, JournalError>)
        requires
            old(self).wf(),
            old(self).holds_block(block_id),
        ensures
            final(self).wf(),
            loaded_for_write(*old(self), *final(self), block_id, r),
    {
        match dirty_get(&self.block_hashmap, block_id) {
            Some(slot) => Ok(WriteBlock { data_block_id: block_id, index: slot }),
            None => self.allocate_slot(block_id),
        }
    }

    /// A write handle on the block that `read_block` names. A writable
    /// handle gives the same journal slot; otherwise the block is loaded for
    /// write as `load_write_block` does, and `read_block` is turned to its new
    /// journal slot, so that reads through it see the journal copy.
    pub fn load_write_block_from_read_block(&mut self, read_block: &mut ReadBlock) -> (r: Result<
        WriteBlock,
        JournalError,
    >)
        requires
            old(self).wf(),
        ensures
            final(self).wf(),
            !old(self).read_handle_valid(*old(read_block)) ==> r == Err::<WriteBlock, JournalError>(
                JournalError::StaleHandle,
            ) && *final(self) == *old(self) && *final(read_block) == *old(read_block),
            old(self).read_handle_valid(*old(read_block)) ==> {
                &&& loaded_for_write(*old(self), *final(self), old(read_block).data_block_id, r)
                &&& *final(read_block) == (if r is Ok {
                    final(self).read_handle_for(old(read_block).data_block_id)
                } else {
                    *old(read_block)
                })
            },
    {
        let data_len = map_len(&self.data);
        let b = read_block.data_block_id;
        if (b as usize) >= data_len / BLOCK_SIZE_USIZE {
            return Err(JournalError::StaleHandle);
        }
        match dirty_get(&self.block_hashmap, b) {
            Some(slot) => {
                if !read_block.writable || read_block.index != slot {
                    return Err(JournalError::StaleHandle);
                }
                Ok(WriteBlock { data_block_id: b, index: slot })
            },
            None => {
                if read_block.writable || read_block.index != b {
                    return Err(JournalError::StaleHandle);
                }
                let r = self.allocate_slot(b);
                if let Ok(h) = r {
                    read_block.writable = true;
                    read_block.index = h.index;
                }
                r
            },
        }
    }

    /// The bytes of the block that a write handle names.
    pub fn write_block_bytes(&self, h: &WriteBlock) -> (r: Result<&[u8], JournalError>)
        requires
            self.wf(),
        ensures
            match r {
                Ok(s) => self.write_handle_valid(*h) && s@ == self.block_view(h.data_block_id),
                Err(e) => !self.write_handle_valid(*h) && e == JournalError::StaleHandle,
            },
    {
        match dirty_get(&self.block_hashmap, h.data_block_id) {
            Some(slot) => {
                if h.index != slot {
                    return Err(JournalError::StaleHandle);
                }
                let at = (slot as usize) * BLOCK_SIZE_USIZE;
                Ok(map_range(&self.journal, at, at + BLOCK_SIZE_USIZE))
            },
            None => Err(JournalError::StaleHandle),
        }
    }

    /// Writes `bytes` into the block that a write handle names, from byte
    /// `offset` of the block on. No other block changes.
    pub fn write_bytes(&mut self, h: &WriteBlock, offset: usize, bytes: &[u8]) -> (r: Result<(), JournalError>)
        requires
            old(self).wf(),
        ensures
            final(self).wf(),
            final(self).data_view() == old(self).data_view(),
            final(self).dirty() == old(self).dirty(),
            final(self).next_slot() == old(self).next_slot(),
            final(self).capacity() == old(self).capacity(),
            match r {
                Ok(()) => wrote(*old(self), *final(self), *h, offset as int, bytes@),
                Err(e) => *final(self) == *old(self) && if !old(self).write_handle_valid(*h) {
                    e == JournalError::StaleHandle
                } else {
                    offset + bytes@.len() > 4096 && e == JournalError::OutOfBlock
                },
            },
    {
        let slot = match dirty_get(&self.block_hashmap, h.data_block_id) {
            Some(slot) => slot,
            None => return Err(JournalError::StaleHandle),
        };
        if h.index != slot {
            return Err(JournalError::StaleHandle);
        }
        if offset > BLOCK_SIZE_USIZE || bytes.len() > BLOCK_SIZE_USIZE - offset {
            return Err(JournalError::OutOfBlock);
        }
        let ghost pre = *self;
        let at = (slot as usize) * BLOCK_SIZE_USIZE + offset;
        map_copy_in(&mut self.journal, at, bytes);
        proof {
            let j = pre.journal_view();
            let d = pre.dirty();
            lemma_overwrite_same_block(j, slot as int, at as int, bytes@);
            assert forall|c: u32| c != h.data_block_id implies #[trigger] self.block_view(c) == pre.block_view(c) by {
                if d.contains_key(c) {
                    lemma_overwrite_other_block(j, slot as int, at as int, bytes@, d[c] as int);
                }
            }
        }
        Ok(())
    }

    /// Replaces the journal mapping by `map`, a mapping of the journal file
    /// after its length changed, and sets the capacity. `map` must hold every
    /// used slot with the bytes it holds now, and the capacity must cover the
    /// used slots; otherwise nothing changes.
    pub fn install_journal(&mut self, map: MmapMut, capacity: u32) -> (r: Result<(), JournalError>)
        requires
            old(self).wf(),
        ensures
            final(self).wf(),
            ({
                let used = old(self).next_slot() as int * 4096;
                let fits = capacity >= old(self).next_slot() && map_bytes(map).len() >= used
                    && map_bytes(map).take(used) == old(self).journal_view().take(used);
                &&& fits <==> r is Ok
                &&& fits ==> {
                    &&& final(self).journal_view() == map_bytes(map)
                    &&& final(self).capacity() == capacity
                    &&& final(self).data_view() == old(self).data_view()
                    &&& final(self).dirty() == old(self).dirty()
                    &&& final(self).next_slot() == old(self).next_slot()
                    &&& forall|c: u32| #[trigger] final(self).block_view(c) == old(self).block_view(c)
                }
                &&& !fits ==> r == Err::<(), JournalError>(JournalError::MapMismatch) && *final(self) == *old(self)
            }),
    {
        let next = self.next_journal_block_id;
        let new_len = map_len(&map);
        if capacity < next || (new_len as u64) < next as u64 * 4096 {
            return Err(JournalError::MapMismatch);
        }
        let used = (next as usize) * BLOCK_SIZE_USIZE;
        let same = bytes_equal(map_range(&self.journal, 0, used), map_range(&map, 0, used));
        if !same {
            assert(map_bytes(map).subrange(0, used as int) =~= map_bytes(map).take(used as int));
            assert(self.journal_view().subrange(0, used as int) =~= self.journal_view().take(used as int));
            return Err(JournalError::MapMismatch);
        }
        let ghost pre = *self;
        self.journal = map;
        self.journal_capacity = capacity;
        proof {
            let j = pre.journal_view();
            let j2 = self.journal_view();
            assert(j2.subrange(0, used as int) =~= j2.take(used as int));
            assert(j.subrange(0, used as int) =~= j.take(used as int));
            assert forall|c: u32| #[trigger] self.block_view(c) == pre.block_view(c) by {
                if pre.dirty().contains_key(c) {
                    let s = pre.dirty()[c] as int;
                    assert(block_at(j2, s) =~= block_at(j, s)) by {
                        assert(s * 4096 + 4096 <= used);
                        assert forall|i: int| 0 <= i < 4096 implies #[trigger] block_at(j2, s)[i] == block_at(j, s)[i] by {
                            assert(j2.take(used as int)[s * 4096 + i] == j.take(used as int)[s * 4096 + i]);
                        }
                    }
                }
            }
        }
        Ok(())
    }

    /// The length in bytes that the data file takes for `new_number_of_block`
    /// blocks. The data file cannot shrink.
    pub fn resize_len(&self, new_number_of_block: u32) -> (r: Result<u64, JournalError>)
        ensures
            r == if (new_number_of_block as int * 4096) < self.data_view().len() {
                Err::<u64, JournalError>(JournalError::ShrinkUnsupported)
            } else {
                Ok::<u64, JournalError>((new_number_of_block as int * 4096) as u64)
            },
    {
        let new_size = new_number_of_block as u64 * 4096;
        if (new_size as u128) < map_len(&self.data) as u128 {
            Err(JournalError::ShrinkUnsupported)
        } else {
            Ok(new_size)
        }
    }

    /// Grows the data file to `new_number_of_block` blocks: `data` is the
    /// mapping of the data file at its new length, starting with the bytes
    /// that the data file holds now. A smaller size is refused, as is a
    /// mapping of another length or with other leading bytes; then nothing
    /// changes.
    pub fn resize(&mut self, new_number_of_block: u32, data: MmapMut) -> (r: Result<(), JournalError>)
        requires
            old(self).wf(),
        ensures
            final(self).wf(),
            ({
                let new_size = new_number_of_block as int * 4096;
                if new_size < old(self).data_view().len() {
                    r == Err::<(), JournalError>(JournalError::ShrinkUnsupported) && *final(self) == *old(self)
                } else if map_bytes(data).len() != new_size || map_bytes(data).take(
                    old(self).data_view().len() as int,
                ) != old(self).data_view() {
                    r == Err::<(), JournalError>(JournalError::MapMismatch) && *final(self) == *old(self)
                } else {
                    &&& r is Ok
                    &&& final(self).data_view() == map_bytes(data)
                    &&& final(self).data_view().take(old(self).data_view().len() as int) == old(self).data_view()
                    &&& forall|c: u32| old(self).holds_block(c) ==> #[trigger] final(self).block_view(c)
                        == old(self).block_view(c)
                    &&& final(self).journal_view() == old(self).journal_view()
                    &&& final(self).dirty() == old(self).dirty()
                    &&& final(self).next_slot() == old(self).next_slot()
                    &&& final(self).capacity() == old(self).capacity()
                }
            }),
    {
        let new_size = match self.resize_len(new_number_of_block) {
            Ok(n) => n,
            Err(e) => return Err(e),
        };
        if map_len(&data) as u128 != new_size as u128 {
            return Err(JournalError::MapMismatch);
        }
        let old_len = map_len(&self.data);
        let same = bytes_equal(map_range(&self.data, 0, old_len), map_range(&data, 0, old_len));
        if !same {
            assert(map_bytes(data).subrange(0, old_len as int) =~= map_bytes(data).take(old_len as int));
            assert(self.data_view().subrange(0, old_len as int) =~= self.data_view());
            return Err(JournalError::MapMismatch);
        }
        let ghost pre = *self;
        self.data = data;
        proof {
            let d = pre.data_view();
            let d2 = self.data_view();
            assert(d2.subrange(0, old_len as int) =~= d2.take(old_len as int));
            assert(d.subrange(0, old_len as int) =~= d);
            assert forall|c: u32| pre.holds_block(c) implies #[trigger] self.block_view(c) == pre.block_view(c) by {
                if !pre.dirty().contains_key(c) {
                    assert forall|i: int| 0 <= i < 4096 implies #[trigger] block_at(d2, c as int)[i]
                        == block_at(d, c as int)[i] by {
                        assert(d2.take(old_len as int)[c as int * 4096 + i] == d[c as int * 4096 + i]);
                    }
                    assert(block_at(d2, c as int) =~= block_at(d, c as int));
                }
            }
        }
        Ok(())
    }

    /// The length in bytes of the journal file once committed: one block per
    /// dirty entry, then the commit record.
    pub fn commit_len(&self) -> (r: u64)
        ensures
            r == self.next_slot() as int * 4104 + 4,
    {
        self.next_journal_block_id as u64 * 4104 + 4
    }

    /// The bytes of the block that a read handle names.
    pub fn read_bytes(&self, h: &ReadBlock) -> (r: Result<&[u8], JournalError>)
        requires
            self.wf(),
        ensures
            match r {
                Ok(s) => self.read_handle_valid(*h) && s@ == self.block_view(h.data_block_id),
                Err(e) => !self.read_handle_valid(*h) && e == JournalError::StaleHandle,
            },
    {
        let found = dirty_get(&self.block_hashmap, h.data_block_id);
        let data_len = map_len(&self.data);
        if (h.data_block_id as usize) >= data_len / BLOCK_SIZE_USIZE {
            return Err(JournalError::StaleHandle);
        }
        let start = (h.data_block_id as usize) * BLOCK_SIZE_USIZE;
        match found {
            Some(slot) => {
                if !h.writable || h.index != slot {
                    return Err(JournalError::StaleHandle);
                }
                let at = (slot as usize) * BLOCK_SIZE_USIZE;
                Ok(map_range(&self.journal, at, at + BLOCK_SIZE_USIZE))
            },
            None => {
                if h.writable || h.index != h.data_block_id {
                    return Err(JournalError::StaleHandle);
                }
                Ok(map_range(&self.data, start, start + BLOCK_SIZE_USIZE))
            },
        }
    }
}

} // verus!

verus! {

/// The data file with the block of each dirty entry replaced by the bytes of
/// its journal slot.
pub open spec fn applied(data: Seq<u8>, journal: Seq<u8>, dirty: Map<u32, u32>) -> Seq<u8> {
    applied_keys(data, journal, dirty, dirty.dom())
}

/// The data file with the blocks in `keys` replaced by their journal slots.
pub open spec fn applied_keys(data: Seq<u8>, journal: Seq<u8>, dirty: Map<u32, u32>, keys: Set<u32>) -> Seq<u8> {
    Seq::new(
        data.len(),
        |i: int|
            if i / 4096 <= u32::MAX && keys.contains((i / 4096) as u32) && dirty.contains_key((i / 4096) as u32) {
                journal[dirty[(i / 4096) as u32] * 4096 + i % 4096]
            } else {
                data[i]
            },
    )
}

/// The phase between a commit and its write-back: the dirty set is recorded
/// durably at the end of the journal file.
pub struct CommitPhase {
    data: MmapMut,
    journal: MmapMut,
    journal_capacity: u32,
    block_hashmap: AHashMap<BlockID, BlockID>,
}

impl CommitPhase {
    /// The bytes of the data file.
    pub closed spec fn data_view(&self) -> Seq<u8> {
        map_bytes(self.data)
    }

    /// The bytes of the journal file.
    pub closed spec fn journal_view(&self) -> Seq<u8> {
        map_bytes(self.journal)
    }

    /// The dirty set, from data-block id to journal-slot id.
    pub closed spec fn dirty(&self) -> Map<u32, u32> {
        dirty_map(self.block_hashmap)
    }

    /// The journal capacity, kept for the next journal phase.
    pub closed spec fn capacity(&self) -> u32 {
        self.journal_capacity
    }

    pub open spec fn wf(&self) -> bool {
        &&& self.dirty().dom().len() <= u32::MAX
        &&& slots_wf(self.data_view(), self.journal_view(), self.dirty(), self.dirty().dom().len() as u32)
    }

    /// The bytes of the data file.
    pub fn data_bytes(&self) -> (r: &[u8])
        ensures
            r@ == self.data_view(),
    {
        let n = map_len(&self.data);
        map_range(&self.data, 0, n)
    }

    /// The bytes of the journal file.
    pub fn journal_bytes(&self) -> (r: &[u8])
        ensures
            r@ == self.journal_view(),
    {
        let n = map_len(&self.journal);
        map_range(&self.journal, 0, n)
    }

    /// The journal capacity, kept for the next journal phase.
    pub fn journal_capacity(&self) -> (r: u32)
        ensures
            r == self.capacity(),
    {
        self.journal_capacity
    }

    /// The bytes of block `b` that the write-back will leave in the data file.
    pub open spec fn block_view(&self, b: u32) -> Seq<u8> {
        block_view_of(self.data_view(), self.journal_view(), self.dirty(), b)
    }
}

/// `c` is the commit of `jp`: same data file, dirty set and capacity, and a
/// journal file of the used slots followed by the commit record of the dirty
/// set, listed in some order.
pub open spec fn commits_to(jp: JournalPhase, c: CommitPhase) -> bool {
    &&& c.data_view() == jp.data_view()
    &&& c.dirty() == jp.dirty()
    &&& c.capacity() == jp.capacity()
    &&& exists|order: Seq<(u32, u32)>|
        lists(jp.dirty(), order) && #[trigger] c.journal_view() == jp.journal_view().take(
            jp.next_slot() as int * 4096,
        ) + commit_record(order)
}

/// `jp` is the write-back of `c`: the data file with every dirty block
/// replaced by its journal slot, the same journal, no dirty block, and the
/// same capacity.
pub open spec fn applies_to(c: CommitPhase, jp: JournalPhase) -> bool {
    &&& jp.data_view() == applied(c.data_view(), c.journal_view(), c.dirty())
    &&& jp.journal_view() == c.journal_view()
    &&& jp.dirty() == Map::<u32, u32>::empty()
    &&& jp.next_slot() == 0
    &&& jp.capacity() == c.capacity()
}

/// `post` is `pre` with the commit record of its dirty set written after the
/// last used slot, the dirty set listed in some order.
pub open spec fn record_written(pre: JournalPhase, post: JournalPhase) -> bool {
    &&& post.data_view() == pre.data_view()
    &&& post.dirty() == pre.dirty()
    &&& post.next_slot() == pre.next_slot()
    &&& post.capacity() == pre.capacity()
    &&& exists|order: Seq<(u32, u32)>|
        lists(pre.dirty(), order) && #[trigger] post.journal_view() == pre.journal_view().take(
            pre.next_slot() as int * 4096,
        ) + commit_record(order)
}

impl JournalPhase {
    /// Writes the commit record of the dirty set after the last used slot.
    /// The journal file must have exactly the committed length (`commit_len`).
    pub fn write_commit_record(&mut self)
        requires
            old(self).wf(),
            old(self).journal_view().len() == old(self).next_slot() as int * 4104 + 4,
        ensures
            final(self).wf(),
            record_written(*old(self), *final(self)),
    {
        let entries = dirty_entries(&self.block_hashmap);
        let record = encode_record(&entries);
        proof {
            crate::record::lemma_record_round_trip(entries@);
        }
        let at = (self.next_journal_block_id as usize) * BLOCK_SIZE_USIZE;
        let ghost pre = *self;
        map_copy_in(&mut self.journal, at, record.as_slice());
        proof {
            assert(self.journal_view() =~= pre.journal_view().take(at as int) + commit_record(entries@));
        }
    }
}

impl CommitPhase {
    /// Commits a journal phase: writes the commit record of its dirty set
    /// after the last used slot (`write_commit_record`) and flushes the
    /// journal. The journal file must already have exactly the committed
    /// length (`commit_len`).
    pub fn from_journal_phase(journal_phase: JournalPhase) -> (r: Result<Self, JournalError>)
        requires
            journal_phase.wf(),
            journal_phase.journal_view().len() == journal_phase.next_slot() as int * 4104 + 4,
        ensures
            match r {
                Ok(c) => c.wf() && commits_to(journal_phase, c),
                Err(e) => e == JournalError::Io,
            },
    {
        let mut jp = journal_phase;
        jp.write_commit_record();
        if map_flush(&jp.journal).is_err() {
            return Err(JournalError::Io);
        }
        let ghost written = jp;
        let c = CommitPhase {
            data: jp.data,
            journal: jp.journal,
            journal_capacity: jp.journal_capacity,
            block_hashmap: jp.block_hashmap,
        };
        proof {
            assert forall|b: u32| #[trigger] c.dirty().contains_key(b) implies has_block(c.data_view(), b as int)
                && c.dirty()[b] < c.dirty().dom().len() by {
                assert(written.dirty().contains_key(b));
            }
        }
        Ok(c)
    }

    /// Copies each dirty block's journal slot over its block in the data file.
    pub fn write_back(&mut self)
        requires
            old(self).wf(),
        ensures
            final(self).wf(),
            final(self).data_view() == applied(old(self).data_view(), old(self).journal_view(), old(self).dirty()),
            final(self).journal_view() == old(self).journal_view(),
            final(self).dirty() == old(self).dirty(),
            final(self).capacity() == old(self).capacity(),
    {
        let entries = dirty_entries(&self.block_hashmap);
        let ghost pre = *self;
        let ghost data0 = self.data_view();
        let ghost journal = self.journal_view();
        let ghost dirty = self.dirty();
        let ghost mut done: Set<u32> = Set::empty();
        let mut k: usize = 0;
        while k < entries.len()
            invariant
                k <= entries@.len(),
                lists(dirty, entries@),
                self.wf(),
                self.journal_view() == journal,
                self.dirty() == dirty,
                self.capacity() == pre.capacity(),
                self.data_view().len() == data0.len(),
                self.data_view() == applied_keys(data0, journal, dirty, done),
                forall|j: int| 0 <= j < k ==> done.contains(#[trigger] entries@[j].0),
                forall|b: u32| done.contains(b) ==> dirty.contains_key(b),
            decreases entries@.len() - k,
        {
            let (b, slot) = entries[k];
            assert(dirty.contains_key(entries@[k as int].0));
            let src = (slot as usize) * BLOCK_SIZE_USIZE;
            let dst = (b as usize) * BLOCK_SIZE_USIZE;
            map_copy_in(&mut self.data, dst, map_range(&self.journal, src, src + BLOCK_SIZE_USIZE));
            proof {
                let new_done = done.insert(b);
                assert forall|i: int| 0 <= i < data0.len() implies #[trigger] self.data_view()[i]
                    == applied_keys(data0, journal, dirty, new_done)[i] by {
                    if dst <= i < dst + 4096 {
                        assert(i / 4096 == b as int);
                        assert(i % 4096 == i - dst);
                    } else {
                        assert(i / 4096 != b as int);
                    }
                }
                assert(self.data_view() =~= applied_keys(data0, journal, dirty, new_done));
                done = new_done;
                assert forall|bb: u32| #[trigger] self.dirty().contains_key(bb) implies has_block(self.data_view(), bb as int)
                    && self.dirty()[bb] < self.dirty().dom().len() by {
                    assert(dirty.contains_key(bb));
                }
            }
            k = k + 1;
        }
        proof {
            assert forall|b: u32| done.contains(b) <==> dirty.dom().contains(b) by {
                if dirty.contains_key(b) {
                    let i = choose|i: int| 0 <= i < entries@.len() && #[trigger] entries@[i].0 == b;
                }
            }
            assert(done =~= dirty.dom());
        }
    }
}

impl JournalPhase {
    /// Writes a committed journal back: copies each dirty block's journal
    /// slot over its block in the data file (`write_back`), flushes the data
    /// file, and starts a journal phase with no dirty block and the same
    /// capacity.
    pub fn from_commit_phase(commit_phase: CommitPhase) -> (r: Result<Self, JournalError>)
        requires
            commit_phase.wf(),
        ensures
            match r {
                Ok(jp) => jp.wf() && applies_to(commit_phase, jp),
                Err(e) => e == JournalError::Io,
            },
    {
        let mut c = commit_phase;
        c.write_back();
        if map_flush(&c.data).is_err() {
            return Err(JournalError::Io);
        }
        dirty_clear(&mut c.block_hashmap);
        let jp = JournalPhase {
            data: c.data,
            journal: c.journal,
            journal_capacity: c.journal_capacity,
            next_journal_block_id: 0,
            block_hashmap: c.block_hashmap,
        };
        assert(jp.dirty() =~= Map::<u32, u32>::empty());
        assert(jp.dirty().dom() =~= Set::<u32>::empty());
        Ok(jp)
    }
}

} // verus!
