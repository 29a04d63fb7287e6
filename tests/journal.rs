use journal_blocks::record::encode_record;
use journal_blocks::{CommitPhase, JournalError, JournalPhase, ReadBlock, WriteBlock, BLOCK_SIZE_USIZE};
use memmap2::MmapMut;

fn zeroed_map(len: usize) -> MmapMut {
    MmapMut::map_anon(len).unwrap()
}

fn map_with(bytes: &[u8], len: usize) -> MmapMut {
    let mut map = zeroed_map(len);
    let n = bytes.len().min(len);
    map[..n].copy_from_slice(&bytes[..n]);
    map
}

fn phase(blocks: usize, capacity: u32) -> JournalPhase {
    JournalPhase::new(
        zeroed_map(blocks * BLOCK_SIZE_USIZE),
        zeroed_map(capacity as usize * BLOCK_SIZE_USIZE),
        capacity,
    )
}

fn fill(jp: &mut JournalPhase, block: u32, value: u8) {
    let h = jp.load_write_block(block).unwrap();
    jp.write_bytes(&h, 0, &[value; BLOCK_SIZE_USIZE]).unwrap();
}

fn read(jp: &JournalPhase, block: u32) -> Vec<u8> {
    let h = jp.load_read_block(block);
    jp.read_bytes(&h).unwrap().to_vec()
}

fn commit(jp: JournalPhase) -> CommitPhase {
    let len = jp.commit_len() as usize;
    let map = map_with(jp.journal_bytes(), len);
    let mut jp = jp;
    let cap = jp.journal_capacity();
    jp.install_journal(map, cap).unwrap();
    CommitPhase::from_journal_phase(jp).unwrap()
}

fn grow(jp: &mut JournalPhase, err: JournalError) {
    match err {
        JournalError::JournalFull { capacity, journal_len } => {
            let map = map_with(jp.journal_bytes(), journal_len as usize);
            jp.install_journal(map, capacity).unwrap();
        }
        other => panic!("unexpected error {:?}", other),
    }
}

#[test]
fn clean_block_reads_data_file() {
    let mut data = zeroed_map(2 * BLOCK_SIZE_USIZE);
    data[BLOCK_SIZE_USIZE..].copy_from_slice(&[7u8; BLOCK_SIZE_USIZE]);
    let jp = JournalPhase::new(data, zeroed_map(BLOCK_SIZE_USIZE), 1);
    let h = jp.load_read_block(1);
    assert!(!h.writable);
    assert_eq!(h.index, 1);
    assert_eq!(jp.read_bytes(&h).unwrap(), &[7u8; BLOCK_SIZE_USIZE][..]);
}

#[test]
fn written_block_reads_last_write() {
    let mut jp = phase(4, 2);
    fill(&mut jp, 2, 0x11);
    fill(&mut jp, 2, 0x22);
    let h = jp.load_read_block(2);
    assert!(h.writable);
    assert_eq!(read(&jp, 2), vec![0x22; BLOCK_SIZE_USIZE]);
    assert_eq!(jp.next_journal_block_id(), 1);
}

#[test]
fn write_then_read_share_slot() {
    let mut jp = phase(4, 2);
    let w = jp.load_write_block(3).unwrap();
    let r = jp.load_read_block(3);
    assert!(r.writable);
    assert_eq!(r.index, w.index);
    assert_eq!(jp.write_block_bytes(&w).unwrap(), jp.read_bytes(&r).unwrap());
}

#[test]
fn copy_on_write_copies_data_bytes() {
    let mut data = zeroed_map(2 * BLOCK_SIZE_USIZE);
    data[..BLOCK_SIZE_USIZE].copy_from_slice(&[5u8; BLOCK_SIZE_USIZE]);
    let mut jp = JournalPhase::new(data, zeroed_map(BLOCK_SIZE_USIZE), 1);
    let w = jp.load_write_block(0).unwrap();
    assert_eq!(jp.write_block_bytes(&w).unwrap(), &[5u8; BLOCK_SIZE_USIZE][..]);
    jp.write_bytes(&w, 10, &[9, 9]).unwrap();
    let bytes = read(&jp, 0);
    assert_eq!(&bytes[8..14], &[5, 5, 9, 9, 5, 5]);
    assert_eq!(&jp.data_bytes()[..BLOCK_SIZE_USIZE], &[5u8; BLOCK_SIZE_USIZE][..]);
}

#[test]
fn apply_of_empty_commit_keeps_data() {
    let mut data = zeroed_map(3 * BLOCK_SIZE_USIZE);
    for (i, b) in data.iter_mut().enumerate() {
        *b = (i % 251) as u8;
    }
    let before = data.to_vec();
    let jp = JournalPhase::new(data, zeroed_map(2 * BLOCK_SIZE_USIZE), 2);
    let c = commit(jp);
    assert_eq!(c.journal_bytes(), &[0, 0, 0, 0][..]);
    let jp = JournalPhase::from_commit_phase(c).unwrap();
    assert_eq!(jp.data_bytes(), &before[..]);
}

#[test]
fn pattern_survives_commit_and_apply() {
    let mut jp = phase(3, 1);
    let w = jp.load_write_block(2).unwrap();
    let pattern: Vec<u8> = (0..BLOCK_SIZE_USIZE).map(|i| (i * 7 % 256) as u8).collect();
    jp.write_bytes(&w, 0, &pattern).unwrap();
    let c = commit(jp);
    let jp = JournalPhase::from_commit_phase(c).unwrap();
    let r = jp.load_read_block(2);
    assert!(!r.writable);
    assert_eq!(jp.read_bytes(&r).unwrap(), &pattern[..]);
}

#[test]
fn growth_keeps_every_write() {
    let mut jp = phase(8, 1);
    for b in 0..6u32 {
        let r = jp.load_write_block(b);
        let w = match r {
            Ok(w) => w,
            Err(e) => {
                grow(&mut jp, e);
                jp.load_write_block(b).unwrap()
            }
        };
        jp.write_bytes(&w, 0, &[b as u8 + 1; BLOCK_SIZE_USIZE]).unwrap();
    }
    for b in 0..6u32 {
        assert_eq!(read(&jp, b), vec![b as u8 + 1; BLOCK_SIZE_USIZE]);
    }
    let c = commit(jp);
    let jp = JournalPhase::from_commit_phase(c).unwrap();
    for b in 0..6u32 {
        let start = b as usize * BLOCK_SIZE_USIZE;
        assert_eq!(&jp.data_bytes()[start..start + BLOCK_SIZE_USIZE], &[b as u8 + 1; BLOCK_SIZE_USIZE][..]);
    }
    assert_eq!(&jp.data_bytes()[6 * BLOCK_SIZE_USIZE..], &[0u8; 2 * BLOCK_SIZE_USIZE][..]);
}

#[test]
fn commit_record_shape() {
    let mut jp = phase(16, 4);
    fill(&mut jp, 9, 1);
    fill(&mut jp, 3, 2);
    fill(&mut jp, 12, 3);
    assert_eq!(jp.commit_len(), 3 * 4104 + 4);
    let c = commit(jp);
    let journal = c.journal_bytes();
    assert_eq!(journal.len(), 3 * (BLOCK_SIZE_USIZE + 8) + 4);
    let trailer = &journal[3 * BLOCK_SIZE_USIZE..];
    assert_eq!(trailer.len(), 3 * 8 + 4);
    assert_eq!(&trailer[24..], &[3, 0, 0, 0]);
    let mut pairs: Vec<(u32, u32)> = (0..3)
        .map(|i| {
            let rec = &trailer[i * 8..i * 8 + 8];
            let slot = u32::from_le_bytes([rec[0], rec[1], rec[2], rec[3]]);
            let block = u32::from_le_bytes([rec[4], rec[5], rec[6], rec[7]]);
            (block, slot)
        })
        .collect();
    pairs.sort();
    assert_eq!(pairs, vec![(3, 1), (9, 0), (12, 2)]);
}

#[test]
fn encode_record_bytes() {
    let bytes = encode_record(&vec![(5, 0), (0x0102_0304, 1)]);
    assert_eq!(bytes, vec![0, 0, 0, 0, 5, 0, 0, 0, 1, 0, 0, 0, 4, 3, 2, 1, 2, 0, 0, 0]);
    assert_eq!(encode_record(&Vec::new()), vec![0, 0, 0, 0]);
}

#[test]
fn scenario_four_zero_blocks() {
    let mut jp = phase(4, 2);
    fill(&mut jp, 1, 0xAA);
    let r1 = jp.load_read_block(1);
    assert!(r1.writable);
    assert_eq!(jp.read_bytes(&r1).unwrap(), &[0xAAu8; BLOCK_SIZE_USIZE][..]);
    let r0 = jp.load_read_block(0);
    assert!(!r0.writable);
    assert_eq!(jp.read_bytes(&r0).unwrap(), &[0u8; BLOCK_SIZE_USIZE][..]);
    let c = commit(jp);
    let jp = JournalPhase::from_commit_phase(c).unwrap();
    assert_eq!(&jp.data_bytes()[BLOCK_SIZE_USIZE..2 * BLOCK_SIZE_USIZE], &[0xAAu8; BLOCK_SIZE_USIZE][..]);
    assert!(!jp.load_read_block(1).writable);
    assert_eq!(jp.next_journal_block_id(), 0);
    assert_eq!(jp.journal_capacity(), 2);
}

#[test]
fn scenario_third_write_grows_capacity() {
    let mut jp = phase(4, 2);
    jp.load_write_block(0).unwrap();
    jp.load_write_block(1).unwrap();
    let e = jp.load_write_block(2).unwrap_err();
    assert_eq!(e, JournalError::JournalFull { capacity: 3, journal_len: 3 * 4096 });
    grow(&mut jp, e);
    assert_eq!(jp.journal_capacity(), 3);
    jp.load_write_block(2).unwrap();
    for b in 0..3u32 {
        let w = jp.load_write_block(b).unwrap();
        jp.write_bytes(&w, 0, &[b as u8 + 0x10; BLOCK_SIZE_USIZE]).unwrap();
    }
    for b in 0..3u32 {
        let r = jp.load_read_block(b);
        assert!(r.writable);
        assert_eq!(jp.read_bytes(&r).unwrap(), &[b as u8 + 0x10; BLOCK_SIZE_USIZE][..]);
    }
    assert_eq!(jp.journal_capacity(), 3);
}

#[test]
fn growth_by_a_quarter() {
    let mut jp = phase(16, 8);
    for b in 0..8u32 {
        jp.load_write_block(b).unwrap();
    }
    let e = jp.load_write_block(8).unwrap_err();
    assert_eq!(e, JournalError::JournalFull { capacity: 10, journal_len: 10 * 4096 });
}

#[test]
fn short_journal_asks_for_its_capacity() {
    let jp0 = JournalPhase::new(zeroed_map(4 * BLOCK_SIZE_USIZE), zeroed_map(BLOCK_SIZE_USIZE), 3);
    let mut jp = jp0;
    jp.load_write_block(0).unwrap();
    let e = jp.load_write_block(1).unwrap_err();
    assert_eq!(e, JournalError::JournalFull { capacity: 3, journal_len: 3 * 4096 });
}

#[test]
fn upgrade_read_handle() {
    let mut jp = phase(4, 2);
    let mut r = jp.load_read_block(1);
    assert!(!r.writable);
    let w = jp.load_write_block_from_read_block(&mut r).unwrap();
    assert!(r.writable);
    assert_eq!(r.index, w.index);
    jp.write_bytes(&w, 0, &[3u8; 4]).unwrap();
    assert_eq!(&jp.read_bytes(&r).unwrap()[..5], &[3, 3, 3, 3, 0]);
    let w2 = jp.load_write_block_from_read_block(&mut r).unwrap();
    assert_eq!(w2, w);
    assert_eq!(jp.next_journal_block_id(), 1);
}

#[test]
fn stale_handles_are_refused() {
    let mut jp = phase(4, 2);
    let mut r = jp.load_read_block(1);
    let w = jp.load_write_block(1).unwrap();
    assert_eq!(jp.read_bytes(&r), Err(JournalError::StaleHandle));
    assert_eq!(jp.load_write_block_from_read_block(&mut r), Err(JournalError::StaleHandle));
    let forged = WriteBlock { data_block_id: 2, index: w.index };
    assert_eq!(jp.write_bytes(&forged, 0, &[1]), Err(JournalError::StaleHandle));
    assert_eq!(jp.write_block_bytes(&forged), Err(JournalError::StaleHandle));
    let outside = ReadBlock { data_block_id: 4, writable: false, index: 4 };
    assert_eq!(jp.read_bytes(&outside), Err(JournalError::StaleHandle));
}

#[test]
fn write_past_block_end_is_refused() {
    let mut jp = phase(2, 1);
    let w = jp.load_write_block(0).unwrap();
    assert_eq!(jp.write_bytes(&w, 4095, &[1, 2]), Err(JournalError::OutOfBlock));
    assert_eq!(jp.write_bytes(&w, 4097, &[]), Err(JournalError::OutOfBlock));
    assert_eq!(jp.write_bytes(&w, 4095, &[1]), Ok(()));
}

#[test]
fn journal_map_must_keep_used_slots() {
    let mut jp = phase(2, 1);
    fill(&mut jp, 0, 4);
    assert_eq!(jp.install_journal(zeroed_map(2 * BLOCK_SIZE_USIZE), 2), Err(JournalError::MapMismatch));
    let copy = map_with(jp.journal_bytes(), 2 * BLOCK_SIZE_USIZE);
    assert_eq!(jp.install_journal(copy, 0), Err(JournalError::MapMismatch));
    let short = map_with(jp.journal_bytes(), 100);
    assert_eq!(jp.install_journal(short, 2), Err(JournalError::MapMismatch));
    assert_eq!(jp.journal_capacity(), 1);
    let copy = map_with(jp.journal_bytes(), 2 * BLOCK_SIZE_USIZE);
    assert_eq!(jp.install_journal(copy, 2), Ok(()));
    assert_eq!(jp.journal_capacity(), 2);
    assert_eq!(read(&jp, 0), vec![4u8; BLOCK_SIZE_USIZE]);
}

#[test]
fn data_file_grows_but_never_shrinks() {
    let mut jp = phase(4, 1);
    assert_eq!(jp.resize_len(2), Err(JournalError::ShrinkUnsupported));
    assert_eq!(jp.resize_len(4), Ok(4 * 4096));
    assert_eq!(jp.resize(2, zeroed_map(2 * BLOCK_SIZE_USIZE)), Err(JournalError::ShrinkUnsupported));
    assert_eq!(jp.resize(8, zeroed_map(7 * BLOCK_SIZE_USIZE)), Err(JournalError::MapMismatch));
    assert_eq!(jp.resize(8, zeroed_map(8 * BLOCK_SIZE_USIZE)), Ok(()));
    assert_eq!(jp.block_count(), 8);
    assert_eq!(jp.data_len(), 8 * BLOCK_SIZE_USIZE);
}

#[test]
fn commit_len_counts_slots_and_record() {
    let mut jp = phase(4, 2);
    fill(&mut jp, 0, 1);
    assert_eq!(jp.journal_len(), 2 * BLOCK_SIZE_USIZE);
    assert_eq!(jp.commit_len(), 4108);
}

#[test]
fn commit_record_written_in_place() {
    let mut jp = phase(4, 2);
    fill(&mut jp, 2, 6);
    let map = map_with(jp.journal_bytes(), jp.commit_len() as usize);
    jp.install_journal(map, 2).unwrap();
    jp.write_commit_record();
    let journal = jp.journal_bytes();
    assert_eq!(&journal[..BLOCK_SIZE_USIZE], &[6u8; BLOCK_SIZE_USIZE][..]);
    assert_eq!(&journal[BLOCK_SIZE_USIZE..], &[0, 0, 0, 0, 2, 0, 0, 0, 1, 0, 0, 0]);
    assert_eq!(read(&jp, 2), vec![6u8; BLOCK_SIZE_USIZE]);
}

#[test]
fn write_back_copies_slots_into_data() {
    let mut jp = phase(4, 2);
    fill(&mut jp, 3, 0x5A);
    fill(&mut jp, 0, 0xA5);
    let mut c = commit(jp);
    assert_eq!(&c.data_bytes()[..], &[0u8; 4 * BLOCK_SIZE_USIZE][..]);
    c.write_back();
    assert_eq!(&c.data_bytes()[..BLOCK_SIZE_USIZE], &[0xA5u8; BLOCK_SIZE_USIZE][..]);
    assert_eq!(&c.data_bytes()[BLOCK_SIZE_USIZE..3 * BLOCK_SIZE_USIZE], &[0u8; 2 * BLOCK_SIZE_USIZE][..]);
    assert_eq!(&c.data_bytes()[3 * BLOCK_SIZE_USIZE..], &[0x5Au8; BLOCK_SIZE_USIZE][..]);
    assert_eq!(c.journal_capacity(), 2);
}

#[test]
fn data_resize_keeps_old_bytes() {
    let mut data = zeroed_map(2 * BLOCK_SIZE_USIZE);
    data[5] = 9;
    let before = data.to_vec();
    let mut jp = JournalPhase::new(data, zeroed_map(BLOCK_SIZE_USIZE), 1);
    assert_eq!(jp.resize(3, zeroed_map(3 * BLOCK_SIZE_USIZE)), Err(JournalError::MapMismatch));
    assert_eq!(jp.block_count(), 2);
    assert_eq!(jp.resize(3, map_with(&before, 3 * BLOCK_SIZE_USIZE)), Ok(()));
    assert_eq!(jp.block_count(), 3);
    assert_eq!(jp.data_bytes()[5], 9);
}
