//! The durable commit record written after the last occupied journal slot:
//! one 8-byte record per dirty entry (journal-slot id, then data-block id,
//! each a little-endian `u32`), then the number of entries as a little-endian `u32`.
use vstd::prelude::*;
use byteorder::{ByteOrder, LittleEndian};
use crate::dirty::lists;

verus! {

/// The four bytes of `n`, least significant first.
pub open spec fn le_u32(n: u32) -> Seq<u8> {
    seq![(n % 256) as u8, ((n / 256) % 256) as u8, ((n / 65536) % 256) as u8, (n / 16777216) as u8]
}

/// The number that four bytes give, least significant first.
pub open spec fn u32_of_le(s: Seq<u8>) -> int {
    s[0] + 256 * s[1] + 65536 * s[2] + 16777216 * s[3]
}

/// The 8-byte records of the pairs `(data_block_id, journal_slot_id)` in `order`.
pub open spec fn record_pairs(order: Seq<(u32, u32)>) -> Seq<u8>
    decreases order.len(),
{
    if order.len() == 0 {
        Seq::empty()
    } else {
        record_pairs(order.drop_last()) + le_u32(order.last().1) + le_u32(order.last().0)
    }
}

/// The whole commit record of the pairs in `order`.
pub open spec fn commit_record(order: Seq<(u32, u32)>) -> Seq<u8> {
    record_pairs(order) + le_u32(order.len() as u32)
}

/// The pair that the record at `i` of `bytes` holds.
pub open spec fn decode_pair(bytes: Seq<u8>, i: int) -> (u32, u32) {
    (
        u32_of_le(bytes.subrange(8 * i + 4, 8 * i + 8)) as u32,
        u32_of_le(bytes.subrange(8 * i, 8 * i + 4)) as u32,
    )
}

/// The pairs that a commit record holds, in record order, when its length
/// agrees with its trailing count.
pub open spec fn decode_record(bytes: Seq<u8>) -> Option<Seq<(u32, u32)>> {
    if bytes.len() < 4 {
        None
    } else {
        let n = u32_of_le(bytes.subrange(bytes.len() - 4, bytes.len() as int));
        if bytes.len() == 8 * n + 4 {
            Some(Seq::new(n as nat, |i: int| decode_pair(bytes, i)))
        } else {
            None
        }
    }
}

/// Relies on `LittleEndian::write_u32`: the four bytes of `n`, least
/// significant first, appended to `buf`.
#[verifier::external_body]
fn push_u32_le(buf: &mut Vec<u8>, n: u32)
    ensures
        final(buf)@ == old(buf)@ + le_u32(n),
{
    let mut b = [0u8; 4];
    LittleEndian::write_u32(&mut b, n);
    buf.extend_from_slice(&b);
}

/// The commit record of `entries`.
pub fn encode_record(entries: &Vec<(u32, u32)>) -> (r: Vec<u8>)
    requires
        entries@.len() <= u32::MAX,
    ensures
        r@ == commit_record(entries@),
{
    let mut out: Vec<u8> = Vec::new();
    let mut i: usize = 0;
    while i < entries.len()
        invariant
            i <= entries@.len(),
            out@ == record_pairs(entries@.take(i as int)),
        decreases entries@.len() - i,
    {
        let (data_block_id, journal_slot_id) = entries[i];
        push_u32_le(&mut out, journal_slot_id);
        push_u32_le(&mut out, data_block_id);
        proof {
            let t = entries@.take(i as int + 1);
            assert(t.drop_last() =~= entries@.take(i as int));
            assert(t.last() == entries@[i as int]);
        }
        i = i + 1;
    }
    assert(entries@.take(entries@.len() as int) =~= entries@);
    push_u32_le(&mut out, entries.len() as u32);
    out
}

proof fn lemma_le_u32_round(n: u32)
    ensures
        u32_of_le(le_u32(n)) == n,
{
    let a = n % 256;
    let b = (n / 256) % 256;
    let c = (n / 65536) % 256;
    let d = n / 16777216;
    assert(a + 256 * b + 65536 * c + 16777216 * d == n) by (nonlinear_arith)
        requires
            a == n % 256,
            b == (n / 256) % 256,
            c == (n / 65536) % 256,
            d == n / 16777216,
            n <= u32::MAX,
    ;
}

proof fn lemma_record_pairs(order: Seq<(u32, u32)>)
    ensures
        record_pairs(order).len() == 8 * order.len(),
        forall|i: int| 0 <= i < order.len() ==> #[trigger] decode_pair(record_pairs(order), i) == order[i],
    decreases order.len(),
{
    if order.len() > 0 {
        let p = order.drop_last();
        lemma_record_pairs(p);
        let r = record_pairs(order);
        let k = order.len() - 1;
        lemma_le_u32_round(order.last().0);
        lemma_le_u32_round(order.last().1);
        assert(r.subrange(8 * k, 8 * k + 4) =~= le_u32(order.last().1));
        assert(r.subrange(8 * k + 4, 8 * k + 8) =~= le_u32(order.last().0));
        assert forall|i: int| 0 <= i < order.len() implies #[trigger] decode_pair(r, i) == order[i] by {
            if i < k {
                assert(r.subrange(8 * i, 8 * i + 4) =~= record_pairs(p).subrange(8 * i, 8 * i + 4));
                assert(r.subrange(8 * i + 4, 8 * i + 8) =~= record_pairs(p).subrange(8 * i + 4, 8 * i + 8));
                assert(decode_pair(record_pairs(p), i) == p[i]);
            }
        }
    }
}

/// A commit record of `order` decodes to `order` again, record for record.
pub proof fn lemma_record_round_trip(order: Seq<(u32, u32)>)
    requires
        order.len() <= u32::MAX,
    ensures
        commit_record(order).len() == 8 * order.len() + 4,
        decode_record(commit_record(order)) == Some(order),
{
    let r = commit_record(order);
    lemma_record_pairs(order);
    lemma_le_u32_round(order.len() as u32);
    assert(r.subrange(r.len() - 4, r.len() as int) =~= le_u32(order.len() as u32));
    assert forall|i: int| 0 <= i < order.len() implies #[trigger] decode_pair(r, i) == order[i] by {
        assert(r.subrange(8 * i, 8 * i + 4) =~= record_pairs(order).subrange(8 * i, 8 * i + 4));
        assert(r.subrange(8 * i + 4, 8 * i + 8) =~= record_pairs(order).subrange(8 * i + 4, 8 * i + 8));
        assert(decode_pair(record_pairs(order), i) == order[i]);
    }
    assert(Seq::new(order.len(), |i: int| decode_pair(r, i)) =~= order);
}

/// The commit record of a dirty set, written in any order that lists each of
/// its pairs once, is `8 * N + 4` bytes long for `N` entries and decodes to
/// exactly the pairs of the set.
pub proof fn lemma_record_of_dirty_set(m: Map<u32, u32>, order: Seq<(u32, u32)>)
    requires
        m.dom().finite(),
        m.dom().len() <= u32::MAX,
        lists(m, order),
    ensures
        commit_record(order).len() == 8 * m.dom().len() + 4,
        decode_record(commit_record(order)) is Some,
        forall|k: u32, v: u32|
            #[trigger] decode_record(commit_record(order)).unwrap().contains((k, v))
                <==> (m.contains_key(k) && m[k] == v),
{
    lemma_record_round_trip(order);
    assert forall|k: u32, v: u32|
        #[trigger] decode_record(commit_record(order)).unwrap().contains((k, v))
            <==> (m.contains_key(k) && m[k] == v) by {
        if order.contains((k, v)) {
            let i = choose|i: int| 0 <= i < order.len() && order[i] == (k, v);
            assert(m.contains_key(order[i].0));
        }
        if m.contains_key(k) && m[k] == v {
            let i = choose|i: int| 0 <= i < order.len() && #[trigger] order[i].0 == k;
            assert(m.contains_key(order[i].0) && m[order[i].0] == order[i].1);
            assert(order[i] == (k, v));
        }
    }
}

} // verus!
