//! A writable memory map, seen as the sequence of bytes it exposes.
use vstd::prelude::*;
use memmap2::MmapMut;
use crate::block::overwrite;

verus! {

#[verifier::external_type_specification]
#[verifier::external_body]
pub struct ExMmapMut(MmapMut);

#[verifier::external_type_specification]
#[verifier::external_body]
pub struct ExIoError(std::io::Error);

/// The bytes that a writable memory map exposes.
pub uninterp spec fn map_bytes(m: MmapMut) -> Seq<u8>;

/// Relies on `MmapMut::len`: the length of the mapped region.
#[verifier::external_body]
pub(crate) fn map_len(m: &MmapMut) -> (r: usize)
    ensures
        r == map_bytes(*m).len(),
{
    m.len()
}

/// Relies on `MmapMut`'s `Deref` to `[u8]`: a range of the mapped bytes.
#[verifier::external_body]
pub(crate) fn map_range(m: &MmapMut, start: usize, end: usize) -> (r: &[u8])
    requires
        start <= end <= map_bytes(*m).len(),
    ensures
        r@ == map_bytes(*m).subrange(start as int, end as int),
{
    &m[start..end]
}

/// Relies on `MmapMut`'s `DerefMut` to `[u8]`: copies `src` into the mapped
/// bytes from `at` on.
#[verifier::external_body]
pub(crate) fn map_copy_in(m: &mut MmapMut, at: usize, src: &[u8])
    requires
        at + src@.len() <= map_bytes(*old(m)).len(),
    ensures
        map_bytes(*final(m)) == overwrite(map_bytes(*old(m)), at as int, src@),
{
    m[at..at + src.len()].copy_from_slice(src)
}

/// Relies on `MmapMut::flush`: writes the mapped bytes out to the file. It
/// takes the map by shared reference, so the bytes stay as they are.
#[verifier::external_body]
pub(crate) fn map_flush(m: &MmapMut) -> (r: Result<(), std::io::Error>) {
    m.flush()
}

} // verus!
