//! The byte-range reader over a memory-mapped RAW file: the locator runs on
//! the mapping's bytes without copying them, the located region gets
//! best-effort page-cache hints, and the resolved slice is handed out for
//! writing.
//!
//! The mapping itself is created by the surrounding program (opening files
//! is its business); everything here works on an existing read-only map.

use vstd::prelude::*;
use vstd::slice::slice_subrange;
use crate::tiff::{find_largest_embedded_jpeg, locate, EmbeddedJpegInfo, LocateError};

verus! {

#[verifier::external_type_specification]
#[verifier::external_body]
pub struct ExMmap(memmap2::Mmap);

/// The bytes a read-only file mapping exposes, from its start to its end.
pub uninterp spec fn mmap_bytes(m: memmap2::Mmap) -> Seq<u8>;

/// Relies on memmap2::Mmap's AsRef impl: the mapping derefs to the one
/// read-only byte slice covering its whole contents.
#[verifier::external_body]
fn mmap_slice(m: &memmap2::Mmap) -> (r: &[u8])
    ensures
        r@ == mmap_bytes(*m),
{
    m.as_ref()
}

/// Relies on memmap2::Mmap::advise_range with Advice::WillNeed: a
/// best-effort madvise over a sub-range of the mapping, which must lie in
/// bounds. Returns whether the hint was taken; nothing else depends on it.
#[verifier::external_body]
fn advise_will_need(m: &memmap2::Mmap, offset: usize, length: usize) -> (r: bool)
    requires
        offset + length <= mmap_bytes(*m).len(),
{
    m.advise_range(memmap2::Advice::WillNeed, offset, length).is_ok()
}

/// Relies on memmap2::Mmap::advise_range with Advice::PopulateRead: a
/// best-effort request to populate the pages of a sub-range of the mapping,
/// which must lie in bounds. Returns whether the hint was taken.
#[verifier::external_body]
fn advise_populate_read(m: &memmap2::Mmap, offset: usize, length: usize) -> (r: bool)
    requires
        offset + length <= mmap_bytes(*m).len(),
{
    m.advise_range(memmap2::Advice::PopulateRead, offset, length).is_ok()
}

/// Runs the container locator over a mapped RAW file and, on success, marks
/// the located region as wanted soon and to be populated now, so the
/// following write sees no page-fault stalls. The hints are best-effort:
/// their failure is discarded and never becomes a processing error.
pub fn extract_jpeg(raw_buf: &memmap2::Mmap) -> (r: Result<EmbeddedJpegInfo, LocateError>)
    ensures
        r == locate(mmap_bytes(*raw_buf)),
        r matches Ok(j) ==> j.offset > 0 && j.length > 0 && j.offset + j.length <= mmap_bytes(
            *raw_buf,
        ).len(),
{
    let buf = mmap_slice(raw_buf);
    match find_largest_embedded_jpeg(buf) {
        Ok(info) => {
            let _ = advise_will_need(raw_buf, info.offset, info.length);
            let _ = advise_populate_read(raw_buf, info.offset, info.length);
            Ok(info)
        },
        Err(e) => Err(e),
    }
}

/// The located region of the mapping, resolved as a borrowed slice without
/// copying the bytes.
pub fn jpeg_slice<'a>(raw_buf: &'a memmap2::Mmap, info: &EmbeddedJpegInfo) -> (r: &'a [u8])
    requires
        info.offset + info.length <= mmap_bytes(*raw_buf).len(),
    ensures
        r@ == mmap_bytes(*raw_buf).subrange(
            info.offset as int,
            info.offset + info.length,
        ),
{
    let buf = mmap_slice(raw_buf);
    let n = buf.len();
    assert(info.offset + info.length <= n);
    slice_subrange(buf, info.offset, info.offset + info.length)
}

} // verus!
