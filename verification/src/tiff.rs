//! The TIFF container locator: walks the IFD (Image File Directory) chain of
//! a TIFF-style byte buffer and returns the offset and length of the largest
//! embedded JPEG, or a structured failure.
//!
//! The byte-level format: the first 4 bytes are a magic sequence selecting
//! the byte order, bytes 4..8 hold the offset of the first IFD. An IFD is a
//! 2-byte entry count, `count` entries of 12 bytes each, and a 4-byte offset
//! of the next IFD (0 terminates the chain). An entry's tag sits in its first
//! 2 bytes; for the two tags of interest the value is the 4-byte word at
//! sub-offset 8. Tag 0x0201 (JPEGInterchangeFormat) gives the offset of an
//! embedded JPEG, tag 0x0202 (JPEGInterchangeFormatLength) its length.

use vstd::prelude::*;
use vstd::slice::slice_subrange;

verus! {

/// The 16-bit word stored at byte offset `i` of `b`, under the byte order
/// selected by `le` (`true` for little-endian).
pub open spec fn word16(b: Seq<u8>, le: bool, i: int) -> int {
    if le {
        b[i] + 256 * b[i + 1]
    } else {
        b[i + 1] + 256 * b[i]
    }
}

/// The 32-bit word stored at byte offset `i` of `b`, under the byte order
/// selected by `le` (`true` for little-endian).
pub open spec fn word32(b: Seq<u8>, le: bool, i: int) -> int {
    if le {
        b[i] + 256 * b[i + 1] + 65536 * b[i + 2] + 16777216 * b[i + 3]
    } else {
        b[i + 3] + 256 * b[i + 2] + 65536 * b[i + 1] + 16777216 * b[i]
    }
}

/// Reads the 16-bit word held by a 2-byte slice under the selected byte order.
pub fn read_u16(cursor: &[u8], is_le: bool) -> (r: u16)
    requires
        cursor@.len() == 2,
    ensures
        r == word16(cursor@, is_le, 0),
{
    let b0 = cursor[0];
    let b1 = cursor[1];
    if is_le {
        b0 as u16 + 256 * (b1 as u16)
    } else {
        b1 as u16 + 256 * (b0 as u16)
    }
}

/// Reads the 32-bit word held by a 4-byte slice under the selected byte order.
pub fn read_u32(cursor: &[u8], is_le: bool) -> (r: u32)
    requires
        cursor@.len() == 4,
    ensures
        r == word32(cursor@, is_le, 0),
{
    let b0 = cursor[0];
    let b1 = cursor[1];
    let b2 = cursor[2];
    let b3 = cursor[3];
    if is_le {
        b0 as u32 + 256 * (b1 as u32) + 65536 * (b2 as u32) + 16777216 * (b3 as u32)
    } else {
        b3 as u32 + 256 * (b2 as u32) + 65536 * (b1 as u32) + 16777216 * (b0 as u32)
    }
}

/// The little-endian TIFF magic: `II*\0`.
pub open spec fn is_le_magic(b: Seq<u8>) -> bool {
    b.len() >= 4 && b[0] == 0x49u8 && b[1] == 0x49u8 && b[2] == 0x2au8 && b[3] == 0x00u8
}

/// The big-endian TIFF magic: `MM\0*`.
pub open spec fn is_be_magic(b: Seq<u8>) -> bool {
    b.len() >= 4 && b[0] == 0x4du8 && b[1] == 0x4du8 && b[2] == 0x00u8 && b[3] == 0x2au8
}

/// Why locating an embedded JPEG failed.
#[derive(Clone, Copy, Debug, PartialEq, Eq, Structural)]
pub enum LocateError {
    /// The buffer does not carry a recognized TIFF magic, or its IFD links
    /// do not form a finite chain.
    InvalidContainer,
    /// An offset or length referenced by the container reaches outside the
    /// buffer.
    OutOfBounds,
    /// The chain was fully walked and no IFD carried both JPEG tags with
    /// non-zero values.
    NoJpegFound,
}

/// Offset and length of the chosen embedded JPEG region.
#[derive(Clone, Copy, Debug, PartialEq, Eq, Structural)]
pub struct EmbeddedJpegInfo {
    pub offset: usize,
    pub length: usize,
}

/// What scanning one IFD's entries captured of the two JPEG tags.
#[derive(Clone, Copy, Debug, PartialEq, Eq, Structural)]
pub struct TagScan {
    pub has_offset: bool,
    pub offset: usize,
    pub has_length: bool,
    pub length: usize,
}

/// One step of the per-IFD entry scan: folds entry `i` into the running
/// capture. A tag hit overwrites an earlier capture of the same tag.
pub open spec fn scan_step(b: Seq<u8>, le: bool, base: int, i: int, s: TagScan) -> TagScan {
    let tag = word16(b, le, base + 12 * i);
    let value = word32(b, le, base + 12 * i + 8) as usize;
    if tag == 0x0201 {
        TagScan { has_offset: true, offset: value, ..s }
    } else if tag == 0x0202 {
        TagScan { has_length: true, length: value, ..s }
    } else {
        s
    }
}

/// Scans entries `i..n` of the IFD whose entry array starts at `base`,
/// starting from capture `s`, and stops early once both tags are captured.
pub open spec fn scan_entries(b: Seq<u8>, le: bool, base: int, n: int, i: int, s: TagScan) -> TagScan
    decreases n - i,
{
    if i >= n || (s.has_offset && s.has_length) {
        s
    } else {
        scan_entries(b, le, base, n, i + 1, scan_step(b, le, base, i, s))
    }
}

/// The initial, empty tag capture.
pub open spec fn scan_init() -> TagScan {
    TagScan { has_offset: false, offset: 0, has_length: false, length: 0 }
}

/// The number of entries declared by the IFD at `off`.
pub open spec fn ifd_count(b: Seq<u8>, le: bool, off: int) -> int {
    word16(b, le, off)
}

/// Whether the IFD at `off` lies entirely within the buffer: its count
/// field, its entry array and its next-IFD field.
pub open spec fn ifd_bounded(b: Seq<u8>, le: bool, off: int) -> bool {
    &&& off + 2 <= b.len()
    &&& off + 2 + 12 * ifd_count(b, le, off) + 4 <= b.len()
}

/// The next-IFD offset stored immediately after the entry array of the IFD
/// at `off`.
pub open spec fn ifd_next(b: Seq<u8>, le: bool, off: int) -> int {
    word32(b, le, off + 2 + 12 * ifd_count(b, le, off))
}

/// What the IFD at `off` declares of the two JPEG tags.
pub open spec fn ifd_candidate(b: Seq<u8>, le: bool, off: int) -> TagScan {
    scan_entries(b, le, off + 2, ifd_count(b, le, off), 0, scan_init())
}

/// The final verdict once the chain has been fully walked and the best
/// candidate is `(best_off, best_len)`.
pub open spec fn finish(blen: int, best_off: usize, best_len: usize) -> Result<
    EmbeddedJpegInfo,
    LocateError,
> {
    if best_off == 0 || best_len == 0 {
        Err(LocateError::NoJpegFound)
    } else if best_off + best_len > blen {
        Err(LocateError::OutOfBounds)
    } else {
        Ok(EmbeddedJpegInfo { offset: best_off, length: best_len })
    }
}

/// Whether a candidate replaces the best seen so far: both tags captured and
/// a strictly greater length. Ties keep the earlier candidate.
pub open spec fn replaces(s: TagScan, best_len: usize) -> bool {
    s.has_offset && s.has_length && s.length > best_len
}

/// The locator's walk from the IFD at `off`, carrying the best candidate so
/// far. `fuel` bounds the number of IFDs visited: a chain of distinct
/// in-bounds offsets is always shorter than the buffer, so exhausting a fuel
/// of the buffer's length means an IFD link was revisited and the links do
/// not form a finite chain, which is reported as `InvalidContainer`.
pub open spec fn locate_from(
    b: Seq<u8>,
    le: bool,
    off: int,
    best_off: usize,
    best_len: usize,
    fuel: nat,
) -> Result<EmbeddedJpegInfo, LocateError>
    decreases fuel,
{
    if off == 0 {
        finish(b.len() as int, best_off, best_len)
    } else if fuel == 0 {
        Err(LocateError::InvalidContainer)
    } else if !ifd_bounded(b, le, off) {
        Err(LocateError::OutOfBounds)
    } else {
        let s = ifd_candidate(b, le, off);
        if replaces(s, best_len) {
            locate_from(b, le, ifd_next(b, le, off), s.offset, s.length, (fuel - 1) as nat)
        } else {
            locate_from(b, le, ifd_next(b, le, off), best_off, best_len, (fuel - 1) as nat)
        }
    }
}

/// What the locator returns on buffer `b`: the largest embedded JPEG
/// declared by the IFD chain, or the failure the chain forces.
pub open spec fn locate(b: Seq<u8>) -> Result<EmbeddedJpegInfo, LocateError> {
    if !is_le_magic(b) && !is_be_magic(b) {
        Err(LocateError::InvalidContainer)
    } else if b.len() < 8 {
        Err(LocateError::OutOfBounds)
    } else {
        let le = is_le_magic(b);
        locate_from(b, le, word32(b, le, 4), 0, 0, b.len())
    }
}

/// Walks the IFD chain of `buf` and returns the offset and length of the
/// largest embedded JPEG, or the failure the container forces. The returned
/// region never reaches outside `buf`.
pub fn find_largest_embedded_jpeg(buf: &[u8]) -> (r: Result<EmbeddedJpegInfo, LocateError>)
    ensures
        r == locate(buf@),
        r matches Ok(j) ==> j.offset > 0 && j.length > 0 && j.offset + j.length <= buf@.len(),
{
    let n = buf.len();
    if n < 4 {
        return Err(LocateError::InvalidContainer);
    }
    let le_magic = buf[0] == 0x49 && buf[1] == 0x49 && buf[2] == 0x2a && buf[3] == 0x00;
    let be_magic = buf[0] == 0x4d && buf[1] == 0x4d && buf[2] == 0x00 && buf[3] == 0x2a;
    if !le_magic && !be_magic {
        return Err(LocateError::InvalidContainer);
    }
    if n < 8 {
        return Err(LocateError::OutOfBounds);
    }
    let is_le = le_magic;
    assert(is_le == is_le_magic(buf@));
    let mut cur: usize = read_u32(slice_subrange(buf, 4, 8), is_le) as usize;
    assert(cur == word32(buf@, is_le, 4));
    let mut best_off: usize = 0;
    let mut best_len: usize = 0;
    let mut fuel: usize = n;
    while cur != 0
        invariant
            n == buf@.len(),
            8 <= n,
            locate(buf@) == locate_from(buf@, is_le, cur as int, best_off, best_len, fuel as nat),
        decreases fuel,
    {
        if fuel == 0 {
            return Err(LocateError::InvalidContainer);
        }
        fuel = fuel - 1;
        // Bounds of the count field.
        if cur > n - 2 {
            return Err(LocateError::OutOfBounds);
        }
        let count = read_u16(slice_subrange(buf, cur, cur + 2), is_le) as usize;
        assert(count == ifd_count(buf@, is_le, cur as int));
        // Bounds of the entry array and the next-IFD field.
        let avail = n - cur - 2;
        if 12 * count + 4 > avail {
            assert(!ifd_bounded(buf@, is_le, cur as int));
            return Err(LocateError::OutOfBounds);
        }
        assert(ifd_bounded(buf@, is_le, cur as int));
        let base = cur + 2;
        let mut i: usize = 0;
        let mut scan = TagScan { has_offset: false, offset: 0, has_length: false, length: 0 };
        assert(scan == scan_init());
        while i < count && !(scan.has_offset && scan.has_length)
            invariant
                n == buf@.len(),
                i <= count,
                base == cur + 2,
                base + 12 * count + 4 <= n,
                count == ifd_count(buf@, is_le, cur as int),
                scan_entries(buf@, is_le, base as int, count as int, i as int, scan)
                    == ifd_candidate(buf@, is_le, cur as int),
            decreases count - i,
        {
            let tag = read_u16(slice_subrange(buf, base + 12 * i, base + 12 * i + 2), is_le);
            let mut next_scan = scan;
            if tag == 0x0201 {
                let value = read_u32(
                    slice_subrange(buf, base + 12 * i + 8, base + 12 * i + 12),
                    is_le,
                ) as usize;
                next_scan = TagScan { has_offset: true, offset: value, ..scan };
            } else if tag == 0x0202 {
                let value = read_u32(
                    slice_subrange(buf, base + 12 * i + 8, base + 12 * i + 12),
                    is_le,
                ) as usize;
                next_scan = TagScan { has_length: true, length: value, ..scan };
            }
            assert(next_scan == scan_step(buf@, is_le, base as int, i as int, scan));
            scan = next_scan;
            i = i + 1;
        }
        assert(scan == ifd_candidate(buf@, is_le, cur as int));
        if scan.has_offset && scan.has_length && scan.length > best_len {
            best_off = scan.offset;
            best_len = scan.length;
        }
        let next = read_u32(slice_subrange(buf, base + 12 * count, base + 12 * count + 4), is_le)
            as usize;
        assert(next == ifd_next(buf@, is_le, cur as int));
        cur = next;
    }
    if best_off == 0 || best_len == 0 {
        return Err(LocateError::NoJpegFound);
    }
    if best_len > n || best_off > n - best_len {
        return Err(LocateError::OutOfBounds);
    }
    Ok(EmbeddedJpegInfo { offset: best_off, length: best_len })
}

/// The per-IFD tag captures along the chain that starts at `off`, in chain
/// order, cut off where the walk itself stops (terminator, failure or fuel).
pub open spec fn chain_candidates(b: Seq<u8>, le: bool, off: int, fuel: nat) -> Seq<TagScan>
    decreases fuel,
{
    if off == 0 || fuel == 0 || !ifd_bounded(b, le, off) {
        Seq::empty()
    } else {
        seq![ifd_candidate(b, le, off)] + chain_candidates(
            b,
            le,
            ifd_next(b, le, off),
            (fuel - 1) as nat,
        )
    }
}

/// Whether the walk from `off` reaches the zero terminator within `fuel`
/// IFDs, with every visited IFD lying inside the buffer.
pub open spec fn walk_completes(b: Seq<u8>, le: bool, off: int, fuel: nat) -> bool
    decreases fuel,
{
    if off == 0 {
        true
    } else if fuel == 0 || !ifd_bounded(b, le, off) {
        false
    } else {
        walk_completes(b, le, ifd_next(b, le, off), (fuel - 1) as nat)
    }
}

/// The best candidate held when the walk from `off` terminates, starting
/// from the best `(best_off, best_len)`. Meaningful when the walk completes.
pub open spec fn walk_best(
    b: Seq<u8>,
    le: bool,
    off: int,
    best_off: usize,
    best_len: usize,
    fuel: nat,
) -> (usize, usize)
    decreases fuel,
{
    if off == 0 || fuel == 0 || !ifd_bounded(b, le, off) {
        (best_off, best_len)
    } else {
        let s = ifd_candidate(b, le, off);
        if replaces(s, best_len) {
            walk_best(b, le, ifd_next(b, le, off), s.offset, s.length, (fuel - 1) as nat)
        } else {
            walk_best(b, le, ifd_next(b, le, off), best_off, best_len, (fuel - 1) as nat)
        }
    }
}

/// A successful locate never points outside the buffer, and never returns a
/// zero offset or length.
pub proof fn lemma_locate_from_ok_in_bounds(
    b: Seq<u8>,
    le: bool,
    off: int,
    best_off: usize,
    best_len: usize,
    fuel: nat,
)
    ensures
        locate_from(b, le, off, best_off, best_len, fuel) matches Ok(j) ==> j.offset > 0
            && j.length > 0 && j.offset + j.length <= b.len(),
    decreases fuel,
{
    if off == 0 {
    } else if fuel == 0 {
    } else if !ifd_bounded(b, le, off) {
    } else {
        let s = ifd_candidate(b, le, off);
        if replaces(s, best_len) {
            lemma_locate_from_ok_in_bounds(b, le, ifd_next(b, le, off), s.offset, s.length, (fuel - 1) as nat);
        } else {
            lemma_locate_from_ok_in_bounds(b, le, ifd_next(b, le, off), best_off, best_len, (fuel - 1) as nat);
        }
    }
}

/// The returned slice never reads outside the buffer: whenever the locator
/// succeeds, the region is non-degenerate and in bounds.
pub proof fn lemma_locate_ok_in_bounds(b: Seq<u8>)
    ensures
        locate(b) matches Ok(j) ==> j.offset > 0 && j.length > 0 && j.offset + j.length <= b.len(),
{
    if (is_le_magic(b) || is_be_magic(b)) && b.len() >= 8 {
        let le = is_le_magic(b);
        lemma_locate_from_ok_in_bounds(b, le, word32(b, le, 4), 0, 0, b.len());
    }
}

/// Whatever the walk returns improves on the best it started from, the
/// result is drawn from the accumulator or from some IFD of the chain, and
/// no IFD of the chain declares a longer candidate.
pub proof fn lemma_locate_from_max(
    b: Seq<u8>,
    le: bool,
    off: int,
    best_off: usize,
    best_len: usize,
    fuel: nat,
)
    ensures
        locate_from(b, le, off, best_off, best_len, fuel) matches Ok(j) ==> {
            let cands = chain_candidates(b, le, off, fuel);
            &&& j.length >= best_len
            &&& ((j.offset == best_off && j.length == best_len) || exists|k: int|
                0 <= k < cands.len() && #[trigger] cands[k].has_offset && cands[k].has_length
                    && cands[k].offset == j.offset && cands[k].length == j.length)
            &&& forall|k: int|
                0 <= k < cands.len() && #[trigger] cands[k].has_offset && cands[k].has_length
                    ==> cands[k].length <= j.length
        },
    decreases fuel,
{
    let r = locate_from(b, le, off, best_off, best_len, fuel);
    if off == 0 || fuel == 0 || !ifd_bounded(b, le, off) {
    } else {
        let s = ifd_candidate(b, le, off);
        let next = ifd_next(b, le, off);
        let cands = chain_candidates(b, le, off, fuel);
        let rest = chain_candidates(b, le, next, (fuel - 1) as nat);
        assert(cands == seq![s] + rest);
        assert(cands[0] == s);
        assert(forall|k: int| 0 <= k < rest.len() ==> cands[k + 1] == rest[k]);
        if replaces(s, best_len) {
            lemma_locate_from_max(b, le, next, s.offset, s.length, (fuel - 1) as nat);
            if let Ok(j) = r {
                assert(j.length >= s.length >= best_len);
                if j.offset == s.offset && j.length == s.length {
                    assert(cands[0].has_offset && cands[0].has_length && cands[0].offset
                        == j.offset && cands[0].length == j.length);
                } else {
                    let k = choose|k: int|
                        0 <= k < rest.len() && #[trigger] rest[k].has_offset
                            && rest[k].has_length && rest[k].offset == j.offset
                            && rest[k].length == j.length;
                    assert(cands[k + 1].has_offset && cands[k + 1].has_length && cands[k
                        + 1].offset == j.offset && cands[k + 1].length == j.length);
                }
                assert forall|k: int|
                    0 <= k < cands.len() && #[trigger] cands[k].has_offset
                        && cands[k].has_length implies cands[k].length <= j.length by {
                    if k > 0 {
                        assert(cands[k] == rest[k - 1]);
                    }
                }
            }
        } else {
            lemma_locate_from_max(b, le, next, best_off, best_len, (fuel - 1) as nat);
            if let Ok(j) = r {
                if !(j.offset == best_off && j.length == best_len) {
                    let k = choose|k: int|
                        0 <= k < rest.len() && #[trigger] rest[k].has_offset
                            && rest[k].has_length && rest[k].offset == j.offset
                            && rest[k].length == j.length;
                    assert(cands[k + 1].has_offset && cands[k + 1].has_length && cands[k
                        + 1].offset == j.offset && cands[k + 1].length == j.length);
                }
                assert forall|k: int|
                    0 <= k < cands.len() && #[trigger] cands[k].has_offset
                        && cands[k].has_length implies cands[k].length <= j.length by {
                    if k > 0 {
                        assert(cands[k] == rest[k - 1]);
                    }
                }
            }
        }
    }
}

/// When the locator succeeds, the returned region is one declared by some
/// IFD of the chain, and no IFD of the chain declares a longer one — the
/// result is the largest embedded JPEG, regardless of chain position.
pub proof fn lemma_locator_returns_largest(b: Seq<u8>)
    requires
        locate(b) matches Ok(_),
    ensures
        locate(b) matches Ok(j) ==> {
            let le = is_le_magic(b);
            let cands = chain_candidates(b, le, word32(b, le, 4), b.len());
            &&& exists|k: int|
                0 <= k < cands.len() && #[trigger] cands[k].has_offset && cands[k].has_length
                    && cands[k].offset == j.offset && cands[k].length == j.length
            &&& forall|k: int|
                0 <= k < cands.len() && #[trigger] cands[k].has_offset && cands[k].has_length
                    ==> cands[k].length <= j.length
        },
{
    let le = is_le_magic(b);
    lemma_locate_from_max(b, le, word32(b, le, 4), 0, 0, b.len());
    lemma_locate_from_ok_in_bounds(b, le, word32(b, le, 4), 0, 0, b.len());
}

/// A completed walk ends in the verdict of its final best candidate.
pub proof fn lemma_walk_result(
    b: Seq<u8>,
    le: bool,
    off: int,
    best_off: usize,
    best_len: usize,
    fuel: nat,
)
    requires
        walk_completes(b, le, off, fuel),
    ensures
        locate_from(b, le, off, best_off, best_len, fuel) == finish(
            b.len() as int,
            walk_best(b, le, off, best_off, best_len, fuel).0,
            walk_best(b, le, off, best_off, best_len, fuel).1,
        ),
    decreases fuel,
{
    if off == 0 {
    } else {
        let s = ifd_candidate(b, le, off);
        if replaces(s, best_len) {
            lemma_walk_result(b, le, ifd_next(b, le, off), s.offset, s.length, (fuel - 1) as nat);
        } else {
            lemma_walk_result(b, le, ifd_next(b, le, off), best_off, best_len, (fuel - 1) as nat);
        }
    }
}

/// A walk over IFDs that never capture both tags keeps its starting best.
pub proof fn lemma_walk_best_no_candidates(
    b: Seq<u8>,
    le: bool,
    off: int,
    best_off: usize,
    best_len: usize,
    fuel: nat,
)
    requires
        forall|k: int|
            0 <= k < chain_candidates(b, le, off, fuel).len()
                ==> !((#[trigger] chain_candidates(b, le, off, fuel)[k]).has_offset
                && chain_candidates(b, le, off, fuel)[k].has_length),
    ensures
        walk_best(b, le, off, best_off, best_len, fuel) == (best_off, best_len),
    decreases fuel,
{
    if off == 0 || fuel == 0 || !ifd_bounded(b, le, off) {
    } else {
        let s = ifd_candidate(b, le, off);
        let next = ifd_next(b, le, off);
        let cands = chain_candidates(b, le, off, fuel);
        let rest = chain_candidates(b, le, next, (fuel - 1) as nat);
        assert(cands == seq![s] + rest);
        assert(cands[0] == s);
        assert(!(s.has_offset && s.has_length));
        assert(forall|k: int| 0 <= k < rest.len() ==> rest[k] == cands[k + 1]);
        lemma_walk_best_no_candidates(b, le, next, best_off, best_len, (fuel - 1) as nat);
    }
}

/// On a buffer whose magic matches neither recognized byte order, the
/// locator fails with `InvalidContainer`.
pub proof fn lemma_bad_magic(b: Seq<u8>)
    requires
        !is_le_magic(b),
        !is_be_magic(b),
    ensures
        locate(b) == Err::<EmbeddedJpegInfo, LocateError>(LocateError::InvalidContainer),
{
}

/// On a buffer whose chain walks to completion with no IFD capturing both
/// JPEG tags, the locator fails with `NoJpegFound`.
pub proof fn lemma_no_tags_no_jpeg(b: Seq<u8>)
    requires
        is_le_magic(b) || is_be_magic(b),
        b.len() >= 8,
        walk_completes(b, is_le_magic(b), word32(b, is_le_magic(b), 4), b.len()),
        forall|k: int|
            0 <= k < chain_candidates(b, is_le_magic(b), word32(b, is_le_magic(b), 4), b.len()).len()
                ==> !((#[trigger] chain_candidates(
                b,
                is_le_magic(b),
                word32(b, is_le_magic(b), 4),
                b.len(),
            )[k]).has_offset && chain_candidates(
                b,
                is_le_magic(b),
                word32(b, is_le_magic(b), 4),
                b.len(),
            )[k].has_length),
    ensures
        locate(b) == Err::<EmbeddedJpegInfo, LocateError>(LocateError::NoJpegFound),
{
    let le = is_le_magic(b);
    let first = word32(b, le, 4);
    lemma_walk_result(b, le, first, 0, 0, b.len());
    lemma_walk_best_no_candidates(b, le, first, 0, 0, b.len());
}

/// On a buffer whose completed walk ends with a winning candidate whose
/// declared region exceeds the buffer, the locator fails with `OutOfBounds`.
pub proof fn lemma_oversized_winner_out_of_bounds(b: Seq<u8>)
    requires
        is_le_magic(b) || is_be_magic(b),
        b.len() >= 8,
        walk_completes(b, is_le_magic(b), word32(b, is_le_magic(b), 4), b.len()),
        walk_best(b, is_le_magic(b), word32(b, is_le_magic(b), 4), 0, 0, b.len()).0 != 0,
        walk_best(b, is_le_magic(b), word32(b, is_le_magic(b), 4), 0, 0, b.len()).1 != 0,
        walk_best(b, is_le_magic(b), word32(b, is_le_magic(b), 4), 0, 0, b.len()).0 + walk_best(
            b,
            is_le_magic(b),
            word32(b, is_le_magic(b), 4),
            0,
            0,
            b.len(),
        ).1 > b.len(),
    ensures
        locate(b) == Err::<EmbeddedJpegInfo, LocateError>(LocateError::OutOfBounds),
{
    let le = is_le_magic(b);
    lemma_walk_result(b, le, word32(b, le, 4), 0, 0, b.len());
}

/// On a buffer with a single in-bounds IFD that captures both JPEG tags with
/// a non-zero, in-bounds region, the locator returns exactly that region.
pub proof fn lemma_single_ifd_exact(b: Seq<u8>)
    requires
        is_le_magic(b) || is_be_magic(b),
        b.len() >= 8,
        word32(b, is_le_magic(b), 4) != 0,
        ifd_bounded(b, is_le_magic(b), word32(b, is_le_magic(b), 4)),
        ifd_next(b, is_le_magic(b), word32(b, is_le_magic(b), 4)) == 0,
        ifd_candidate(b, is_le_magic(b), word32(b, is_le_magic(b), 4)).has_offset,
        ifd_candidate(b, is_le_magic(b), word32(b, is_le_magic(b), 4)).has_length,
        ifd_candidate(b, is_le_magic(b), word32(b, is_le_magic(b), 4)).offset != 0,
        ifd_candidate(b, is_le_magic(b), word32(b, is_le_magic(b), 4)).length != 0,
        ifd_candidate(b, is_le_magic(b), word32(b, is_le_magic(b), 4)).offset + ifd_candidate(
            b,
            is_le_magic(b),
            word32(b, is_le_magic(b), 4),
        ).length <= b.len(),
    ensures
        locate(b) == Ok::<EmbeddedJpegInfo, LocateError>(
            EmbeddedJpegInfo {
                offset: ifd_candidate(b, is_le_magic(b), word32(b, is_le_magic(b), 4)).offset,
                length: ifd_candidate(b, is_le_magic(b), word32(b, is_le_magic(b), 4)).length,
            },
        ),
{
    let le = is_le_magic(b);
    let off = word32(b, le, 4);
    let s = ifd_candidate(b, le, off);
    assert(replaces(s, 0));
    assert(locate_from(b, le, off, 0, 0, b.len()) == locate_from(
        b,
        le,
        0,
        s.offset,
        s.length,
        (b.len() - 1) as nat,
    ));
}

/// Whether the located region of `buf` begins with the two-byte JPEG
/// start-of-image marker. A strictness option for callers: a region that
/// fails this check is corrupt or misidentified.
pub fn has_soi_marker(buf: &[u8], info: &EmbeddedJpegInfo) -> (r: bool)
    requires
        info.offset + info.length <= buf@.len(),
    ensures
        r == (info.length >= 2 && buf@[info.offset as int] == 0xffu8
            && buf@[info.offset + 1] == 0xd8u8),
{
    info.length >= 2 && buf[info.offset] == 0xff && buf[info.offset + 1] == 0xd8
}

} // verus!
