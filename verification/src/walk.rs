//! File-classification and path rules of the directory walk: which entries
//! count as RAW files, and where the extracted JPEG of a file goes.
//!
//! Paths are byte strings with `/` (byte 0x2f) separating components, as the
//! operating system hands them out; the surrounding program converts between
//! its path values and these bytes.

use vstd::prelude::*;
use vstd::slice::{slice_subrange, slice_to_vec};

verus! {

/// Whether two byte slices hold the same bytes.
pub fn bytes_eq(a: &[u8], b: &[u8]) -> (r: bool)
    ensures
        r == (a@ == b@),
{
    if a.len() != b.len() {
        assert(a@ != b@);
        return false;
    }
    let n = a.len();
    let mut i: usize = 0;
    while i < n
        invariant
            n == a@.len() == b@.len(),
            i <= n,
            forall|k: int| 0 <= k < i ==> a@[k] == b@[k],
        decreases n - i,
    {
        if a[i] != b[i] {
            return false;
        }
        i = i + 1;
    }
    proof {
        assert(a@ =~= b@);
    }
    true
}

/// An upper-case ASCII letter mapped to its lower-case form; any other byte
/// kept as it is.
pub open spec fn lower_byte(c: u8) -> u8 {
    if 0x41 <= c && c <= 0x5a {
        (c + 0x20) as u8
    } else {
        c
    }
}

/// A byte string with its ASCII letters lowered.
pub open spec fn lower_bytes(s: Seq<u8>) -> Seq<u8> {
    s.map_values(|c: u8| lower_byte(c))
}

/// The default recognized RAW extensions, lower-case: arw, cr2, crw, dng,
/// erf, kdc, mef, mrw, nef, nrw, orf, pef, raf, raw, rw2, rwl, sr2, srf,
/// srw, x3f.
pub open spec fn is_default_raw_ext(s: Seq<u8>) -> bool {
    ||| s == seq![0x61u8, 0x72u8, 0x77u8]  // arw
    ||| s == seq![0x63u8, 0x72u8, 0x32u8]  // cr2
    ||| s == seq![0x63u8, 0x72u8, 0x77u8]  // crw
    ||| s == seq![0x64u8, 0x6eu8, 0x67u8]  // dng
    ||| s == seq![0x65u8, 0x72u8, 0x66u8]  // erf
    ||| s == seq![0x6bu8, 0x64u8, 0x63u8]  // kdc
    ||| s == seq![0x6du8, 0x65u8, 0x66u8]  // mef
    ||| s == seq![0x6du8, 0x72u8, 0x77u8]  // mrw
    ||| s == seq![0x6eu8, 0x65u8, 0x66u8]  // nef
    ||| s == seq![0x6eu8, 0x72u8, 0x77u8]  // nrw
    ||| s == seq![0x6fu8, 0x72u8, 0x66u8]  // orf
    ||| s == seq![0x70u8, 0x65u8, 0x66u8]  // pef
    ||| s == seq![0x72u8, 0x61u8, 0x66u8]  // raf
    ||| s == seq![0x72u8, 0x61u8, 0x77u8]  // raw
    ||| s == seq![0x72u8, 0x77u8, 0x32u8]  // rw2
    ||| s == seq![0x72u8, 0x77u8, 0x6cu8]  // rwl
    ||| s == seq![0x73u8, 0x72u8, 0x32u8]  // sr2
    ||| s == seq![0x73u8, 0x72u8, 0x66u8]  // srf
    ||| s == seq![0x73u8, 0x72u8, 0x77u8]  // srw
    ||| s == seq![0x78u8, 0x33u8, 0x66u8]  // x3f
}

/// The view of an optional extra extension.
pub open spec fn extra_view(extra: Option<&[u8]>) -> Option<Seq<u8>> {
    match extra {
        Some(e) => Some(e@),
        None => None,
    }
}

/// Whether an extension is recognized: a case-insensitive member of the
/// default set, or exactly the caller-supplied extra extension.
pub open spec fn is_recognized_ext(ext: Seq<u8>, extra: Option<Seq<u8>>) -> bool {
    ||| is_default_raw_ext(lower_bytes(ext))
    ||| (extra matches Some(e) && ext == e)
}

/// Whether a 3-byte slice equals the given bytes.
fn ext3_eq(s: &[u8], a: u8, b: u8, c: u8) -> (r: bool)
    ensures
        r == (s@ == seq![a, b, c]),
{
    if s.len() != 3 {
        assert(s@ != seq![a, b, c]) by {
            assert(seq![a, b, c].len() == 3);
        };
        return false;
    }
    let r = s[0] == a && s[1] == b && s[2] == c;
    proof {
        if r {
            assert(s@ =~= seq![a, b, c]);
        } else {
            if s@ == seq![a, b, c] {
                assert(s@[0] == a && s@[1] == b && s@[2] == c);
            }
        }
    }
    r
}

/// Decides whether `ext` names a RAW file: a case-insensitive member of the
/// default extension set, or exactly the optional extra extension.
pub fn is_raw_extension(ext: &[u8], extra: Option<&[u8]>) -> (r: bool)
    ensures
        r == is_recognized_ext(ext@, extra_view(extra)),
{
    let mut low: Vec<u8> = Vec::new();
    let n = ext.len();
    let mut i: usize = 0;
    while i < n
        invariant
            n == ext@.len(),
            i <= n,
            low@ == lower_bytes(ext@).take(i as int),
        decreases n - i,
    {
        let c = ext[i];
        let lc = if c >= 0x41 && c <= 0x5a {
            c + 0x20
        } else {
            c
        };
        assert(lc == lower_byte(c));
        low.push(lc);
        assert(low@ =~= lower_bytes(ext@).take(i + 1));
        i = i + 1;
    }
    assert(low@ =~= lower_bytes(ext@));
    let l = low.as_slice();
    let in_default = ext3_eq(l, 0x61, 0x72, 0x77) || ext3_eq(l, 0x63, 0x72, 0x32) || ext3_eq(
        l,
        0x63,
        0x72,
        0x77,
    ) || ext3_eq(l, 0x64, 0x6e, 0x67) || ext3_eq(l, 0x65, 0x72, 0x66) || ext3_eq(
        l,
        0x6b,
        0x64,
        0x63,
    ) || ext3_eq(l, 0x6d, 0x65, 0x66) || ext3_eq(l, 0x6d, 0x72, 0x77) || ext3_eq(
        l,
        0x6e,
        0x65,
        0x66,
    ) || ext3_eq(l, 0x6e, 0x72, 0x77) || ext3_eq(l, 0x6f, 0x72, 0x66) || ext3_eq(
        l,
        0x70,
        0x65,
        0x66,
    ) || ext3_eq(l, 0x72, 0x61, 0x66) || ext3_eq(l, 0x72, 0x61, 0x77) || ext3_eq(
        l,
        0x72,
        0x77,
        0x32,
    ) || ext3_eq(l, 0x72, 0x77, 0x6c) || ext3_eq(l, 0x73, 0x72, 0x32) || ext3_eq(
        l,
        0x73,
        0x72,
        0x66,
    ) || ext3_eq(l, 0x73, 0x72, 0x77) || ext3_eq(l, 0x78, 0x33, 0x66);
    if in_default {
        return true;
    }
    match extra {
        Some(e) => bytes_eq(ext, e),
        None => false,
    }
}

/// The index of the last occurrence of `c` in `s`, or -1 when `c` does not
/// occur.
pub open spec fn last_pos(s: Seq<u8>, c: u8) -> int
    decreases s.len(),
{
    if s.len() == 0 {
        -1
    } else if s[s.len() - 1] == c {
        s.len() - 1
    } else {
        last_pos(s.drop_last(), c)
    }
}

/// Extending the scanned prefix by one byte moves the last occurrence to
/// that byte exactly when it matches.
proof fn lemma_last_pos_step(s: Seq<u8>, c: u8, i: int)
    requires
        0 <= i < s.len(),
    ensures
        last_pos(s.take(i + 1), c) == if s[i] == c {
            i
        } else {
            last_pos(s.take(i), c)
        },
{
    let t = s.take(i + 1);
    assert(t.len() == i + 1);
    assert(t[i] == s[i]);
    assert(t.drop_last() =~= s.take(i));
}

/// The last occurrence of `c` in `s`, scanned in one pass; the returned
/// index mirrors `last_pos`.
fn find_last(s: &[u8], c: u8) -> (r: Option<usize>)
    ensures
        r matches Some(j) ==> j == last_pos(s@, c) && j < s@.len(),
        r is None ==> last_pos(s@, c) == -1,
{
    let n = s.len();
    let mut i: usize = 0;
    let mut found: Option<usize> = None;
    assert(s@.take(0) =~= Seq::<u8>::empty());
    while i < n
        invariant
            n == s@.len(),
            i <= n,
            found matches Some(j) ==> j == last_pos(s@.take(i as int), c) && j < i,
            found is None ==> last_pos(s@.take(i as int), c) == -1,
        decreases n - i,
    {
        proof {
            lemma_last_pos_step(s@, c, i as int);
        }
        if s[i] == c {
            found = Some(i);
        }
        i = i + 1;
    }
    assert(s@.take(n as int) =~= s@);
    found
}

/// The extension of a file name: the bytes after the last dot, unless the
/// only dot leads the name. A name without a dot, or whose single dot is its
/// first byte, has no extension.
pub open spec fn ext_of(name: Seq<u8>) -> Option<Seq<u8>> {
    let j = last_pos(name, 0x2eu8);
    if j > 0 {
        Some(name.subrange(j + 1, name.len() as int))
    } else {
        None
    }
}

/// The extension of a file name, or `None` when it has none.
pub fn name_extension<'a>(name: &'a [u8]) -> (r: Option<&'a [u8]>)
    ensures
        ext_of(name@) matches Some(x) ==> (r matches Some(e) && e@ == x),
        ext_of(name@) is None ==> r is None,
{
    let n = name.len();
    let found = find_last(name, 0x2e);
    match found {
        Some(j) => {
            if j > 0 {
                Some(slice_subrange(name, j + 1, n))
            } else {
                None
            }
        },
        None => None,
    }
}

/// Whether a directory entry's name carries a recognized RAW extension.
pub open spec fn is_raw_name(name: Seq<u8>, extra: Option<Seq<u8>>) -> bool {
    ext_of(name) matches Some(x) && is_recognized_ext(x, extra)
}

/// Decides whether a file name carries a recognized RAW extension.
pub fn matches_raw_name(name: &[u8], extra: Option<&[u8]>) -> (r: bool)
    ensures
        r == is_raw_name(name@, extra_view(extra)),
{
    match name_extension(name) {
        Some(e) => is_raw_extension(e, extra),
        None => false,
    }
}

/// The bytes of the output suffix `.jpg`.
pub open spec fn jpg_suffix() -> Seq<u8> {
    seq![0x2eu8, 0x6au8, 0x70u8, 0x67u8]
}

/// The relative output path of a relative input path: its final component's
/// extension replaced by `jpg`, or `.jpg` appended when that component has
/// no extension.
pub open spec fn output_rel(rel: Seq<u8>) -> Seq<u8> {
    let s = last_pos(rel, 0x2fu8);
    let j = last_pos(rel, 0x2eu8);
    if j > s + 1 {
        rel.take(j) + jpg_suffix()
    } else {
        rel + jpg_suffix()
    }
}

/// Builds the relative output path for a relative input path.
pub fn output_rel_path(rel: &[u8]) -> (r: Vec<u8>)
    ensures
        r@ == output_rel(rel@),
{
    let n = rel.len();
    let slash = find_last(rel, 0x2f);
    let dot = find_last(rel, 0x2e);
    let cut: usize = match (dot, slash) {
        (Some(j), Some(s)) => if j > s + 1 {
            j
        } else {
            rel.len()
        },
        (Some(j), None) => if j > 0 {
            j
        } else {
            rel.len()
        },
        _ => rel.len(),
    };
    assert(cut == if last_pos(rel@, 0x2eu8) > last_pos(rel@, 0x2fu8) + 1 {
        last_pos(rel@, 0x2eu8)
    } else {
        rel@.len() as int
    });
    let mut out = slice_to_vec(slice_subrange(rel, 0, cut));
    out.push(0x2e);
    out.push(0x6a);
    out.push(0x70);
    out.push(0x67);
    proof {
        if last_pos(rel@, 0x2eu8) > last_pos(rel@, 0x2fu8) + 1 {
            assert(out@ =~= rel@.take(last_pos(rel@, 0x2eu8)) + jpg_suffix());
        } else {
            assert(rel@.subrange(0, rel@.len() as int) =~= rel@);
            assert(out@ =~= rel@ + jpg_suffix());
        }
    }
    out
}

/// The relative path of an entry `name` inside the relative directory
/// `dir`: the two joined with a separator, or the name alone at the root.
pub open spec fn joined(dir: Seq<u8>, name: Seq<u8>) -> Seq<u8> {
    if dir.len() == 0 {
        name
    } else {
        dir + seq![0x2fu8] + name
    }
}

/// Joins a relative directory and an entry name into one relative path.
pub fn join_rel(dir: &[u8], name: &[u8]) -> (r: Vec<u8>)
    ensures
        r@ == joined(dir@, name@),
{
    if dir.len() == 0 {
        let r = slice_to_vec(name);
        assert(r@ =~= joined(dir@, name@));
        r
    } else {
        let mut r = slice_to_vec(dir);
        r.push(0x2f);
        let mut i: usize = 0;
        let n = name.len();
        while i < n
            invariant
                n == name@.len(),
                i <= n,
                r@ == dir@ + seq![0x2fu8] + name@.take(i as int),
            decreases n - i,
        {
            r.push(name[i]);
            assert(r@ =~= dir@ + seq![0x2fu8] + name@.take(i + 1));
            i = i + 1;
        }
        assert(r@ =~= joined(dir@, name@));
        r
    }
}

} // verus!
