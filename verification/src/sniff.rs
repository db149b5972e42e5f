//! Heuristic runtime-ABI classification of executable module bytes: a scan
//! for a fixed marker subsequence, not a structural check of the binary.

use vstd::prelude::*;
use vstd::string::StrSliceExecFns;
use crate::AbiKind;

verus! {

/// Whether `needle` occurs in `hay` starting at index `i`.
pub open spec fn spec_matches_at(hay: Seq<u8>, needle: Seq<u8>, i: int) -> bool {
    0 <= i && i + needle.len() <= hay.len() && hay.subrange(i, i + needle.len()) == needle
}

/// Whether `needle` occurs anywhere in `hay`.
pub open spec fn spec_contains(hay: Seq<u8>, needle: Seq<u8>) -> bool {
    exists|i: int| spec_matches_at(hay, needle, i)
}

fn matches_at(hay: &Vec<u8>, needle: &Vec<u8>, i: usize) -> (r: bool)
    requires
        i + needle@.len() <= hay@.len(),
    ensures
        r == spec_matches_at(hay@, needle@, i as int),
{
    let n = hay.len();
    let m = needle.len();
    let mut j: usize = 0;
    while j < m
        invariant
            j <= m,
            m == needle@.len(),
            n == hay@.len(),
            i + m <= n,
            forall|l: int| 0 <= l < j ==> hay@[i + l] == needle@[l],
        decreases m - j,
    {
        if hay[i + j] != needle[j] {
            assert(hay@.subrange(i as int, i + m) != needle@) by {
                assert(hay@.subrange(i as int, i + m)[j as int] != needle@[j as int]);
            }
            return false;
        }
        j = j + 1;
    }
    assert(hay@.subrange(i as int, i + m) =~= needle@);
    true
}

/// Whether the byte sequence `needle` occurs anywhere inside `hay`.
pub fn contains_subseq(hay: &Vec<u8>, needle: &Vec<u8>) -> (r: bool)
    ensures
        r == spec_contains(hay@, needle@),
{
    let n = hay.len();
    let m = needle.len();
    if m > n {
        assert(!spec_contains(hay@, needle@));
        return false;
    }
    let last: usize = n - m;
    let mut i: usize = 0;
    loop
        invariant
            i <= last,
            last == n - m,
            m <= n,
            n == hay@.len(),
            m == needle@.len(),
            forall|k: int| 0 <= k < i ==> !spec_matches_at(hay@, needle@, k),
        decreases last - i,
    {
        if matches_at(hay, needle, i) {
            return true;
        }
        if i == last {
            assert(forall|k: int| k > last ==> !spec_matches_at(hay@, needle@, k));
            assert(!spec_contains(hay@, needle@));
            return false;
        }
        i = i + 1;
    }
}

/// The marker bytes associated with the WASI startup convention.
pub open spec fn spec_wasi_marker() -> Seq<u8> {
    vstd::utf8::encode_utf8("wasi_snapshot_preview1"@)
}

/// A module classifies as [`AbiKind::Wasi`] exactly when the WASI marker
/// occurs somewhere in its bytes.
pub open spec fn spec_classify(wasm: Seq<u8>) -> AbiKind {
    if spec_contains(wasm, spec_wasi_marker()) {
        AbiKind::Wasi
    } else {
        AbiKind::NoneDetected
    }
}

/// Classifies module bytes by scanning for the WASI marker.  This is a
/// heuristic: the marker may occur incidentally, say inside a data section,
/// and such a module still classifies as [`AbiKind::Wasi`].
pub fn classify_abi(wasm: &Vec<u8>) -> (r: AbiKind)
    ensures
        r == spec_classify(wasm@),
{
    let marker = "wasi_snapshot_preview1".as_bytes_vec();
    if contains_subseq(wasm, &marker) {
        AbiKind::Wasi
    } else {
        AbiKind::NoneDetected
    }
}

} // verus!
