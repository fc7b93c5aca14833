//! Small helpers for callers on the other side of a C boundary: the
//! library's version, a byte search, and a bounded string copy.
use vstd::prelude::*;
use crate::scan::{index_of, index_of_from};

verus! {

broadcast use vstd::slice::group_slice_axioms;

/// The version of this library's interface.
pub fn ffmpeg_rs_version() -> (r: u32)
    ensures
        r == 1,
{
    1
}

/// The index of the first `needle` in `haystack`.
pub fn ffmpeg_rs_memchr(haystack: &[u8], needle: u8) -> (r: Option<usize>)
    ensures
        r is None <==> index_of_from(haystack@, needle, 0) == haystack@.len(),
        r matches Some(i) ==> i == index_of_from(haystack@, needle, 0),
{
    let i = index_of(haystack, needle, 0);
    if i < haystack.len() {
        Some(i)
    } else {
        None
    }
}

/// The string in `src`: its bytes up to the first NUL, or all of them.
pub open spec fn c_str(src: Seq<u8>) -> Seq<u8> {
    src.subrange(0, index_of_from(src, 0, 0))
}

/// Copies the string in `src` into `dst`, cut to leave room for a closing
/// NUL, and adds that NUL; the rest of `dst` is left alone. Returns 0, or
/// -1 for an empty `dst`.
pub fn ffmpeg_rs_copy_str(dst: &mut [u8], src: &[u8]) -> (r: i32)
    ensures
        old(dst)@.len() == 0 ==> r == -1 && final(dst)@ == old(dst)@,
        old(dst)@.len() > 0 ==> {
            let s = c_str(src@);
            let k = if s.len() < old(dst)@.len() - 1 { s.len() as int } else { old(dst)@.len() - 1 };
            &&& r == 0
            &&& final(dst)@ == old(dst)@.update(k, 0u8).map(
                |j: int, b: u8| if j < k { s[j] } else { b },
            )
        },
{
    if dst.len() == 0 {
        return -1;
    }
    let n = index_of(src, 0, 0);
    let k: usize = if n < dst.len() - 1 { n } else { dst.len() - 1 };
    let ghost old_dst = dst@;
    let mut i: usize = 0;
    while i < k
        invariant
            i <= k < dst@.len(),
            k <= n <= src@.len(),
            n == index_of_from(src@, 0, 0),
            dst@.len() == old_dst.len(),
            forall|j: int| 0 <= j < i ==> dst@[j] == src@[j],
            forall|j: int| i <= j < dst@.len() ==> dst@[j] == old_dst[j],
        decreases k - i,
    {
        dst[i] = src[i];
        i = i + 1;
    }
    dst[k] = 0;
    proof {
        let s = c_str(src@);
        assert(dst@ =~= old_dst.update(k as int, 0u8).map(
            |j: int, b: u8| if j < k { s[j] } else { b },
        ));
    }
    0
}

} // verus!
