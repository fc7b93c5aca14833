//! Option strings: one token up to any of a set of terminator bytes.
use vstd::prelude::*;
use crate::token::{get_token, held, token_of, EINVAL, ENOSPC};

verus! {

broadcast use vstd::slice::group_slice_axioms;

/// Reads one token, ended by a byte of `term` (itself ended by a NUL), into
/// `dst`; see [`get_token`]. Returns [`EINVAL`] for an empty buffer or
/// terminator set and leaves the outputs alone.
pub fn ffmpeg_rs_util_get_token(
    buf: &[u8],
    term: &[u8],
    dst: &mut [u8],
    out_advance: &mut usize,
    out_required: &mut usize,
) -> (r: i32)
    requires
        buf@.len() < usize::MAX,
    ensures
        buf@.len() == 0 || term@.len() == 0 ==> r == EINVAL && final(dst)@ == old(dst)@
            && *final(out_advance) == *old(out_advance) && *final(out_required) == *old(
            out_required,
        ),
        buf@.len() > 0 && term@.len() > 0 ==> {
            let (p, t, e) = token_of(buf@, term@, false, old(dst)@);
            let cap = old(dst)@.len();
            let filled = Seq::new(cap, |k: int| held(p, old(dst)@, k));
            &&& *final(out_advance) == e
            &&& *final(out_required) == t + 1
            &&& r == (if cap == 0 || t + 1 > cap { ENOSPC } else { 0 })
            &&& r != 0 ==> final(dst)@ == filled
            &&& r == 0 ==> final(dst)@ == filled.update(t, 0u8)
        },
{
    if buf.len() == 0 || term.len() == 0 {
        return EINVAL;
    }
    get_token(buf, term, false, dst, out_advance, out_required)
}

} // verus!
