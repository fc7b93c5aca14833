//! Concat demuxer scripts: the span of a directive's keyword.
use vstd::prelude::*;
use crate::scan::{is_space_byte, skip_spaces, space_run};
use crate::token::{get_token, held, token_of, ENOSPC};

verus! {

broadcast use vstd::slice::group_slice_axioms;

/// Status: an empty buffer.
pub const EINVAL: i32 = -22;

/// Where a keyword lies: white space skipped before it, its length, and
/// where the next token starts.
#[derive(Copy, Clone, Debug)]
pub struct FFMpegRsConcatKeyword {
    pub skip: usize,
    pub len: usize,
    pub advance: usize,
}

/// The number of bytes from `i` on that are neither NUL nor white space.
pub open spec fn word_run(s: Seq<u8>, i: int) -> nat
    decreases s.len() - i,
{
    if i < 0 || i >= s.len() || s[i] == 0 || is_space_byte(s[i]) {
        0
    } else {
        1 + word_run(s, i + 1)
    }
}

/// The keyword at the start of `b`, after any white space; the next token
/// starts after one delimiter and the white space after it.
pub open spec fn keyword_of(b: Seq<u8>) -> FFMpegRsConcatKeyword {
    let start = space_run(b, 0) as int;
    let end = start + word_run(b, start);
    let adv = if end < b.len() && b[end] != 0 { end + 1 + space_run(b, end + 1) } else { end };
    FFMpegRsConcatKeyword { skip: start as usize, len: (end - start) as usize, advance: adv as usize }
}

/// The index just past the word that starts at `i`.
fn skip_word(s: &[u8], i: usize) -> (r: usize)
    requires
        i <= s@.len(),
    ensures
        r == i + word_run(s@, i as int),
        r <= s@.len(),
{
    let mut k: usize = i;
    while k < s.len() && s[k] != 0 && !(s[k] == (' ' as u8) || s[k] == ('\t' as u8) || s[k] == (
    '\r' as u8) || s[k] == ('\n' as u8))
        invariant
            i <= k <= s@.len(),
            word_run(s@, i as int) == (k - i) + word_run(s@, k as int),
        decreases s@.len() - k,
    {
        k = k + 1;
    }
    k
}

/// Finds the keyword of `buf` and stores its span in `out`; returns 0, or
/// [`EINVAL`] for an empty buffer and leaves `out` alone.
pub fn ffmpeg_rs_concat_parse_keyword(buf: &[u8], out: &mut FFMpegRsConcatKeyword) -> (r: i32)
    ensures
        buf@.len() == 0 ==> r == EINVAL && *final(out) == *old(out),
        buf@.len() > 0 ==> r == 0 && *final(out) == keyword_of(buf@),
{
    if buf.len() == 0 {
        return EINVAL;
    }
    let start = skip_spaces(buf, 0);
    let end = skip_word(buf, start);
    let mut adv = end;
    if adv < buf.len() && buf[adv] != 0 {
        adv = skip_spaces(buf, adv + 1);
    }
    *out = FFMpegRsConcatKeyword { skip: start, len: end - start, advance: adv };
    0
}

/// Reads one token, split at white space, into `dst`; see
/// [`get_token`]. Returns [`EINVAL`] for an empty buffer and leaves the
/// outputs alone.
pub fn ffmpeg_rs_concat_get_token(
    buf: &[u8],
    dst: &mut [u8],
    out_advance: &mut usize,
    out_required: &mut usize,
) -> (r: i32)
    requires
        buf@.len() < usize::MAX,
    ensures
        buf@.len() == 0 ==> r == EINVAL && final(dst)@ == old(dst)@ && *final(out_advance)
            == *old(out_advance) && *final(out_required) == *old(out_required),
        buf@.len() > 0 ==> {
            let (p, t, e) = token_of(buf@, Seq::empty(), true, old(dst)@);
            let cap = old(dst)@.len();
            let filled = Seq::new(cap, |k: int| held(p, old(dst)@, k));
            &&& *final(out_advance) == e
            &&& *final(out_required) == t + 1
            &&& r == (if cap == 0 || t + 1 > cap { ENOSPC } else { 0 })
            &&& r != 0 ==> final(dst)@ == filled
            &&& r == 0 ==> final(dst)@ == filled.update(t, 0u8)
        },
{
    if buf.len() == 0 {
        return EINVAL;
    }
    let none: [u8; 0] = [];
    let term = none.as_slice();
    assert(term@ =~= Seq::<u8>::empty());
    get_token(buf, term, true, dst, out_advance, out_required)
}

} // verus!
