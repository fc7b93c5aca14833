//! FFmetadata: `key=value` lines where a backslash escapes the next byte
//! and a NUL ends the text.
use vstd::prelude::*;
use crate::scan::{index_of, index_of_from};

verus! {

broadcast use vstd::slice::group_slice_axioms;

/// Status: an empty line.
pub const EINVAL: i32 = -22;

/// Status: the destination is too small.
pub const ENOSPC: i32 = -28;

/// Where a line splits, and the lengths of its two halves before and after
/// unescaping (each up to its first NUL).
#[derive(Copy, Clone, Debug)]
pub struct FFMpegRsFFMetaSplit {
    pub eq_offset: usize,
    pub key_escaped_len: usize,
    pub value_escaped_len: usize,
    pub key_unescaped_len: usize,
    pub value_unescaped_len: usize,
}

/// The text of `s` from `i` on with escapes resolved: a backslash yields
/// the byte after it; a NUL, or a backslash at the end or before a NUL,
/// ends the text.
pub open spec fn unescape_from(s: Seq<u8>, i: int) -> Seq<u8>
    decreases s.len() - i,
{
    if i < 0 || i >= s.len() || s[i] == 0 {
        Seq::empty()
    } else if s[i] == ('\\' as u8) {
        if i + 1 >= s.len() || s[i + 1] == 0 {
            Seq::empty()
        } else {
            seq![s[i + 1]] + unescape_from(s, i + 2)
        }
    } else {
        seq![s[i]] + unescape_from(s, i + 1)
    }
}

/// The first `=` from `i` on that is not escaped, before the text ends.
pub open spec fn split_point(s: Seq<u8>, i: int) -> Option<int>
    decreases s.len() - i,
{
    if i < 0 || i >= s.len() || s[i] == 0 {
        None
    } else if s[i] == ('=' as u8) {
        Some(i)
    } else if s[i] == ('\\' as u8) {
        if i + 1 >= s.len() || s[i + 1] == 0 {
            None
        } else {
            split_point(s, i + 2)
        }
    } else {
        split_point(s, i + 1)
    }
}

/// The split of a line at `k`.
pub open spec fn split_at_eq(s: Seq<u8>, k: int) -> FFMpegRsFFMetaSplit {
    let key = s.subrange(0, k);
    let value = s.subrange(k + 1, s.len() as int);
    FFMpegRsFFMetaSplit {
        eq_offset: k as usize,
        key_escaped_len: index_of_from(key, 0, 0) as usize,
        value_escaped_len: index_of_from(value, 0, 0) as usize,
        key_unescaped_len: unescape_from(key, 0).len() as usize,
        value_unescaped_len: unescape_from(value, 0).len() as usize,
    }
}

/// The length of `src` unescaped; see [`unescape_from`].
pub fn unescaped_len(src: &[u8]) -> (r: usize)
    ensures
        r == unescape_from(src@, 0).len(),
{
    let mut i: usize = 0;
    let mut out: usize = 0;
    while i < src.len()
        invariant_except_break
            i <= src@.len(),
            out <= i,
            out + unescape_from(src@, i as int).len() == unescape_from(src@, 0).len(),
        ensures
            out == unescape_from(src@, 0).len(),
        decreases src@.len() - i,
    {
        if src[i] == 0 {
            break;
        }
        if src[i] == ('\\' as u8) {
            i = i + 1;
            if i >= src.len() || src[i] == 0 {
                break;
            }
        }
        out = out + 1;
        i = i + 1;
    }
    out
}

/// Finds the split point of a line; see [`split_point`].
fn find_split(bytes: &[u8]) -> (r: Option<usize>)
    ensures
        r is None <==> split_point(bytes@, 0) is None,
        r matches Some(k) ==> split_point(bytes@, 0) == Some(k as int) && k < bytes@.len(),
{
    let mut i: usize = 0;
    while i < bytes.len()
        invariant
            i <= bytes@.len(),
            split_point(bytes@, i as int) == split_point(bytes@, 0),
        decreases bytes@.len() - i,
    {
        let b = bytes[i];
        if b == 0 {
            return None;
        }
        if b == ('=' as u8) {
            return Some(i);
        }
        if b == ('\\' as u8) {
            i = i + 1;
            if i >= bytes.len() || bytes[i] == 0 {
                return None;
            }
        }
        i = i + 1;
    }
    None
}

/// Splits a line at its first unescaped `=` into `out`: returns 0; 1 when
/// there is none, or [`EINVAL`] for an empty line, leaving `out` alone.
pub fn ffmpeg_rs_ffmetadata_split_kv(line: &[u8], out: &mut FFMpegRsFFMetaSplit) -> (r: i32)
    ensures
        line@.len() == 0 ==> r == EINVAL && *final(out) == *old(out),
        line@.len() > 0 && split_point(line@, 0) is None ==> r == 1 && *final(out) == *old(out),
        line@.len() > 0 ==> (split_point(line@, 0) matches Some(k) ==> r == 0 && *final(out)
            == split_at_eq(line@, k)),
{
    if line.len() == 0 {
        return EINVAL;
    }
    match find_split(line) {
        Some(k) => {
            let key = &line[0..k];
            let value = &line[k + 1..line.len()];
            *out = FFMpegRsFFMetaSplit {
                eq_offset: k,
                key_escaped_len: index_of(key, 0, 0),
                value_escaped_len: index_of(value, 0, 0),
                key_unescaped_len: unescaped_len(key),
                value_unescaped_len: unescaped_len(value),
            };
            0
        },
        None => 1,
    }
}

/// Unescapes `src` into `dst` with a closing NUL, cutting the text to fit,
/// and stores the full unescaped length in `out_written`. Returns 0, or
/// [`ENOSPC`] when the text and its NUL do not fit; an empty `dst` is left
/// alone.
pub fn ffmpeg_rs_ffmetadata_unescape(dst: &mut [u8], src: &[u8], out_written: &mut usize) -> (r: i32)
    ensures
        ({
            let u = unescape_from(src@, 0);
            let cap = old(dst)@.len();
            &&& *final(out_written) == u.len()
            &&& r == (if cap == 0 || u.len() + 1 > cap { ENOSPC } else { 0 })
            &&& cap == 0 ==> final(dst)@ == old(dst)@
            &&& cap > 0 ==> {
                let k = if u.len() < cap - 1 { u.len() as int } else { cap - 1 };
                final(dst)@ == old(dst)@.update(k, 0u8).map(
                    |j: int, b: u8| if j < k { u[j] } else { b },
                )
            }
        }),
{
    let ghost u = unescape_from(src@, 0);
    let ghost old_dst = dst@;
    let cap = dst.len();
    let mut i: usize = 0;
    let mut o: usize = 0;
    let ghost mut produced: Seq<u8> = Seq::empty();
    loop
        invariant_except_break
            i <= src@.len(),
            o == produced.len(),
            o <= i,
            produced + unescape_from(src@, i as int) == u,
            dst@.len() == cap,
            forall|j: int| 0 <= j < o && j + 1 < cap ==> dst@[j] == produced[j],
            forall|j: int| 0 <= j < cap && !(j < o && j + 1 < cap) ==> dst@[j] == old_dst[j],
        ensures
            o == u.len(),
            dst@.len() == cap,
            forall|j: int| 0 <= j < o && j + 1 < cap ==> dst@[j] == u[j],
            forall|j: int| 0 <= j < cap && !(j < o && j + 1 < cap) ==> dst@[j] == old_dst[j],
        decreases src@.len() - i,
    {
        if i >= src.len() {
            assert(produced + Seq::<u8>::empty() =~= produced);
            break;
        }
        let b = src[i];
        if b == 0 {
            assert(produced + Seq::<u8>::empty() =~= produced);
            break;
        }
        if b == ('\\' as u8) {
            i = i + 1;
            if i >= src.len() || src[i] == 0 {
                assert(produced + Seq::<u8>::empty() =~= produced);
                break;
            }
        }
        proof {
            assert(produced.push(src@[i as int]) + unescape_from(src@, i + 1) =~= produced + (seq![
                src@[i as int],
            ] + unescape_from(src@, i + 1)));
            produced = produced.push(src@[i as int]);
        }
        if cap > 0 && o < cap - 1 {
            dst[o] = src[i];
        }
        o = o + 1;
        i = i + 1;
    }
    *out_written = o;
    if cap == 0 {
        return ENOSPC;
    }
    if o >= cap {
        dst[cap - 1] = 0;
        assert(dst@ =~= old_dst.update(cap - 1, 0u8).map(
            |j: int, b: u8| if j < cap - 1 { u[j] } else { b },
        ));
        return ENOSPC;
    }
    dst[o] = 0;
    assert(dst@ =~= old_dst.update(o as int, 0u8).map(
        |j: int, b: u8| if j < o { u[j] } else { b },
    ));
    0
}

} // verus!
