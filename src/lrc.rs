//! LRC lyrics: the run of `[mm:ss.xx]` time tags that opens a line, and the
//! first such tag read as microseconds.
use vstd::prelude::*;
use crate::scan::{
    blank_run, dec_value, digit_run, pow10, digits_at, digits_checked_u32, frac_round_micros,
    is_blank_byte, is_digit, is_digit_byte, lemma_digit_run_bounds, round6, skip_blanks,
};

verus! {

broadcast use vstd::slice::group_slice_axioms;

/// Microseconds per second.
pub const AV_TIME_BASE: i64 = 1_000_000;

/// The end of the time-tag prefix that starts at `off`, given the bracket
/// depth there: blanks anywhere, `[` and a matching `]`, and inside
/// brackets `:`, `.`, `-` and digits.
pub open spec fn ts_prefix_end(line: Seq<u8>, off: int, depth: int) -> int
    decreases line.len() - off,
{
    if off < 0 || off >= line.len() {
        off
    } else {
        let b = line[off];
        if is_blank_byte(b) {
            ts_prefix_end(line, off + 1, depth)
        } else if b == ('[' as u8) {
            ts_prefix_end(line, off + 1, depth + 1)
        } else if b == (']' as u8) && depth > 0 {
            ts_prefix_end(line, off + 1, depth - 1)
        } else if depth > 0 && (b == (':' as u8) || b == ('.' as u8) || b == ('-' as u8)
            || is_digit_byte(b)) {
            ts_prefix_end(line, off + 1, depth)
        } else {
            off
        }
    }
}

/// A space or a tab.
pub fn is_ws(b: u8) -> (r: bool)
    ensures
        r == is_blank_byte(b),
{
    b == (' ' as u8) || b == ('\t' as u8)
}

/// The length of the time-tag prefix of `line`.
pub fn count_ts_prefix(line: &[u8]) -> (r: usize)
    ensures
        r == ts_prefix_end(line@, 0, 0),
{
    let mut offset: usize = 0;
    let mut in_brackets: usize = 0;
    while offset < line.len()
        invariant_except_break
            offset <= line@.len(),
            in_brackets <= offset,
            ts_prefix_end(line@, offset as int, in_brackets as int) == ts_prefix_end(line@, 0, 0),
        ensures
            offset == ts_prefix_end(line@, 0, 0),
        decreases line@.len() - offset,
    {
        let b = line[offset];
        if is_ws(b) {
            offset = offset + 1;
        } else if b == ('[' as u8) {
            offset = offset + 1;
            in_brackets = in_brackets + 1;
        } else if b == (']' as u8) && in_brackets > 0 {
            offset = offset + 1;
            in_brackets = in_brackets - 1;
        } else if in_brackets > 0 && (b == (':' as u8) || b == ('.' as u8) || b == ('-' as u8)
            || is_digit(b)) {
            offset = offset + 1;
        } else {
            break;
        }
    }
    offset
}

/// A time tag `[mm:ss]` or `[mm:ss.frac]` after optional blanks, with an
/// optional `-` after the bracket: the bytes read through the `]`, and the
/// time in microseconds, the fraction rounded half up. Minutes must fit
/// `u32`, and the seconds lie within `[0, 60]`.
pub open spec fn lrc_timestamp(s: Seq<u8>) -> Option<(int, int)> {
    let j = blank_run(s, 0) as int;
    if j >= s.len() || s[j] != ('[' as u8) {
        None
    } else {
        let a = j + 1;
        let neg = a < s.len() && s[a] == ('-' as u8);
        let b = if neg { a + 1 } else { a };
        let mm = dec_value(digits_at(s, b));
        let c = b + digit_run(s, b);
        let d = c + 1;
        let sv = dec_value(digits_at(s, d));
        let p = d + digit_run(s, d);
        let dot = p < s.len() && s[p] == ('.' as u8);
        let fd = if dot { digits_at(s, p + 1) } else { Seq::empty() };
        let q = if dot { p + 1 + fd.len() } else { p };
        if digit_run(s, b) == 0 || mm > u32::MAX || c >= s.len() || s[c] != (':' as u8) {
            None
        } else if digit_run(s, d) == 0 || sv > u32::MAX || (dot && fd.len() == 0) {
            None
        } else if sv > 60 || (sv == 60 && dec_value(fd) > 0) {
            None
        } else if q >= s.len() || s[q] != (']' as u8) {
            None
        } else {
            let us = ((mm * 60 + sv) * 1_000_000 + round6(fd)) as int;
            Some((q + 1, if neg { -us } else { us }))
        }
    }
}

/// Reads the first time tag of `line`; see [`lrc_timestamp`].
pub fn read_ts(line: &[u8]) -> (r: Option<(usize, i64)>)
    ensures
        r matches Some((c, us)) ==> lrc_timestamp(line@) == Some((c as int, us as int)),
        r is None <==> lrc_timestamp(line@) is None,
{
    let s = line;
    let j = skip_blanks(s, 0);
    if j >= s.len() || s[j] != ('[' as u8) {
        return None;
    }
    let a = j + 1;
    let neg = a < s.len() && s[a] == ('-' as u8);
    let b: usize = if neg { a + 1 } else { a };
    let (mm, nm) = match digits_checked_u32(s, b) {
        Some(v) => v,
        None => return None,
    };
    proof {
        lemma_digit_run_bounds(s@, b as int);
    }
    let c = b + nm;
    if c >= s.len() || s[c] != (':' as u8) {
        return None;
    }
    let d = c + 1;
    let (sv, ns) = match digits_checked_u32(s, d) {
        Some(v) => v,
        None => return None,
    };
    proof {
        lemma_digit_run_bounds(s@, d as int);
    }
    let p = d + ns;
    let dot = p < s.len() && s[p] == ('.' as u8);
    let mut frac: i64 = 0;
    let mut nonzero = false;
    let mut q = p;
    if dot {
        let (f, z, nf) = frac_round_micros(s, p + 1);
        proof {
            lemma_digit_run_bounds(s@, p + 1);
        }
        if nf == 0 {
            return None;
        }
        frac = f;
        nonzero = z;
        q = p + 1 + nf;
    }
    proof {
        if !dot {
            assert(dec_value(Seq::<u8>::empty()) == 0);
            assert(round6(Seq::<u8>::empty()) == 0) by {
                assert(pow10(6) == 1_000_000) by {
                    reveal_with_fuel(pow10, 7);
                }
            }
        }
    }
    if sv > 60 || (sv == 60 && nonzero) {
        return None;
    }
    if q >= s.len() || s[q] != (']' as u8) {
        return None;
    }
    let us = (mm as i64 * 60 + sv as i64) * AV_TIME_BASE + frac;
    Some((q + 1, if neg { -us } else { us }))
}

/// The length of the time-tag prefix of `line`.
pub fn ffmpeg_rs_lrc_count_ts_prefix(line: &[u8]) -> (r: usize)
    ensures
        r == ts_prefix_end(line@, 0, 0),
{
    count_ts_prefix(line)
}

/// Reads the first time tag of `line` into `out_start_us` and returns the
/// bytes it spans; returns 0 and leaves `out_start_us` alone when there is
/// none.
pub fn ffmpeg_rs_lrc_read_ts(line: &[u8], out_start_us: &mut i64) -> (r: usize)
    ensures
        lrc_timestamp(line@) matches Some((c, us)) ==> r == c && *final(out_start_us) == us,
        lrc_timestamp(line@) is None ==> r == 0 && *final(out_start_us) == *old(out_start_us),
{
    match read_ts(line) {
        Some((consumed, start)) => {
            *out_start_us = start;
            consumed
        },
        None => 0,
    }
}

} // verus!
