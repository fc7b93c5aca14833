//! Spruce STL: a cue line `hh:mm:ss:ff , hh:mm:ss:ff , text`, times in
//! centiseconds.
use vstd::prelude::*;
use crate::scan::{digit_of, is_digit, is_digit_byte, matches_at, occurs_at};

verus! {

broadcast use vstd::slice::group_slice_axioms;

/// Two digits at `i`.
pub open spec fn two_digits_at(s: Seq<u8>, i: int) -> bool {
    0 <= i && i + 2 <= s.len() && is_digit_byte(s[i]) && is_digit_byte(s[i + 1])
}

/// The value of the two digits at `i`.
pub open spec fn two_at(s: Seq<u8>, i: int) -> int {
    (digit_of(s[i]) * 10 + digit_of(s[i + 1])) as int
}

/// `s` holds `c` at `i`.
pub open spec fn byte_at(s: Seq<u8>, i: int, c: u8) -> bool {
    0 <= i < s.len() && s[i] == c
}

/// The time `hh:mm:ss:ff` at `i`, in centiseconds.
pub open spec fn stl_time_at(s: Seq<u8>, i: int) -> Option<int> {
    if two_digits_at(s, i) && byte_at(s, i + 2, (':' as u8)) && two_digits_at(s, i + 3)
        && byte_at(s, i + 5, (':' as u8)) && two_digits_at(s, i + 6) && byte_at(
        s,
        i + 8,
        (':' as u8),
    ) && two_digits_at(s, i + 9) {
        Some((two_at(s, i) * 3600 + two_at(s, i + 3) * 60 + two_at(s, i + 6)) * 100 + two_at(s, i + 9))
    } else {
        None
    }
}

/// The separator ` , `.
pub open spec fn separator() -> Seq<u8> {
    seq![(' ' as u8), (',' as u8), (' ' as u8)]
}

/// The cue of a line: where its text starts, its start and its duration.
pub open spec fn stl_cue(s: Seq<u8>) -> Option<(int, int, int)> {
    match (stl_time_at(s, 0), stl_time_at(s, 14)) {
        (Some(a), Some(b)) => if occurs_at(s, separator(), 11) && occurs_at(s, separator(), 25) {
            Some((28, a, b - a))
        } else {
            None
        },
        _ => None,
    }
}

/// The value of two leading digits.
pub fn parse_2d(s: &[u8]) -> (r: Option<u32>)
    ensures
        r is None <==> !two_digits_at(s@, 0),
        r matches Some(v) ==> v == two_at(s@, 0),
{
    if s.len() < 2 || !is_digit(s[0]) || !is_digit(s[1]) {
        return None;
    }
    Some(((s[0] - ('0' as u8)) as u32) * 10 + (s[1] - ('0' as u8)) as u32)
}

/// `line` holds `c` at `i`.
fn byte_is(line: &[u8], i: usize, c: u8) -> (r: bool)
    ensures
        r == byte_at(line@, i as int, c),
{
    i < line.len() && line[i] == c
}

/// Two digits at `i` and their value.
fn two_digits(line: &[u8], i: usize) -> (r: Option<u32>)
    ensures
        r is None <==> !two_digits_at(line@, i as int),
        r matches Some(v) ==> v == two_at(line@, i as int),
{
    if i > line.len() || line.len() - i < 2 {
        return None;
    }
    let r = parse_2d(&line[i..i + 2]);
    proof {
        assert(line@.subrange(i as int, i + 2)[0] == line@[i as int]);
        assert(line@.subrange(i as int, i + 2)[1] == line@[i + 1]);
    }
    r
}

/// Reads the time at `*i` and moves `*i` past it; leaves `*i` alone when
/// there is none. See [`stl_time_at`].
pub fn parse_ts_cs(line: &[u8], i: &mut usize) -> (r: Option<i64>)
    ensures
        r is None <==> stl_time_at(line@, *old(i) as int) is None,
        r matches Some(v) ==> stl_time_at(line@, *old(i) as int) == Some(v as int) && *final(i)
            == *old(i) + 11,
        r is None ==> *final(i) == *old(i),
{
    let p = *i;
    if p > line.len() || line.len() - p < 11 {
        return None;
    }
    let hh = match two_digits(line, p) {
        Some(v) => v,
        None => return None,
    };
    if !byte_is(line, p + 2, (':' as u8)) {
        return None;
    }
    let mm = match two_digits(line, p + 3) {
        Some(v) => v,
        None => return None,
    };
    if !byte_is(line, p + 5, (':' as u8)) {
        return None;
    }
    let ss = match two_digits(line, p + 6) {
        Some(v) => v,
        None => return None,
    };
    if !byte_is(line, p + 8, (':' as u8)) {
        return None;
    }
    let cc = match two_digits(line, p + 9) {
        Some(v) => v,
        None => return None,
    };
    *i = p + 11;
    Some((hh as i64 * 3600 + mm as i64 * 60 + ss as i64) * 100 + cc as i64)
}

/// Moves `*i` past `pat` when `line` holds it there.
pub fn parse_exact_bytes(line: &[u8], i: &mut usize, pat: &[u8]) -> (r: bool)
    ensures
        r == occurs_at(line@, pat@, *old(i) as int),
        r ==> *final(i) == *old(i) + pat@.len(),
        !r ==> *final(i) == *old(i),
{
    if !matches_at(line, pat, *i) {
        return false;
    }
    assert(line@.len() == line.len());
    *i = *i + pat.len();
    true
}

fn separator_bytes() -> (r: [u8; 3])
    ensures
        r@ == separator(),
{
    let r: [u8; 3] = [(' ' as u8), (',' as u8), (' ' as u8)];
    assert(r@ =~= separator());
    r
}

/// Reads one cue line; see [`stl_cue`].
pub fn parse_line(line: &[u8]) -> (r: Option<(usize, i64, i32)>)
    ensures
        r is None <==> stl_cue(line@) is None,
        r matches Some((off, start, dur)) ==> stl_cue(line@) == Some(
            (off as int, start as int, dur as int),
        ),
{
    let sep = separator_bytes();
    let sep = sep.as_slice();
    let mut i: usize = 0;
    let start = match parse_ts_cs(line, &mut i) {
        Some(v) => v,
        None => return None,
    };
    if !parse_exact_bytes(line, &mut i, sep) {
        return None;
    }
    let end = match parse_ts_cs(line, &mut i) {
        Some(v) => v,
        None => return None,
    };
    if !parse_exact_bytes(line, &mut i, sep) {
        return None;
    }
    Some((i, start, (end - start) as i32))
}

/// Reads one cue line into the three outputs; returns 0, or -2 and leaves
/// them alone.
pub fn ffmpeg_rs_stl_parse_line(
    line: &[u8],
    out_payload_off: &mut usize,
    out_start_cs: &mut i64,
    out_duration_cs: &mut i32,
) -> (r: i32)
    ensures
        stl_cue(line@) matches Some((off, start, dur)) ==> r == 0 && *final(out_payload_off) == off
            && *final(out_start_cs) == start && *final(out_duration_cs) == dur,
        stl_cue(line@) is None ==> r == -2 && *final(out_payload_off) == *old(out_payload_off)
            && *final(out_start_cs) == *old(out_start_cs)
            && *final(out_duration_cs) == *old(out_duration_cs),
{
    match parse_line(line) {
        Some((off, start, dur)) => {
            *out_payload_off = off;
            *out_start_cs = start;
            *out_duration_cs = dur;
            0
        },
        None => -2,
    }
}

} // verus!
