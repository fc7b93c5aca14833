//! SubViewer: cue timing `h:m:s.f,h:m:s.f` in milliseconds, and the
//! version-1 time tag `[h:m:s]`.
use vstd::prelude::*;
use crate::scan::{
    dec_value, digit_run, digits_at, digits_checked_u32, lemma_digit_run_bounds, skip_spaces,
    space_run,
};

verus! {

broadcast use vstd::slice::group_slice_axioms;

/// The digit run at `i` and its length, when there is one and its value
/// fits `u32`.
pub open spec fn u32_field_at(s: Seq<u8>, i: int) -> Option<(int, int)> {
    if digit_run(s, i) == 0 || dec_value(digits_at(s, i)) > u32::MAX {
        None
    } else {
        Some((dec_value(digits_at(s, i)) as int, digit_run(s, i) as int))
    }
}

/// The scale of a fraction of one to three digits, in milliseconds.
pub open spec fn multiplier(n: int) -> Option<int> {
    if n == 1 {
        Some(100)
    } else if n == 2 {
        Some(10)
    } else if n == 3 {
        Some(1)
    } else {
        None
    }
}

/// `h:m:s.f` at the start of `s`, each field a `u32`, the fraction one to
/// three digits: the time in milliseconds and the bytes read.
pub open spec fn clock_ms(s: Seq<u8>) -> Option<(int, int)> {
    match u32_field_at(s, 0) {
        None => None,
        Some((hh, n1)) => if n1 >= s.len() || s[n1] != (':' as u8) {
            None
        } else {
            match u32_field_at(s, n1 + 1) {
                None => None,
                Some((mm, n2)) => {
                    let e2 = n1 + 1 + n2;
                    if e2 >= s.len() || s[e2] != (':' as u8) {
                        None
                    } else {
                        match u32_field_at(s, e2 + 1) {
                            None => None,
                            Some((ss, n3)) => {
                                let e3 = e2 + 1 + n3;
                                if e3 >= s.len() || s[e3] != ('.' as u8) {
                                    None
                                } else {
                                    match (u32_field_at(s, e3 + 1), multiplier(
                                        digit_run(s, e3 + 1) as int,
                                    )) {
                                        (Some((ms, n4)), Some(mult)) => Some(
                                            (
                                                (hh * 3600 + mm * 60 + ss) * 1000 + ms * mult,
                                                e3 + 1 + n4,
                                            ),
                                        ),
                                        _ => None,
                                    }
                                }
                            },
                        }
                    }
                },
            }
        },
    }
}

/// Cue timing after any white space: the start and the duration, which
/// must fit `i32`.
pub open spec fn subviewer_timing(s0: Seq<u8>) -> Option<(int, int)> {
    let s = s0.subrange(space_run(s0, 0) as int, s0.len() as int);
    match clock_ms(s) {
        None => None,
        Some((start, i)) => if i >= s.len() || s[i] != (',' as u8) {
            None
        } else {
            match clock_ms(s.subrange(i + 1, s.len() as int)) {
                None => None,
                Some((end, _)) => if end - start < i32::MIN || end - start > i32::MAX {
                    None
                } else {
                    Some((start, end - start))
                },
            }
        },
    }
}

/// A signed field: an optional `+` or `-`, then digits whose value fits
/// `i32`. The value and the bytes read.
pub open spec fn i32_field(s: Seq<u8>) -> Option<(int, int)> {
    if s.len() == 0 {
        None
    } else {
        let a: int = if s[0] == ('+' as u8) || s[0] == ('-' as u8) { 1 } else { 0 };
        match u32_field_at(s, a) {
            None => None,
            Some((v, n)) => if v > i32::MAX {
                None
            } else {
                Some((if s[0] == ('-' as u8) { -v } else { v }, a + n))
            },
        }
    }
}

/// The tag `[h:m:s]` after any white space, each field an `i32`.
pub open spec fn subviewer1_tag(s0: Seq<u8>) -> Option<(int, int, int)> {
    let s = s0.subrange(space_run(s0, 0) as int, s0.len() as int);
    if s.len() == 0 || s[0] != ('[' as u8) {
        None
    } else {
        match i32_field(s.subrange(1, s.len() as int)) {
            None => None,
            Some((hh, n1)) => {
                let e1 = 1 + n1;
                if e1 >= s.len() || s[e1] != (':' as u8) {
                    None
                } else {
                    match i32_field(s.subrange(e1 + 1, s.len() as int)) {
                        None => None,
                        Some((mm, n2)) => {
                            let e2 = e1 + 1 + n2;
                            if e2 >= s.len() || s[e2] != (':' as u8) {
                                None
                            } else {
                                match i32_field(s.subrange(e2 + 1, s.len() as int)) {
                                    None => None,
                                    Some((ss, n3)) => {
                                        let e3 = e2 + 1 + n3;
                                        if e3 >= s.len() || s[e3] != (']' as u8) {
                                            None
                                        } else {
                                            Some((hh, mm, ss))
                                        }
                                    },
                                }
                            }
                        },
                    }
                }
            },
        }
    }
}

/// The digit run at `i` when its value fits `u32`; see [`u32_field_at`].
pub fn parse_u32_ascii(s: &[u8], i: usize) -> (r: Option<(u32, usize)>)
    requires
        i <= s@.len(),
    ensures
        r is None <==> u32_field_at(s@, i as int) is None,
        r matches Some((v, n)) ==> u32_field_at(s@, i as int) == Some((v as int, n as int)) && i
            + n <= s@.len(),
{
    proof {
        lemma_digit_run_bounds(s@, i as int);
    }
    digits_checked_u32(s, i)
}

/// Reads a signed field; see [`i32_field`].
pub fn parse_i32_ascii(s: &[u8]) -> (r: Option<(i32, usize)>)
    ensures
        r is None <==> i32_field(s@) is None,
        r matches Some((v, n)) ==> i32_field(s@) == Some((v as int, n as int)) && n <= s@.len(),
{
    if s.len() == 0 {
        return None;
    }
    let a: usize = if s[0] == ('+' as u8) || s[0] == ('-' as u8) { 1 } else { 0 };
    let (v, n) = match parse_u32_ascii(s, a) {
        Some(p) => p,
        None => return None,
    };
    if v > i32::MAX as u32 {
        return None;
    }
    let v = v as i32;
    Some((if s[0] == ('-' as u8) { -v } else { v }, a + n))
}

/// The scale of a fraction of `n_digits` digits; see [`multiplier`].
pub fn get_multiplier(n_digits: usize) -> (r: Option<i64>)
    ensures
        r is None <==> multiplier(n_digits as int) is None,
        r matches Some(m) ==> multiplier(n_digits as int) == Some(m as int),
{
    match n_digits {
        1 => Some(100),
        2 => Some(10),
        3 => Some(1),
        _ => None,
    }
}

/// Reads `h:m:s.f`: the four fields, the fraction already scaled to
/// milliseconds, and the bytes read. See [`clock_ms`].
pub fn parse_time_hhmmss_ms(line: &[u8]) -> (r: Option<(i64, i64, i64, i64, usize)>)
    ensures
        r is None <==> clock_ms(line@) is None,
        r matches Some((hh, mm, ss, ms, n)) ==> clock_ms(line@) == Some(
            (((hh * 3600 + mm * 60 + ss) * 1000 + ms) as int, n as int),
        ) && n <= line@.len() && 0 <= hh <= u32::MAX && 0 <= mm <= u32::MAX && 0 <= ss
            <= u32::MAX && 0 <= ms <= 99900,
{
    let (hh, n) = match parse_u32_ascii(line, 0) {
        Some(v) => v,
        None => return None,
    };
    let mut i = n;
    if i >= line.len() || line[i] != (':' as u8) {
        return None;
    }
    i = i + 1;
    let (mm, n) = match parse_u32_ascii(line, i) {
        Some(v) => v,
        None => return None,
    };
    i = i + n;
    if i >= line.len() || line[i] != (':' as u8) {
        return None;
    }
    i = i + 1;
    let (ss, n) = match parse_u32_ascii(line, i) {
        Some(v) => v,
        None => return None,
    };
    i = i + n;
    if i >= line.len() || line[i] != ('.' as u8) {
        return None;
    }
    i = i + 1;
    let ms_start = i;
    let (ms, n) = match parse_u32_ascii(line, i) {
        Some(v) => v,
        None => return None,
    };
    i = i + n;
    let mult = match get_multiplier(i - ms_start) {
        Some(m) => m,
        None => return None,
    };
    proof {
        lemma_digit_run_bounds(line@, ms_start as int);
        assert(dec_value(digits_at(line@, ms_start as int)) < 1000) by {
            let d = digits_at(line@, ms_start as int);
            reveal_with_fuel(dec_value, 4);
            assert(d.len() <= 3);
            if d.len() == 3 {
                assert(d.drop_last().drop_last().drop_last().len() == 0);
            }
        }
    }
    Some((hh as i64, mm as i64, ss as i64, ms as i64 * mult, i))
}

/// Reads cue timing; see [`subviewer_timing`].
pub fn parse_subviewer_ts(line: &[u8]) -> (r: Option<(i64, i32)>)
    ensures
        r is None <==> subviewer_timing(line@) is None,
        r matches Some((start, dur)) ==> subviewer_timing(line@) == Some(
            (start as int, dur as int),
        ),
{
    let j = skip_spaces(line, 0);
    let line = &line[j..line.len()];
    let (hh1, mm1, ss1, ms1, i) = match parse_time_hhmmss_ms(line) {
        Some(v) => v,
        None => return None,
    };
    if i >= line.len() || line[i] != (',' as u8) {
        return None;
    }
    let (hh2, mm2, ss2, ms2, _j) = match parse_time_hhmmss_ms(&line[i + 1..line.len()]) {
        Some(v) => v,
        None => return None,
    };
    let start_ms = (hh1 * 3600 + mm1 * 60 + ss1) * 1000 + ms1;
    let end_ms = (hh2 * 3600 + mm2 * 60 + ss2) * 1000 + ms2;
    let duration_ms = end_ms - start_ms;
    if duration_ms < i32::MIN as i64 || duration_ms > i32::MAX as i64 {
        return None;
    }
    Some((start_ms, duration_ms as i32))
}

/// Reads a `[h:m:s]` tag; see [`subviewer1_tag`].
pub fn parse_subviewer1_tag(line: &[u8]) -> (r: Option<(i32, i32, i32)>)
    ensures
        r is None <==> subviewer1_tag(line@) is None,
        r matches Some((hh, mm, ss)) ==> subviewer1_tag(line@) == Some(
            (hh as int, mm as int, ss as int),
        ),
{
    let j = skip_spaces(line, 0);
    let line = &line[j..line.len()];
    if line.len() == 0 || line[0] != ('[' as u8) {
        return None;
    }
    let (hh, n) = match parse_i32_ascii(&line[1..line.len()]) {
        Some(v) => v,
        None => return None,
    };
    let mut i = 1 + n;
    if i >= line.len() || line[i] != (':' as u8) {
        return None;
    }
    i = i + 1;
    let (mm, n) = match parse_i32_ascii(&line[i..line.len()]) {
        Some(v) => v,
        None => return None,
    };
    i = i + n;
    if i >= line.len() || line[i] != (':' as u8) {
        return None;
    }
    i = i + 1;
    let (ss, n) = match parse_i32_ascii(&line[i..line.len()]) {
        Some(v) => v,
        None => return None,
    };
    i = i + n;
    if i >= line.len() || line[i] != (']' as u8) {
        return None;
    }
    Some((hh, mm, ss))
}

/// Reads cue timing into the two outputs; returns 0, or -2 and leaves them
/// alone.
pub fn ffmpeg_rs_subviewer_read_ts(
    line: &[u8],
    out_start_ms: &mut i64,
    out_duration_ms: &mut i32,
) -> (r: i32)
    ensures
        subviewer_timing(line@) matches Some((start, dur)) ==> r == 0 && *final(out_start_ms)
            == start && *final(out_duration_ms) == dur,
        subviewer_timing(line@) is None ==> r == -2 && *final(out_start_ms) == *old(out_start_ms)
            && *final(out_duration_ms) == *old(out_duration_ms),
{
    match parse_subviewer_ts(line) {
        Some((start, dur)) => {
            *out_start_ms = start;
            *out_duration_ms = dur;
            0
        },
        None => -2,
    }
}

/// Reads a `[h:m:s]` tag into the three outputs; returns 1, or 0 and leaves
/// them alone.
pub fn ffmpeg_rs_subviewer1_parse_time(
    line: &[u8],
    out_hh: &mut i32,
    out_mm: &mut i32,
    out_ss: &mut i32,
) -> (r: i32)
    ensures
        subviewer1_tag(line@) matches Some((hh, mm, ss)) ==> r == 1 && *final(out_hh) == hh
            && *final(out_mm) == mm && *final(out_ss) == ss,
        subviewer1_tag(line@) is None ==> r == 0 && *final(out_hh) == *old(out_hh)
            && *final(out_mm) == *old(out_mm) && *final(out_ss) == *old(out_ss),
{
    match parse_subviewer1_tag(line) {
        Some((hh, mm, ss)) => {
            *out_hh = hh;
            *out_mm = mm;
            *out_ss = ss;
            1
        },
        None => 0,
    }
}

} // verus!
