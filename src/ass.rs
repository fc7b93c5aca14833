//! ASS/SSA: the timing fields of a `Dialogue:` event line.
use vstd::prelude::*;
use crate::scan::{
    cap, dec_value, digit_run, digits_at, digits_sat_i64, has_prefix, index_of, index_of_from,
    lemma_digit_run_bounds, skip_spaces, space_run, starts_with,
};

verus! {

broadcast use vstd::slice::group_slice_axioms;

/// The timing of a dialogue line: start and duration in centiseconds, the
/// layer, and where the fields after the end time begin.
#[derive(Copy, Clone, Debug)]
pub struct FFmpegRsAssDialogueParseResult {
    pub start_cs: i64,
    pub duration_cs: i32,
    pub layer: i32,
    pub rest_off: usize,
}

/// A signed field: an optional `+` or `-`, then at least one digit; the
/// magnitude saturates at `i32::MAX`. The value and the bytes read.
pub open spec fn ass_int(s: Seq<u8>) -> Option<(int, int)> {
    if s.len() == 0 {
        None
    } else {
        let a: int = if s[0] == ('+' as u8) || s[0] == ('-' as u8) { 1 } else { 0 };
        let v = cap(dec_value(digits_at(s, a)) as int, i32::MAX as int);
        if digit_run(s, a) == 0 {
            None
        } else {
            Some((if s[0] == ('-' as u8) { -v } else { v }, a + digit_run(s, a)))
        }
    }
}

/// `s` from `i` on.
pub open spec fn tail(s: Seq<u8>, i: int) -> Seq<u8> {
    s.subrange(i, s.len() as int)
}

/// A time `h:m:s<any byte>cs` in centiseconds, and the bytes read.
pub open spec fn ass_time(s: Seq<u8>) -> Option<(int, int)> {
    match ass_int(s) {
        None => None,
        Some((hh, n1)) => if n1 >= s.len() || s[n1] != (':' as u8) {
            None
        } else {
            match ass_int(tail(s, n1 + 1)) {
                None => None,
                Some((mm, n2)) => {
                    let e2 = n1 + 1 + n2;
                    if e2 >= s.len() || s[e2] != (':' as u8) {
                        None
                    } else {
                        match ass_int(tail(s, e2 + 1)) {
                            None => None,
                            Some((ss, n3)) => {
                                let e3 = e2 + 1 + n3;
                                if e3 >= s.len() {
                                    None
                                } else {
                                    match ass_int(tail(s, e3 + 1)) {
                                        None => None,
                                        Some((cs, n4)) => Some(
                                            ((hh * 3600 + mm * 60 + ss) * 100 + cs, e3 + 1 + n4),
                                        ),
                                    }
                                }
                            },
                        }
                    }
                },
            }
        },
    }
}

/// The layer: the number at byte 10 after any white space, else 0.
pub open spec fn layer_of(line: Seq<u8>) -> int {
    if line.len() > 10 {
        let t = tail(line, 10);
        match ass_int(tail(t, space_run(t, 0) as int)) {
            Some((v, _)) => v,
            None => 0,
        }
    } else {
        0
    }
}

/// `Dialogue:`.
pub open spec fn dialogue_tag() -> Seq<u8> {
    seq![
        ('D' as u8), ('i' as u8), ('a' as u8), ('l' as u8), ('o' as u8), ('g' as u8), ('u' as u8),
        ('e' as u8), (':' as u8)
    ]
}

/// The timing of a `Dialogue:` line: the first field is skipped, then come
/// the start and end times, each followed by a comma. The duration must fit
/// `i32`.
pub open spec fn dialogue_of(line: Seq<u8>) -> Option<FFmpegRsAssDialogueParseResult> {
    let i0: int = if 9 < line.len() && line[9] == (' ' as u8) { 10 } else { 9 };
    let c = index_of_from(line, (',' as u8), i0);
    if !has_prefix(line, dialogue_tag()) || c >= line.len() {
        None
    } else {
        match ass_time(tail(line, c + 1)) {
            None => None,
            Some((start, u1)) => {
                let p = c + 1 + u1;
                if p >= line.len() || line[p] != (',' as u8) {
                    None
                } else {
                    match ass_time(tail(line, p + 1)) {
                        None => None,
                        Some((end, u2)) => {
                            let q = p + 1 + u2;
                            if q >= line.len() || line[q] != (',' as u8) || end - start
                                < i32::MIN || end - start > i32::MAX {
                                None
                            } else {
                                Some(
                                    FFmpegRsAssDialogueParseResult {
                                        start_cs: start as i64,
                                        duration_cs: (end - start) as i32,
                                        layer: layer_of(line) as i32,
                                        rest_off: (q + 1) as usize,
                                    },
                                )
                            }
                        },
                    }
                }
            },
        }
    }
}

/// Reads a signed field; see [`ass_int`].
pub fn parse_i32_ascii(s: &[u8]) -> (r: Option<(i32, usize)>)
    ensures
        r is None <==> ass_int(s@) is None,
        r matches Some((v, n)) ==> ass_int(s@) == Some((v as int, n as int)) && n <= s@.len(),
{
    if s.len() == 0 {
        return None;
    }
    let a: usize = if s[0] == ('+' as u8) || s[0] == ('-' as u8) { 1 } else { 0 };
    let (v, n) = digits_sat_i64(s, a);
    proof {
        lemma_digit_run_bounds(s@, a as int);
    }
    if n == 0 {
        return None;
    }
    let v: i32 = if v > i32::MAX as i64 { i32::MAX } else { v as i32 };
    Some((if s[0] == ('-' as u8) { -v } else { v }, a + n))
}

/// The number after any white space, else 0.
pub fn parse_layer_like_atoi(s: &[u8]) -> (r: i32)
    ensures
        r == (match ass_int(tail(s@, space_run(s@, 0) as int)) {
            Some((v, _)) => v,
            None => 0,
        }),
{
    let j = skip_spaces(s, 0);
    match parse_i32_ascii(&s[j..s.len()]) {
        Some((v, _)) => v,
        None => 0,
    }
}

/// Reads a time; see [`ass_time`].
pub fn parse_time_cs(s: &[u8]) -> (r: Option<(i64, usize)>)
    ensures
        r is None <==> ass_time(s@) is None,
        r matches Some((v, n)) ==> ass_time(s@) == Some((v as int, n as int)) && n <= s@.len(),
{
    let (hh, n) = match parse_i32_ascii(s) {
        Some(p) => p,
        None => return None,
    };
    let mut i = n;
    if i >= s.len() || s[i] != (':' as u8) {
        return None;
    }
    i = i + 1;
    let (mm, n) = match parse_i32_ascii(&s[i..s.len()]) {
        Some(p) => p,
        None => return None,
    };
    i = i + n;
    if i >= s.len() || s[i] != (':' as u8) {
        return None;
    }
    i = i + 1;
    let (ss, n) = match parse_i32_ascii(&s[i..s.len()]) {
        Some(p) => p,
        None => return None,
    };
    i = i + n;
    if i >= s.len() {
        return None;
    }
    i = i + 1;
    let (cs, n) = match parse_i32_ascii(&s[i..s.len()]) {
        Some(p) => p,
        None => return None,
    };
    i = i + n;
    Some(((hh as i64 * 3600 + mm as i64 * 60 + ss as i64) * 100 + cs as i64, i))
}

fn dialogue_tag_bytes() -> (r: [u8; 9])
    ensures
        r@ == dialogue_tag(),
{
    let r: [u8; 9] = [
        ('D' as u8), ('i' as u8), ('a' as u8), ('l' as u8), ('o' as u8), ('g' as u8), ('u' as u8),
        ('e' as u8), (':' as u8),
    ];
    assert(r@ =~= dialogue_tag());
    r
}

/// The layer of a dialogue line; see [`layer_of`].
fn dialogue_layer(line: &[u8]) -> (r: i32)
    ensures
        r == layer_of(line@),
{
    if line.len() > 10 {
        let t = &line[10..line.len()];
        assert(t@ == tail(line@, 10));
        parse_layer_like_atoi(t)
    } else {
        0
    }
}

/// Reads the timing of a `Dialogue:` line; see [`dialogue_of`].
#[verifier::rlimit(40)]
pub fn parse_dialogue(line: &[u8]) -> (r: Option<FFmpegRsAssDialogueParseResult>)
    ensures
        r == dialogue_of(line@),
{
    let tag = dialogue_tag_bytes();
    if !starts_with(line, tag.as_slice()) {
        return None;
    }
    let layer = dialogue_layer(line);
    let mut i: usize = 9;
    if i < line.len() && line[i] == (' ' as u8) {
        i = i + 1;
    }
    i = index_of(line, (',' as u8), i);
    if i >= line.len() {
        return None;
    }
    i = i + 1;
    let (start_cs, used) = match parse_time_cs(&line[i..line.len()]) {
        Some(p) => p,
        None => return None,
    };
    i = i + used;
    if i >= line.len() || line[i] != (',' as u8) {
        return None;
    }
    i = i + 1;
    let (end_cs, used) = match parse_time_cs(&line[i..line.len()]) {
        Some(p) => p,
        None => return None,
    };
    i = i + used;
    if i >= line.len() || line[i] != (',' as u8) {
        return None;
    }
    i = i + 1;
    let dur = end_cs - start_cs;
    if dur < i32::MIN as i64 || dur > i32::MAX as i64 {
        return None;
    }
    Some(
        FFmpegRsAssDialogueParseResult {
            start_cs,
            duration_cs: dur as i32,
            layer,
            rest_off: i,
        },
    )
}

/// Reads the timing of a `Dialogue:` line into `out`; returns 0, or -2 and
/// leaves `out` alone.
pub fn ffmpeg_rs_ass_parse_dialogue(line: &[u8], out: &mut FFmpegRsAssDialogueParseResult) -> (r: i32)
    ensures
        dialogue_of(line@) matches Some(v) ==> r == 0 && *final(out) == v,
        dialogue_of(line@) is None ==> r == -2 && *final(out) == *old(out),
{
    match parse_dialogue(line) {
        Some(v) => {
            *out = v;
            0
        },
        None => -2,
    }
}

} // verus!
