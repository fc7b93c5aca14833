//! VPlayer: a cue line `H:MM:SS[.CC]<delim>text`, where the delimiter is
//! `:`, a space or `=`.
use vstd::prelude::*;
use crate::scan::{
    cap, dec_value, digit_run, digits_at, digits_sat_u64, is_digit, lemma_dec_value_push,
    lemma_digit_run_bounds,
};

verus! {

broadcast use vstd::slice::group_slice_axioms;

/// One cue: its start in centiseconds and the span of its text.
#[derive(Copy, Clone, Debug)]
pub struct FFmpegRsVplayerEvent {
    pub start_cs: i64,
    pub payload_offset: usize,
    pub payload_len: usize,
}

/// The byte that ends the time: `:`, a space or `=`.
pub open spec fn is_delim_byte(b: u8) -> bool {
    b == (':' as u8) || b == (' ' as u8) || b == ('=' as u8)
}

/// The value of the digit run at `i`, saturated at `u32::MAX`.
pub open spec fn u32_field(s: Seq<u8>, i: int) -> int {
    cap(dec_value(digits_at(s, i)) as int, u32::MAX as int)
}

/// Centiseconds from the digits after the point: the first two, a single
/// one counting as tenths.
pub open spec fn centis(s: Seq<u8>, i: int) -> int {
    let k = if digit_run(s, i) < 2 { digit_run(s, i) as int } else { 2 };
    let v = dec_value(s.subrange(i, i + k)) as int;
    if k == 1 { v * 10 } else { v }
}

/// The cue of a line, or the status that says what is wrong with it: -2 to
/// -6 a missing hour, `:`, minute, `:` or second, -7 no delimiter.
pub open spec fn vplayer_cue(s: Seq<u8>) -> Result<FFmpegRsVplayerEvent, i32> {
    let e1 = digit_run(s, 0) as int;
    let e2 = e1 + 1 + digit_run(s, e1 + 1);
    let e3 = e2 + 1 + digit_run(s, e2 + 1);
    let dot = e3 < s.len() && s[e3] == ('.' as u8);
    let i = if dot { e3 + 1 + digit_run(s, e3 + 1) } else { e3 };
    let cs = if dot { centis(s, e3 + 1) } else { 0 };
    if e1 == 0 {
        Err(-2i32)
    } else if e1 >= s.len() || s[e1] != (':' as u8) {
        Err(-3i32)
    } else if digit_run(s, e1 + 1) == 0 {
        Err(-4i32)
    } else if e2 >= s.len() || s[e2] != (':' as u8) {
        Err(-5i32)
    } else if digit_run(s, e2 + 1) == 0 {
        Err(-6i32)
    } else if i >= s.len() || !is_delim_byte(s[i]) {
        Err(-7i32)
    } else {
        Ok(
            FFmpegRsVplayerEvent {
                start_cs: ((u32_field(s, 0) * 3600 + u32_field(s, e1 + 1) * 60 + u32_field(
                    s,
                    e2 + 1,
                )) * 100 + cs) as i64,
                payload_offset: (i + 1) as usize,
                payload_len: (s.len() - (i + 1)) as usize,
            },
        )
    }
}

/// `:`, a space or `=`.
pub fn is_delim(b: u8) -> (r: bool)
    ensures
        r == is_delim_byte(b),
{
    b == (':' as u8) || b == (' ' as u8) || b == ('=' as u8)
}

/// The digit run at `i`, saturated at `u32::MAX`, and its length; `None`
/// when there is no digit.
pub fn parse_u32_ascii(s: &[u8], i: usize) -> (r: Option<(u32, usize)>)
    requires
        i <= s@.len(),
    ensures
        r is None <==> digit_run(s@, i as int) == 0,
        r matches Some((v, n)) ==> v == u32_field(s@, i as int) && n == digit_run(s@, i as int)
            && i + n <= s@.len(),
{
    let (v, n) = digits_sat_u64(s, i);
    proof {
        lemma_digit_run_bounds(s@, i as int);
    }
    if n == 0 {
        return None;
    }
    Some((if v > u32::MAX as u64 { u32::MAX } else { v as u32 }, n))
}

/// Reads the centiseconds after a point at `i`; returns them and the index
/// after the whole digit run.
fn read_centis(s: &[u8], i: usize) -> (r: (u32, usize))
    requires
        i <= s@.len(),
    ensures
        r.0 == centis(s@, i as int),
        r.1 == i + digit_run(s@, i as int),
        r.0 < 100,
{
    proof {
        lemma_digit_run_bounds(s@, i as int);
    }
    let mut cs: u32 = 0;
    let mut k: usize = i;
    while k < s.len() && k - i < 2 && is_digit(s[k])
        invariant
            i <= k <= s@.len(),
            k - i <= 2,
            digit_run(s@, i as int) == (k - i) + digit_run(s@, k as int),
            cs == dec_value(s@.subrange(i as int, k as int)),
            cs < (if k - i == 0 { 1int } else if k - i == 1 { 10 } else { 100 }),
        decreases s@.len() - k,
    {
        proof {
            let pre = s@.subrange(i as int, k as int);
            lemma_dec_value_push(pre, s@[k as int]);
            assert(s@.subrange(i as int, k + 1) =~= pre.push(s@[k as int]));
        }
        cs = cs * 10 + (s[k] - ('0' as u8)) as u32;
        k = k + 1;
    }
    let digits = k - i;
    if digits == 1 {
        cs = cs * 10;
    }
    while k < s.len() && is_digit(s[k])
        invariant
            i + digits <= k <= s@.len(),
            digit_run(s@, i as int) == (k - i) + digit_run(s@, k as int),
        decreases s@.len() - k,
    {
        k = k + 1;
    }
    (cs, k)
}

/// Parses one cue line into `out`; returns 0, or a negative status (see
/// [`vplayer_cue`]) and leaves `out` alone.
pub fn ffmpeg_rs_vplayer_parse_line(line: &[u8], out: &mut FFmpegRsVplayerEvent) -> (r: i32)
    ensures
        vplayer_cue(line@) matches Ok(ev) ==> r == 0 && *final(out) == ev,
        vplayer_cue(line@) matches Err(code) ==> r == code && *final(out) == *old(out),
{
    let data = line;
    let (hh, n) = match parse_u32_ascii(data, 0) {
        Some(v) => v,
        None => return -2,
    };
    let mut i = n;
    if i >= data.len() || data[i] != (':' as u8) {
        return -3;
    }
    i = i + 1;
    let (mm, n) = match parse_u32_ascii(data, i) {
        Some(v) => v,
        None => return -4,
    };
    i = i + n;
    if i >= data.len() || data[i] != (':' as u8) {
        return -5;
    }
    i = i + 1;
    let (ss, n) = match parse_u32_ascii(data, i) {
        Some(v) => v,
        None => return -6,
    };
    i = i + n;
    let mut cs: u32 = 0;
    if i < data.len() && data[i] == ('.' as u8) {
        let (c, k) = read_centis(data, i + 1);
        cs = c;
        i = k;
    }
    if i >= data.len() || !is_delim(data[i]) {
        return -7;
    }
    let start_cs = ((hh as i64) * 3600 + (mm as i64) * 60 + (ss as i64)) * 100 + (cs as i64);
    *out = FFmpegRsVplayerEvent {
        start_cs,
        payload_offset: i + 1,
        payload_len: data.len() - (i + 1),
    };
    0
}

} // verus!
