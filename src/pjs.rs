//! PJS: a cue line `start,end,"text"`, times in frames.
use vstd::prelude::*;
use crate::scan::{parse_signed_i64, sat_sub_i64, signed_sat};

verus! {

broadcast use vstd::slice::group_slice_axioms;

/// The cue of a line: where its text starts, its start, and its duration,
/// which must lie within `[0, i32::MAX]`.
pub open spec fn pjs_cue(s: Seq<u8>) -> Option<(int, int, int)> {
    match signed_sat(s) {
        None => None,
        Some((start, n1)) => if n1 >= s.len() || s[n1] != (',' as u8) {
            None
        } else {
            match signed_sat(s.subrange(n1 + 1, s.len() as int)) {
                None => None,
                Some((end, n2)) => {
                    let k = n1 + 1 + n2;
                    let dur = if end - start > i64::MAX { i64::MAX as int } else if end - start
                        < i64::MIN { i64::MIN as int } else { end - start };
                    if k >= s.len() || s[k] != (',' as u8) || dur < 0 || dur > i32::MAX {
                        None
                    } else {
                        Some((k + 1, start, dur))
                    }
                },
            }
        },
    }
}

/// Reads one cue line; see [`pjs_cue`].
pub fn parse_line(line: &[u8]) -> (r: Option<(usize, i64, i32)>)
    ensures
        r is None <==> pjs_cue(line@) is None,
        r matches Some((off, start, dur)) ==> pjs_cue(line@) == Some(
            (off as int, start as int, dur as int),
        ),
{
    let (start, n1) = match parse_signed_i64(line) {
        Some(v) => v,
        None => return None,
    };
    if n1 >= line.len() || line[n1] != (',' as u8) {
        return None;
    }
    let rest = &line[n1 + 1..line.len()];
    let (end, n2) = match parse_signed_i64(rest) {
        Some(v) => v,
        None => return None,
    };
    let idx_after_end = n1 + 1 + n2;
    if idx_after_end >= line.len() || line[idx_after_end] != (',' as u8) {
        return None;
    }
    let duration = sat_sub_i64(end, start);
    if duration < 0 || duration > i32::MAX as i64 {
        return None;
    }
    Some((idx_after_end + 1, start, duration as i32))
}

/// Reads one cue line into the three outputs; returns 0, or -2 and leaves
/// them alone.
pub fn ffmpeg_rs_pjs_parse_line(
    line: &[u8],
    out_payload_off: &mut usize,
    out_start: &mut i64,
    out_duration: &mut i32,
) -> (r: i32)
    ensures
        pjs_cue(line@) matches Some((off, start, dur)) ==> r == 0 && *final(out_payload_off) == off
            && *final(out_start) == start && *final(out_duration) == dur,
        pjs_cue(line@) is None ==> r == -2 && *final(out_payload_off) == *old(out_payload_off)
            && *final(out_start) == *old(out_start) && *final(out_duration) == *old(out_duration),
{
    match parse_line(line) {
        Some((off, start, dur)) => {
            *out_payload_off = off;
            *out_start = start;
            *out_duration = dur;
            0
        },
        None => -2,
    }
}

} // verus!
