//! MicroDVD: a cue line `{start}{end}text`, times in frames.
use vstd::prelude::*;
use crate::scan::{find_byte, frame_int, index_of_from, parse_frame_i64, sat_sub_i64};

verus! {

broadcast use vstd::slice::group_slice_axioms;

/// One cue: its start and duration in frames (-1 when the end is left
/// empty) and the span of its text within the line.
#[derive(Copy, Clone, Debug)]
pub struct FFmpegRsMicrodvdEvent {
    pub start_frame: i64,
    pub duration_frames: i64,
    pub payload_offset: usize,
    pub payload_len: usize,
}

/// The cue of a line, or the status that says what is wrong with it: -2 no
/// opening `{`, -3 no closing `}`, -4 an empty start, -5 an unreadable
/// start, -6 no second `{`, -7 no second `}`, -9 an unreadable end.
pub open spec fn microdvd_cue(d: Seq<u8>) -> Result<FFmpegRsMicrodvdEvent, i32> {
    let c0 = index_of_from(d, ('}' as u8), 1);
    let c1 = index_of_from(d, ('}' as u8), c0 + 2);
    if d.len() == 0 || d[0] != ('{' as u8) {
        Err(-2i32)
    } else if c0 >= d.len() {
        Err(-3i32)
    } else if c0 <= 1 {
        Err(-4i32)
    } else {
        match frame_int(d.subrange(1, c0)) {
            None => Err(-5i32),
            Some(start) => if c0 + 1 >= d.len() || d[c0 + 1] != ('{' as u8) {
                Err(-6i32)
            } else if c1 >= d.len() {
                Err(-7i32)
            } else {
                let dur = if c1 == c0 + 2 {
                    Some(-1i64)
                } else {
                    match frame_int(d.subrange(c0 + 2, c1)) {
                        None => None,
                        Some(end) => Some(
                            (if end - start > i64::MAX { i64::MAX as int } else if end - start
                                < i64::MIN { i64::MIN as int } else { end - start }) as i64,
                        ),
                    }
                };
                match dur {
                    None => Err(-9i32),
                    Some(dur) => Ok(
                        FFmpegRsMicrodvdEvent {
                            start_frame: start,
                            duration_frames: dur,
                            payload_offset: (c1 + 1) as usize,
                            payload_len: (d.len() - (c1 + 1)) as usize,
                        },
                    ),
                }
            },
        }
    }
}

/// Parses one cue line into `out`; returns 0, or a negative status (see
/// [`microdvd_cue`]) and leaves `out` alone.
pub fn ffmpeg_rs_microdvd_parse_line(line: &[u8], out: &mut FFmpegRsMicrodvdEvent) -> (r: i32)
    ensures
        microdvd_cue(line@) matches Ok(ev) ==> r == 0 && *final(out) == ev,
        microdvd_cue(line@) matches Err(code) ==> r == code && *final(out) == *old(out),
{
    let data = line;
    if data.len() == 0 || data[0] != ('{' as u8) {
        return -2;
    }
    let close0 = match find_byte(data, ('}' as u8), 1) {
        Some(i) => i,
        None => return -3,
    };
    if close0 <= 1 {
        return -4;
    }
    let start_frame = match parse_frame_i64(&data[1..close0]) {
        Some(v) => v,
        None => return -5,
    };
    if close0 + 1 >= data.len() || data[close0 + 1] != ('{' as u8) {
        return -6;
    }
    let close1 = match find_byte(data, ('}' as u8), close0 + 2) {
        Some(i) => i,
        None => return -7,
    };
    let duration_frames = if close1 == close0 + 2 {
        -1
    } else {
        let end_frame = match parse_frame_i64(&data[close0 + 2..close1]) {
            Some(v) => v,
            None => return -9,
        };
        sat_sub_i64(end_frame, start_frame)
    };
    let payload_off = close1 + 1;
    *out = FFmpegRsMicrodvdEvent {
        start_frame,
        duration_frames,
        payload_offset: payload_off,
        payload_len: data.len() - payload_off,
    };
    0
}

} // verus!
