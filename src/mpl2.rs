//! MPL2: a cue line `[start][end]text`, times in tenths of a second.
use vstd::prelude::*;
use crate::scan::{find_byte, frame_int, index_of_from, parse_frame_i64, sat_sub_i64};

verus! {

broadcast use vstd::slice::group_slice_axioms;

/// One cue: its start and duration in ticks (-1 when the end is empty or
/// before the start) and the span of its text within the line.
#[derive(Copy, Clone, Debug)]
pub struct FFmpegRsMpl2Event {
    pub start_ticks: i64,
    pub duration_ticks: i64,
    pub payload_offset: usize,
    pub payload_len: usize,
}

/// The cue of a line, or the status that says what is wrong with it: -2 no
/// opening `[`, -3 no closing `]`, -4 an unreadable start, -5 no second
/// `[`, -6 no second `]`, -7 an unreadable end.
pub open spec fn mpl2_cue(d: Seq<u8>) -> Result<FFmpegRsMpl2Event, i32> {
    let c0 = index_of_from(d, (']' as u8), 1);
    let c1 = index_of_from(d, (']' as u8), c0 + 2);
    if d.len() == 0 || d[0] != ('[' as u8) {
        Err(-2i32)
    } else if c0 >= d.len() {
        Err(-3i32)
    } else {
        match frame_int(d.subrange(1, c0)) {
            None => Err(-4i32),
            Some(start) => if c0 + 1 >= d.len() || d[c0 + 1] != ('[' as u8) {
                Err(-5i32)
            } else if c1 >= d.len() {
                Err(-6i32)
            } else {
                let dur = if c1 == c0 + 2 {
                    Some(-1i64)
                } else {
                    match frame_int(d.subrange(c0 + 2, c1)) {
                        None => None,
                        Some(end) => Some(
                            if end < start {
                                -1i64
                            } else {
                                (if end - start > i64::MAX { i64::MAX as int } else {
                                    end - start
                                }) as i64
                            },
                        ),
                    }
                };
                match dur {
                    None => Err(-7i32),
                    Some(dur) => Ok(
                        FFmpegRsMpl2Event {
                            start_ticks: start,
                            duration_ticks: dur,
                            payload_offset: (c1 + 1) as usize,
                            payload_len: (d.len() - (c1 + 1)) as usize,
                        },
                    ),
                }
            },
        }
    }
}

/// Parses one cue line into `out`; returns 0, or a negative status (see
/// [`mpl2_cue`]) and leaves `out` alone.
pub fn ffmpeg_rs_mpl2_parse_line(line: &[u8], out: &mut FFmpegRsMpl2Event) -> (r: i32)
    ensures
        mpl2_cue(line@) matches Ok(ev) ==> r == 0 && *final(out) == ev,
        mpl2_cue(line@) matches Err(code) ==> r == code && *final(out) == *old(out),
{
    let data = line;
    if data.len() == 0 || data[0] != ('[' as u8) {
        return -2;
    }
    let close0 = match find_byte(data, (']' as u8), 1) {
        Some(i) => i,
        None => return -3,
    };
    let start = match parse_frame_i64(&data[1..close0]) {
        Some(v) => v,
        None => return -4,
    };
    if close0 + 1 >= data.len() || data[close0 + 1] != ('[' as u8) {
        return -5;
    }
    let close1 = match find_byte(data, (']' as u8), close0 + 2) {
        Some(i) => i,
        None => return -6,
    };
    let duration = if close1 == close0 + 2 {
        -1
    } else {
        let end = match parse_frame_i64(&data[close0 + 2..close1]) {
            Some(v) => v,
            None => return -7,
        };
        if end < start {
            -1
        } else {
            sat_sub_i64(end, start)
        }
    };
    let payload_off = close1 + 1;
    *out = FFmpegRsMpl2Event {
        start_ticks: start,
        duration_ticks: duration,
        payload_offset: payload_off,
        payload_len: data.len() - payload_off,
    };
    0
}

} // verus!
