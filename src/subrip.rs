//! SubRip: blocks of an optional index line, a timing line
//! `HH:MM:SS,mmm --> HH:MM:SS,mmm`, and text lines up to a blank line.
use vstd::prelude::*;
use crate::scan::{
    chomp_cr, chomp, dec_value, digit_run, digits_at, digits_sat_u64, find_from, find_pattern,
    index_of, index_of_from, lemma_digit_run_bounds, lemma_find_from_occurs, past_newlines,
    sat_sub_i64, skip_newlines,
};

verus! {

broadcast use vstd::slice::group_slice_axioms;

/// One cue: start and duration in milliseconds, and the span of its text.
#[derive(Copy, Clone, Debug)]
pub struct FFmpegRsSubripEvent {
    pub start_ms: i64,
    pub duration_ms: i64,
    pub payload_offset: usize,
    pub payload_len: usize,
}

/// The number of cues found, also those that did not fit.
#[derive(Copy, Clone, Debug)]
pub struct FFmpegRsSubripParseResult {
    pub n_events: usize,
}

/// The leading digits of the `w` bytes at `i`, when there is one.
pub open spec fn lead_value(s: Seq<u8>, i: int, w: int) -> Option<int> {
    let win = s.subrange(i, i + w);
    if digit_run(win, 0) == 0 {
        None
    } else {
        Some(dec_value(digits_at(win, 0)) as int)
    }
}

/// A time `HH:MM:SS,mmm` (or with `.`) in its fixed columns, in
/// milliseconds. Each field needs a leading digit.
pub open spec fn srt_time(s: Seq<u8>) -> Option<int> {
    if s.len() < 12 || s[2] != (':' as u8) || s[5] != (':' as u8) || (s[8] != (',' as u8) && s[8]
        != ('.' as u8)) {
        None
    } else {
        match (lead_value(s, 0, 2), lead_value(s, 3, 2), lead_value(s, 6, 2), lead_value(s, 9, 3)) {
            (Some(hh), Some(mm), Some(ss), Some(ms)) => Some((hh * 3600 + mm * 60 + ss) * 1000 + ms),
            _ => None,
        }
    }
}

/// ` --> `.
pub open spec fn arrow() -> Seq<u8> {
    seq![(' ' as u8), ('-' as u8), ('-' as u8), ('>' as u8), (' ' as u8)]
}

/// The start and duration of a timing line.
pub open spec fn timing_of(line: Seq<u8>) -> Option<(int, int)> {
    match find_from(line, arrow(), 0) {
        None => None,
        Some(a) => match (srt_time(line.subrange(0, a)), srt_time(
            line.subrange(a + 5, line.len() as int),
        )) {
            (Some(st), Some(en)) => Some(
                (st, if en - st < i64::MIN { i64::MIN as int } else { en - st }),
            ),
            _ => None,
        },
    }
}

/// Where the line after the one that ends at `e` starts.
pub open spec fn after_line(d: Seq<u8>, e: int) -> int {
    if e < d.len() { e + 1 } else { d.len() as int }
}

/// The index after the text lines from `i` on, through the blank line that
/// ends them.
pub open spec fn text_end(d: Seq<u8>, i: int) -> int
    decreases d.len() - i,
{
    let e = index_of_from(d, ('\n' as u8), i);
    let n = after_line(d, e);
    if i < 0 || i >= d.len() || n <= i {
        i
    } else if chomp(d.subrange(i, e)).len() == 0 {
        n
    } else {
        text_end(d, n)
    }
}

/// `len` less the line feeds and carriage returns that end the `len` bytes
/// at `off`.
pub open spec fn trimmed_len(d: Seq<u8>, off: int, len: int) -> int
    decreases len,
{
    if len > 0 && (d[off + len - 1] == ('\n' as u8) || d[off + len - 1] == ('\r' as u8)) {
        trimmed_len(d, off, len - 1)
    } else {
        len
    }
}

/// The cues of the blocks from `i` on, appended to `evs`.
pub open spec fn cues_from(d: Seq<u8>, i: int, evs: Seq<FFmpegRsSubripEvent>) -> Seq<
    FFmpegRsSubripEvent,
>
    decreases d.len() - i,
{
    let s = past_newlines(d, i);
    let e1 = index_of_from(d, ('\n' as u8), s);
    let i1 = after_line(d, e1);
    let e2 = index_of_from(d, ('\n' as u8), i1);
    let i2 = after_line(d, e2);
    if i < 0 || s >= d.len() || i1 <= i || i1 > d.len() {
        evs
    } else if chomp(d.subrange(s, e1)).len() == 0 {
        cues_from(d, i1, evs)
    } else if i1 >= d.len() || i2 <= i || i2 > d.len() {
        evs
    } else {
        match timing_of(chomp(d.subrange(i1, e2))) {
            None => cues_from(d, i2, evs),
            Some((st, dur)) => {
                let pe = text_end(d, i2);
                if pe < i2 || pe > d.len() {
                    evs
                } else {
                    cues_from(
                        d,
                        pe,
                        evs.push(
                            FFmpegRsSubripEvent {
                                start_ms: st as i64,
                                duration_ms: dur as i64,
                                payload_offset: i2 as usize,
                                payload_len: trimmed_len(d, i2, pe - i2) as usize,
                            },
                        ),
                    )
                }
            },
        }
    }
}

/// The leading digits of a window, saturated at `u64::MAX`.
pub fn parse_u64(s: &[u8]) -> (r: Option<u64>)
    ensures
        r is None <==> digit_run(s@, 0) == 0,
        r matches Some(v) ==> v == (if dec_value(digits_at(s@, 0)) > u64::MAX {
            u64::MAX as int
        } else {
            dec_value(digits_at(s@, 0)) as int
        }),
{
    let (v, n) = digits_sat_u64(s, 0);
    if n == 0 {
        None
    } else {
        Some(v)
    }
}

/// The leading digits of the `w` bytes at `i`, when they are at most three.
fn lead(line: &[u8], i: usize, w: usize) -> (r: Option<u64>)
    requires
        i + w <= line@.len(),
        w <= 3,
    ensures
        r is None <==> lead_value(line@, i as int, w as int) is None,
        r matches Some(v) ==> lead_value(line@, i as int, w as int) == Some(v as int) && v < 1000,
{
    assert(line@.len() == line.len());
    let win = &line[i..i + w];
    proof {
        lemma_digit_run_bounds(win@, 0);
        lemma_small_digits(digits_at(win@, 0));
    }
    parse_u64(win)
}

proof fn lemma_small_digits(d: Seq<u8>)
    requires
        d.len() <= 3,
        forall|k: int| 0 <= k < d.len() ==> #[trigger] d[k] >= ('0' as u8) && d[k] <= ('9' as u8),
    ensures
        dec_value(d) < 1000,
{
    reveal_with_fuel(dec_value, 4);
    if d.len() == 3 {
        assert(d.drop_last().drop_last().drop_last().len() == 0);
    }
}

/// Reads a time in fixed columns; see [`srt_time`].
pub fn parse_ts_ms(line: &[u8]) -> (r: Option<i64>)
    ensures
        r is None <==> srt_time(line@) is None,
        r matches Some(v) ==> srt_time(line@) == Some(v as int),
{
    if line.len() < 12 {
        return None;
    }
    if line[2] != (':' as u8) || line[5] != (':' as u8) || (line[8] != (',' as u8) && line[8]
        != ('.' as u8)) {
        return None;
    }
    let hh = match lead(line, 0, 2) {
        Some(v) => v,
        None => return None,
    };
    let mm = match lead(line, 3, 2) {
        Some(v) => v,
        None => return None,
    };
    let ss = match lead(line, 6, 2) {
        Some(v) => v,
        None => return None,
    };
    let ms = match lead(line, 9, 3) {
        Some(v) => v,
        None => return None,
    };
    Some(((hh * 3600 + mm * 60 + ss) * 1000 + ms) as i64)
}

fn arrow_bytes() -> (r: [u8; 5])
    ensures
        r@ == arrow(),
{
    let r: [u8; 5] = [(' ' as u8), ('-' as u8), ('-' as u8), ('>' as u8), (' ' as u8)];
    assert(r@ =~= arrow());
    r
}

/// Reads a timing line; see [`timing_of`].
pub fn parse_timing_line(line: &[u8]) -> (r: Option<(i64, i64)>)
    ensures
        r is None <==> timing_of(line@) is None,
        r matches Some((st, dur)) ==> timing_of(line@) == Some((st as int, dur as int)),
{
    let arr = arrow_bytes();
    let a = match find_pattern(line, arr.as_slice(), 0) {
        Some(a) => a,
        None => return None,
    };
    proof {
        lemma_find_from_occurs(line@, arrow(), 0);
        assert(line@.len() == line.len());
    }
    let start = match parse_ts_ms(&line[0..a]) {
        Some(v) => v,
        None => return None,
    };
    let end = match parse_ts_ms(&line[a + 5..line.len()]) {
        Some(v) => v,
        None => return None,
    };
    Some((start, sat_sub_i64(end, start)))
}

/// The index after the text lines from `i` on; see [`text_end`].
fn skip_text(d: &[u8], i: usize) -> (r: usize)
    requires
        i <= d@.len(),
    ensures
        r == text_end(d@, i as int),
        i <= r <= d@.len(),
{
    let mut k = i;
    while k < d.len()
        invariant
            i <= k <= d@.len(),
            text_end(d@, k as int) == text_end(d@, i as int),
        decreases d@.len() - k,
    {
        let e = index_of(d, ('\n' as u8), k);
        let n = if e < d.len() { e + 1 } else { d.len() };
        let line = chomp_cr(&d[k..e]);
        if line.len() == 0 {
            return n;
        }
        k = n;
    }
    k
}

/// The text length without its closing line breaks; see [`trimmed_len`].
fn trim_breaks(d: &[u8], off: usize, len: usize) -> (r: usize)
    requires
        off + len <= d@.len(),
    ensures
        r == trimmed_len(d@, off as int, len as int),
        r <= len,
{
    let mut pl = len;
    assert(d@.len() == d.len());
    while pl > 0 && (d[off + pl - 1] == ('\n' as u8) || d[off + pl - 1] == ('\r' as u8))
        invariant
            pl <= len,
            off + len <= d@.len(),
            d@.len() == d.len(),
            trimmed_len(d@, off as int, pl as int) == trimmed_len(d@, off as int, len as int),
        decreases pl,
    {
        pl = pl - 1;
    }
    pl
}

/// Reads every cue of `text`, storing as many as `events` holds and
/// counting all of them in `out`; returns 0.
pub fn ffmpeg_rs_subrip_parse(
    text: &[u8],
    out: &mut FFmpegRsSubripParseResult,
    events: &mut [FFmpegRsSubripEvent],
) -> (r: i32)
    ensures
        ({
            let all = cues_from(text@, 0, Seq::empty());
            let cap = old(events)@.len();
            &&& r == 0
            &&& final(out).n_events == all.len()
            &&& final(events)@ == Seq::new(
                cap,
                |k: int| if k < all.len() { all[k] } else { old(events)@[k] },
            )
        }),
{
    let data = text;
    let len = data.len();
    let cap = events.len();
    let ghost old_events = events@;
    let ghost mut acc: Seq<FFmpegRsSubripEvent> = Seq::empty();
    let mut n_events: usize = 0;
    let mut i: usize = 0;
    assert(events@ =~= Seq::new(cap as nat, |k: int| if k < acc.len() { acc[k] } else { old_events[k] }));
    loop
        invariant_except_break
            i <= len == data@.len(),
            cues_from(data@, i as int, acc) == cues_from(data@, 0, Seq::empty()),
            n_events <= i,
        invariant
            cap == events@.len(),
            n_events == acc.len(),
            events@ == Seq::new(cap as nat, |k: int| if k < acc.len() { acc[k] } else { old_events[k] }),
        ensures
            acc == cues_from(data@, 0, Seq::empty()),
        decreases len - i,
    {
        if i >= len {
            break;
        }
        let s = skip_newlines(data, i);
        if s >= len {
            break;
        }
        let e1 = index_of(data, ('\n' as u8), s);
        let l1 = chomp_cr(&data[s..e1]);
        let i1 = if e1 < len { e1 + 1 } else { len };
        if l1.len() == 0 {
            i = i1;
            continue;
        }
        if i1 >= len {
            break;
        }
        let e2 = index_of(data, ('\n' as u8), i1);
        let l2 = chomp_cr(&data[i1..e2]);
        let i2 = if e2 < len { e2 + 1 } else { len };
        let (start_ms, duration_ms) = match parse_timing_line(l2) {
            Some(v) => v,
            None => {
                i = i2;
                continue;
            },
        };
        let pe = skip_text(data, i2);
        let pl = trim_breaks(data, i2, pe - i2);
        let ev = FFmpegRsSubripEvent {
            start_ms,
            duration_ms,
            payload_offset: i2,
            payload_len: pl,
        };
        proof {
            acc = acc.push(ev);
        }
        if n_events < cap {
            events[n_events] = ev;
        }
        n_events = n_events + 1;
        assert(events@ =~= Seq::new(cap as nat, |k: int| if k < acc.len() { acc[k] } else { old_events[k] }));
        i = pe;
    }
    out.n_events = n_events;
    0
}

} // verus!
