//! WebVTT: cue blocks separated by blank lines, each with an optional
//! identifier line, a timing line `start --> end [settings]`, and a payload.
use vstd::prelude::*;
use crate::scan::{
    chomp_cr,
    blank_run, chomp, dec_value, digit_run, digits_at, digits_sat_i64, field_at, find_from,
    find_pattern, has_prefix, index_of, index_of_from, is_blank_byte, is_digit,
    lemma_dec_value_push, lemma_digit_run_bounds, lemma_find_from_occurs, past_newlines, sat,
    sat_add_i64, sat_mul_i64, skip_blanks, skip_newlines, starts_with,
};

verus! {

broadcast use vstd::slice::group_slice_axioms;

/// One cue: start and end in milliseconds, and the spans of its payload,
/// identifier and settings (an absent identifier has offset and length 0).
#[derive(Copy, Clone, Debug)]
pub struct FFmpegRsWebvttCue {
    pub start_ms: i64,
    pub end_ms: i64,
    pub payload_offset: usize,
    pub payload_len: usize,
    pub identifier_offset: usize,
    pub identifier_len: usize,
    pub settings_offset: usize,
    pub settings_len: usize,
}

/// The number of cues found, also those that did not fit.
#[derive(Copy, Clone, Debug)]
pub struct FFmpegRsWebvttParseResult {
    pub n_cues: usize,
}

pub open spec fn webvtt_word() -> Seq<u8> {
    seq![('W' as u8), ('E' as u8), ('B' as u8), ('V' as u8), ('T' as u8), ('T' as u8)]
}

pub open spec fn style_word() -> Seq<u8> {
    seq![('S' as u8), ('T' as u8), ('Y' as u8), ('L' as u8), ('E' as u8)]
}

pub open spec fn region_word() -> Seq<u8> {
    seq![('R' as u8), ('E' as u8), ('G' as u8), ('I' as u8), ('O' as u8), ('N' as u8)]
}

pub open spec fn note_word() -> Seq<u8> {
    seq![('N' as u8), ('O' as u8), ('T' as u8), ('E' as u8)]
}

pub open spec fn arrow() -> Seq<u8> {
    seq![('-' as u8), ('-' as u8), ('>' as u8)]
}

/// A field made of digits only, at least one.
pub open spec fn whole_field(s: Seq<u8>) -> bool {
    s.len() > 0 && digit_run(s, 0) == s.len()
}

/// The digits of a fraction read as milliseconds: the first three, padded.
pub open spec fn millis(d: Seq<u8>) -> int {
    if d.len() >= 3 {
        dec_value(d.take(3)) as int
    } else if d.len() == 2 {
        dec_value(d) as int * 10
    } else if d.len() == 1 {
        dec_value(d) as int * 100
    } else {
        0
    }
}

/// A timestamp `hh:mm:ss.ttt` or `mm:ss.ttt` in milliseconds. The fields
/// before the point are digits only; the fraction is the digits right after
/// the point, of which there may be none, but a byte must follow the point.
/// Each step of the sum saturates.
pub open spec fn vtt_time(s: Seq<u8>) -> Option<int> {
    let dot = index_of_from(s, ('.' as u8), 0);
    let lhs = s.subrange(0, dot);
    let ms = millis(digits_at(s, dot + 1));
    let c1 = index_of_from(lhs, (':' as u8), 0);
    let c2 = index_of_from(lhs, (':' as u8), c1 + 1);
    let c3 = index_of_from(lhs, (':' as u8), c2 + 1);
    let a = lhs.subrange(0, c1);
    let b = lhs.subrange(c1 + 1, c2);
    if dot >= s.len() || dot + 1 >= s.len() || c1 >= lhs.len() {
        None
    } else if c2 < lhs.len() {
        let c = lhs.subrange(c2 + 1, c3);
        if !whole_field(a) || !whole_field(b) || !whole_field(c) {
            None
        } else {
            Some(
                sat(sat(sat(sat(sat(field_at(a, 0) * 3600) + sat(field_at(b, 0) * 60)) + field_at(c, 0))
                    * 1000) + ms),
            )
        }
    } else if !whole_field(a) || !whole_field(b) {
        None
    } else {
        Some(sat(sat(sat(sat(field_at(a, 0) * 60) + field_at(b, 0)) * 1000) + ms))
    }
}

/// The end of the block that starts at `e`: the first line feed that is
/// followed by a blank line, or the end of the text.
pub open spec fn block_end(d: Seq<u8>, e: int) -> int
    decreases d.len() - e,
{
    if e < 0 || e >= d.len() {
        d.len() as int
    } else if d[e] == ('\n' as u8) && ((e + 1 < d.len() && d[e + 1] == ('\n' as u8)) || (e + 2
        < d.len() && d[e + 1] == ('\r' as u8) && d[e + 2] == ('\n' as u8))) {
        e
    } else {
        block_end(d, e + 1)
    }
}

/// A block that opens the file or holds styles, regions or notes.
pub open spec fn is_header_line(l: Seq<u8>) -> bool {
    has_prefix(l, webvtt_word()) || l == style_word() || l == region_word() || l == note_word()
}

/// The number of bytes from `i` on that are not blanks.
pub open spec fn nonblank_run(s: Seq<u8>, i: int) -> nat
    decreases s.len() - i,
{
    if i < 0 || i >= s.len() || is_blank_byte(s[i]) {
        0
    } else {
        1 + nonblank_run(s, i + 1)
    }
}

/// The index after the line that ends at `e` within `b`.
pub open spec fn line_after(b: Seq<u8>, e: int) -> int {
    if e < b.len() { e + 1 } else { e }
}

/// The cue of the block between `pos` and `end`, if it is one.
pub open spec fn cue_of_block(d: Seq<u8>, pos: int, end: int) -> Option<FFmpegRsWebvttCue> {
    let b = d.subrange(pos, end);
    let fle = index_of_from(b, ('\n' as u8), 0);
    let first = chomp(b.subrange(0, fle));
    let r0 = line_after(b, fle);
    let ne = index_of_from(b, ('\n' as u8), r0);
    let direct = find_from(first, arrow(), 0) is Some;
    let ts = if direct { first } else { chomp(b.subrange(r0, ne)) };
    let ts_off = if direct { pos } else { pos + r0 };
    let rest = if direct { r0 } else { line_after(b, ne) };
    if is_header_line(first) {
        None
    } else {
        match find_from(ts, arrow(), 0) {
            None => None,
            Some(a) => {
                let rs = a + 3 + blank_run(ts, a + 3);
                let re = rs + nonblank_run(ts, rs);
                let ss = re + blank_run(ts, re);
                match (vtt_time(chomp(ts.subrange(0, a))), vtt_time(ts.subrange(rs, re))) {
                    (Some(st), Some(en)) => Some(
                        FFmpegRsWebvttCue {
                            start_ms: st as i64,
                            end_ms: en as i64,
                            payload_offset: (pos + rest) as usize,
                            payload_len: (b.len() - rest) as usize,
                            identifier_offset: (if direct { 0 } else { pos }) as usize,
                            identifier_len: (if direct { 0 } else { first.len() as int }) as usize,
                            settings_offset: (ts_off + ss) as usize,
                            settings_len: (ts.len() - ss) as usize,
                        },
                    ),
                    _ => None,
                }
            },
        }
    }
}

/// The cues of the blocks from `pos` on, appended to `acc`.
pub open spec fn cues_from(d: Seq<u8>, pos: int, acc: Seq<FFmpegRsWebvttCue>) -> Seq<
    FFmpegRsWebvttCue,
>
    decreases d.len() + 1 - pos,
{
    let p = past_newlines(d, pos);
    let end = block_end(d, p);
    if pos < 0 || p < pos || p >= d.len() || end < p || end > d.len() {
        acc
    } else {
        match cue_of_block(d, p, end) {
            None => cues_from(d, end + 1, acc),
            Some(c) => cues_from(d, end + 1, acc.push(c)),
        }
    }
}

/// Where the signature is looked for: after a UTF-8 byte-order mark, if
/// there is one.
pub open spec fn signature_at(d: Seq<u8>) -> int {
    if d.len() >= 3 && d[0] == 0xEF && d[1] == 0xBB && d[2] == 0xBF { 3 } else { 0 }
}

/// The cues of a file, or -2 when it does not start with `WEBVTT`.
pub open spec fn webvtt_cues(d: Seq<u8>) -> Result<Seq<FFmpegRsWebvttCue>, i32> {
    let i = signature_at(d);
    if i + 6 > d.len() || d.subrange(i, i + 6) != webvtt_word() {
        Err(-2i32)
    } else {
        Ok(cues_from(d, 0, Seq::empty()))
    }
}

/// The digits at `i` as milliseconds; see [`millis`].
fn read_millis(s: &[u8], i: usize) -> (r: i64)
    requires
        i <= s@.len(),
    ensures
        r == millis(digits_at(s@, i as int)),
        0 <= r < 1000,
{
    proof {
        lemma_digit_run_bounds(s@, i as int);
    }
    let mut k: usize = i;
    let mut v: i64 = 0;
    while k < s.len() && k - i < 3 && is_digit(s[k])
        invariant
            i <= k <= s@.len(),
            k - i <= 3,
            digit_run(s@, i as int) == (k - i) + digit_run(s@, k as int),
            v == dec_value(s@.subrange(i as int, k as int)),
            v < (if k - i == 0 { 1int } else if k - i == 1 { 10 } else if k - i == 2 { 100 } else {
                1000
            }),
        decreases s@.len() - k,
    {
        proof {
            let pre = s@.subrange(i as int, k as int);
            lemma_dec_value_push(pre, s@[k as int]);
            assert(s@.subrange(i as int, k + 1) =~= pre.push(s@[k as int]));
        }
        v = v * 10 + (s[k] - ('0' as u8)) as i64;
        k = k + 1;
    }
    let n = k - i;
    proof {
        let d = digits_at(s@, i as int);
        if n == 3 {
            assert(d.take(3) =~= s@.subrange(i as int, k as int));
        } else {
            assert(d =~= s@.subrange(i as int, k as int));
        }
    }
    if n == 2 {
        v * 10
    } else if n == 1 {
        v * 100
    } else {
        v
    }
}

/// A field made of digits only, and its saturated value.
fn whole(s: &[u8]) -> (r: Option<i64>)
    ensures
        r is None <==> !whole_field(s@),
        r matches Some(v) ==> v == field_at(s@, 0),
{
    let (v, n) = digits_sat_i64(s, 0);
    if n == 0 || n != s.len() {
        None
    } else {
        Some(v)
    }
}

/// Reads a timestamp; see [`vtt_time`].
pub fn parse_ts_ms(s: &[u8]) -> (r: Option<i64>)
    ensures
        r is None <==> vtt_time(s@) is None,
        r matches Some(v) ==> vtt_time(s@) == Some(v as int),
{
    let dot = index_of(s, ('.' as u8), 0);
    if dot >= s.len() || dot + 1 >= s.len() {
        return None;
    }
    let ms = read_millis(s, dot + 1);
    let lhs = &s[0..dot];
    let c1 = index_of(lhs, (':' as u8), 0);
    if c1 >= lhs.len() {
        return None;
    }
    let c2 = index_of(lhs, (':' as u8), c1 + 1);
    let a = match whole(&lhs[0..c1]) {
        Some(v) => v,
        None => return None,
    };
    let b = match whole(&lhs[c1 + 1..c2]) {
        Some(v) => v,
        None => return None,
    };
    if c2 < lhs.len() {
        let c3 = index_of(lhs, (':' as u8), c2 + 1);
        let c = match whole(&lhs[c2 + 1..c3]) {
            Some(v) => v,
            None => return None,
        };
        let hms = sat_add_i64(sat_add_i64(sat_mul_i64(a, 3600), sat_mul_i64(b, 60)), c);
        return Some(sat_add_i64(sat_mul_i64(hms, 1000), ms));
    }
    let total = sat_mul_i64(sat_add_i64(sat_mul_i64(a, 60), b), 1000);
    Some(sat_add_i64(total, ms))
}

/// The end of the block that starts at `p`; see [`block_end`].
fn find_block_end(d: &[u8], p: usize) -> (r: usize)
    requires
        p <= d@.len(),
    ensures
        r == block_end(d@, p as int),
        p <= r <= d@.len(),
{
    let len = d.len();
    let mut e = p;
    while e < len
        invariant
            p <= e <= len == d@.len(),
            block_end(d@, e as int) == block_end(d@, p as int),
        decreases len - e,
    {
        if d[e] == ('\n' as u8) {
            if e + 1 < len && d[e + 1] == ('\n' as u8) {
                return e;
            }
            if len - e > 2 && d[e + 1] == ('\r' as u8) && d[e + 2] == ('\n' as u8) {
                return e;
            }
        }
        e = e + 1;
    }
    e
}

/// The index just past the non-blank bytes that start at `i`.
fn skip_nonblank(s: &[u8], i: usize) -> (r: usize)
    requires
        i <= s@.len(),
    ensures
        r == i + nonblank_run(s@, i as int),
        r <= s@.len(),
{
    let mut k = i;
    while k < s.len() && !(s[k] == (' ' as u8) || s[k] == ('\t' as u8))
        invariant
            i <= k <= s@.len(),
            nonblank_run(s@, i as int) == (k - i) + nonblank_run(s@, k as int),
        decreases s@.len() - k,
    {
        k = k + 1;
    }
    k
}

fn word_bytes(n: usize) -> (r: Vec<u8>)
    requires
        n < 5,
    ensures
        n == 0 ==> r@ == webvtt_word(),
        n == 1 ==> r@ == style_word(),
        n == 2 ==> r@ == region_word(),
        n == 3 ==> r@ == note_word(),
        n == 4 ==> r@ == arrow(),
{
    let r = if n == 0 {
        vec![('W' as u8), ('E' as u8), ('B' as u8), ('V' as u8), ('T' as u8), ('T' as u8)]
    } else if n == 1 {
        vec![('S' as u8), ('T' as u8), ('Y' as u8), ('L' as u8), ('E' as u8)]
    } else if n == 2 {
        vec![('R' as u8), ('E' as u8), ('G' as u8), ('I' as u8), ('O' as u8), ('N' as u8)]
    } else if n == 3 {
        vec![('N' as u8), ('O' as u8), ('T' as u8), ('E' as u8)]
    } else {
        vec![('-' as u8), ('-' as u8), ('>' as u8)]
    };
    assert(n == 0 ==> r@ =~= webvtt_word());
    assert(n == 1 ==> r@ =~= style_word());
    assert(n == 2 ==> r@ =~= region_word());
    assert(n == 3 ==> r@ =~= note_word());
    assert(n == 4 ==> r@ =~= arrow());
    r
}

/// `line` is exactly `w`.
fn is_word(line: &[u8], w: &[u8]) -> (r: bool)
    ensures
        r == (line@ == w@),
{
    let r = line.len() == w.len() && starts_with(line, w);
    proof {
        assert(line@.subrange(0, line@.len() as int) =~= line@);
    }
    r
}

/// Reads the block between `pos` and `end`; see [`cue_of_block`].
#[verifier::rlimit(60)]
fn parse_block(d: &[u8], pos: usize, end: usize) -> (r: Option<FFmpegRsWebvttCue>)
    requires
        pos <= end <= d@.len(),
    ensures
        r == cue_of_block(d@, pos as int, end as int),
{
    let block = &d[pos..end];
    let blen = block.len();
    let fle = index_of(block, ('\n' as u8), 0);
    let first = chomp_cr(&block[0..fle]);
    let wv = word_bytes(0);
    let st = word_bytes(1);
    let rg = word_bytes(2);
    let nt = word_bytes(3);
    let arw = word_bytes(4);
    if starts_with(first, wv.as_slice()) || is_word(first, st.as_slice()) || is_word(
        first,
        rg.as_slice(),
    ) || is_word(first, nt.as_slice()) {
        return None;
    }
    let r0 = if fle < blen { fle + 1 } else { fle };
    let direct = find_pattern(first, arw.as_slice(), 0).is_some();
    let mut ts = first;
    let mut ts_off = pos;
    let mut rest = r0;
    let mut id_off: usize = 0;
    let mut id_len: usize = 0;
    if !direct {
        let ne = index_of(block, ('\n' as u8), r0);
        ts = chomp_cr(&block[r0..ne]);
        ts_off = pos + r0;
        rest = if ne < blen { ne + 1 } else { ne };
        id_off = pos;
        id_len = first.len();
    }
    let a = match find_pattern(ts, arw.as_slice(), 0) {
        Some(a) => a,
        None => return None,
    };
    proof {
        lemma_find_from_occurs(ts@, arrow(), 0);
        assert(ts@.len() == ts.len());
    }
    let rs = skip_blanks(ts, a + 3);
    let re = skip_nonblank(ts, rs);
    let ss = skip_blanks(ts, re);
    let start_ms = match parse_ts_ms(chomp_cr(&ts[0..a])) {
        Some(v) => v,
        None => return None,
    };
    let end_ms = match parse_ts_ms(&ts[rs..re]) {
        Some(v) => v,
        None => return None,
    };
    Some(
        FFmpegRsWebvttCue {
            start_ms,
            end_ms,
            payload_offset: pos + rest,
            payload_len: blen - rest,
            identifier_offset: id_off,
            identifier_len: id_len,
            settings_offset: ts_off + ss,
            settings_len: ts.len() - ss,
        },
    )
}

/// Reads every cue of a WebVTT file, storing as many as `cues` holds and
/// counting all of them in `out`. Returns 0, or -2 when the file does not
/// start with `WEBVTT`, in which case nothing is written.
pub fn ffmpeg_rs_webvtt_parse(
    text: &[u8],
    out: &mut FFmpegRsWebvttParseResult,
    cues: &mut [FFmpegRsWebvttCue],
) -> (r: i32)
    ensures
        webvtt_cues(text@) is Err ==> r == -2 && *final(out) == *old(out) && final(cues)@ == old(
            cues,
        )@,
        webvtt_cues(text@) matches Ok(all) ==> {
            let cap = old(cues)@.len();
            &&& r == 0
            &&& final(out).n_cues == all.len()
            &&& final(cues)@ == Seq::new(
                cap,
                |k: int| if k < all.len() { all[k] } else { old(cues)@[k] },
            )
        },
{
    let data = text;
    let len = data.len();
    let i: usize = if len >= 3 && data[0] == 0xEF && data[1] == 0xBB && data[2] == 0xBF {
        3
    } else {
        0
    };
    let wv = word_bytes(0);
    if i + 6 > len || !is_word(&data[i..i + 6], wv.as_slice()) {
        return -2;
    }
    let cap = cues.len();
    let ghost old_cues = cues@;
    let ghost mut acc: Seq<FFmpegRsWebvttCue> = Seq::empty();
    let mut n_cues: usize = 0;
    let mut pos: usize = 0;
    assert(cues@ =~= Seq::new(cap as nat, |k: int| if k < acc.len() { acc[k] } else { old_cues[k] }));
    loop
        invariant_except_break
            pos <= len == data@.len(),
            cues_from(data@, pos as int, acc) == cues_from(data@, 0, Seq::empty()),
            n_cues <= pos,
        invariant
            cap == cues@.len(),
            n_cues == acc.len(),
            cues@ == Seq::new(cap as nat, |k: int| if k < acc.len() { acc[k] } else { old_cues[k] }),
        ensures
            acc == cues_from(data@, 0, Seq::empty()),
        decreases len - pos,
    {
        let p = skip_newlines(data, pos);
        if p >= len {
            break;
        }
        let end = find_block_end(data, p);
        if let Some(c) = parse_block(data, p, end) {
            proof {
                acc = acc.push(c);
            }
            if n_cues < cap {
                cues[n_cues] = c;
            }
            n_cues = n_cues + 1;
            assert(cues@ =~= Seq::new(cap as nat, |k: int| if k < acc.len() { acc[k] } else { old_cues[k] }));
        }
        if end >= len {
            proof {
                assert(cues_from(data@, end + 1, acc) == acc);
            }
            break;
        }
        pos = end + 1;
    }
    out.n_cues = n_cues;
    0
}

} // verus!
