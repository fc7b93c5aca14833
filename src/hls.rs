//! HTTP Live Streaming playlists: a builder that fills segment and variant
//! records, and an emitter that reports one event per directive or URI line.
//!
//! Both read the caller's buffer in place; every text they report is an
//! `(offset, length)` span into it.
use vstd::prelude::*;
use crate::scan::{
    blank_run, cap, chomp, chomp_cr, frac6, frac_micros, is_blank_byte, starts_with,
    clamp, dec_value, digit_run, digits_at, digits_sat_i64, find_from, find_pattern, has_prefix,
    index_of, index_of_from, lemma_digit_run_bounds, lemma_find_from_occurs,
    lemma_index_of_bounds, occurs_at,
    sat_add_i64, sat_mul_i64, skip_blanks,
};

verus! {

broadcast use vstd::slice::group_slice_axioms;

/// Status: the buffer was read to its end.
pub const HLS_OK: i32 = 0;

/// Status: a required argument was missing.
pub const HLS_ERR_INVALID_ARGUMENT: i32 = -1;

/// Status: the first line is not exactly `#EXTM3U`.
pub const HLS_ERR_MALFORMED_HEADER: i32 = -2;

/// Status: strict mode met an extension directive it does not support.
pub const HLS_ERR_UNSUPPORTED_DIRECTIVE: i32 = -3;

// ----- directive text -----

/// The header that must open a playlist.
pub open spec fn tag_header() -> Seq<u8> {
    seq![('#' as u8), ('E' as u8), ('X' as u8), ('T' as u8), ('M' as u8), ('3' as u8), ('U' as u8)]
}

/// The target-duration directive.
pub open spec fn tag_target_duration() -> Seq<u8> {
    seq![
        ('#' as u8), ('E' as u8), ('X' as u8), ('T' as u8), ('-' as u8), ('X' as u8), ('-' as u8),
        ('T' as u8), ('A' as u8), ('R' as u8), ('G' as u8), ('E' as u8), ('T' as u8), ('D' as u8),
        ('U' as u8), ('R' as u8), ('A' as u8), ('T' as u8), ('I' as u8), ('O' as u8), ('N' as u8),
        (':' as u8)
    ]
}

/// The media-sequence directive.
pub open spec fn tag_media_sequence() -> Seq<u8> {
    seq![
        ('#' as u8), ('E' as u8), ('X' as u8), ('T' as u8), ('-' as u8), ('X' as u8), ('-' as u8),
        ('M' as u8), ('E' as u8), ('D' as u8), ('I' as u8), ('A' as u8), ('-' as u8), ('S' as u8),
        ('E' as u8), ('Q' as u8), ('U' as u8), ('E' as u8), ('N' as u8), ('C' as u8), ('E' as u8),
        (':' as u8)
    ]
}

/// The end-of-list directive.
pub open spec fn tag_endlist() -> Seq<u8> {
    seq![
        ('#' as u8), ('E' as u8), ('X' as u8), ('T' as u8), ('-' as u8), ('X' as u8), ('-' as u8),
        ('E' as u8), ('N' as u8), ('D' as u8), ('L' as u8), ('I' as u8), ('S' as u8), ('T' as u8)
    ]
}

/// The segment-duration directive.
pub open spec fn tag_extinf() -> Seq<u8> {
    seq![
        ('#' as u8), ('E' as u8), ('X' as u8), ('T' as u8), ('I' as u8), ('N' as u8), ('F' as u8),
        (':' as u8)
    ]
}

/// The variant-stream directive.
pub open spec fn tag_stream_inf() -> Seq<u8> {
    seq![
        ('#' as u8), ('E' as u8), ('X' as u8), ('T' as u8), ('-' as u8), ('X' as u8), ('-' as u8),
        ('S' as u8), ('T' as u8), ('R' as u8), ('E' as u8), ('A' as u8), ('M' as u8), ('-' as u8),
        ('I' as u8), ('N' as u8), ('F' as u8), (':' as u8)
    ]
}

/// The prefix shared by all extension directives.
pub open spec fn tag_ext() -> Seq<u8> {
    seq![('#' as u8), ('E' as u8), ('X' as u8), ('T' as u8)]
}

/// The attribute that carries a variant's bandwidth.
pub open spec fn key_bandwidth() -> Seq<u8> {
    seq![
        ('B' as u8), ('A' as u8), ('N' as u8), ('D' as u8), ('W' as u8), ('I' as u8), ('D' as u8),
        ('T' as u8), ('H' as u8), ('=' as u8)
    ]
}

// ----- numbers -----

/// An integer field: no leading blank, an optional `+` or `-`, then at
/// least one digit; the magnitude saturates at `i64::MAX`.
pub open spec fn hls_int(s: Seq<u8>) -> Option<i64> {
    if s.len() == 0 || is_blank_byte(s[0]) {
        None
    } else {
        let a: int = if s[0] == ('-' as u8) || s[0] == ('+' as u8) { 1 } else { 0 };
        if digit_run(s, a) == 0 {
            None
        } else {
            let v = cap(dec_value(digits_at(s, a)) as int, i64::MAX as int);
            Some((if s[0] == ('-' as u8) { -v } else { v }) as i64)
        }
    }
}

/// Seconds written `<int>[.<frac>]` after optional blanks and an optional
/// `+` or `-`, in microseconds. At least one digit must appear on either side of
/// the point. The magnitude saturates at `i64::MAX`.
pub open spec fn hls_seconds_us(s: Seq<u8>) -> Option<i64> {
    let j = blank_run(s, 0) as int;
    if j >= s.len() {
        None
    } else {
        let neg = s[j] == ('-' as u8);
        let a = if neg || s[j] == ('+' as u8) { j + 1 } else { j };
        let p = a + digit_run(s, a);
        let dot = p < s.len() && s[p] == ('.' as u8);
        let nf = if dot { digit_run(s, p + 1) } else { 0 };
        if digit_run(s, a) == 0 && nf == 0 {
            None
        } else {
            let frac = if dot { frac6(digits_at(s, p + 1)) } else { 0 };
            let us = cap((dec_value(digits_at(s, a)) * 1_000_000 + frac) as int, i64::MAX as int);
            Some((if neg { -us } else { us }) as i64)
        }
    }
}

/// The value of the first `BANDWIDTH=` attribute, found by plain substring
/// search.
pub open spec fn bandwidth_of(attrs: Seq<u8>) -> Option<i64> {
    match find_from(attrs, key_bandwidth(), 0) {
        Some(i) => hls_int(attrs.subrange(i + 10, attrs.len() as int)),
        None => None,
    }
}

/// `v` saturated into the range of `i32`.
pub open spec fn clamp_i32(v: i64) -> i32 {
    clamp(v as int, i32::MIN as int, i32::MAX as int) as i32
}

// ----- the directive recognizer -----

/// The kind of a non-empty line.
#[derive(Copy, Clone, Debug, PartialEq, Eq, Structural)]
pub enum Directive {
    TargetDuration,
    MediaSequence,
    EndList,
    ExtInf,
    StreamInf,
    /// Any other line that starts with `#EXT`.
    OtherExt,
    /// Any other line that starts with `#`.
    Comment,
    /// A line that does not start with `#`.
    Uri,
}

/// Classifies a line by its first literal prefix.
pub open spec fn classify(line: Seq<u8>) -> Directive {
    if line.len() == 0 || line[0] != ('#' as u8) {
        Directive::Uri
    } else if has_prefix(line, tag_target_duration()) {
        Directive::TargetDuration
    } else if has_prefix(line, tag_media_sequence()) {
        Directive::MediaSequence
    } else if has_prefix(line, tag_endlist()) {
        Directive::EndList
    } else if has_prefix(line, tag_extinf()) {
        Directive::ExtInf
    } else if has_prefix(line, tag_stream_inf()) {
        Directive::StreamInf
    } else if has_prefix(line, tag_ext()) {
        Directive::OtherExt
    } else {
        Directive::Comment
    }
}

fn tag_header_bytes() -> (r: [u8; 7])
    ensures
        r@ == tag_header(),
{
    let r: [u8; 7] = [
        ('#' as u8), ('E' as u8), ('X' as u8), ('T' as u8), ('M' as u8), ('3' as u8), ('U' as u8),
    ];
    assert(r@ =~= tag_header());
    r
}

fn tag_target_duration_bytes() -> (r: [u8; 22])
    ensures
        r@ == tag_target_duration(),
{
    let r: [u8; 22] = [
        ('#' as u8), ('E' as u8), ('X' as u8), ('T' as u8), ('-' as u8), ('X' as u8), ('-' as u8),
        ('T' as u8), ('A' as u8), ('R' as u8), ('G' as u8), ('E' as u8), ('T' as u8), ('D' as u8),
        ('U' as u8), ('R' as u8), ('A' as u8), ('T' as u8), ('I' as u8), ('O' as u8), ('N' as u8),
        (':' as u8),
    ];
    assert(r@ =~= tag_target_duration());
    r
}

fn tag_media_sequence_bytes() -> (r: [u8; 22])
    ensures
        r@ == tag_media_sequence(),
{
    let r: [u8; 22] = [
        ('#' as u8), ('E' as u8), ('X' as u8), ('T' as u8), ('-' as u8), ('X' as u8), ('-' as u8),
        ('M' as u8), ('E' as u8), ('D' as u8), ('I' as u8), ('A' as u8), ('-' as u8), ('S' as u8),
        ('E' as u8), ('Q' as u8), ('U' as u8), ('E' as u8), ('N' as u8), ('C' as u8), ('E' as u8),
        (':' as u8),
    ];
    assert(r@ =~= tag_media_sequence());
    r
}

fn tag_endlist_bytes() -> (r: [u8; 14])
    ensures
        r@ == tag_endlist(),
{
    let r: [u8; 14] = [
        ('#' as u8), ('E' as u8), ('X' as u8), ('T' as u8), ('-' as u8), ('X' as u8), ('-' as u8),
        ('E' as u8), ('N' as u8), ('D' as u8), ('L' as u8), ('I' as u8), ('S' as u8), ('T' as u8),
    ];
    assert(r@ =~= tag_endlist());
    r
}

fn tag_extinf_bytes() -> (r: [u8; 8])
    ensures
        r@ == tag_extinf(),
{
    let r: [u8; 8] = [
        ('#' as u8), ('E' as u8), ('X' as u8), ('T' as u8), ('I' as u8), ('N' as u8), ('F' as u8),
        (':' as u8),
    ];
    assert(r@ =~= tag_extinf());
    r
}

fn tag_stream_inf_bytes() -> (r: [u8; 18])
    ensures
        r@ == tag_stream_inf(),
{
    let r: [u8; 18] = [
        ('#' as u8), ('E' as u8), ('X' as u8), ('T' as u8), ('-' as u8), ('X' as u8), ('-' as u8),
        ('S' as u8), ('T' as u8), ('R' as u8), ('E' as u8), ('A' as u8), ('M' as u8), ('-' as u8),
        ('I' as u8), ('N' as u8), ('F' as u8), (':' as u8),
    ];
    assert(r@ =~= tag_stream_inf());
    r
}

fn tag_ext_bytes() -> (r: [u8; 4])
    ensures
        r@ == tag_ext(),
{
    let r: [u8; 4] = [('#' as u8), ('E' as u8), ('X' as u8), ('T' as u8)];
    assert(r@ =~= tag_ext());
    r
}

fn key_bandwidth_bytes() -> (r: [u8; 10])
    ensures
        r@ == key_bandwidth(),
{
    let r: [u8; 10] = [
        ('B' as u8), ('A' as u8), ('N' as u8), ('D' as u8), ('W' as u8), ('I' as u8), ('D' as u8),
        ('T' as u8), ('H' as u8), ('=' as u8),
    ];
    assert(r@ =~= key_bandwidth());
    r
}

/// `cap(d, MAX)` scaled by a million, plus a fraction, saturates like the
/// exact sum.
proof fn lemma_scale_micros(d: nat, v: int, f: int)
    requires
        v == cap(d as int, i64::MAX as int),
        0 <= f < 1_000_000,
    ensures
        clamp(clamp(v * 1_000_000, i64::MIN as int, i64::MAX as int) + f, i64::MIN as int,
            i64::MAX as int) == cap(d * 1_000_000 + f, i64::MAX as int),
{
    if d >= i64::MAX {
        assert(d * 1_000_000 >= i64::MAX) by (nonlinear_arith)
            requires d >= i64::MAX;
        assert(v * 1_000_000 >= i64::MAX) by (nonlinear_arith)
            requires v == i64::MAX;
    } else {
        assert(v * 1_000_000 >= 0) by (nonlinear_arith)
            requires v >= 0;
    }
}

/// Reads an integer field; see [`hls_int`].
pub fn parse_i64_ascii(s: &[u8]) -> (r: Option<i64>)
    ensures
        r == hls_int(s@),
{
    if s.len() == 0 || s[0] == (' ' as u8) || s[0] == ('\t' as u8) {
        return None;
    }
    let a: usize = if s[0] == ('-' as u8) || s[0] == ('+' as u8) { 1 } else { 0 };
    let (v, n) = digits_sat_i64(s, a);
    if n == 0 {
        return None;
    }
    Some(if s[0] == ('-' as u8) { -v } else { v })
}

/// Reads seconds as microseconds; see [`hls_seconds_us`].
pub fn parse_f64_seconds_to_us(s: &[u8]) -> (r: Option<i64>)
    ensures
        r == hls_seconds_us(s@),
{
    let j = skip_blanks(s, 0);
    if j >= s.len() {
        return None;
    }
    let neg = s[j] == ('-' as u8);
    let a: usize = if neg || s[j] == ('+' as u8) { j + 1 } else { j };
    let (iv, ni) = digits_sat_i64(s, a);
    proof {
        lemma_digit_run_bounds(s@, a as int);
    }
    let p = a + ni;
    let dot = p < s.len() && s[p] == ('.' as u8);
    let mut frac: i64 = 0;
    let mut nf: usize = 0;
    if dot {
        let (f, n) = frac_micros(s, p + 1);
        frac = f;
        nf = n;
    }
    if ni == 0 && nf == 0 {
        return None;
    }
    proof {
        lemma_scale_micros(dec_value(digits_at(s@, a as int)), iv as int, frac as int);
    }
    let us = sat_add_i64(sat_mul_i64(iv, 1_000_000), frac);
    Some(if neg { -us } else { us })
}

/// Reads the first `BANDWIDTH=` attribute; see [`bandwidth_of`].
pub fn parse_bandwidth(attrs: &[u8]) -> (r: Option<i64>)
    ensures
        r == bandwidth_of(attrs@),
{
    let key = key_bandwidth_bytes();
    let ks = key.as_slice();
    assert(ks@ == key_bandwidth());
    match find_pattern(attrs, ks, 0) {
        Some(i) => {
            proof {
                assert(find_from(attrs@, key_bandwidth(), 0) == Some(i as int));
                lemma_find_from_occurs(attrs@, key_bandwidth(), 0);
                assert(occurs_at(attrs@, key_bandwidth(), i as int));
                assert(key_bandwidth().len() == 10);
                assert(attrs@.len() == attrs.len());
            }
            let rest = &attrs[i + 10..attrs.len()];
            parse_i64_ascii(rest)
        },
        None => None,
    }
}

/// Saturates `v` into the range of `i32`.
pub fn to_i32_saturating(v: i64) -> (r: i32)
    ensures
        r == clamp_i32(v),
{
    if v < i32::MIN as i64 {
        i32::MIN
    } else if v > i32::MAX as i64 {
        i32::MAX
    } else {
        v as i32
    }
}

/// Classifies a line; see [`classify`].
pub fn classify_line(line: &[u8]) -> (d: Directive)
    ensures
        d == classify(line@),
{
    if line.len() == 0 || line[0] != ('#' as u8) {
        Directive::Uri
    } else if starts_with(line, tag_target_duration_bytes().as_slice()) {
        Directive::TargetDuration
    } else if starts_with(line, tag_media_sequence_bytes().as_slice()) {
        Directive::MediaSequence
    } else if starts_with(line, tag_endlist_bytes().as_slice()) {
        Directive::EndList
    } else if starts_with(line, tag_extinf_bytes().as_slice()) {
        Directive::ExtInf
    } else if starts_with(line, tag_stream_inf_bytes().as_slice()) {
        Directive::StreamInf
    } else if starts_with(line, tag_ext_bytes().as_slice()) {
        Directive::OtherExt
    } else {
        Directive::Comment
    }
}

// ----- records -----

/// One media segment: its duration and the span of its URI line.
#[derive(Copy, Clone, Debug)]
pub struct FFmpegRsHlsSegment {
    pub duration_us: i64,
    pub url_offset: usize,
    pub url_len: usize,
}

/// One variant stream: its bandwidth and the span of its URI line.
#[derive(Copy, Clone, Debug)]
pub struct FFmpegRsHlsVariant {
    pub bandwidth: i32,
    pub url_offset: usize,
    pub url_len: usize,
}

/// The playlist summary. `n_segments` and `n_variants` count every record
/// found, also those that did not fit the caller's buffers.
#[derive(Copy, Clone, Debug)]
pub struct FFmpegRsHlsPlaylist {
    pub target_duration_us: i64,
    pub start_seq_no: i32,
    /// 1 once `#EXT-X-ENDLIST` was seen, else 0.
    pub finished: i32,
    pub n_segments: usize,
    pub n_variants: usize,
}

/// Whether unsupported extension directives are skipped or fatal.
#[derive(Copy, Clone, Debug, PartialEq, Eq, Structural)]
pub enum Strictness {
    /// Skip any directive that is not recognized.
    Lenient,
    /// Fail on the first `#EXT` directive that is not recognized.
    Strict,
}

/// The playlist builder's state: the fields read so far, every record in
/// order, and the two pending slots.
pub struct PlaylistModel {
    pub target_duration_us: i64,
    pub start_seq_no: i32,
    pub finished: bool,
    pub segments: Seq<FFmpegRsHlsSegment>,
    pub variants: Seq<FFmpegRsHlsVariant>,
    pub pending_duration: Option<i64>,
    pub pending_bandwidth: Option<i32>,
}

/// The builder's state before the first line after the header.
pub open spec fn initial_model() -> PlaylistModel {
    PlaylistModel {
        target_duration_us: 0,
        start_seq_no: 0,
        finished: false,
        segments: Seq::empty(),
        variants: Seq::empty(),
        pending_duration: None,
        pending_bandwidth: None,
    }
}

/// What follows a directive's prefix on its line.
pub open spec fn value_after(line: Seq<u8>, tag: Seq<u8>) -> Seq<u8> {
    line.subrange(tag.len() as int, line.len() as int)
}

/// The part of a `#EXTINF` value before its first comma.
pub open spec fn seconds_field(v: Seq<u8>) -> Seq<u8> {
    v.subrange(0, index_of_from(v, (',' as u8), 0))
}

/// `v` saturated into the range of `i64`.
pub open spec fn sat_i64(v: int) -> i64 {
    clamp(v, i64::MIN as int, i64::MAX as int) as i64
}

/// The builder's response to one non-empty line found at offset `off`.
pub open spec fn playlist_step(st: PlaylistModel, line: Seq<u8>, off: int) -> PlaylistModel {
    match classify(line) {
        Directive::TargetDuration => match hls_int(value_after(line, tag_target_duration())) {
            Some(n) => PlaylistModel { target_duration_us: sat_i64(n * 1_000_000), ..st },
            None => st,
        },
        Directive::MediaSequence => match hls_int(value_after(line, tag_media_sequence())) {
            Some(n) => PlaylistModel { start_seq_no: clamp_i32(n), ..st },
            None => st,
        },
        Directive::EndList => PlaylistModel { finished: true, ..st },
        Directive::ExtInf => PlaylistModel {
            pending_duration: hls_seconds_us(seconds_field(value_after(line, tag_extinf()))),
            ..st
        },
        Directive::StreamInf => PlaylistModel {
            pending_bandwidth: match bandwidth_of(value_after(line, tag_stream_inf())) {
                Some(b) => Some(clamp_i32(b)),
                None => None,
            },
            ..st
        },
        Directive::OtherExt | Directive::Comment => st,
        Directive::Uri => match st.pending_duration {
            Some(d) => PlaylistModel {
                segments: st.segments.push(
                    FFmpegRsHlsSegment {
                        duration_us: d,
                        url_offset: off as usize,
                        url_len: line.len() as usize,
                    },
                ),
                pending_duration: None,
                ..st
            },
            None => match st.pending_bandwidth {
                Some(b) => PlaylistModel {
                    variants: st.variants.push(
                        FFmpegRsHlsVariant {
                            bandwidth: b,
                            url_offset: off as usize,
                            url_len: line.len() as usize,
                        },
                    ),
                    pending_bandwidth: None,
                    ..st
                },
                None => st,
            },
        },
    }
}

/// The end of the record that starts at `pos`: the next line feed, or the
/// end of the buffer.
pub open spec fn record_end(data: Seq<u8>, pos: int) -> int {
    index_of_from(data, ('\n' as u8), pos)
}

/// The record that starts at `pos`, without its trailing carriage return.
pub open spec fn record_at(data: Seq<u8>, pos: int) -> Seq<u8> {
    chomp(data.subrange(pos, record_end(data, pos)))
}

/// The builder run over the records from `pos` to the end of the buffer.
pub open spec fn playlist_from(data: Seq<u8>, pos: int, st: PlaylistModel) -> PlaylistModel
    decreases data.len() + 1 - pos,
{
    if pos < 0 || pos > data.len() {
        st
    } else {
        let e = record_end(data, pos);
        let line = record_at(data, pos);
        let next = if line.len() == 0 { st } else { playlist_step(st, line, pos) };
        if e >= data.len() || e < pos {
            next
        } else {
            playlist_from(data, e + 1, next)
        }
    }
}

/// The first non-blank record from `pos` on, and its line number, given
/// that the record at `pos` has line number `n`.
pub open spec fn first_content_from(data: Seq<u8>, pos: int, n: u32) -> Option<(int, u32)>
    decreases data.len() + 1 - pos,
{
    let e = record_end(data, pos);
    if pos < 0 || pos > data.len() {
        None
    } else if record_at(data, pos).len() > 0 {
        Some((pos, n))
    } else if e >= data.len() || e < pos {
        None
    } else {
        first_content_from(data, e + 1, next_line_no(n))
    }
}

/// The record that must hold the header: the first non-blank one, with its
/// line number.
pub open spec fn header_record(data: Seq<u8>) -> Option<(int, u32)> {
    first_content_from(data, 0, 1)
}

/// The first non-blank record is exactly `#EXTM3U`.
pub open spec fn header_ok(data: Seq<u8>) -> bool {
    match header_record(data) {
        Some((p, _)) => record_at(data, p) == tag_header(),
        None => false,
    }
}

/// The line number of the header record.
pub open spec fn header_line_no(data: Seq<u8>) -> u32 {
    match header_record(data) {
        Some((_, n)) => n,
        None => 1,
    }
}

/// Where the records after the header start, if there are any.
pub open spec fn body_start(data: Seq<u8>) -> Option<int> {
    match header_record(data) {
        Some((p, _)) => if record_end(data, p) < data.len() {
            Some(record_end(data, p) + 1)
        } else {
            None
        },
        None => None,
    }
}

proof fn lemma_first_content_bounds(data: Seq<u8>, pos: int, n: u32)
    requires
        0 <= pos <= data.len(),
    ensures
        first_content_from(data, pos, n) matches Some((p, _)) ==> pos <= p <= data.len(),
    decreases data.len() + 1 - pos,
{
    let e = record_end(data, pos);
    lemma_index_of_bounds(data, ('\n' as u8), pos);
    if record_at(data, pos).len() == 0 && e < data.len() && e >= pos {
        lemma_first_content_bounds(data, e + 1, next_line_no(n));
    }
}

/// The header record and the body lie within the buffer.
pub proof fn lemma_header_bounds(data: Seq<u8>)
    ensures
        header_record(data) matches Some((p, _)) ==> 0 <= p <= data.len() && p <= record_end(
            data,
            p,
        ) <= data.len(),
        body_start(data) matches Some(q) ==> 0 < q <= data.len(),
{
    lemma_first_content_bounds(data, 0, 1);
    if let Some((p, _)) = header_record(data) {
        lemma_index_of_bounds(data, ('\n' as u8), p);
    }
}

/// The lenient builder's final state over a whole buffer.
pub open spec fn playlist_of(data: Seq<u8>) -> PlaylistModel {
    match body_start(data) {
        Some(p) => playlist_from(data, p, initial_model()),
        None => initial_model(),
    }
}

/// Some record from `pos` on is an extension directive that is not
/// recognized.
pub open spec fn unsupported_from(data: Seq<u8>, pos: int) -> bool
    decreases data.len() + 1 - pos,
{
    if pos < 0 || pos > data.len() {
        false
    } else {
        let e = record_end(data, pos);
        let line = record_at(data, pos);
        if line.len() > 0 && classify(line) == Directive::OtherExt {
            true
        } else if e >= data.len() || e < pos {
            false
        } else {
            unsupported_from(data, e + 1)
        }
    }
}

/// Some record after the header is an extension directive that is not
/// recognized.
pub open spec fn has_unsupported(data: Seq<u8>) -> bool {
    match body_start(data) {
        Some(p) => unsupported_from(data, p),
        None => false,
    }
}

/// A caller's buffer after the first records were stored in it: as many as
/// fit, the rest of the buffer unchanged.
pub open spec fn buffer_fill<T>(buf: Seq<T>, items: Seq<T>) -> Seq<T> {
    Seq::new(buf.len(), |i: int| if i < items.len() { items[i] } else { buf[i] })
}

/// The summary record of a finished model.
pub open spec fn summary_of(m: PlaylistModel) -> FFmpegRsHlsPlaylist {
    FFmpegRsHlsPlaylist {
        target_duration_us: m.target_duration_us,
        start_seq_no: m.start_seq_no,
        finished: if m.finished { 1 } else { 0 },
        n_segments: m.segments.len() as usize,
        n_variants: m.variants.len() as usize,
    }
}

/// The status a playlist parse returns.
pub open spec fn playlist_status(data: Seq<u8>, strictness: Strictness) -> i32 {
    if !header_ok(data) {
        HLS_ERR_MALFORMED_HEADER
    } else if strictness == Strictness::Strict && has_unsupported(data) {
        HLS_ERR_UNSUPPORTED_DIRECTIVE
    } else {
        HLS_OK
    }
}

/// The complete outcome of a playlist parse: the status, and the three
/// outputs as they stand after the call.
pub open spec fn playlist_outcome(
    data: Seq<u8>,
    strictness: Strictness,
    old_playlist: FFmpegRsHlsPlaylist,
    old_segments: Seq<FFmpegRsHlsSegment>,
    old_variants: Seq<FFmpegRsHlsVariant>,
    status: i32,
    playlist: FFmpegRsHlsPlaylist,
    segments: Seq<FFmpegRsHlsSegment>,
    variants: Seq<FFmpegRsHlsVariant>,
) -> bool {
    let m = playlist_of(data);
    &&& status == playlist_status(data, strictness)
    &&& status == HLS_OK ==> {
        &&& playlist == summary_of(m)
        &&& playlist.n_segments == m.segments.len()
        &&& playlist.n_variants == m.variants.len()
        &&& segments == buffer_fill(old_segments, m.segments)
        &&& variants == buffer_fill(old_variants, m.variants)
    }
    &&& status != HLS_OK ==> {
        &&& playlist == old_playlist
        &&& segments == old_segments
        &&& variants == old_variants
    }
}

/// The builder as it runs: the summary so far and the pending slots.
struct Builder {
    playlist: FFmpegRsHlsPlaylist,
    pending_seg_dur: Option<i64>,
    pending_variant_bw: Option<i32>,
}

/// The builder holds `st`, with its records stored in the two buffers.
spec fn builder_agrees(
    b: Builder,
    st: PlaylistModel,
    segs: Seq<FFmpegRsHlsSegment>,
    old_segs: Seq<FFmpegRsHlsSegment>,
    vars: Seq<FFmpegRsHlsVariant>,
    old_vars: Seq<FFmpegRsHlsVariant>,
) -> bool {
    &&& b.playlist.target_duration_us == st.target_duration_us
    &&& b.playlist.start_seq_no == st.start_seq_no
    &&& b.playlist.finished == (if st.finished { 1i32 } else { 0i32 })
    &&& b.playlist.n_segments == st.segments.len()
    &&& b.playlist.n_variants == st.variants.len()
    &&& b.pending_seg_dur == st.pending_duration
    &&& b.pending_variant_bw == st.pending_bandwidth
    &&& segs == buffer_fill(old_segs, st.segments)
    &&& vars == buffer_fill(old_vars, st.variants)
}

proof fn lemma_buffer_fill_push<T>(buf: Seq<T>, items: Seq<T>, x: T)
    ensures
        items.len() < buf.len() ==> buffer_fill(buf, items.push(x)) == buffer_fill(
            buf,
            items,
        ).update(items.len() as int, x),
        items.len() >= buf.len() ==> buffer_fill(buf, items.push(x)) == buffer_fill(buf, items),
{
    if items.len() < buf.len() {
        assert(buffer_fill(buf, items.push(x)) =~= buffer_fill(buf, items).update(
            items.len() as int,
            x,
        ));
    } else {
        assert(buffer_fill(buf, items.push(x)) =~= buffer_fill(buf, items));
    }
}

proof fn lemma_buffer_fill_empty<T>(buf: Seq<T>)
    ensures
        buffer_fill(buf, Seq::empty()) == buf,
{
    assert(buffer_fill(buf, Seq::empty()) =~= buf);
}

/// Feeds one non-empty line at offset `off` to the builder.
fn apply_line(
    b: &mut Builder,
    line: &[u8],
    off: usize,
    segs: &mut [FFmpegRsHlsSegment],
    vars: &mut [FFmpegRsHlsVariant],
    Ghost(st): Ghost<PlaylistModel>,
    Ghost(old_segs): Ghost<Seq<FFmpegRsHlsSegment>>,
    Ghost(old_vars): Ghost<Seq<FFmpegRsHlsVariant>>,
)
    requires
        builder_agrees(*old(b), st, old(segs)@, old_segs, old(vars)@, old_vars),
        line@.len() > 0,
        st.segments.len() + st.variants.len() < usize::MAX,
    ensures
        builder_agrees(
            *final(b),
            playlist_step(st, line@, off as int),
            final(segs)@,
            old_segs,
            final(vars)@,
            old_vars,
        ),
{
    match classify_line(line) {
        Directive::TargetDuration => {
            let v = &line[22..line.len()];
            assert(v@ == value_after(line@, tag_target_duration()));
            if let Some(sec) = parse_i64_ascii(v) {
                b.playlist.target_duration_us = sat_mul_i64(sec, 1_000_000);
            }
        },
        Directive::MediaSequence => {
            let v = &line[22..line.len()];
            assert(v@ == value_after(line@, tag_media_sequence()));
            if let Some(n) = parse_i64_ascii(v) {
                b.playlist.start_seq_no = to_i32_saturating(n);
            }
        },
        Directive::EndList => {
            b.playlist.finished = 1;
        },
        Directive::ExtInf => {
            let v = &line[8..line.len()];
            assert(v@ == value_after(line@, tag_extinf()));
            let comma = index_of(v, (',' as u8), 0);
            let secs = &v[0..comma];
            b.pending_seg_dur = parse_f64_seconds_to_us(secs);
        },
        Directive::StreamInf => {
            let attrs = &line[18..line.len()];
            assert(attrs@ == value_after(line@, tag_stream_inf()));
            b.pending_variant_bw = match parse_bandwidth(attrs) {
                Some(v) => Some(to_i32_saturating(v)),
                None => None,
            };
        },
        Directive::OtherExt | Directive::Comment => {},
        Directive::Uri => {
            let len = line.len();
            if let Some(dur) = b.pending_seg_dur {
                let n = b.playlist.n_segments;
                let seg = FFmpegRsHlsSegment { duration_us: dur, url_offset: off, url_len: len };
                proof {
                    lemma_buffer_fill_push(old_segs, st.segments, seg);
                }
                if n < segs.len() {
                    segs[n] = seg;
                }
                b.playlist.n_segments = n + 1;
                b.pending_seg_dur = None;
            } else if let Some(bw) = b.pending_variant_bw {
                let n = b.playlist.n_variants;
                let var = FFmpegRsHlsVariant { bandwidth: bw, url_offset: off, url_len: len };
                proof {
                    lemma_buffer_fill_push(old_vars, st.variants, var);
                }
                if n < vars.len() {
                    vars[n] = var;
                }
                b.playlist.n_variants = n + 1;
                b.pending_variant_bw = None;
            }
        },
    }
}

proof fn lemma_step_counts(st: PlaylistModel, line: Seq<u8>, off: int)
    ensures
        playlist_step(st, line, off).segments.len() + playlist_step(st, line, off).variants.len()
            <= st.segments.len() + st.variants.len() + 1,
        playlist_step(st, line, off).segments.len() >= st.segments.len(),
        playlist_step(st, line, off).variants.len() >= st.variants.len(),
{
}

/// Finds the first non-blank record and its line number; see
/// [`header_record`].
fn find_header(text: &[u8]) -> (r: Option<(usize, u32)>)
    ensures
        r is None <==> header_record(text@) is None,
        r matches Some((p, n)) ==> header_record(text@) == Some((p as int, n)) && p
            <= text@.len(),
{
    let mut pos: usize = 0;
    let mut n: u32 = 1;
    loop
        invariant
            pos <= text@.len(),
            first_content_from(text@, pos as int, n) == header_record(text@),
        decreases text@.len() - pos,
    {
        let e = index_of(text, ('\n' as u8), pos);
        let line = chomp_cr(&text[pos..e]);
        if line.len() > 0 {
            return Some((pos, n));
        }
        if e >= text.len() {
            return None;
        }
        pos = e + 1;
        n = n.saturating_add(1);
    }
}

/// The record at `pos` is exactly `#EXTM3U`.
fn is_header_at(text: &[u8], pos: usize) -> (r: bool)
    requires
        pos <= text@.len(),
    ensures
        r == (record_at(text@, pos as int) == tag_header()),
{
    let e = index_of(text, ('\n' as u8), pos);
    let first = chomp_cr(&text[pos..e]);
    let h = tag_header_bytes();
    let hs = h.as_slice();
    let r = first.len() == 7 && starts_with(first, hs);
    proof {
        assert(hs@ == tag_header());
        assert(tag_header().len() == 7);
        assert(first@ =~= first@.subrange(0, first@.len() as int));
    }
    r
}

/// The header record's start and line number when the header is right.
fn check_header(text: &[u8]) -> (r: Option<(usize, u32)>)
    ensures
        r is Some <==> header_ok(text@),
        r matches Some((p, n)) ==> header_record(text@) == Some((p as int, n)) && p
            <= text@.len(),
{
    match find_header(text) {
        Some((p, n)) => if is_header_at(text, p) {
            Some((p, n))
        } else {
            None
        },
        None => None,
    }
}

/// Scans the records from `pos` on for an unrecognized `#EXT` directive.
fn scan_unsupported(text: &[u8], start: usize) -> (r: bool)
    requires
        start <= text@.len(),
    ensures
        r == unsupported_from(text@, start as int),
{
    let mut pos = start;
    loop
        invariant
            pos <= text@.len(),
            unsupported_from(text@, pos as int) == unsupported_from(text@, start as int),
        decreases text@.len() - pos,
    {
        let e = index_of(text, ('\n' as u8), pos);
        let line = chomp_cr(&text[pos..e]);
        if line.len() > 0 {
            if let Directive::OtherExt = classify_line(line) {
                return true;
            }
        }
        if e >= text.len() {
            return false;
        }
        pos = e + 1;
    }
}

/// Parses a playlist into `out_playlist`, storing the first segments and
/// variants in the caller's buffers and counting all of them.
///
/// On a malformed header, or in strict mode on an unsupported `#EXT`
/// directive, nothing is written and the status says why.
pub fn parse_playlist(
    text: &[u8],
    strictness: Strictness,
    out_playlist: &mut FFmpegRsHlsPlaylist,
    out_segments: &mut [FFmpegRsHlsSegment],
    out_variants: &mut [FFmpegRsHlsVariant],
) -> (status: i32)
    ensures
        playlist_outcome(
            text@,
            strictness,
            *old(out_playlist),
            old(out_segments)@,
            old(out_variants)@,
            status,
            *final(out_playlist),
            final(out_segments)@,
            final(out_variants)@,
        ),
{
    let (hp, _) = match check_header(text) {
        Some(h) => h,
        None => return HLS_ERR_MALFORMED_HEADER,
    };
    let e0 = index_of(text, ('\n' as u8), hp);
    if let Strictness::Strict = strictness {
        if e0 < text.len() && scan_unsupported(text, e0 + 1) {
            return HLS_ERR_UNSUPPORTED_DIRECTIVE;
        }
    }
    let mut b = Builder {
        playlist: FFmpegRsHlsPlaylist {
            target_duration_us: 0,
            start_seq_no: 0,
            finished: 0,
            n_segments: 0,
            n_variants: 0,
        },
        pending_seg_dur: None,
        pending_variant_bw: None,
    };
    let ghost old_segs = out_segments@;
    let ghost old_vars = out_variants@;
    let ghost mut st = initial_model();
    proof {
        lemma_buffer_fill_empty(old_segs);
        lemma_buffer_fill_empty(old_vars);
    }
    if e0 < text.len() {
        let mut pos = e0 + 1;
        loop
            invariant_except_break
                e0 < pos <= text@.len(),
                builder_agrees(b, st, out_segments@, old_segs, out_variants@, old_vars),
                playlist_from(text@, pos as int, st) == playlist_of(text@),
                st.segments.len() + st.variants.len() <= pos,
            ensures
                builder_agrees(
                    b,
                    playlist_of(text@),
                    out_segments@,
                    old_segs,
                    out_variants@,
                    old_vars,
                ),
            decreases text@.len() - pos,
        {
            let e = index_of(text, ('\n' as u8), pos);
            let line = chomp_cr(&text[pos..e]);
            if line.len() > 0 {
                apply_line(
                    &mut b,
                    line,
                    pos,
                    out_segments,
                    out_variants,
                    Ghost(st),
                    Ghost(old_segs),
                    Ghost(old_vars),
                );
                proof {
                    lemma_step_counts(st, line@, pos as int);
                    st = playlist_step(st, line@, pos as int);
                }
            }
            if e >= text.len() {
                break;
            }
            pos = e + 1;
        }
    }
    *out_playlist = b.playlist;
    HLS_OK
}

/// Parses a playlist, skipping directives it does not recognize.
pub fn ffmpeg_rs_hls_parse(
    text: &[u8],
    out_playlist: &mut FFmpegRsHlsPlaylist,
    out_segments: &mut [FFmpegRsHlsSegment],
    out_variants: &mut [FFmpegRsHlsVariant],
) -> (status: i32)
    ensures
        playlist_outcome(
            text@,
            Strictness::Lenient,
            *old(out_playlist),
            old(out_segments)@,
            old(out_variants)@,
            status,
            *final(out_playlist),
            final(out_segments)@,
            final(out_variants)@,
        ),
{
    parse_playlist(text, Strictness::Lenient, out_playlist, out_segments, out_variants)
}

/// Parses a playlist, failing on the first `#EXT` directive it does not
/// recognize.
pub fn ffmpeg_rs_hls_parse_strict(
    text: &[u8],
    out_playlist: &mut FFmpegRsHlsPlaylist,
    out_segments: &mut [FFmpegRsHlsSegment],
    out_variants: &mut [FFmpegRsHlsVariant],
) -> (status: i32)
    ensures
        playlist_outcome(
            text@,
            Strictness::Strict,
            *old(out_playlist),
            old(out_segments)@,
            old(out_variants)@,
            status,
            *final(out_playlist),
            final(out_segments)@,
            final(out_variants)@,
        ),
{
    parse_playlist(text, Strictness::Strict, out_playlist, out_segments, out_variants)
}

// ----- the event emitter -----

/// The kind of an emitted event.
#[derive(Copy, Clone, Debug, PartialEq, Eq, Structural)]
pub enum FFmpegRsHlsDemuxEventKind {
    Uri,
    ExtInf,
    StreamInf,
    TargetDuration,
    MediaSequence,
    EndList,
    Unknown,
}

/// The numeric code that an event's `kind` field carries.
pub open spec fn kind_code(k: FFmpegRsHlsDemuxEventKind) -> u32 {
    match k {
        FFmpegRsHlsDemuxEventKind::Uri => 0,
        FFmpegRsHlsDemuxEventKind::ExtInf => 1,
        FFmpegRsHlsDemuxEventKind::StreamInf => 2,
        FFmpegRsHlsDemuxEventKind::TargetDuration => 3,
        FFmpegRsHlsDemuxEventKind::MediaSequence => 4,
        FFmpegRsHlsDemuxEventKind::EndList => 5,
        FFmpegRsHlsDemuxEventKind::Unknown => 255,
    }
}

impl FFmpegRsHlsDemuxEventKind {
    /// The numeric code of this kind.
    pub fn code(&self) -> (r: u32)
        ensures
            r == kind_code(*self),
    {
        match self {
            FFmpegRsHlsDemuxEventKind::Uri => 0,
            FFmpegRsHlsDemuxEventKind::ExtInf => 1,
            FFmpegRsHlsDemuxEventKind::StreamInf => 2,
            FFmpegRsHlsDemuxEventKind::TargetDuration => 3,
            FFmpegRsHlsDemuxEventKind::MediaSequence => 4,
            FFmpegRsHlsDemuxEventKind::EndList => 5,
            FFmpegRsHlsDemuxEventKind::Unknown => 255,
        }
    }
}

/// One event: its kind code, its 1-based line number, up to two spans
/// (`a`, `b`) and up to two integer payloads.
#[derive(Copy, Clone, Debug)]
pub struct FFmpegRsHlsDemuxEvent {
    pub kind: u32,
    pub line_no: u32,
    pub a_offset: usize,
    pub a_len: usize,
    pub b_offset: usize,
    pub b_len: usize,
    pub i64_a: i64,
    pub i64_b: i64,
}

/// The counts of an event parse. `truncated` is 1 when events were dropped
/// for want of room in a non-empty buffer, else 0.
#[derive(Copy, Clone, Debug)]
pub struct FFmpegRsHlsDemuxParseEventsResult {
    pub n_events_total: usize,
    pub n_events_written: usize,
    pub truncated: i32,
}

pub open spec fn make_event(
    kind: FFmpegRsHlsDemuxEventKind,
    line_no: u32,
    a_offset: int,
    a_len: int,
    b_offset: int,
    b_len: int,
    i64_a: i64,
) -> FFmpegRsHlsDemuxEvent {
    FFmpegRsHlsDemuxEvent {
        kind: kind_code(kind),
        line_no,
        a_offset: a_offset as usize,
        a_len: a_len as usize,
        b_offset: b_offset as usize,
        b_len: b_len as usize,
        i64_a,
        i64_b: 0,
    }
}

/// `o` or 0.
pub open spec fn or_zero(o: Option<i64>) -> i64 {
    match o {
        Some(v) => v,
        None => 0,
    }
}

/// The event for one non-empty line found at offset `off`.
pub open spec fn event_of(line: Seq<u8>, off: int, line_no: u32) -> FFmpegRsHlsDemuxEvent {
    match classify(line) {
        Directive::ExtInf => {
            let v = value_after(line, tag_extinf());
            let c = index_of_from(v, (',' as u8), 0);
            let dur = or_zero(hls_seconds_us(v.subrange(0, c)));
            if c < v.len() {
                let title = chomp(v.subrange(c + 1, v.len() as int));
                make_event(
                    FFmpegRsHlsDemuxEventKind::ExtInf,
                    line_no,
                    off + 8,
                    c,
                    off + 8 + c + 1,
                    title.len() as int,
                    dur,
                )
            } else {
                make_event(FFmpegRsHlsDemuxEventKind::ExtInf, line_no, off + 8, c, 0, 0, dur)
            }
        },
        Directive::StreamInf => {
            let attrs = chomp(value_after(line, tag_stream_inf()));
            make_event(
                FFmpegRsHlsDemuxEventKind::StreamInf,
                line_no,
                off + 18,
                attrs.len() as int,
                0,
                0,
                or_zero(bandwidth_of(attrs)),
            )
        },
        Directive::TargetDuration => {
            let v = value_after(line, tag_target_duration());
            make_event(
                FFmpegRsHlsDemuxEventKind::TargetDuration,
                line_no,
                off + 22,
                v.len() as int,
                0,
                0,
                sat_i64(or_zero(hls_int(v)) * 1_000_000),
            )
        },
        Directive::MediaSequence => {
            let v = value_after(line, tag_media_sequence());
            make_event(
                FFmpegRsHlsDemuxEventKind::MediaSequence,
                line_no,
                off + 22,
                v.len() as int,
                0,
                0,
                or_zero(hls_int(v)),
            )
        },
        Directive::EndList => make_event(FFmpegRsHlsDemuxEventKind::EndList, line_no, 0, 0, 0, 0, 0),
        Directive::OtherExt | Directive::Comment => make_event(
            FFmpegRsHlsDemuxEventKind::Unknown,
            line_no,
            off,
            line.len() as int,
            0,
            0,
            0,
        ),
        Directive::Uri => make_event(
            FFmpegRsHlsDemuxEventKind::Uri,
            line_no,
            off,
            line.len() as int,
            0,
            0,
            0,
        ),
    }
}

/// `n + 1`, saturated at `u32::MAX`.
pub open spec fn next_line_no(n: u32) -> u32 {
    if n == u32::MAX { n } else { (n + 1) as u32 }
}

/// The events of the records from `pos` on, appended to `evs`; the record
/// before `pos` had line number `line_no`.
pub open spec fn events_from(
    data: Seq<u8>,
    pos: int,
    line_no: u32,
    evs: Seq<FFmpegRsHlsDemuxEvent>,
) -> Seq<FFmpegRsHlsDemuxEvent>
    decreases data.len() + 1 - pos,
{
    if pos < 0 || pos > data.len() {
        evs
    } else {
        let n = next_line_no(line_no);
        let e = record_end(data, pos);
        let line = record_at(data, pos);
        let next = if line.len() == 0 { evs } else { evs.push(event_of(line, pos, n)) };
        if e >= data.len() || e < pos {
            next
        } else {
            events_from(data, e + 1, n, next)
        }
    }
}

/// Every event of a buffer, whatever room the caller has.
pub open spec fn events_of(data: Seq<u8>) -> Seq<FFmpegRsHlsDemuxEvent> {
    match body_start(data) {
        Some(p) => events_from(data, p, header_line_no(data), Seq::empty()),
        None => Seq::empty(),
    }
}

/// The counts reported for `total` events and a buffer of `cap` slots.
pub open spec fn counts_of(total: nat, cap: nat) -> FFmpegRsHlsDemuxParseEventsResult {
    FFmpegRsHlsDemuxParseEventsResult {
        n_events_total: total as usize,
        n_events_written: (if total < cap { total } else { cap }) as usize,
        truncated: if cap > 0 && total > cap { 1 } else { 0 },
    }
}

/// The complete outcome of an event parse: the status, the counts and the
/// caller's event buffer as they stand after the call.
pub open spec fn events_outcome(
    data: Seq<u8>,
    old_events: Seq<FFmpegRsHlsDemuxEvent>,
    status: i32,
    out: FFmpegRsHlsDemuxParseEventsResult,
    events: Seq<FFmpegRsHlsDemuxEvent>,
) -> bool {
    let all = events_of(data);
    &&& status == (if header_ok(data) { HLS_OK } else { HLS_ERR_MALFORMED_HEADER })
    &&& status == HLS_OK ==> {
        &&& out == counts_of(all.len(), old_events.len())
        &&& out.n_events_total == all.len()
        &&& events == buffer_fill(old_events, all)
    }
    &&& status != HLS_OK ==> {
        &&& out == counts_of(0, 0)
        &&& events == old_events
    }
}

/// The event for one non-empty line; see [`event_of`].
fn line_event(line: &[u8], off: usize, line_no: u32) -> (ev: FFmpegRsHlsDemuxEvent)
    requires
        line@.len() > 0,
        off + line@.len() <= usize::MAX,
    ensures
        ev == event_of(line@, off as int, line_no),
{
    match classify_line(line) {
        Directive::ExtInf => {
            let v = &line[8..line.len()];
            assert(v@ == value_after(line@, tag_extinf()));
            let c = index_of(v, (',' as u8), 0);
            let dur = match parse_f64_seconds_to_us(&v[0..c]) {
                Some(us) => us,
                None => 0,
            };
            if c < v.len() {
                let title = chomp_cr(&v[c + 1..v.len()]);
                FFmpegRsHlsDemuxEvent {
                    kind: FFmpegRsHlsDemuxEventKind::ExtInf.code(),
                    line_no,
                    a_offset: off + 8,
                    a_len: c,
                    b_offset: off + 8 + c + 1,
                    b_len: title.len(),
                    i64_a: dur,
                    i64_b: 0,
                }
            } else {
                FFmpegRsHlsDemuxEvent {
                    kind: FFmpegRsHlsDemuxEventKind::ExtInf.code(),
                    line_no,
                    a_offset: off + 8,
                    a_len: c,
                    b_offset: 0,
                    b_len: 0,
                    i64_a: dur,
                    i64_b: 0,
                }
            }
        },
        Directive::StreamInf => {
            let v = &line[18..line.len()];
            assert(v@ == value_after(line@, tag_stream_inf()));
            let attrs = chomp_cr(v);
            let bw = match parse_bandwidth(attrs) {
                Some(b) => b,
                None => 0,
            };
            FFmpegRsHlsDemuxEvent {
                kind: FFmpegRsHlsDemuxEventKind::StreamInf.code(),
                line_no,
                a_offset: off + 18,
                a_len: attrs.len(),
                b_offset: 0,
                b_len: 0,
                i64_a: bw,
                i64_b: 0,
            }
        },
        Directive::TargetDuration => {
            let v = &line[22..line.len()];
            assert(v@ == value_after(line@, tag_target_duration()));
            let sec = match parse_i64_ascii(v) {
                Some(n) => n,
                None => 0,
            };
            FFmpegRsHlsDemuxEvent {
                kind: FFmpegRsHlsDemuxEventKind::TargetDuration.code(),
                line_no,
                a_offset: off + 22,
                a_len: v.len(),
                b_offset: 0,
                b_len: 0,
                i64_a: sat_mul_i64(sec, 1_000_000),
                i64_b: 0,
            }
        },
        Directive::MediaSequence => {
            let v = &line[22..line.len()];
            assert(v@ == value_after(line@, tag_media_sequence()));
            let seq = match parse_i64_ascii(v) {
                Some(n) => n,
                None => 0,
            };
            FFmpegRsHlsDemuxEvent {
                kind: FFmpegRsHlsDemuxEventKind::MediaSequence.code(),
                line_no,
                a_offset: off + 22,
                a_len: v.len(),
                b_offset: 0,
                b_len: 0,
                i64_a: seq,
                i64_b: 0,
            }
        },
        Directive::EndList => FFmpegRsHlsDemuxEvent {
            kind: FFmpegRsHlsDemuxEventKind::EndList.code(),
            line_no,
            a_offset: 0,
            a_len: 0,
            b_offset: 0,
            b_len: 0,
            i64_a: 0,
            i64_b: 0,
        },
        Directive::OtherExt | Directive::Comment => FFmpegRsHlsDemuxEvent {
            kind: FFmpegRsHlsDemuxEventKind::Unknown.code(),
            line_no,
            a_offset: off,
            a_len: line.len(),
            b_offset: 0,
            b_len: 0,
            i64_a: 0,
            i64_b: 0,
        },
        Directive::Uri => FFmpegRsHlsDemuxEvent {
            kind: FFmpegRsHlsDemuxEventKind::Uri.code(),
            line_no,
            a_offset: off,
            a_len: line.len(),
            b_offset: 0,
            b_len: 0,
            i64_a: 0,
            i64_b: 0,
        },
    }
}

/// Counts one more event (saturating) and stores it at `n_events_written`
/// if the caller's buffer has room; a full non-empty buffer sets
/// `truncated` instead. An empty buffer only counts.
fn push_event(
    out: &mut FFmpegRsHlsDemuxParseEventsResult,
    events: &mut [FFmpegRsHlsDemuxEvent],
    ev: FFmpegRsHlsDemuxEvent,
)
    ensures
        final(out).n_events_total == (if old(out).n_events_total == usize::MAX {
            usize::MAX as int
        } else {
            old(out).n_events_total + 1
        }),
        old(events)@.len() == 0 ==> {
            &&& final(out).n_events_written == old(out).n_events_written
            &&& final(out).truncated == old(out).truncated
            &&& final(events)@ == old(events)@
        },
        old(events)@.len() > 0 && old(out).n_events_written < old(events)@.len() ==> {
            &&& final(out).n_events_written == old(out).n_events_written + 1
            &&& final(out).truncated == old(out).truncated
            &&& final(events)@ == old(events)@.update(old(out).n_events_written as int, ev)
        },
        old(events)@.len() > 0 && old(out).n_events_written >= old(events)@.len() ==> {
            &&& final(out).n_events_written == old(out).n_events_written
            &&& final(out).truncated == 1
            &&& final(events)@ == old(events)@
        },
{
    out.n_events_total = out.n_events_total.saturating_add(1);
    if events.len() == 0 {
        return;
    }
    if out.n_events_written >= events.len() {
        out.truncated = 1;
        return;
    }
    events[out.n_events_written] = ev;
    out.n_events_written = out.n_events_written + 1;
}

/// Emits one event per non-empty line after the header, storing as many as
/// `events` holds and counting all of them. An empty `events` only counts.
pub fn ffmpeg_rs_hls_demux_parse_events(
    text: &[u8],
    out: &mut FFmpegRsHlsDemuxParseEventsResult,
    events: &mut [FFmpegRsHlsDemuxEvent],
) -> (status: i32)
    ensures
        events_outcome(text@, old(events)@, status, *final(out), final(events)@),
{
    *out = FFmpegRsHlsDemuxParseEventsResult {
        n_events_total: 0,
        n_events_written: 0,
        truncated: 0,
    };
    let (hp, hn) = match check_header(text) {
        Some(h) => h,
        None => return HLS_ERR_MALFORMED_HEADER,
    };
    let ghost old_events = events@;
    let ghost mut evs: Seq<FFmpegRsHlsDemuxEvent> = Seq::empty();
    proof {
        lemma_buffer_fill_empty(old_events);
    }
    let e0 = index_of(text, ('\n' as u8), hp);
    if e0 < text.len() {
        let mut pos = e0 + 1;
        let mut line_no: u32 = hn;
        loop
            invariant_except_break
                e0 < pos <= text@.len(),
                events_from(text@, pos as int, line_no, evs) == events_of(text@),
                *out == counts_of(evs.len(), old_events.len()),
                events@ == buffer_fill(old_events, evs),
                evs.len() <= pos,
            ensures
                *out == counts_of(events_of(text@).len(), old_events.len()),
                events@ == buffer_fill(old_events, events_of(text@)),
                events_of(text@).len() <= text@.len(),
            decreases text@.len() - pos,
        {
            line_no = line_no.saturating_add(1);
            let e = index_of(text, ('\n' as u8), pos);
            let line = chomp_cr(&text[pos..e]);
            if line.len() > 0 {
                let ev = line_event(line, pos, line_no);
                proof {
                    lemma_buffer_fill_push(old_events, evs, ev);
                }
                push_event(out, events, ev);
                proof {
                    evs = evs.push(ev);
                }
            }
            if e >= text.len() {
                break;
            }
            pos = e + 1;
        }
    }
    HLS_OK
}

} // verus!
