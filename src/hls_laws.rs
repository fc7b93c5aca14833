//! Properties of the playlist builder and the event emitter, stated over the
//! models in [`crate::hls`] and proved for every input.
use vstd::prelude::*;
use crate::hls::{
    bandwidth_of, classify, events_from, events_of, events_outcome, event_of, hls_seconds_us,
    playlist_from, playlist_of, playlist_outcome, playlist_step, record_at, record_end,
    seconds_field, tag_extinf, tag_media_sequence, tag_stream_inf, tag_target_duration,
    value_after, body_start, clamp_i32, header_line_no, header_record, first_content_from,
    next_line_no, lemma_header_bounds,
    initial_model, Directive, FFmpegRsHlsDemuxEvent, FFmpegRsHlsDemuxParseEventsResult,
    FFmpegRsHlsPlaylist, FFmpegRsHlsSegment, FFmpegRsHlsVariant, PlaylistModel, Strictness,
    HLS_OK,
};
use crate::scan::{chomp, index_of_from, lemma_index_of_bounds, lemma_index_of_skips};

verus! {

/// Event parsing is deterministic: two parses of one buffer into buffers of
/// the same capacity return the same status and counts, and store the same
/// events.
pub proof fn lemma_events_deterministic(
    data: Seq<u8>,
    old1: Seq<FFmpegRsHlsDemuxEvent>,
    old2: Seq<FFmpegRsHlsDemuxEvent>,
    s1: i32,
    out1: FFmpegRsHlsDemuxParseEventsResult,
    ev1: Seq<FFmpegRsHlsDemuxEvent>,
    s2: i32,
    out2: FFmpegRsHlsDemuxParseEventsResult,
    ev2: Seq<FFmpegRsHlsDemuxEvent>,
)
    requires
        old1.len() == old2.len(),
        events_outcome(data, old1, s1, out1, ev1),
        events_outcome(data, old2, s2, out2, ev2),
    ensures
        s1 == s2,
        out1 == out2,
        ev1.len() == ev2.len(),
        forall|i: int| 0 <= i < out1.n_events_written ==> ev1[i] == ev2[i],
{
}

/// Playlist parsing is deterministic: two parses of one buffer in one mode
/// into buffers of the same capacities return the same status and summary,
/// and store the same records.
pub proof fn lemma_playlist_deterministic(
    data: Seq<u8>,
    strictness: Strictness,
    old_pl1: FFmpegRsHlsPlaylist,
    old_seg1: Seq<FFmpegRsHlsSegment>,
    old_var1: Seq<FFmpegRsHlsVariant>,
    old_pl2: FFmpegRsHlsPlaylist,
    old_seg2: Seq<FFmpegRsHlsSegment>,
    old_var2: Seq<FFmpegRsHlsVariant>,
    s1: i32,
    pl1: FFmpegRsHlsPlaylist,
    seg1: Seq<FFmpegRsHlsSegment>,
    var1: Seq<FFmpegRsHlsVariant>,
    s2: i32,
    pl2: FFmpegRsHlsPlaylist,
    seg2: Seq<FFmpegRsHlsSegment>,
    var2: Seq<FFmpegRsHlsVariant>,
)
    requires
        old_seg1.len() == old_seg2.len(),
        old_var1.len() == old_var2.len(),
        playlist_outcome(data, strictness, old_pl1, old_seg1, old_var1, s1, pl1, seg1, var1),
        playlist_outcome(data, strictness, old_pl2, old_seg2, old_var2, s2, pl2, seg2, var2),
    ensures
        s1 == s2,
        s1 == HLS_OK ==> pl1 == pl2,
        s1 == HLS_OK ==> forall|i: int|
            0 <= i < seg1.len() && i < pl1.n_segments ==> seg1[i] == seg2[i],
        s1 == HLS_OK ==> forall|i: int|
            0 <= i < var1.len() && i < pl1.n_variants ==> var1[i] == var2[i],
{
}

/// The counts of an event parse are consistent: no more events are
/// written than exist or than fit, and with a non-empty buffer `truncated`
/// says exactly whether some event was left out.
pub proof fn lemma_event_counts(
    data: Seq<u8>,
    old_events: Seq<FFmpegRsHlsDemuxEvent>,
    status: i32,
    out: FFmpegRsHlsDemuxParseEventsResult,
    events: Seq<FFmpegRsHlsDemuxEvent>,
)
    requires
        data.len() <= usize::MAX,
        events_outcome(data, old_events, status, out, events),
    ensures
        out.n_events_written <= out.n_events_total,
        out.n_events_written <= old_events.len(),
        old_events.len() > 0 ==> ((out.truncated == 1) <==> (out.n_events_total
            > out.n_events_written)),
        out.truncated == 0 || out.truncated == 1,
{
    lemma_events_len(data);
    if status == HLS_OK {
        assert(events_of(data).len() <= usize::MAX);
    }
}

/// Every record ends within the buffer.
proof fn lemma_record_bounds(data: Seq<u8>, pos: int)
    requires
        0 <= pos <= data.len(),
    ensures
        pos <= record_end(data, pos) <= data.len(),
        record_at(data, pos).len() <= record_end(data, pos) - pos,
{
    lemma_index_of_bounds(data, ('\n' as u8), pos);
}

proof fn lemma_events_from_len(
    data: Seq<u8>,
    pos: int,
    n: u32,
    evs: Seq<FFmpegRsHlsDemuxEvent>,
)
    requires
        0 <= pos <= data.len(),
        evs.len() <= pos,
    ensures
        events_from(data, pos, n, evs).len() <= data.len(),
    decreases data.len() + 1 - pos,
{
    lemma_record_bounds(data, pos);
    let e = record_end(data, pos);
    let line = record_at(data, pos);
    let n2 = if n == u32::MAX { n } else { (n + 1) as u32 };
    let next = if line.len() == 0 { evs } else { evs.push(event_of(line, pos, n2)) };
    if e < data.len() {
        lemma_events_from_len(data, e + 1, n2, next);
    }
}

/// A buffer never has more events than bytes.
proof fn lemma_events_len(data: Seq<u8>)
    ensures
        events_of(data).len() <= data.len(),
{
    if let Some(p) = body_start(data) {
        lemma_header_bounds(data);
        lemma_events_from_len(data, p, header_line_no(data), Seq::empty());
    }
}

/// Both spans of an event lie within `limit` when its line does.
proof fn lemma_event_of_spans(line: Seq<u8>, off: int, n: u32, limit: int)
    requires
        line.len() > 0,
        0 <= off,
        off + line.len() <= limit <= usize::MAX,
    ensures
        event_of(line, off, n).a_offset + event_of(line, off, n).a_len <= limit,
        event_of(line, off, n).b_offset + event_of(line, off, n).b_len <= limit,
{
    match classify(line) {
        Directive::ExtInf => {
            let v = value_after(line, tag_extinf());
            lemma_index_of_bounds(v, (',' as u8), 0);
        },
        _ => {},
    }
}

/// Spans that lie within the buffer.
pub open spec fn spans_in_bounds(evs: Seq<FFmpegRsHlsDemuxEvent>, len: int) -> bool {
    forall|i: int|
        0 <= i < evs.len() ==> {
            &&& #[trigger] evs[i].a_offset + evs[i].a_len <= len
            &&& evs[i].b_offset + evs[i].b_len <= len
        }
}

proof fn lemma_events_from_spans(
    data: Seq<u8>,
    pos: int,
    n: u32,
    evs: Seq<FFmpegRsHlsDemuxEvent>,
)
    requires
        0 <= pos <= data.len() <= usize::MAX,
        spans_in_bounds(evs, data.len() as int),
    ensures
        spans_in_bounds(events_from(data, pos, n, evs), data.len() as int),
    decreases data.len() + 1 - pos,
{
    lemma_record_bounds(data, pos);
    let e = record_end(data, pos);
    let line = record_at(data, pos);
    let n2 = if n == u32::MAX { n } else { (n + 1) as u32 };
    if line.len() > 0 {
        lemma_event_of_spans(line, pos, n2, data.len() as int);
    }
    let next = if line.len() == 0 { evs } else { evs.push(event_of(line, pos, n2)) };
    assert(spans_in_bounds(next, data.len() as int));
    if e < data.len() {
        lemma_events_from_spans(data, e + 1, n2, next);
    }
}

/// Every span of every event lies within the buffer: its offset plus its
/// length is at most the buffer's length.
pub proof fn lemma_event_spans_in_bounds(data: Seq<u8>)
    requires
        data.len() <= usize::MAX,
    ensures
        spans_in_bounds(events_of(data), data.len() as int),
{
    if let Some(p) = body_start(data) {
        lemma_header_bounds(data);
        lemma_events_from_spans(data, p, header_line_no(data), Seq::empty());
    }
}

/// The URI spans of a model's records lie within `len`.
pub open spec fn records_in_bounds(st: PlaylistModel, len: int) -> bool {
    &&& forall|i: int|
        0 <= i < st.segments.len() ==> #[trigger] st.segments[i].url_offset
            + st.segments[i].url_len <= len
    &&& forall|i: int|
        0 <= i < st.variants.len() ==> #[trigger] st.variants[i].url_offset
            + st.variants[i].url_len <= len
}

proof fn lemma_playlist_from_spans(data: Seq<u8>, pos: int, st: PlaylistModel)
    requires
        0 <= pos <= data.len() <= usize::MAX,
        records_in_bounds(st, data.len() as int),
    ensures
        records_in_bounds(playlist_from(data, pos, st), data.len() as int),
    decreases data.len() + 1 - pos,
{
    lemma_record_bounds(data, pos);
    let e = record_end(data, pos);
    let line = record_at(data, pos);
    let next = if line.len() == 0 { st } else { playlist_step(st, line, pos) };
    assert(records_in_bounds(next, data.len() as int));
    if e < data.len() {
        lemma_playlist_from_spans(data, e + 1, next);
    }
}

/// Every segment and variant URI span lies within the buffer.
pub proof fn lemma_record_spans_in_bounds(data: Seq<u8>)
    requires
        data.len() <= usize::MAX,
    ensures
        records_in_bounds(playlist_of(data), data.len() as int),
{
    if let Some(p) = body_start(data) {
        lemma_header_bounds(data);
        lemma_playlist_from_spans(data, p, initial_model());
    }
}

/// A `#EXTINF` line whose duration reads, followed directly by a URI line,
/// adds exactly one segment, with that duration and that URI's span, and
/// leaves the variants alone.
pub proof fn lemma_extinf_then_uri(
    st: PlaylistModel,
    tag: Seq<u8>,
    tag_off: int,
    uri: Seq<u8>,
    uri_off: int,
)
    requires
        classify(tag) == Directive::ExtInf,
        hls_seconds_us(seconds_field(value_after(tag, tag_extinf()))) is Some,
        classify(uri) == Directive::Uri,
    ensures
        ({
            let after = playlist_step(playlist_step(st, tag, tag_off), uri, uri_off);
            &&& after.segments == st.segments.push(
                FFmpegRsHlsSegment {
                    duration_us: hls_seconds_us(
                        seconds_field(value_after(tag, tag_extinf())),
                    ).unwrap(),
                    url_offset: uri_off as usize,
                    url_len: uri.len() as usize,
                },
            )
            &&& after.variants == st.variants
            &&& after.pending_duration is None
        }),
{
}

/// A `#EXT-X-STREAM-INF` line with a readable bandwidth, followed directly
/// by a URI line, adds exactly one variant when no segment duration is
/// pending, and leaves the segments alone.
pub proof fn lemma_stream_inf_then_uri(
    st: PlaylistModel,
    tag: Seq<u8>,
    tag_off: int,
    uri: Seq<u8>,
    uri_off: int,
)
    requires
        st.pending_duration is None,
        classify(tag) == Directive::StreamInf,
        bandwidth_of(value_after(tag, tag_stream_inf())) is Some,
        classify(uri) == Directive::Uri,
    ensures
        ({
            let after = playlist_step(playlist_step(st, tag, tag_off), uri, uri_off);
            &&& after.variants == st.variants.push(
                FFmpegRsHlsVariant {
                    bandwidth: clamp_i32(bandwidth_of(value_after(tag, tag_stream_inf())).unwrap()),
                    url_offset: uri_off as usize,
                    url_len: uri.len() as usize,
                },
            )
            &&& after.segments == st.segments
            &&& after.pending_bandwidth is None
        }),
{
}

/// A `#EXTINF` line followed by another `#EXTINF` line, with no URI line
/// between them, yields no segment of its own: the URI line that follows
/// adds at most one segment, and it carries the second duration.
pub proof fn lemma_extinf_replaced(
    st: PlaylistModel,
    first: Seq<u8>,
    first_off: int,
    second: Seq<u8>,
    second_off: int,
    uri: Seq<u8>,
    uri_off: int,
)
    requires
        classify(first) == Directive::ExtInf,
        classify(second) == Directive::ExtInf,
        classify(uri) == Directive::Uri,
    ensures
        ({
            let after = playlist_step(
                playlist_step(playlist_step(st, first, first_off), second, second_off),
                uri,
                uri_off,
            );
            let d2 = hls_seconds_us(seconds_field(value_after(second, tag_extinf())));
            &&& d2 matches Some(d) ==> after.segments == st.segments.push(
                FFmpegRsHlsSegment {
                    duration_us: d,
                    url_offset: uri_off as usize,
                    url_len: uri.len() as usize,
                },
            )
            &&& d2 is None ==> after.segments == st.segments
        }),
{
}

/// The `len` bytes at `off` are a URI line: not empty, not starting with
/// `#`, and without a line feed.
pub open spec fn is_uri_text(data: Seq<u8>, off: int, len: int) -> bool {
    &&& len > 0
    &&& 0 <= off
    &&& off + len <= data.len()
    &&& data[off] != ('#' as u8)
    &&& forall|k: int| off <= k < off + len ==> data[k] != ('\n' as u8)
}

/// Every record of a model points at a URI line of `data`.
pub open spec fn records_are_uris(st: PlaylistModel, data: Seq<u8>) -> bool {
    &&& forall|i: int|
        0 <= i < st.segments.len() ==> is_uri_text(
            data,
            #[trigger] st.segments[i].url_offset as int,
            st.segments[i].url_len as int,
        )
    &&& forall|i: int|
        0 <= i < st.variants.len() ==> is_uri_text(
            data,
            #[trigger] st.variants[i].url_offset as int,
            st.variants[i].url_len as int,
        )
}

proof fn lemma_playlist_from_uris(data: Seq<u8>, pos: int, st: PlaylistModel)
    requires
        0 <= pos <= data.len() <= usize::MAX,
        records_are_uris(st, data),
    ensures
        records_are_uris(playlist_from(data, pos, st), data),
    decreases data.len() + 1 - pos,
{
    lemma_record_bounds(data, pos);
    lemma_index_of_skips(data, ('\n' as u8), pos);
    let e = record_end(data, pos);
    let line = record_at(data, pos);
    let raw = data.subrange(pos, e);
    assert(forall|k: int| 0 <= k < line.len() ==> line[k] == raw[k]);
    assert(forall|k: int| 0 <= k < line.len() ==> line[k] == data[pos + k]);
    let next = if line.len() == 0 { st } else { playlist_step(st, line, pos) };
    if line.len() > 0 && classify(line) == Directive::Uri {
        assert(is_uri_text(data, pos, line.len() as int)) by {
            assert(data[pos] == line[0]);
            assert forall|k: int| pos <= k < pos + line.len() implies data[k] != ('\n' as u8) by {
                assert(k < e);
            }
        }
    }
    assert(records_are_uris(next, data));
    if e < data.len() {
        lemma_playlist_from_uris(data, e + 1, next);
    }
}

/// Every segment and variant span addresses a URI line of the buffer: its
/// bytes are not empty, do not start with `#`, and hold no line feed.
pub proof fn lemma_record_spans_are_uri_lines(data: Seq<u8>)
    requires
        data.len() <= usize::MAX,
    ensures
        records_are_uris(playlist_of(data), data),
{
    if let Some(p) = body_start(data) {
        lemma_header_bounds(data);
        lemma_playlist_from_uris(data, p, initial_model());
    }
}

/// The builder run over the records after the one at `pos`.
pub open spec fn playlist_after(data: Seq<u8>, pos: int, st: PlaylistModel) -> PlaylistModel {
    if record_end(data, pos) < data.len() {
        playlist_from(data, record_end(data, pos) + 1, st)
    } else {
        st
    }
}

/// A run keeps every record it started with, in place.
proof fn lemma_playlist_from_extends(data: Seq<u8>, pos: int, st: PlaylistModel)
    requires
        0 <= pos <= data.len(),
    ensures
        st.segments.len() <= playlist_from(data, pos, st).segments.len(),
        st.variants.len() <= playlist_from(data, pos, st).variants.len(),
        forall|i: int|
            0 <= i < st.segments.len() ==> playlist_from(data, pos, st).segments[i]
                == #[trigger] st.segments[i],
        forall|i: int|
            0 <= i < st.variants.len() ==> playlist_from(data, pos, st).variants[i]
                == #[trigger] st.variants[i],
    decreases data.len() + 1 - pos,
{
    lemma_record_bounds(data, pos);
    let e = record_end(data, pos);
    let line = record_at(data, pos);
    let next = if line.len() == 0 { st } else { playlist_step(st, line, pos) };
    assert forall|i: int| 0 <= i < st.segments.len() implies next.segments[i] == st.segments[i] by {
        if line.len() > 0 && next.segments.len() > st.segments.len() {
            assert(next.segments == st.segments.push(next.segments.last()));
        }
    }
    assert forall|i: int| 0 <= i < st.variants.len() implies next.variants[i] == st.variants[i] by {
        if line.len() > 0 && next.variants.len() > st.variants.len() {
            assert(next.variants == st.variants.push(next.variants.last()));
        }
    }
    if e < data.len() {
        lemma_playlist_from_extends(data, e + 1, next);
    }
}

/// The `len` bytes of `data` at `off`.
pub open spec fn bytes_at(data: Seq<u8>, off: int, len: int) -> Seq<u8> {
    data.subrange(off, off + len)
}

/// The spans of `ev` address the parts of the record `line`, found at `off`,
/// that its kind reports: the whole line for a URI or an unknown line; the
/// text after the tag for a target duration or media sequence; that text
/// without a trailing carriage return for a variant stream; the seconds
/// field and the title for a segment duration (with `b` empty when there is
/// no comma); no span for an end of list.
pub open spec fn spans_cover(data: Seq<u8>, line: Seq<u8>, off: int, ev: FFmpegRsHlsDemuxEvent) -> bool {
    let a = bytes_at(data, ev.a_offset as int, ev.a_len as int);
    let b = bytes_at(data, ev.b_offset as int, ev.b_len as int);
    match classify(line) {
        Directive::Uri | Directive::OtherExt | Directive::Comment => a == line && ev.b_len == 0,
        Directive::TargetDuration => a == value_after(line, tag_target_duration()) && ev.b_len == 0,
        Directive::MediaSequence => a == value_after(line, tag_media_sequence()) && ev.b_len == 0,
        Directive::StreamInf => a == chomp(value_after(line, tag_stream_inf())) && ev.b_len == 0,
        Directive::EndList => ev.a_offset == 0 && ev.a_len == 0 && ev.b_offset == 0 && ev.b_len
            == 0,
        Directive::ExtInf => {
            let v = value_after(line, tag_extinf());
            let c = index_of_from(v, (',' as u8), 0);
            &&& a == seconds_field(v)
            &&& c < v.len() ==> b == chomp(v.subrange(c + 1, v.len() as int))
            &&& c >= v.len() ==> ev.b_offset == 0 && ev.b_len == 0
        },
    }
}

/// The event of a non-empty line lying in `data` at `off` covers it.
proof fn lemma_event_of_covers(data: Seq<u8>, line: Seq<u8>, off: int, n: u32)
    requires
        line.len() > 0,
        0 <= off,
        off + line.len() <= data.len() <= usize::MAX,
        bytes_at(data, off, line.len() as int) == line,
    ensures
        spans_cover(data, line, off, event_of(line, off, n)),
{
    let ev = event_of(line, off, n);
    let a = bytes_at(data, ev.a_offset as int, ev.a_len as int);
    match classify(line) {
        Directive::Uri | Directive::OtherExt | Directive::Comment => {
            assert(a =~= line);
        },
        Directive::TargetDuration => {
            assert(a =~= value_after(line, tag_target_duration()));
        },
        Directive::MediaSequence => {
            assert(a =~= value_after(line, tag_media_sequence()));
        },
        Directive::StreamInf => {
            let v = value_after(line, tag_stream_inf());
            assert(a =~= chomp(v));
        },
        Directive::EndList => {},
        Directive::ExtInf => {
            let v = value_after(line, tag_extinf());
            let c = index_of_from(v, (',' as u8), 0);
            lemma_index_of_bounds(v, (',' as u8), 0);
            assert(a =~= seconds_field(v));
            if c < v.len() {
                let b = bytes_at(data, ev.b_offset as int, ev.b_len as int);
                assert(b =~= chomp(v.subrange(c + 1, v.len() as int)));
            }
        },
    }
}

/// The number of line feeds in `s`.
pub open spec fn count_lf(s: Seq<u8>) -> nat
    decreases s.len(),
{
    if s.len() == 0 {
        0
    } else {
        count_lf(s.drop_last()) + if s.last() == ('\n' as u8) { 1nat } else { 0nat }
    }
}

/// The 1-based line number of the record that starts at `pos`: one more
/// than the line feeds before it, saturated at `u32::MAX`.
pub open spec fn line_no_at(data: Seq<u8>, pos: int) -> u32 {
    let c = count_lf(data.take(pos)) + 1;
    if c > u32::MAX { u32::MAX } else { c as u32 }
}

proof fn lemma_count_lf_same(data: Seq<u8>, pos: int, k: int)
    requires
        0 <= pos <= k <= data.len(),
        forall|j: int| pos <= j < k ==> data[j] != ('\n' as u8),
    ensures
        count_lf(data.take(k)) == count_lf(data.take(pos)),
    decreases k - pos,
{
    if k > pos {
        lemma_count_lf_same(data, pos, k - 1);
        assert(data.take(k).drop_last() =~= data.take(k - 1));
    }
}

/// The record after the one at `pos` is on the next line.
proof fn lemma_next_record_line(data: Seq<u8>, pos: int)
    requires
        0 <= pos <= data.len(),
        record_end(data, pos) < data.len(),
    ensures
        line_no_at(data, record_end(data, pos) + 1) == next_line_no(line_no_at(data, pos)),
{
    let e = record_end(data, pos);
    lemma_record_bounds(data, pos);
    lemma_index_of_skips(data, ('\n' as u8), pos);
    lemma_index_of_found(data, ('\n' as u8), pos);
    lemma_count_lf_same(data, pos, e);
    assert(data.take(e + 1).drop_last() =~= data.take(e));
}

proof fn lemma_index_of_found(s: Seq<u8>, b: u8, i: int)
    requires
        0 <= i <= s.len(),
    ensures
        index_of_from(s, b, i) < s.len() ==> s[index_of_from(s, b, i)] == b,
    decreases s.len() - i,
{
    if i < s.len() && s[i] != b {
        lemma_index_of_found(s, b, i + 1);
    }
}

proof fn lemma_first_content_line(data: Seq<u8>, pos: int, n: u32)
    requires
        0 <= pos <= data.len(),
        n == line_no_at(data, pos),
    ensures
        first_content_from(data, pos, n) matches Some((p, m)) ==> m == line_no_at(data, p),
    decreases data.len() + 1 - pos,
{
    let e = record_end(data, pos);
    lemma_record_bounds(data, pos);
    if record_at(data, pos).len() == 0 && e < data.len() {
        lemma_next_record_line(data, pos);
        lemma_first_content_line(data, e + 1, next_line_no(n));
    }
}

/// The header record's line number counts the lines before it.
proof fn lemma_header_line(data: Seq<u8>)
    ensures
        header_record(data) matches Some((p, m)) ==> m == line_no_at(data, p),
{
    assert(data.take(0) =~= Seq::<u8>::empty());
    lemma_first_content_line(data, 0, 1);
}

/// `ev` is the event of some non-empty record of `data`: it covers that
/// record and carries its line number.
pub open spec fn covers_some_record(data: Seq<u8>, ev: FFmpegRsHlsDemuxEvent) -> bool {
    exists|pos: int|
        0 <= pos <= data.len() && record_at(data, pos).len() > 0 && ev.line_no == line_no_at(
            data,
            pos,
        ) && spans_cover(data, record_at(data, pos), pos, ev)
}

proof fn lemma_events_from_cover(
    data: Seq<u8>,
    pos: int,
    n: u32,
    evs: Seq<FFmpegRsHlsDemuxEvent>,
)
    requires
        0 <= pos <= data.len() <= usize::MAX,
        next_line_no(n) == line_no_at(data, pos),
        forall|i: int| 0 <= i < evs.len() ==> covers_some_record(data, #[trigger] evs[i]),
    ensures
        forall|i: int|
            0 <= i < events_from(data, pos, n, evs).len() ==> covers_some_record(
                data,
                #[trigger] events_from(data, pos, n, evs)[i],
            ),
    decreases data.len() + 1 - pos,
{
    lemma_record_bounds(data, pos);
    let e = record_end(data, pos);
    let line = record_at(data, pos);
    let n2 = if n == u32::MAX { n } else { (n + 1) as u32 };
    let next = if line.len() == 0 { evs } else { evs.push(event_of(line, pos, n2)) };
    if line.len() > 0 {
        assert(bytes_at(data, pos, line.len() as int) =~= line);
        lemma_event_of_covers(data, line, pos, n2);
        assert(covers_some_record(data, event_of(line, pos, n2)));
    }
    assert forall|i: int| 0 <= i < next.len() implies covers_some_record(data, #[trigger] next[i]) by {
        if i < evs.len() {
            assert(next[i] == evs[i]);
        }
    }
    assert(events_from(data, pos, n, evs) == (if e >= data.len() { next } else {
        events_from(data, e + 1, n2, next)
    }));
    if e < data.len() {
        lemma_next_record_line(data, pos);
        lemma_events_from_cover(data, e + 1, n2, next);
    }
}

/// Every event addresses the bytes of the record it reports and carries
/// that record's line number: its spans hold exactly the parts of the
/// record that [`spans_cover`] names.
pub proof fn lemma_event_spans_cover_records(data: Seq<u8>)
    requires
        data.len() <= usize::MAX,
    ensures
        forall|i: int|
            0 <= i < events_of(data).len() ==> covers_some_record(data, #[trigger] events_of(data)[i]),
{
    if let Some(p) = body_start(data) {
        lemma_header_bounds(data);
        lemma_header_line(data);
        if let Some((hp, _)) = header_record(data) {
            lemma_next_record_line(data, hp);
        }
        lemma_events_from_cover(data, p, header_line_no(data), Seq::empty());
    }
}

/// The record at `pos` is one the run from `from` reaches.
pub open spec fn reaches(data: Seq<u8>, from: int, pos: int) -> bool
    decreases data.len() + 1 - from,
{
    let e = record_end(data, from);
    if from == pos {
        true
    } else if from < 0 || from > pos || from > data.len() || e >= data.len() || e < from {
        false
    } else {
        reaches(data, e + 1, pos)
    }
}

/// The builder's state when the run from `from` reaches the record at `pos`.
pub open spec fn state_at(data: Seq<u8>, from: int, pos: int, st: PlaylistModel) -> PlaylistModel
    decreases data.len() + 1 - from,
{
    let e = record_end(data, from);
    let line = record_at(data, from);
    let next = if line.len() == 0 { st } else { playlist_step(st, line, from) };
    if from < 0 || from >= pos || from > data.len() || e >= data.len() || e < from {
        st
    } else {
        state_at(data, e + 1, pos, next)
    }
}

proof fn lemma_run_split(data: Seq<u8>, from: int, pos: int, st: PlaylistModel)
    requires
        0 <= from <= data.len(),
        reaches(data, from, pos),
    ensures
        0 <= pos <= data.len(),
        playlist_from(data, from, st) == playlist_from(data, pos, state_at(data, from, pos, st)),
    decreases data.len() + 1 - from,
{
    if from != pos {
        let e = record_end(data, from);
        lemma_record_bounds(data, from);
        let line = record_at(data, from);
        let next = if line.len() == 0 { st } else { playlist_step(st, line, from) };
        lemma_run_split(data, e + 1, pos, next);
    }
}

proof fn lemma_skip_blank_records(data: Seq<u8>, q: int, n: u32, st: PlaylistModel)
    requires
        0 <= q <= data.len(),
    ensures
        first_content_from(data, q, n) matches Some((u, _)) ==> 0 <= u <= data.len()
            && playlist_from(data, q, st) == playlist_from(data, u, st),
    decreases data.len() + 1 - q,
{
    let e = record_end(data, q);
    lemma_record_bounds(data, q);
    if record_at(data, q).len() == 0 && e < data.len() {
        lemma_skip_blank_records(data, e + 1, next_line_no(n), st);
    }
}

/// In a parsed playlist, a `#EXTINF` record whose duration reads and whose
/// next non-blank record is a URI line yields exactly one segment for that
/// URI: the parse's final state is the run after the URI from the state the
/// run had at the tag, with that one segment added and the variants
/// unchanged. The segment sits right after the ones counted before the tag,
/// and a successful parse stores it when the buffer has room for it.
pub proof fn lemma_extinf_segment_in_output(
    data: Seq<u8>,
    pos: int,
    strictness: Strictness,
    old_pl: FFmpegRsHlsPlaylist,
    old_segs: Seq<FFmpegRsHlsSegment>,
    old_vars: Seq<FFmpegRsHlsVariant>,
    status: i32,
    pl: FFmpegRsHlsPlaylist,
    segs: Seq<FFmpegRsHlsSegment>,
    vars: Seq<FFmpegRsHlsVariant>,
)
    requires
        data.len() <= usize::MAX,
        body_start(data) matches Some(b) && reaches(data, b, pos),
        record_end(data, pos) < data.len(),
        classify(record_at(data, pos)) == Directive::ExtInf,
        hls_seconds_us(seconds_field(value_after(record_at(data, pos), tag_extinf()))) is Some,
        first_content_from(data, record_end(data, pos) + 1, 1) matches Some((u, _)) && classify(
            record_at(data, u),
        ) == Directive::Uri,
        playlist_outcome(data, strictness, old_pl, old_segs, old_vars, status, pl, segs, vars),
    ensures
        ({
            let b = body_start(data).unwrap();
            let u = first_content_from(data, record_end(data, pos) + 1, 1).unwrap().0;
            let before = state_at(data, b, pos, initial_model());
            let k = before.segments.len();
            let seg = FFmpegRsHlsSegment {
                duration_us: hls_seconds_us(
                    seconds_field(value_after(record_at(data, pos), tag_extinf())),
                ).unwrap(),
                url_offset: u as usize,
                url_len: record_at(data, u).len() as usize,
            };
            &&& playlist_of(data) == playlist_after(
                data,
                u,
                PlaylistModel { segments: before.segments.push(seg), pending_duration: None, ..before },
            )
            &&& playlist_of(data).segments.len() > k
            &&& playlist_of(data).segments[k as int] == seg
            &&& status == HLS_OK ==> pl.n_segments > k && (k < segs.len() ==> segs[k as int]
                == seg)
        }),
{
    let b = body_start(data).unwrap();
    lemma_header_bounds(data);
    lemma_run_split(data, b, pos, initial_model());
    let before = state_at(data, b, pos, initial_model());
    let line = record_at(data, pos);
    lemma_record_bounds(data, pos);
    assert(line.len() > 0) by {
        assert(classify(line) != Directive::Uri);
    }
    let q = record_end(data, pos) + 1;
    let mid = playlist_step(before, line, pos);
    assert(playlist_from(data, pos, before) == playlist_from(data, q, mid));
    lemma_skip_blank_records(data, q, 1, mid);
    let u = first_content_from(data, q, 1).unwrap().0;
    lemma_first_content_nonblank(data, q, 1);
    lemma_record_bounds(data, u);
    let uri = record_at(data, u);
    let added = playlist_step(mid, uri, u);
    assert(playlist_from(data, u, mid) == playlist_after(data, u, added));
    let seg = FFmpegRsHlsSegment {
        duration_us: hls_seconds_us(seconds_field(value_after(line, tag_extinf()))).unwrap(),
        url_offset: u as usize,
        url_len: uri.len() as usize,
    };
    assert(added == PlaylistModel { segments: before.segments.push(seg), pending_duration: None, ..before });
    if record_end(data, u) < data.len() {
        lemma_playlist_from_extends(data, record_end(data, u) + 1, added);
    }
    assert(added.segments[before.segments.len() as int] == seg);
}

/// In a parsed playlist, a `#EXT-X-STREAM-INF` record whose bandwidth reads,
/// reached with no segment duration pending, and whose next non-blank
/// record is a URI line yields exactly one variant for that URI and no
/// segment: the final state is the run after the URI from the state at the
/// tag with that one variant added and the segments unchanged. A successful
/// parse stores it when the buffer has room for it.
pub proof fn lemma_stream_inf_variant_in_output(
    data: Seq<u8>,
    pos: int,
    strictness: Strictness,
    old_pl: FFmpegRsHlsPlaylist,
    old_segs: Seq<FFmpegRsHlsSegment>,
    old_vars: Seq<FFmpegRsHlsVariant>,
    status: i32,
    pl: FFmpegRsHlsPlaylist,
    segs: Seq<FFmpegRsHlsSegment>,
    vars: Seq<FFmpegRsHlsVariant>,
)
    requires
        data.len() <= usize::MAX,
        body_start(data) matches Some(b) && reaches(data, b, pos) && state_at(
            data,
            b,
            pos,
            initial_model(),
        ).pending_duration is None,
        record_end(data, pos) < data.len(),
        classify(record_at(data, pos)) == Directive::StreamInf,
        bandwidth_of(value_after(record_at(data, pos), tag_stream_inf())) is Some,
        first_content_from(data, record_end(data, pos) + 1, 1) matches Some((u, _)) && classify(
            record_at(data, u),
        ) == Directive::Uri,
        playlist_outcome(data, strictness, old_pl, old_segs, old_vars, status, pl, segs, vars),
    ensures
        ({
            let b = body_start(data).unwrap();
            let u = first_content_from(data, record_end(data, pos) + 1, 1).unwrap().0;
            let before = state_at(data, b, pos, initial_model());
            let k = before.variants.len();
            let var = FFmpegRsHlsVariant {
                bandwidth: clamp_i32(
                    bandwidth_of(value_after(record_at(data, pos), tag_stream_inf())).unwrap(),
                ),
                url_offset: u as usize,
                url_len: record_at(data, u).len() as usize,
            };
            &&& playlist_of(data) == playlist_after(
                data,
                u,
                PlaylistModel { variants: before.variants.push(var), pending_bandwidth: None, ..before },
            )
            &&& playlist_of(data).variants.len() > k
            &&& playlist_of(data).variants[k as int] == var
            &&& status == HLS_OK ==> pl.n_variants > k && (k < vars.len() ==> vars[k as int]
                == var)
        }),
{
    let b = body_start(data).unwrap();
    lemma_header_bounds(data);
    lemma_run_split(data, b, pos, initial_model());
    let before = state_at(data, b, pos, initial_model());
    let line = record_at(data, pos);
    lemma_record_bounds(data, pos);
    assert(line.len() > 0) by {
        assert(classify(line) != Directive::Uri);
    }
    let q = record_end(data, pos) + 1;
    let mid = playlist_step(before, line, pos);
    assert(playlist_from(data, pos, before) == playlist_from(data, q, mid));
    lemma_skip_blank_records(data, q, 1, mid);
    let u = first_content_from(data, q, 1).unwrap().0;
    lemma_first_content_nonblank(data, q, 1);
    lemma_record_bounds(data, u);
    let uri = record_at(data, u);
    let added = playlist_step(mid, uri, u);
    assert(playlist_from(data, u, mid) == playlist_after(data, u, added));
    let var = FFmpegRsHlsVariant {
        bandwidth: clamp_i32(bandwidth_of(value_after(line, tag_stream_inf())).unwrap()),
        url_offset: u as usize,
        url_len: uri.len() as usize,
    };
    assert(added == PlaylistModel { variants: before.variants.push(var), pending_bandwidth: None, ..before });
    if record_end(data, u) < data.len() {
        lemma_playlist_from_extends(data, record_end(data, u) + 1, added);
    }
    assert(added.variants[before.variants.len() as int] == var);
}

proof fn lemma_first_content_nonblank(data: Seq<u8>, q: int, n: u32)
    requires
        0 <= q <= data.len(),
    ensures
        first_content_from(data, q, n) matches Some((u, _)) ==> record_at(data, u).len() > 0,
    decreases data.len() + 1 - q,
{
    let e = record_end(data, q);
    lemma_record_bounds(data, q);
    if record_at(data, q).len() == 0 && e < data.len() {
        lemma_first_content_nonblank(data, e + 1, next_line_no(n));
    }
}

} // verus!
