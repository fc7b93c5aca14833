use ffmpeg_rs::hls::{
    ffmpeg_rs_hls_demux_parse_events, ffmpeg_rs_hls_parse, ffmpeg_rs_hls_parse_strict,
    parse_bandwidth, parse_f64_seconds_to_us, FFmpegRsHlsDemuxEvent,
    FFmpegRsHlsDemuxEventKind, FFmpegRsHlsDemuxParseEventsResult, FFmpegRsHlsPlaylist,
    FFmpegRsHlsSegment, FFmpegRsHlsVariant, HLS_ERR_MALFORMED_HEADER,
    HLS_ERR_UNSUPPORTED_DIRECTIVE, HLS_OK,
};
use ffmpeg_rs::hls::parse_i64_ascii;

fn blank_event() -> FFmpegRsHlsDemuxEvent {
    FFmpegRsHlsDemuxEvent {
        kind: 0,
        line_no: 0,
        a_offset: 0,
        a_len: 0,
        b_offset: 0,
        b_len: 0,
        i64_a: 0,
        i64_b: 0,
    }
}

fn blank_counts() -> FFmpegRsHlsDemuxParseEventsResult {
    FFmpegRsHlsDemuxParseEventsResult { n_events_total: 0, n_events_written: 0, truncated: 0 }
}

fn blank_playlist() -> FFmpegRsHlsPlaylist {
    FFmpegRsHlsPlaylist {
        target_duration_us: 0,
        start_seq_no: 0,
        finished: 0,
        n_segments: 0,
        n_variants: 0,
    }
}

fn blank_segment() -> FFmpegRsHlsSegment {
    FFmpegRsHlsSegment { duration_us: 0, url_offset: 0, url_len: 0 }
}

fn blank_variant() -> FFmpegRsHlsVariant {
    FFmpegRsHlsVariant { bandwidth: 0, url_offset: 0, url_len: 0 }
}

#[test]
fn demux_events_basic() {
    let txt = b"#EXTM3U\n#EXT-X-TARGETDURATION:6\n#EXTINF:2.5,hello\nseg.ts\n#EXT-X-ENDLIST\n";
    let mut out = blank_counts();
    let mut evs = [blank_event(); 16];

    let r = ffmpeg_rs_hls_demux_parse_events(txt, &mut out, &mut evs);
    assert_eq!(r, 0);
    assert_eq!(out.truncated, 0);
    assert!(out.n_events_written >= 4);

    assert_eq!(evs[0].kind, FFmpegRsHlsDemuxEventKind::TargetDuration.code());
    assert_eq!(evs[0].i64_a, 6_000_000);

    assert_eq!(evs[1].kind, FFmpegRsHlsDemuxEventKind::ExtInf.code());
    assert_eq!(evs[1].i64_a, 2_500_000);
    let title = &txt[evs[1].b_offset..evs[1].b_offset + evs[1].b_len];
    assert_eq!(title, b"hello");

    assert_eq!(evs[2].kind, FFmpegRsHlsDemuxEventKind::Uri.code());
    let uri = &txt[evs[2].a_offset..evs[2].a_offset + evs[2].a_len];
    assert_eq!(uri, b"seg.ts");

    assert_eq!(evs[3].kind, FFmpegRsHlsDemuxEventKind::EndList.code());
}

#[test]
fn demux_events_size_only() {
    let txt = b"#EXTM3U\n#EXT-X-ENDLIST\n";
    let mut out = blank_counts();
    let r = ffmpeg_rs_hls_demux_parse_events(txt, &mut out, &mut []);
    assert_eq!(r, 0);
    assert_eq!(out.n_events_total, 1);
    assert_eq!(out.n_events_written, 0);
    assert_eq!(out.truncated, 0);
}

#[test]
fn parses_segments_and_variants() {
    let text = b"#EXTM3U\n#EXT-X-TARGETDURATION:10\n#EXTINF:9.1,\nseg0.ts\n#EXT-X-STREAM-INF:BANDWIDTH=12345\nlow.m3u8\n#EXT-X-ENDLIST\n";
    let mut pl = blank_playlist();
    let mut segs = [blank_segment(); 4];
    let mut vars = [blank_variant(); 4];
    let r = ffmpeg_rs_hls_parse(text, &mut pl, &mut segs, &mut vars);
    assert_eq!(r, 0);
    assert_eq!(pl.target_duration_us, 10_000_000);
    assert_eq!(pl.finished, 1);
    assert_eq!(pl.n_segments, 1);
    assert_eq!(pl.n_variants, 1);
    assert_eq!(segs[0].duration_us, 9_100_000);
    assert_eq!(&text[segs[0].url_offset..segs[0].url_offset + segs[0].url_len], b"seg0.ts");
    assert_eq!(vars[0].bandwidth, 12345);
    assert_eq!(&text[vars[0].url_offset..vars[0].url_offset + vars[0].url_len], b"low.m3u8");
}

#[test]
fn strict_rejects_unknown_tags() {
    let text = b"#EXTM3U\n#EXT-X-UNKNOWN:1\nseg0.ts\n";
    let mut pl = blank_playlist();
    let r = ffmpeg_rs_hls_parse_strict(text, &mut pl, &mut [], &mut []);
    assert_eq!(r, -3);
}

#[test]
fn strict_rejection_writes_nothing() {
    let text = b"#EXTM3U\n#EXTINF:1,\na.ts\n#EXT-X-UNKNOWN:1\nseg0.ts\n";
    let mut pl = blank_playlist();
    pl.start_seq_no = 77;
    let mut segs = [blank_segment(); 2];
    let r = ffmpeg_rs_hls_parse_strict(text, &mut pl, &mut segs, &mut []);
    assert_eq!(r, HLS_ERR_UNSUPPORTED_DIRECTIVE);
    assert_eq!(pl.start_seq_no, 77);
    assert_eq!(pl.n_segments, 0);
    assert_eq!(segs[0].url_len, 0);
}

#[test]
fn lenient_skips_unknown_tags() {
    let text = b"#EXTM3U\n#EXT-X-UNKNOWN:1\nseg0.ts\n";
    let mut pl = blank_playlist();
    let mut segs = [blank_segment(); 2];
    let mut vars = [blank_variant(); 2];
    let r = ffmpeg_rs_hls_parse(text, &mut pl, &mut segs, &mut vars);
    assert_eq!(r, HLS_OK);
    assert_eq!(pl.n_segments, 0);
    assert_eq!(pl.n_variants, 0);
}

#[test]
fn strict_accepts_known_tags_and_comments() {
    let text = b"#EXTM3U\n# a comment\n#EXT-X-MEDIA-SEQUENCE:42\n#EXTINF:3,\na.ts\n";
    let mut pl = blank_playlist();
    let mut segs = [blank_segment(); 2];
    let r = ffmpeg_rs_hls_parse_strict(text, &mut pl, &mut segs, &mut []);
    assert_eq!(r, HLS_OK);
    assert_eq!(pl.start_seq_no, 42);
    assert_eq!(pl.n_segments, 1);
    assert_eq!(segs[0].duration_us, 3_000_000);
}

#[test]
fn missing_header_is_rejected() {
    let mut pl = blank_playlist();
    assert_eq!(ffmpeg_rs_hls_parse(b"#EXTINF:1,\na.ts\n", &mut pl, &mut [], &mut []), HLS_ERR_MALFORMED_HEADER);
    assert_eq!(ffmpeg_rs_hls_parse(b"", &mut pl, &mut [], &mut []), HLS_ERR_MALFORMED_HEADER);
    assert_eq!(ffmpeg_rs_hls_parse(b"#EXTM3U \n", &mut pl, &mut [], &mut []), HLS_ERR_MALFORMED_HEADER);
    let mut out = blank_counts();
    out.n_events_total = 9;
    let r = ffmpeg_rs_hls_demux_parse_events(b"#EXTM3", &mut out, &mut []);
    assert_eq!(r, HLS_ERR_MALFORMED_HEADER);
    assert_eq!(out.n_events_total, 0);
}

#[test]
fn header_alone_and_crlf() {
    let mut pl = blank_playlist();
    assert_eq!(ffmpeg_rs_hls_parse(b"#EXTM3U", &mut pl, &mut [], &mut []), HLS_OK);
    let text = b"#EXTM3U\r\n#EXTINF:4.25,\r\nx.ts\r\n";
    let mut segs = [blank_segment(); 1];
    assert_eq!(ffmpeg_rs_hls_parse(text, &mut pl, &mut segs, &mut []), HLS_OK);
    assert_eq!(segs[0].duration_us, 4_250_000);
    assert_eq!(&text[segs[0].url_offset..segs[0].url_offset + segs[0].url_len], b"x.ts");
}

#[test]
fn segments_beyond_capacity_are_counted() {
    let text = b"#EXTM3U\n#EXTINF:1,\na\n#EXTINF:2,\nb\n#EXTINF:3,\nc\n";
    let mut pl = blank_playlist();
    let mut segs = [blank_segment(); 2];
    assert_eq!(ffmpeg_rs_hls_parse(text, &mut pl, &mut segs, &mut []), HLS_OK);
    assert_eq!(pl.n_segments, 3);
    assert_eq!(segs[1].duration_us, 2_000_000);
}

#[test]
fn pending_duration_is_consumed_once() {
    let text = b"#EXTM3U\n#EXTINF:1,\n#EXTINF:2,\na\nb\n";
    let mut pl = blank_playlist();
    let mut segs = [blank_segment(); 4];
    assert_eq!(ffmpeg_rs_hls_parse(text, &mut pl, &mut segs, &mut []), HLS_OK);
    assert_eq!(pl.n_segments, 1);
    assert_eq!(segs[0].duration_us, 2_000_000);
    assert_eq!(&text[segs[0].url_offset..segs[0].url_offset + segs[0].url_len], b"a");
}

#[test]
fn segment_duration_wins_over_bandwidth() {
    let text = b"#EXTM3U\n#EXTINF:1,\n#EXT-X-STREAM-INF:BANDWIDTH=5\na\nb\n";
    let mut pl = blank_playlist();
    let mut segs = [blank_segment(); 2];
    let mut vars = [blank_variant(); 2];
    assert_eq!(ffmpeg_rs_hls_parse(text, &mut pl, &mut segs, &mut vars), HLS_OK);
    assert_eq!(pl.n_segments, 1);
    assert_eq!(pl.n_variants, 1);
    assert_eq!(&text[vars[0].url_offset..vars[0].url_offset + vars[0].url_len], b"b");
    assert_eq!(vars[0].bandwidth, 5);
}

#[test]
fn events_truncate_and_keep_counting() {
    let text = b"#EXTM3U\n#EXTINF:1,\na\n\n#EXT-X-FOO\n# note\n";
    let mut out = blank_counts();
    let mut evs = [blank_event(); 2];
    assert_eq!(ffmpeg_rs_hls_demux_parse_events(text, &mut out, &mut evs), HLS_OK);
    assert_eq!(out.n_events_total, 4);
    assert_eq!(out.n_events_written, 2);
    assert_eq!(out.truncated, 1);
    assert_eq!(evs[0].line_no, 2);
    assert_eq!(evs[1].line_no, 3);
    let mut all = [blank_event(); 4];
    assert_eq!(ffmpeg_rs_hls_demux_parse_events(text, &mut out, &mut all), HLS_OK);
    assert_eq!(out.truncated, 0);
    assert_eq!(all[2].kind, FFmpegRsHlsDemuxEventKind::Unknown.code());
    assert_eq!(all[2].line_no, 5);
    assert_eq!(&text[all[2].a_offset..all[2].a_offset + all[2].a_len], b"#EXT-X-FOO");
    assert_eq!(all[3].kind, 255);
    assert_eq!(&text[all[3].a_offset..all[3].a_offset + all[3].a_len], b"# note");
}

#[test]
fn event_payloads() {
    let text = b"#EXTM3U\n#EXT-X-MEDIA-SEQUENCE:-7\n#EXT-X-STREAM-INF:RES=1,BANDWIDTH=800\nv.m3u8\n#EXTINF:x\n";
    let mut out = blank_counts();
    let mut evs = [blank_event(); 8];
    assert_eq!(ffmpeg_rs_hls_demux_parse_events(text, &mut out, &mut evs), HLS_OK);
    assert_eq!(out.n_events_total, 4);
    assert_eq!(evs[0].kind, FFmpegRsHlsDemuxEventKind::MediaSequence.code());
    assert_eq!(evs[0].i64_a, -7);
    assert_eq!(evs[1].kind, FFmpegRsHlsDemuxEventKind::StreamInf.code());
    assert_eq!(evs[1].i64_a, 800);
    assert_eq!(&text[evs[1].a_offset..evs[1].a_offset + evs[1].a_len], b"RES=1,BANDWIDTH=800");
    assert_eq!(evs[3].kind, FFmpegRsHlsDemuxEventKind::ExtInf.code());
    assert_eq!(evs[3].i64_a, 0);
    assert_eq!(evs[3].b_len, 0);
    assert_eq!(&text[evs[3].a_offset..evs[3].a_offset + evs[3].a_len], b"x");
}

#[test]
fn seconds_are_fixed_point() {
    assert_eq!(parse_f64_seconds_to_us(b"9.1"), Some(9_100_000));
    assert_eq!(parse_f64_seconds_to_us(b" -2.5"), Some(-2_500_000));
    assert_eq!(parse_f64_seconds_to_us(b"1.1234567"), Some(1_123_456));
    assert_eq!(parse_f64_seconds_to_us(b".5"), Some(500_000));
    assert_eq!(parse_f64_seconds_to_us(b"7."), Some(7_000_000));
    assert_eq!(parse_f64_seconds_to_us(b"."), None);
    assert_eq!(parse_f64_seconds_to_us(b""), None);
    assert_eq!(parse_f64_seconds_to_us(b"99999999999999999999"), Some(i64::MAX));
}

#[test]
fn integers_saturate() {
    assert_eq!(parse_i64_ascii(b"12 34"), Some(12));
    assert_eq!(parse_i64_ascii(b" 12"), None);
    assert_eq!(parse_i64_ascii(b"-"), None);
    assert_eq!(parse_i64_ascii(b"+5"), Some(5));
    assert_eq!(parse_i64_ascii(b"+"), None);
    assert_eq!(parse_i64_ascii(b"+-5"), None);
    assert_eq!(parse_i64_ascii(b"12345,RES"), Some(12345));
    assert_eq!(parse_i64_ascii(b"-99999999999999999999"), Some(-i64::MAX));
    assert_eq!(parse_bandwidth(b"X=1,BANDWIDTH=64000,Y"), Some(64000));
    assert_eq!(parse_bandwidth(b"AVERAGE-BANDWIDTH=1"), Some(1));
    assert_eq!(parse_bandwidth(b"CODECS=x"), None);
}

#[test]
fn large_values_saturate_into_fields() {
    let text = b"#EXTM3U\n#EXT-X-TARGETDURATION:99999999999999\n#EXT-X-MEDIA-SEQUENCE:5000000000\n#EXT-X-STREAM-INF:BANDWIDTH=5000000000\nv\n";
    let mut pl = blank_playlist();
    let mut vars = [blank_variant(); 1];
    assert_eq!(ffmpeg_rs_hls_parse(text, &mut pl, &mut [], &mut vars), HLS_OK);
    assert_eq!(pl.target_duration_us, i64::MAX);
    assert_eq!(pl.start_seq_no, i32::MAX);
    assert_eq!(vars[0].bandwidth, i32::MAX);
}

#[test]
fn parsing_twice_gives_identical_outputs() {
    let text = b"#EXTM3U\n#EXT-X-TARGETDURATION:4\n#EXTINF:1.5,a\nx.ts\n#EXT-X-STREAM-INF:BANDWIDTH=9\ny\n#EXT-X-ODD\n";
    let mut out1 = blank_counts();
    let mut out2 = blank_counts();
    let mut ev1 = [blank_event(); 3];
    let mut ev2 = [blank_event(); 3];
    assert_eq!(ffmpeg_rs_hls_demux_parse_events(text, &mut out1, &mut ev1), HLS_OK);
    assert_eq!(ffmpeg_rs_hls_demux_parse_events(text, &mut out2, &mut ev2), HLS_OK);
    assert_eq!(format!("{:?}", out1), format!("{:?}", out2));
    assert_eq!(format!("{:?}", ev1), format!("{:?}", ev2));
    let (mut pl1, mut pl2) = (blank_playlist(), blank_playlist());
    let (mut s1, mut s2) = ([blank_segment(); 2], [blank_segment(); 2]);
    let (mut v1, mut v2) = ([blank_variant(); 2], [blank_variant(); 2]);
    assert_eq!(ffmpeg_rs_hls_parse(text, &mut pl1, &mut s1, &mut v1), HLS_OK);
    assert_eq!(ffmpeg_rs_hls_parse(text, &mut pl2, &mut s2, &mut v2), HLS_OK);
    assert_eq!(format!("{:?}{:?}{:?}", pl1, s1, v1), format!("{:?}{:?}{:?}", pl2, s2, v2));
}

#[test]
fn every_span_lies_in_the_buffer() {
    let text = b"#EXTM3U\r\n#EXTINF:3,title\r\r\nseg.ts\r\n#EXT-X-STREAM-INF:BANDWIDTH=1\r\nv\r\n#X\n";
    let mut out = blank_counts();
    let mut evs = [blank_event(); 8];
    assert_eq!(ffmpeg_rs_hls_demux_parse_events(text, &mut out, &mut evs), HLS_OK);
    assert_eq!(out.n_events_total, 5);
    for ev in &evs[..out.n_events_written] {
        assert!(ev.a_offset + ev.a_len <= text.len());
        assert!(ev.b_offset + ev.b_len <= text.len());
    }
    assert_eq!(&text[evs[0].b_offset..evs[0].b_offset + evs[0].b_len], b"title");
    let mut pl = blank_playlist();
    let mut segs = [blank_segment(); 1];
    let mut vars = [blank_variant(); 1];
    assert_eq!(ffmpeg_rs_hls_parse(text, &mut pl, &mut segs, &mut vars), HLS_OK);
    assert_eq!(&text[segs[0].url_offset..segs[0].url_offset + segs[0].url_len], b"seg.ts");
    assert_eq!(&text[vars[0].url_offset..vars[0].url_offset + vars[0].url_len], b"v");
}

#[test]
fn counts_stay_consistent() {
    let text = b"#EXTM3U\na\nb\nc\n";
    for cap in 0..5usize {
        let mut out = blank_counts();
        let mut evs = vec![blank_event(); cap];
        assert_eq!(ffmpeg_rs_hls_demux_parse_events(text, &mut out, &mut evs), HLS_OK);
        assert_eq!(out.n_events_total, 3);
        assert!(out.n_events_written <= out.n_events_total);
        assert!(out.n_events_written <= cap);
        if cap > 0 {
            assert_eq!(out.truncated == 1, out.n_events_total > out.n_events_written);
        } else {
            assert_eq!(out.truncated, 0);
        }
    }
}

#[test]
fn stream_inf_then_uri_gives_one_variant() {
    let text = b"#EXTM3U\n#EXT-X-STREAM-INF:BANDWIDTH=100\nhi.m3u8\n#EXT-X-STREAM-INF:RESOLUTION=1x1\nlo.m3u8\n";
    let mut pl = blank_playlist();
    let mut vars = [blank_variant(); 2];
    assert_eq!(ffmpeg_rs_hls_parse(text, &mut pl, &mut [], &mut vars), HLS_OK);
    assert_eq!(pl.n_variants, 1);
    assert_eq!(vars[0].bandwidth, 100);
    assert_eq!(&text[vars[0].url_offset..vars[0].url_offset + vars[0].url_len], b"hi.m3u8");
}

#[test]
fn plus_signed_fields() {
    let text = b"#EXTM3U\n#EXT-X-TARGETDURATION:+10\n#EXT-X-MEDIA-SEQUENCE:+3\n#EXT-X-STREAM-INF:BANDWIDTH=+640\nv\n";
    let mut pl = blank_playlist();
    let mut vars = [blank_variant(); 1];
    assert_eq!(ffmpeg_rs_hls_parse(text, &mut pl, &mut [], &mut vars), HLS_OK);
    assert_eq!(pl.target_duration_us, 10_000_000);
    assert_eq!(pl.start_seq_no, 3);
    assert_eq!(vars[0].bandwidth, 640);
    let mut out = blank_counts();
    let mut evs = [blank_event(); 4];
    assert_eq!(ffmpeg_rs_hls_demux_parse_events(text, &mut out, &mut evs), HLS_OK);
    assert_eq!(evs[0].i64_a, 10_000_000);
    assert_eq!(evs[1].i64_a, 3);
    assert_eq!(evs[2].i64_a, 640);
}

#[test]
fn header_after_blank_lines() {
    let text = b"\n\r\n#EXTM3U\n#EXTINF:+1.5,\na.ts\n";
    let mut pl = blank_playlist();
    let mut segs = [blank_segment(); 1];
    assert_eq!(ffmpeg_rs_hls_parse(text, &mut pl, &mut segs, &mut []), HLS_OK);
    assert_eq!(pl.n_segments, 1);
    assert_eq!(segs[0].duration_us, 1_500_000);
    assert_eq!(&text[segs[0].url_offset..segs[0].url_offset + segs[0].url_len], b"a.ts");
    let mut out = blank_counts();
    let mut evs = [blank_event(); 2];
    assert_eq!(ffmpeg_rs_hls_demux_parse_events(text, &mut out, &mut evs), HLS_OK);
    assert_eq!(out.n_events_total, 2);
    assert_eq!(evs[0].line_no, 4);
    assert_eq!(evs[1].line_no, 5);
    assert_eq!(ffmpeg_rs_hls_parse(b"\n\n", &mut pl, &mut [], &mut []), HLS_ERR_MALFORMED_HEADER);
    assert_eq!(ffmpeg_rs_hls_parse(b"\nx\n#EXTM3U\n", &mut pl, &mut [], &mut []), HLS_ERR_MALFORMED_HEADER);
}

#[test]
fn seconds_take_a_plus_sign() {
    assert_eq!(parse_f64_seconds_to_us(b"+2.25"), Some(2_250_000));
    assert_eq!(parse_f64_seconds_to_us(b" +.5"), Some(500_000));
    assert_eq!(parse_f64_seconds_to_us(b"+"), None);
}

#[test]
fn blank_lines_between_tag_and_uri() {
    let text = b"#EXTM3U\n#EXTINF:2,\n\n\r\nx.ts\n#EXT-X-STREAM-INF:BANDWIDTH=7\n\ny.m3u8\n";
    let mut pl = blank_playlist();
    let mut segs = [blank_segment(); 2];
    let mut vars = [blank_variant(); 2];
    assert_eq!(ffmpeg_rs_hls_parse(text, &mut pl, &mut segs, &mut vars), HLS_OK);
    assert_eq!((pl.n_segments, pl.n_variants), (1, 1));
    assert_eq!(&text[segs[0].url_offset..segs[0].url_offset + segs[0].url_len], b"x.ts");
    assert_eq!(&text[vars[0].url_offset..vars[0].url_offset + vars[0].url_len], b"y.m3u8");
    assert_eq!(vars[0].bandwidth, 7);
}
