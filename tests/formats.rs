use ffmpeg_rs::ass::{ffmpeg_rs_ass_parse_dialogue, parse_dialogue, FFmpegRsAssDialogueParseResult};
use ffmpeg_rs::concat::{ffmpeg_rs_concat_get_token, ffmpeg_rs_concat_parse_keyword, FFMpegRsConcatKeyword};
use ffmpeg_rs::data_uri::{ffmpeg_rs_data_uri_parse, FFMpegRsDataUriParsed};
use ffmpeg_rs::ffi::{ffmpeg_rs_copy_str, ffmpeg_rs_memchr, ffmpeg_rs_version};
use ffmpeg_rs::ffmetadata::{
    ffmpeg_rs_ffmetadata_split_kv, ffmpeg_rs_ffmetadata_unescape, FFMpegRsFFMetaSplit, ENOSPC,
};
use ffmpeg_rs::hlswriter::ffmpeg_rs_hls_write_playlist_version;
use ffmpeg_rs::id3v2::ffmpeg_rs_id3v2_tag_len;
use ffmpeg_rs::mcc::{ffmpeg_rs_mcc_bytes_to_hex, ffmpeg_rs_mcc_expand_payload, FFmpegRsMccExpandPayloadResult};
use ffmpeg_rs::scc::{ffmpeg_rs_scc_parse_words, FFmpegRsSccParseWordsResult};
use ffmpeg_rs::subrip::{ffmpeg_rs_subrip_parse, FFmpegRsSubripEvent, FFmpegRsSubripParseResult};
use ffmpeg_rs::ttml::{ffmpeg_rs_ttml_parse_extradata, FFmpegRsTtmlExtradataParseResult};
use ffmpeg_rs::util_parse::ffmpeg_rs_util_get_token;
use ffmpeg_rs::webvtt::{ffmpeg_rs_webvtt_parse, FFmpegRsWebvttCue, FFmpegRsWebvttParseResult};

#[test]
fn parses_basic_dialogue() {
    let line = b"Dialogue: 0,0:00:01.23,0:00:02.34,Default,,0,0,0,,hi";
    let r = parse_dialogue(line).unwrap();
    assert_eq!(r.layer, 0);
    assert_eq!(r.start_cs, 123);
    assert_eq!(r.duration_cs, 111);
    assert_eq!(&line[r.rest_off..], b"Default,,0,0,0,,hi");
}

#[test]
fn parses_marked_as_layer_zero() {
    let line = b"Dialogue: Marked=1,0:00:00.00,0:00:00.10,foo";
    let r = parse_dialogue(line).unwrap();
    assert_eq!(r.layer, 0);
    assert_eq!(r.start_cs, 0);
    assert_eq!(r.duration_cs, 10);
}

#[test]
fn ass_layer_and_failures() {
    let r = parse_dialogue(b"Dialogue: 3,0:00:01.00,0:00:00.50,x").unwrap();
    assert_eq!(r.layer, 3);
    assert_eq!(r.duration_cs, -50);
    assert!(parse_dialogue(b"Comment: 0,0:00:01.00,0:00:02.00,x").is_none());
    assert!(parse_dialogue(b"Dialogue: 0,0:00:01.00,0:00:02.00").is_none());
    let mut out = FFmpegRsAssDialogueParseResult { start_cs: 9, duration_cs: 0, layer: 0, rest_off: 0 };
    assert_eq!(ffmpeg_rs_ass_parse_dialogue(b"Dialogue:", &mut out), -2);
    assert_eq!(out.start_cs, 9);
    assert_eq!(ffmpeg_rs_ass_parse_dialogue(b"Dialogue: 1,1:00:00.00,1:00:00.01,", &mut out), 0);
    assert_eq!(out.start_cs, 360_000);
    assert_eq!(out.duration_cs, 1);
}

#[test]
fn keyword_matches_get_keyword_behavior() {
    let line = b"   file   abc\n\0".to_vec();
    let mut out = FFMpegRsConcatKeyword { skip: 0, len: 0, advance: 0 };
    let rc = ffmpeg_rs_concat_parse_keyword(&line, &mut out);
    assert_eq!(rc, 0);
    assert_eq!(out.skip, 3);
    assert_eq!(out.len, 4);
    assert_eq!(out.advance, 10);
    assert_eq!(&line[out.skip..out.skip + out.len], b"file");
}

#[test]
fn keyword_edge_cases() {
    let mut out = FFMpegRsConcatKeyword { skip: 1, len: 1, advance: 1 };
    assert_eq!(ffmpeg_rs_concat_parse_keyword(b"", &mut out), -22);
    assert_eq!(out.skip, 1);
    assert_eq!(ffmpeg_rs_concat_parse_keyword(b"ffconcat\0rest", &mut out), 0);
    assert_eq!((out.skip, out.len, out.advance), (0, 8, 8));
}

#[test]
fn token_parses_backslash_and_quotes() {
    let s = b"  a\\ b 'c d'  \0";
    let mut advance = 0usize;
    let mut req = 0usize;
    let mut buf = [0u8; 64];
    let rc = ffmpeg_rs_concat_get_token(s, &mut buf, &mut advance, &mut req);
    assert_eq!(rc, 0);
    assert_eq!(advance, 6);
    assert_eq!(&buf[..4], b"a b\0");
    let s2 = &s[advance..];
    let rc2 = ffmpeg_rs_concat_get_token(s2, &mut buf, &mut advance, &mut req);
    assert_eq!(rc2, 0);
    assert_eq!(&buf[..4], b"c d\0");
}

#[test]
fn token_reports_room_needed() {
    let mut advance = 0usize;
    let mut req = 0usize;
    let mut small = [7u8; 3];
    assert_eq!(ffmpeg_rs_concat_get_token(b"abcdef", &mut small, &mut advance, &mut req), -28);
    assert_eq!(req, 7);
    assert_eq!(advance, 6);
    assert_eq!(small, [b'a', b'b', 7]);
    assert_eq!(ffmpeg_rs_concat_get_token(b"", &mut small, &mut advance, &mut req), -22);
    let mut buf = [0u8; 8];
    assert_eq!(ffmpeg_rs_concat_get_token(b"'a '", &mut buf, &mut advance, &mut req), 0);
    assert_eq!(&buf[..3], b"a \0");
}

#[test]
fn matches_basic_av_get_token_behavior() {
    let s = b"  a\\ b 'c d' ;rest\0";
    let term = b";\0";
    let mut adv = 0usize;
    let mut req = 0usize;
    let mut buf = [0u8; 64];
    let rc = ffmpeg_rs_util_get_token(s, term, &mut buf, &mut adv, &mut req);
    assert_eq!(rc, 0);
    // Reading stops at the terminator, which is left for the caller.
    assert_eq!(adv, 13);
    assert_eq!(&buf[..8], b"a b c d\0");
}

#[test]
fn util_token_needs_terminators() {
    let mut adv = 0usize;
    let mut req = 0usize;
    let mut buf = [0u8; 8];
    assert_eq!(ffmpeg_rs_util_get_token(b"abc", b"", &mut buf, &mut adv, &mut req), -22);
    assert_eq!(ffmpeg_rs_util_get_token(b"ab,c", b",", &mut buf, &mut adv, &mut req), 0);
    assert_eq!(adv, 2);
    assert_eq!(req, 3);
    assert_eq!(&buf[..3], b"ab\0");
}

#[test]
fn parses_basic_and_base64() {
    let s = b"data:audio/wav;base64,AAAA\0";
    let mut out = FFMpegRsDataUriParsed {
        content_type_offset: 0,
        content_type_len: 0,
        payload_offset: 0,
        payload_len: 0,
        base64: 0,
    };
    let rc = ffmpeg_rs_data_uri_parse(s, &mut out);
    assert_eq!(rc, 0);
    assert_eq!(out.base64, 1);
    assert_eq!(&s[out.content_type_offset..out.content_type_offset + out.content_type_len], b"audio/wav");
    assert_eq!(out.payload_len, 4);
}

#[test]
fn data_uri_rejections_and_options() {
    let mut out = FFMpegRsDataUriParsed {
        content_type_offset: 0,
        content_type_len: 0,
        payload_offset: 0,
        payload_len: 0,
        base64: 0,
    };
    assert_eq!(ffmpeg_rs_data_uri_parse(b"data:", &mut out), -22);
    assert_eq!(ffmpeg_rs_data_uri_parse(b"http://x/y,z", &mut out), -22);
    assert_eq!(ffmpeg_rs_data_uri_parse(b"data:text,hi", &mut out), -22);
    assert_eq!(ffmpeg_rs_data_uri_parse(b"data:,hi", &mut out), -22);
    assert_eq!(ffmpeg_rs_data_uri_parse(b"data:text/plain;charset=x;BASE64,hi", &mut out), 0);
    assert_eq!(out.base64, 1);
    assert_eq!(out.content_type_len, 10);
    assert_eq!(out.payload_len, 2);
    assert_eq!(ffmpeg_rs_data_uri_parse(b"data:text/plain;x,", &mut out), 0);
    assert_eq!(out.base64, 0);
    assert_eq!(out.payload_len, 0);
}

#[test]
fn version_is_nonzero() {
    assert!(ffmpeg_rs_version() > 0);
}

#[test]
fn memchr_and_copy_str() {
    assert_eq!(ffmpeg_rs_memchr(b"abcabc", b'c'), Some(2));
    assert_eq!(ffmpeg_rs_memchr(b"abc", b'z'), None);
    let mut dst = [9u8; 4];
    assert_eq!(ffmpeg_rs_copy_str(&mut dst, b"hello\0"), 0);
    assert_eq!(dst, [b'h', b'e', b'l', 0]);
    let mut dst2 = [9u8; 8];
    assert_eq!(ffmpeg_rs_copy_str(&mut dst2, b"hi\0xx"), 0);
    assert_eq!(dst2, [b'h', b'i', 0, 9, 9, 9, 9, 9]);
    assert_eq!(ffmpeg_rs_copy_str(&mut [], b"hi"), -1);
}

#[test]
fn split_skips_escaped_equals() {
    let s = b"key\\=part=val\\=x\0";
    let mut out = FFMpegRsFFMetaSplit {
        eq_offset: 0,
        key_escaped_len: 0,
        value_escaped_len: 0,
        key_unescaped_len: 0,
        value_unescaped_len: 0,
    };
    let rc = ffmpeg_rs_ffmetadata_split_kv(s, &mut out);
    assert_eq!(rc, 0);
    assert_eq!(out.eq_offset, 9);
    assert_eq!(out.key_escaped_len, 9);
    assert_eq!(out.key_unescaped_len, 8);
    assert_eq!(out.value_escaped_len, 6);
    assert_eq!(out.value_unescaped_len, 5);
    assert_eq!(ffmpeg_rs_ffmetadata_split_kv(b"no split\\=", &mut out), 1);
    assert_eq!(ffmpeg_rs_ffmetadata_split_kv(b"", &mut out), -22);
}

#[test]
fn unescape_removes_backslashes() {
    let s = b"a\\=b\\c\0";
    let mut out = [0u8; 8];
    let mut written = 0usize;
    let rc = ffmpeg_rs_ffmetadata_unescape(&mut out, s, &mut written);
    assert_eq!(rc, 0);
    assert_eq!(written, 4);
    assert_eq!(&out[..5], b"a=bc\0");
}

#[test]
fn unescape_reports_short_destination() {
    let mut out = [7u8; 3];
    let mut written = 0usize;
    assert_eq!(ffmpeg_rs_ffmetadata_unescape(&mut out, b"abcd", &mut written), ENOSPC);
    assert_eq!(written, 4);
    assert_eq!(out, [b'a', b'b', 0]);
    assert_eq!(ffmpeg_rs_ffmetadata_unescape(&mut [], b"ab", &mut written), ENOSPC);
    assert_eq!(written, 2);
}

#[test]
fn writes_expected() {
    let mut buf = [0u8; 128];
    let n = ffmpeg_rs_hls_write_playlist_version(&mut buf, 7);
    assert!(n > 0);
    assert_eq!(&buf[..n as usize], b"#EXTM3U\n#EXT-X-VERSION:7\n");
}

#[test]
fn writes_negative_and_rejects_small() {
    let mut buf = [1u8; 40];
    let n = ffmpeg_rs_hls_write_playlist_version(&mut buf, -2147483648);
    assert_eq!(&buf[..n as usize], b"#EXTM3U\n#EXT-X-VERSION:-2147483648\n");
    assert_eq!(buf[n as usize], 0);
    let mut small = [1u8; 39];
    assert_eq!(ffmpeg_rs_hls_write_playlist_version(&mut small, 3), -2);
    assert_eq!(small[0], 1);
    assert_eq!(ffmpeg_rs_hls_write_playlist_version(&mut [], 3), -1);
}

#[test]
fn computes_length_with_ext_header_flag() {
    let mut hdr = [0u8; 10];
    hdr[5] = 0x10;
    hdr[9] = 1;
    assert_eq!(ffmpeg_rs_id3v2_tag_len(&hdr), 21);
}

#[test]
fn id3v2_syncsafe_size() {
    let hdr = [b'I', b'D', b'3', 4, 0, 0, 0x7f, 0x7f, 0x7f, 0xff];
    assert_eq!(ffmpeg_rs_id3v2_tag_len(&hdr), 0x0fff_ffff + 10);
    assert_eq!(ffmpeg_rs_id3v2_tag_len(&hdr[..9]), 0);
}

#[test]
fn encodes_hex() {
    let input = [0x12u8, 0xABu8, 0x00u8];
    let mut out = [0u8; 16];
    assert_eq!(ffmpeg_rs_mcc_bytes_to_hex(&mut out, &input, 0), 0);
    assert_eq!(&out[..5], b"12ABZ");
}

#[test]
fn encodes_aliases() {
    let input = [0xFA, 0, 0, 0xFA, 0, 0, 0xFC, 0x80, 0x80, 0xE1, 0, 0, 0, 0x96, 0x69];
    let mut out = [0u8; 31];
    assert_eq!(ffmpeg_rs_mcc_bytes_to_hex(&mut out, &input, 1), 0);
    assert_eq!(&out[..5], b"HQUS\0");
    assert_eq!(ffmpeg_rs_mcc_bytes_to_hex(&mut out, &input, 0), 0);
    assert_eq!(&out[..9], b"HQE1ZZZS\0");
    let mut tiny = [0u8; 4];
    assert_eq!(ffmpeg_rs_mcc_bytes_to_hex(&mut tiny, &input, 0), -2);
}

#[test]
fn expands_payload_with_aliases_and_hex() {
    let input = b"GZ0F";
    let mut out = FFmpegRsMccExpandPayloadResult { n_bytes_total: 0, n_bytes_written: 0, truncated: 0 };
    let mut bytes = [0u8; 16];
    assert_eq!(ffmpeg_rs_mcc_expand_payload(input, &mut out, &mut bytes), 0);
    assert_eq!(out.n_bytes_written, 5);
    assert_eq!(&bytes[..5], &[0xFA, 0x00, 0x00, 0x00, 0x0F]);
}

#[test]
fn expansion_truncates() {
    let mut out = FFmpegRsMccExpandPayloadResult { n_bytes_total: 0, n_bytes_written: 0, truncated: 0 };
    let mut bytes = [0u8; 4];
    assert_eq!(ffmpeg_rs_mcc_expand_payload(b"HT!", &mut out, &mut bytes), 0);
    assert_eq!(out.n_bytes_total, 8);
    assert_eq!(out.n_bytes_written, 4);
    assert_eq!(out.truncated, 1);
    assert_eq!(bytes, [0xFA, 0, 0, 0xFA]);
    assert_eq!(ffmpeg_rs_mcc_expand_payload(b"X", &mut out, &mut []), 0);
    assert_eq!(out.n_bytes_total, 0);
    assert_eq!(out.truncated, 0);
}

#[test]
fn parses_words() {
    let input = b"9420 942c 80ff";
    let mut out = FFmpegRsSccParseWordsResult { n_words_total: 0, n_words_written: 0, truncated: 0 };
    let mut words = [0u16; 8];
    assert_eq!(ffmpeg_rs_scc_parse_words(input, &mut out, &mut words), 0);
    assert_eq!(out.n_words_total, 3);
    assert_eq!(out.n_words_written, 3);
    assert_eq!(words[0], 0x9420);
    assert_eq!(words[1], 0x942c);
    assert_eq!(words[2], 0x80ff);
}

#[test]
fn scc_stops_and_truncates() {
    let mut out = FFmpegRsSccParseWordsResult { n_words_total: 0, n_words_written: 0, truncated: 0 };
    let mut words = [0u16; 1];
    assert_eq!(ffmpeg_rs_scc_parse_words(b" 0001 0002 zz 0003", &mut out, &mut words), 0);
    assert_eq!(out.n_words_total, 2);
    assert_eq!(out.n_words_written, 1);
    assert_eq!(out.truncated, 1);
    assert_eq!(words[0], 1);
    assert_eq!(ffmpeg_rs_scc_parse_words(b"0001", &mut out, &mut []), 0);
    assert_eq!(out.truncated, 0);
}

#[test]
fn parses_simple_event() {
    let txt = b"1\n00:00:01,000 --> 00:00:02,500\nHello\n\n";
    let mut out = FFmpegRsSubripParseResult { n_events: 0 };
    let mut evs = [FFmpegRsSubripEvent { start_ms: 0, duration_ms: 0, payload_offset: 0, payload_len: 0 }; 4];
    let r = ffmpeg_rs_subrip_parse(txt, &mut out, &mut evs);
    assert_eq!(r, 0);
    assert_eq!(out.n_events, 1);
    assert_eq!(evs[0].start_ms, 1000);
    assert_eq!(evs[0].duration_ms, 1500);
    assert_eq!(&txt[evs[0].payload_offset..evs[0].payload_offset + evs[0].payload_len], b"Hello");
}

#[test]
fn subrip_two_cues_and_capacity() {
    let txt = b"\r\n1\r\n00:00:01.000 --> 00:00:02.000\r\nA\r\nB\r\n\r\n2\n00:01:00,000 --> 00:01:00,250 X:1\nC";
    let mut out = FFmpegRsSubripParseResult { n_events: 0 };
    let mut evs = [FFmpegRsSubripEvent { start_ms: 0, duration_ms: 0, payload_offset: 0, payload_len: 0 }; 1];
    assert_eq!(ffmpeg_rs_subrip_parse(txt, &mut out, &mut evs), 0);
    assert_eq!(out.n_events, 2);
    assert_eq!(&txt[evs[0].payload_offset..evs[0].payload_offset + evs[0].payload_len], b"A\r\nB");
    let mut all = [FFmpegRsSubripEvent { start_ms: 0, duration_ms: 0, payload_offset: 0, payload_len: 0 }; 2];
    assert_eq!(ffmpeg_rs_subrip_parse(txt, &mut out, &mut all), 0);
    assert_eq!(all[1].start_ms, 60_000);
    assert_eq!(all[1].duration_ms, 250);
    assert_eq!(&txt[all[1].payload_offset..all[1].payload_offset + all[1].payload_len], b"C");
}

#[test]
fn parses_default() {
    let ed = b"lavc-ttmlenc";
    let mut out = FFmpegRsTtmlExtradataParseResult { is_paragraph_mode: 0, is_default: 0, tt_params_offset: 0, pre_body_offset: 0 };
    let r = ffmpeg_rs_ttml_parse_extradata(ed, &mut out);
    assert_eq!(r, 0);
    assert_eq!(out.is_default, 1);
}

#[test]
fn parses_custom() {
    let ed = b"lavc-ttmlencAAA\0BBB\0";
    let mut out = FFmpegRsTtmlExtradataParseResult { is_paragraph_mode: 0, is_default: 0, tt_params_offset: 0, pre_body_offset: 0 };
    let r = ffmpeg_rs_ttml_parse_extradata(ed, &mut out);
    assert_eq!(r, 0);
    assert_eq!(&ed[out.tt_params_offset..out.tt_params_offset + 3], b"AAA");
    assert_eq!(&ed[out.pre_body_offset..out.pre_body_offset + 3], b"BBB");
}

#[test]
fn ttml_status_codes() {
    let mut out = FFmpegRsTtmlExtradataParseResult { is_paragraph_mode: 0, is_default: 0, tt_params_offset: 0, pre_body_offset: 0 };
    assert_eq!(ffmpeg_rs_ttml_parse_extradata(b"lavc-ttml", &mut out), -2);
    assert_eq!(ffmpeg_rs_ttml_parse_extradata(b"lavc-ttmlencAAA", &mut out), -3);
    assert_eq!(ffmpeg_rs_ttml_parse_extradata(b"lavc-ttmlenc\0BBB\0", &mut out), -4);
    assert_eq!(ffmpeg_rs_ttml_parse_extradata(b"lavc-ttmlencA\0", &mut out), -5);
    assert_eq!(ffmpeg_rs_ttml_parse_extradata(b"lavc-ttmlencA\0B", &mut out), -6);
    assert_eq!(ffmpeg_rs_ttml_parse_extradata(b"lavc-ttmlencA\0\0", &mut out), -7);
    assert_eq!(out.is_paragraph_mode, 0);
}

fn blank_cue() -> FFmpegRsWebvttCue {
    FFmpegRsWebvttCue {
        start_ms: 0,
        end_ms: 0,
        payload_offset: 0,
        payload_len: 0,
        identifier_offset: 0,
        identifier_len: 0,
        settings_offset: 0,
        settings_len: 0,
    }
}

#[test]
fn parses_simple_cue() {
    let txt = b"WEBVTT\n\n00:00.000 --> 00:01.000\nHello\n\n";
    let mut out = FFmpegRsWebvttParseResult { n_cues: 0 };
    let mut cues = [blank_cue(); 4];
    let r = ffmpeg_rs_webvtt_parse(txt, &mut out, &mut cues);
    assert_eq!(r, 0);
    assert_eq!(out.n_cues, 1);
    assert_eq!(cues[0].start_ms, 0);
    assert_eq!(cues[0].end_ms, 1000);
    assert_eq!(&txt[cues[0].payload_offset..cues[0].payload_offset + cues[0].payload_len], b"Hello");
}

#[test]
fn webvtt_identifier_settings_and_notes() {
    let txt = b"\xEF\xBB\xBFWEBVTT\n\nNOTE hi\n\nNOTE\nskip\n\nid1\n01:00:00.5 --> 01:00:01.25  align:start\nA\nB\n\n";
    let mut out = FFmpegRsWebvttParseResult { n_cues: 0 };
    let mut cues = [blank_cue(); 4];
    assert_eq!(ffmpeg_rs_webvtt_parse(txt, &mut out, &mut cues), 0);
    assert_eq!(out.n_cues, 1);
    let c = cues[0];
    assert_eq!(c.start_ms, 3_600_500);
    assert_eq!(c.end_ms, 3_601_250);
    assert_eq!(&txt[c.identifier_offset..c.identifier_offset + c.identifier_len], b"id1");
    assert_eq!(&txt[c.settings_offset..c.settings_offset + c.settings_len], b"align:start");
    assert_eq!(&txt[c.payload_offset..c.payload_offset + c.payload_len], b"A\nB");
    assert_eq!(ffmpeg_rs_webvtt_parse(b"WEBVT", &mut out, &mut cues), -2);
    assert_eq!(out.n_cues, 1);
}
