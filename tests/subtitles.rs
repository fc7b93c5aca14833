use ffmpeg_rs::jacosub::{
    ffmpeg_rs_jacosub_parse_shift, ffmpeg_rs_jacosub_read_ts, parse_at, parse_shift_like_c,
    parse_timed,
};
use ffmpeg_rs::lrc::{count_ts_prefix, ffmpeg_rs_lrc_read_ts, read_ts};
use ffmpeg_rs::microdvd::{ffmpeg_rs_microdvd_parse_line, FFmpegRsMicrodvdEvent};
use ffmpeg_rs::mpl2::{ffmpeg_rs_mpl2_parse_line, FFmpegRsMpl2Event};
use ffmpeg_rs::mpsub::{ffmpeg_rs_mpsub_parse_line, parse_line as mpsub_parse_line, TSBASE};
use ffmpeg_rs::pjs::{ffmpeg_rs_pjs_parse_line, parse_line as pjs_parse_line};
use ffmpeg_rs::realtext::{ffmpeg_rs_realtext_read_ts, parse_time_to_cs};
use ffmpeg_rs::sami::{ffmpeg_rs_sami_parse_start_ms, parse_i64_ascii as sami_parse_i64_ascii};
use ffmpeg_rs::stl::{ffmpeg_rs_stl_parse_line, parse_line as stl_parse_line};
use ffmpeg_rs::subviewer::{
    ffmpeg_rs_subviewer1_parse_time, ffmpeg_rs_subviewer_read_ts, parse_subviewer1_tag,
    parse_subviewer_ts,
};
use ffmpeg_rs::vplayer::{ffmpeg_rs_vplayer_parse_line, FFmpegRsVplayerEvent};

#[test]
fn shift_returns_zero_for_empty() {
    assert_eq!(parse_shift_like_c(b"", 30), 0);
}

#[test]
fn shift_forms() {
    assert_eq!(parse_shift_like_c(b"5", 30), 0);
    assert_eq!(parse_shift_like_c(b"2.10", 30), 70);
    assert_eq!(parse_shift_like_c(b"  -1:2.3", 30), -1863);
    assert_eq!(parse_shift_like_c(b"1:0:0.0", 25), 90000);
    assert_eq!(parse_shift_like_c(b"99999999999.1", 30), 0);
    assert_eq!(ffmpeg_rs_jacosub_parse_shift(0, b"2.10"), 0);
}

#[test]
fn jacosub_timings() {
    assert_eq!(parse_timed(b"0:00:01.5 0:00:02.0 text", 30), Some((35, 60, 20)));
    assert_eq!(parse_timed(b"0:00:01 0:00:02.0", 30), None);
    assert_eq!(parse_at(b"@10 @40 hi"), Some((10, 40, 8)));
    assert_eq!(parse_at(b"@10 40"), None);
    let mut start = 7;
    let mut dur = 7;
    assert_eq!(ffmpeg_rs_jacosub_read_ts(30, 3, b"@27 @57 hi", &mut start, &mut dur), 0);
    assert_eq!(start, 100);
    assert_eq!(dur, 100);
    assert_eq!(ffmpeg_rs_jacosub_read_ts(30, 0, b"nothing", &mut start, &mut dur), -2);
    assert_eq!(ffmpeg_rs_jacosub_read_ts(0, 0, b"@1 @2", &mut start, &mut dur), -1);
    assert_eq!(start, 100);
    assert_eq!(ffmpeg_rs_jacosub_read_ts(30, -40, b"@1 @2", &mut start, &mut dur), 0);
    assert_eq!(start, -130);
}

#[test]
fn counts_prefix() {
    assert_eq!(count_ts_prefix(b"[00:01.00][00:02.00] hi"), 21);
}

#[test]
fn prefix_stops_outside_brackets() {
    assert_eq!(count_ts_prefix(b"12[3]"), 0);
    assert_eq!(count_ts_prefix(b""), 0);
    assert_eq!(count_ts_prefix(b"[ar:x]"), 1);
}

#[test]
fn parses_ts() {
    let (c, us) = read_ts(b"[01:02.50] hi").unwrap();
    assert_eq!(c, 10);
    assert_eq!(us, 62_500_000);
}

#[test]
fn parses_negative_ts() {
    let (c, us) = read_ts(b"  [-00:00.10]x").unwrap();
    assert_eq!(c, 13);
    assert_eq!(us, -100_000);
}

#[test]
fn lrc_rounding_and_range() {
    assert_eq!(read_ts(b"[00:00.0000005]"), Some((15, 1)));
    assert_eq!(read_ts(b"[00:00.0000004]"), Some((15, 0)));
    assert_eq!(read_ts(b"[00:60]"), Some((7, 60_000_000)));
    assert_eq!(read_ts(b"[00:60.01]"), None);
    assert_eq!(read_ts(b"[00:61]"), None);
    assert_eq!(read_ts(b"[00:1.]"), None);
    assert_eq!(read_ts(b"[00:01"), None);
    let mut us = 5;
    assert_eq!(ffmpeg_rs_lrc_read_ts(b"[x]", &mut us), 0);
    assert_eq!(us, 5);
    assert_eq!(ffmpeg_rs_lrc_read_ts(b"[2:00]", &mut us), 6);
    assert_eq!(us, 120_000_000);
}

#[test]
fn parses_two_values() {
    let (a, b) = mpsub_parse_line(b"  1.23 4.5").unwrap();
    assert_eq!(a, 1 * TSBASE + 2_300_000);
    assert_eq!(b, 4 * TSBASE + 5_000_000);
}

#[test]
fn mpsub_fraction_digits() {
    assert_eq!(mpsub_parse_line(b"1.123456789 2"), Some((11_234_567, 20_000_000)));
    assert_eq!(mpsub_parse_line(b"-1.5 2"), Some((-15_000_000, 20_000_000)));
    assert_eq!(mpsub_parse_line(b"1. 2"), None);
    assert_eq!(mpsub_parse_line(b"922337203686 1"), None);
    let mut a = 0;
    let mut b = 0;
    assert_eq!(ffmpeg_rs_mpsub_parse_line(b"3 4", &mut a, &mut b), 0);
    assert_eq!((a, b), (30_000_000, 40_000_000));
    assert_eq!(ffmpeg_rs_mpsub_parse_line(b"3", &mut a, &mut b), -2);
}

#[test]
fn parses() {
    let (off, start, dur) = pjs_parse_line(b"12,34,\"hi\"").unwrap();
    assert_eq!(start, 12);
    assert_eq!(dur, 22);
    assert_eq!(&b"12,34,\"hi\""[off..], b"\"hi\"");
}

#[test]
fn pjs_rejects_negative_duration() {
    assert_eq!(pjs_parse_line(b"34,12,\"hi\""), None);
    assert_eq!(pjs_parse_line(b"12,34"), None);
    let (mut off, mut start, mut dur) = (0usize, 0i64, 0i32);
    assert_eq!(ffmpeg_rs_pjs_parse_line(b"+1,-1,x", &mut off, &mut start, &mut dur), -2);
    assert_eq!(ffmpeg_rs_pjs_parse_line(b"-5,5,x", &mut off, &mut start, &mut dur), 0);
    assert_eq!((off, start, dur), (5, -5, 10));
}

#[test]
fn parses_hh_mm_ss_ms() {
    assert_eq!(parse_time_to_cs(b"1:2:3.4").unwrap(), 372_304);
}

#[test]
fn parses_mm_ss() {
    assert_eq!(parse_time_to_cs(b"2:03").unwrap(), 12_300);
}

#[test]
fn parses_ss_ms() {
    assert_eq!(parse_time_to_cs(b"9.1").unwrap(), 901);
}

#[test]
fn realtext_other_forms() {
    assert_eq!(parse_time_to_cs(b" 7"), Some(700));
    assert_eq!(parse_time_to_cs(b"1:2:3"), Some(372_300));
    assert_eq!(parse_time_to_cs(b"2:03.5"), Some(12_305));
    assert_eq!(parse_time_to_cs(b"1:"), None);
    assert_eq!(parse_time_to_cs(b"-1"), None);
    let mut cs = 1;
    assert_eq!(ffmpeg_rs_realtext_read_ts(b"x", &mut cs), -2);
    assert_eq!(ffmpeg_rs_realtext_read_ts(b"3", &mut cs), 0);
    assert_eq!(cs, 300);
}

#[test]
fn parses_start() {
    assert_eq!(sami_parse_i64_ascii(b" 123 "), Some(123));
}

#[test]
fn sami_start_forms() {
    assert_eq!(sami_parse_i64_ascii(b"\t-40"), Some(-40));
    assert_eq!(sami_parse_i64_ascii(b"x"), None);
    let mut ms = 9;
    assert_eq!(ffmpeg_rs_sami_parse_start_ms(b"", &mut ms), -2);
    assert_eq!(ms, 9);
    assert_eq!(ffmpeg_rs_sami_parse_start_ms(b"+15", &mut ms), 0);
    assert_eq!(ms, 15);
}

#[test]
fn parses_line() {
    let (off, start, dur) = stl_parse_line(b"00:00:01:02 , 00:00:03:04 , hi").unwrap();
    assert_eq!(start, 102);
    assert_eq!(dur, 202);
    assert_eq!(&b"00:00:01:02 , 00:00:03:04 , hi"[off..], b"hi");
}

#[test]
fn stl_rejects_malformed_lines() {
    assert_eq!(stl_parse_line(b"00:00:01:02, 00:00:03:04 , hi"), None);
    assert_eq!(stl_parse_line(b"00:00:0a:02 , 00:00:03:04 , hi"), None);
    assert_eq!(stl_parse_line(b"00:00:03:04 , 00:00:01:02 , "), Some((28, 304, -202)));
    let (mut off, mut start, mut dur) = (0usize, 0i64, 0i32);
    assert_eq!(ffmpeg_rs_stl_parse_line(b"short", &mut off, &mut start, &mut dur), -2);
    assert_eq!(ffmpeg_rs_stl_parse_line(b"01:00:00:00 , 01:00:00:50 , x", &mut off, &mut start, &mut dur), 0);
    assert_eq!((off, start, dur), (28, 360_000, 50));
}

#[test]
fn subviewer_ts_parses_1_digit_fraction() {
    let (s, d) = parse_subviewer_ts(b"00:00:01.2,00:00:01.3").unwrap();
    assert_eq!(s, 1200);
    assert_eq!(d, 100);
}

#[test]
fn subviewer_ts_parses_3_digit_fraction() {
    let (s, d) = parse_subviewer_ts(b"00:00:01.234,00:00:02.000").unwrap();
    assert_eq!(s, 1234);
    assert_eq!(d, 766);
}

#[test]
fn subviewer1_tag_parses() {
    assert_eq!(parse_subviewer1_tag(b"[1:2:3]"), Some((1, 2, 3)));
}

#[test]
fn subviewer_rejections() {
    assert_eq!(parse_subviewer_ts(b"00:00:01.2345,00:00:02.0"), None);
    assert_eq!(parse_subviewer_ts(b" 00:00:01.25,00:00:02.5"), Some((1250, 1250)));
    assert_eq!(parse_subviewer_ts(b"00:00:01.2 00:00:02.0"), None);
    assert_eq!(parse_subviewer1_tag(b"[1:2:3"), None);
    assert_eq!(parse_subviewer1_tag(b" [-1:+2:3]"), Some((-1, 2, 3)));
    let (mut s, mut d) = (0i64, 0i32);
    assert_eq!(ffmpeg_rs_subviewer_read_ts(b"x", &mut s, &mut d), -2);
    assert_eq!(ffmpeg_rs_subviewer_read_ts(b"0:0:1.5,0:0:2.5", &mut s, &mut d), 0);
    assert_eq!((s, d), (1500, 1000));
    let (mut h, mut m, mut x) = (0i32, 0i32, 0i32);
    assert_eq!(ffmpeg_rs_subviewer1_parse_time(b"[4:5:6]", &mut h, &mut m, &mut x), 1);
    assert_eq!((h, m, x), (4, 5, 6));
    assert_eq!(ffmpeg_rs_subviewer1_parse_time(b"4:5:6", &mut h, &mut m, &mut x), 0);
}

#[test]
fn parses_line_with_end() {
    let txt = b"{12}{34}Hello|World";
    let mut out = FFmpegRsMicrodvdEvent { start_frame: 0, duration_frames: 0, payload_offset: 0, payload_len: 0 };
    let r = ffmpeg_rs_microdvd_parse_line(txt, &mut out);
    assert_eq!(r, 0);
    assert_eq!(out.start_frame, 12);
    assert_eq!(out.duration_frames, 22);
    assert_eq!(&txt[out.payload_offset..out.payload_offset + out.payload_len], b"Hello|World");
}

#[test]
fn parses_line_without_end() {
    let txt = b"{12}{}Hello";
    let mut out = FFmpegRsMicrodvdEvent { start_frame: 0, duration_frames: 0, payload_offset: 0, payload_len: 0 };
    let r = ffmpeg_rs_microdvd_parse_line(txt, &mut out);
    assert_eq!(r, 0);
    assert_eq!(out.start_frame, 12);
    assert_eq!(out.duration_frames, -1);
    assert_eq!(&txt[out.payload_offset..out.payload_offset + out.payload_len], b"Hello");
}

#[test]
fn microdvd_status_codes() {
    let mut out = FFmpegRsMicrodvdEvent { start_frame: 0, duration_frames: 0, payload_offset: 0, payload_len: 0 };
    assert_eq!(ffmpeg_rs_microdvd_parse_line(b"", &mut out), -2);
    assert_eq!(ffmpeg_rs_microdvd_parse_line(b"{12", &mut out), -3);
    assert_eq!(ffmpeg_rs_microdvd_parse_line(b"{}{1}x", &mut out), -4);
    assert_eq!(ffmpeg_rs_microdvd_parse_line(b"{a}{1}x", &mut out), -5);
    assert_eq!(ffmpeg_rs_microdvd_parse_line(b"{1}x", &mut out), -6);
    assert_eq!(ffmpeg_rs_microdvd_parse_line(b"{1}{2", &mut out), -7);
    assert_eq!(ffmpeg_rs_microdvd_parse_line(b"{1}{b}x", &mut out), -9);
    assert_eq!(out.start_frame, 0);
    assert_eq!(ffmpeg_rs_microdvd_parse_line(b"{10}{4}", &mut out), 0);
    assert_eq!(out.duration_frames, -6);
    assert_eq!(out.payload_len, 0);
}

#[test]
fn parses_with_end() {
    let txt = b"[12][34]Hello";
    let mut out = FFmpegRsMpl2Event { start_ticks: 0, duration_ticks: 0, payload_offset: 0, payload_len: 0 };
    let r = ffmpeg_rs_mpl2_parse_line(txt, &mut out);
    assert_eq!(r, 0);
    assert_eq!(out.start_ticks, 12);
    assert_eq!(out.duration_ticks, 22);
    assert_eq!(&txt[out.payload_offset..out.payload_offset + out.payload_len], b"Hello");
}

#[test]
fn parses_without_end() {
    let txt = b"[12][]Hello";
    let mut out = FFmpegRsMpl2Event { start_ticks: 0, duration_ticks: 0, payload_offset: 0, payload_len: 0 };
    let r = ffmpeg_rs_mpl2_parse_line(txt, &mut out);
    assert_eq!(r, 0);
    assert_eq!(out.start_ticks, 12);
    assert_eq!(out.duration_ticks, -1);
}

#[test]
fn mpl2_end_before_start() {
    let mut out = FFmpegRsMpl2Event { start_ticks: 0, duration_ticks: 0, payload_offset: 0, payload_len: 0 };
    assert_eq!(ffmpeg_rs_mpl2_parse_line(b"[30][12]x", &mut out), 0);
    assert_eq!(out.duration_ticks, -1);
    assert_eq!(ffmpeg_rs_mpl2_parse_line(b"[][12]x", &mut out), -4);
    assert_eq!(ffmpeg_rs_mpl2_parse_line(b"[1][x]x", &mut out), -7);
}

#[test]
fn parses_time_with_cs() {
    let txt = b"1:02:03.45:Hello";
    let mut out = FFmpegRsVplayerEvent { start_cs: 0, payload_offset: 0, payload_len: 0 };
    let r = ffmpeg_rs_vplayer_parse_line(txt, &mut out);
    assert_eq!(r, 0);
    assert_eq!(out.start_cs, (1 * 3600 + 2 * 60 + 3) * 100 + 45);
    assert_eq!(&txt[out.payload_offset..out.payload_offset + out.payload_len], b"Hello");
}

#[test]
fn parses_time_without_cs() {
    let txt = b"0:00:01 Hello";
    let mut out = FFmpegRsVplayerEvent { start_cs: 0, payload_offset: 0, payload_len: 0 };
    let r = ffmpeg_rs_vplayer_parse_line(txt, &mut out);
    assert_eq!(r, 0);
    assert_eq!(out.start_cs, 100);
    assert_eq!(&txt[out.payload_offset..out.payload_offset + out.payload_len], b"Hello");
}

#[test]
fn vplayer_fraction_forms() {
    let mut out = FFmpegRsVplayerEvent { start_cs: 0, payload_offset: 0, payload_len: 0 };
    assert_eq!(ffmpeg_rs_vplayer_parse_line(b"0:00:01.5=x", &mut out), 0);
    assert_eq!(out.start_cs, 150);
    assert_eq!(ffmpeg_rs_vplayer_parse_line(b"0:00:01.999 x", &mut out), 0);
    assert_eq!(out.start_cs, 199);
    assert_eq!(ffmpeg_rs_vplayer_parse_line(b"0:00:01.5x", &mut out), -7);
    assert_eq!(ffmpeg_rs_vplayer_parse_line(b"x", &mut out), -2);
    assert_eq!(ffmpeg_rs_vplayer_parse_line(b"0", &mut out), -3);
    assert_eq!(ffmpeg_rs_vplayer_parse_line(b"0:", &mut out), -4);
    assert_eq!(ffmpeg_rs_vplayer_parse_line(b"0:1", &mut out), -5);
    assert_eq!(ffmpeg_rs_vplayer_parse_line(b"0:1:", &mut out), -6);
    assert_eq!(out.start_cs, 199);
}
