//! Allocation-free scanners for media playlists and subtitle formats.
//!
//! Every scanner reads a caller-owned byte buffer and reports what it found
//! as integers and `(offset, length)` spans into that buffer; outputs go
//! into caller-sized buffers, with counts that stay exact when they
//! overflow.
//!
//! - [`hls`]: HLS playlists, as records or as an event stream, lenient or
//!   strict; [`hls_laws`] states and proves their general properties.
//! - [`hlswriter`]: the opening lines of a playlist.
//! - Subtitle cue timing: [`ass`], [`jacosub`], [`lrc`], [`microdvd`],
//!   [`mpl2`], [`mpsub`], [`pjs`], [`realtext`], [`sami`], [`stl`],
//!   [`subrip`], [`subviewer`], [`vplayer`], [`webvtt`].
//! - Caption bytes: [`scc`], [`mcc`]; codec data: [`ttml`], [`id3v2`].
//! - Small text formats: [`concat`], [`data_uri`], [`ffmetadata`],
//!   [`util_parse`], with [`token`] shared by the tokenizers.
//! - [`scan`]: digit runs, searches and saturating arithmetic that the
//!   scanners share; [`ffi`]: helpers for C callers.
use vstd::prelude::*;

pub mod ass;
pub mod concat;
pub mod data_uri;
pub mod ffi;
pub mod ffmetadata;
pub mod hls;
pub mod hls_laws;
pub mod hlswriter;
pub mod id3v2;
pub mod jacosub;
pub mod lrc;
pub mod mcc;
pub mod microdvd;
pub mod mpl2;
pub mod mpsub;
pub mod pjs;
pub mod realtext;
pub mod sami;
pub mod scan;
pub mod scc;
pub mod stl;
pub mod subrip;
pub mod subviewer;
pub mod token;
pub mod ttml;
pub mod util_parse;
pub mod vplayer;
pub mod webvtt;

verus! {

} // verus!
