//! TTML: the codec extradata written by the TTML encoder, a signature
//! followed either by nothing or by two NUL-terminated strings.
use vstd::prelude::*;
use crate::scan::{has_prefix, index_of, index_of_from, matches_at, occurs_at};

verus! {

broadcast use vstd::slice::group_slice_axioms;

/// What the extradata holds: the default set-up, or the offsets of the
/// `tt` element's parameters and of the elements before the body.
#[derive(Copy, Clone, Debug)]
pub struct FFmpegRsTtmlExtradataParseResult {
    pub is_paragraph_mode: i32,
    pub is_default: i32,
    pub tt_params_offset: usize,
    pub pre_body_offset: usize,
}

/// The signature `lavc-ttmlenc`.
pub open spec fn signature() -> Seq<u8> {
    seq![
        ('l' as u8), ('a' as u8), ('v' as u8), ('c' as u8), ('-' as u8), ('t' as u8), ('t' as u8),
        ('m' as u8), ('l' as u8), ('e' as u8), ('n' as u8), ('c' as u8)
    ]
}

fn signature_bytes() -> (r: [u8; 12])
    ensures
        r@ == signature(),
{
    let r: [u8; 12] = [
        ('l' as u8), ('a' as u8), ('v' as u8), ('c' as u8), ('-' as u8), ('t' as u8), ('t' as u8),
        ('m' as u8), ('l' as u8), ('e' as u8), ('n' as u8), ('c' as u8),
    ];
    assert(r@ =~= signature());
    r
}

/// The reading of the extradata, or the status that says what is wrong:
/// -2 no signature, -3 the first string has no NUL, -4 it is empty, -5
/// nothing follows it, -6 the second has no NUL, -7 it is empty.
pub open spec fn ttml_extradata(d: Seq<u8>) -> Result<FFmpegRsTtmlExtradataParseResult, i32> {
    let tt_nul = index_of_from(d, 0, 12);
    let pre_nul = index_of_from(d, 0, tt_nul + 1);
    if !has_prefix(d, signature()) {
        Err(-2i32)
    } else if d.len() == 12 {
        Ok(
            FFmpegRsTtmlExtradataParseResult {
                is_paragraph_mode: 1,
                is_default: 1,
                tt_params_offset: 0,
                pre_body_offset: 0,
            },
        )
    } else if tt_nul >= d.len() {
        Err(-3i32)
    } else if tt_nul == 12 {
        Err(-4i32)
    } else if tt_nul + 1 >= d.len() {
        Err(-5i32)
    } else if pre_nul >= d.len() {
        Err(-6i32)
    } else if pre_nul == tt_nul + 1 {
        Err(-7i32)
    } else {
        Ok(
            FFmpegRsTtmlExtradataParseResult {
                is_paragraph_mode: 1,
                is_default: 0,
                tt_params_offset: 12,
                pre_body_offset: (tt_nul + 1) as usize,
            },
        )
    }
}

/// Reads the extradata into `out`; returns 0, or a negative status (see
/// [`ttml_extradata`]) and leaves `out` alone.
pub fn ffmpeg_rs_ttml_parse_extradata(
    extradata: &[u8],
    out: &mut FFmpegRsTtmlExtradataParseResult,
) -> (r: i32)
    ensures
        ttml_extradata(extradata@) matches Ok(v) ==> r == 0 && *final(out) == v,
        ttml_extradata(extradata@) matches Err(code) ==> r == code && *final(out) == *old(out),
{
    let data = extradata;
    let sig = signature_bytes();
    let sig = sig.as_slice();
    let has_sig = matches_at(data, sig, 0);
    proof {
        if data@.len() >= 12 {
            assert(occurs_at(data@, signature(), 0) == has_prefix(data@, signature()));
        }
    }
    if !has_sig {
        return -2;
    }
    if data.len() == 12 {
        *out = FFmpegRsTtmlExtradataParseResult {
            is_paragraph_mode: 1,
            is_default: 1,
            tt_params_offset: 0,
            pre_body_offset: 0,
        };
        return 0;
    }
    let tt_nul = index_of(data, 0, 12);
    if tt_nul >= data.len() {
        return -3;
    }
    if tt_nul == 12 {
        return -4;
    }
    if tt_nul + 1 >= data.len() {
        return -5;
    }
    let pre_nul = index_of(data, 0, tt_nul + 1);
    if pre_nul >= data.len() {
        return -6;
    }
    if pre_nul == tt_nul + 1 {
        return -7;
    }
    *out = FFmpegRsTtmlExtradataParseResult {
        is_paragraph_mode: 1,
        is_default: 0,
        tt_params_offset: 12,
        pre_body_offset: tt_nul + 1,
    };
    0
}

} // verus!
