//! SAMI: the start time of a `<SYNC Start=...>` tag, in milliseconds.
use vstd::prelude::*;
use crate::scan::{parse_signed_i64, signed_sat, skip_spaces, space_run};

verus! {

broadcast use vstd::slice::group_slice_axioms;

/// The signed integer after any white space at the start of `s`.
pub open spec fn start_ms_of(s: Seq<u8>) -> Option<int> {
    match signed_sat(s.subrange(space_run(s, 0) as int, s.len() as int)) {
        Some((v, _)) => Some(v),
        None => None,
    }
}

/// Reads the signed integer after any leading white space; see
/// [`start_ms_of`].
pub fn parse_i64_ascii(s: &[u8]) -> (r: Option<i64>)
    ensures
        r is None <==> start_ms_of(s@) is None,
        r matches Some(v) ==> start_ms_of(s@) == Some(v as int),
{
    let j = skip_spaces(s, 0);
    match parse_signed_i64(&s[j..s.len()]) {
        Some((v, _)) => Some(v),
        None => None,
    }
}

/// Reads a start time into `out_ms`; returns 0, or -2 and leaves `out_ms`
/// alone when there is no number.
pub fn ffmpeg_rs_sami_parse_start_ms(s: &[u8], out_ms: &mut i64) -> (r: i32)
    ensures
        start_ms_of(s@) matches Some(v) ==> r == 0 && *final(out_ms) == v,
        start_ms_of(s@) is None ==> r == -2 && *final(out_ms) == *old(out_ms),
{
    match parse_i64_ascii(s) {
        Some(v) => {
            *out_ms = v;
            0
        },
        None => -2,
    }
}

} // verus!
