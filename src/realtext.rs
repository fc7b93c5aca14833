//! RealText: a `begin`/`end` attribute value, `[[hh:]mm:]ss[.cc]`, in
//! centiseconds.
use vstd::prelude::*;
use crate::scan::{
    digit_run, digits_sat_i64, field_at, lemma_digit_run_bounds, sat, sat_add_i64, sat_mul_i64,
    skip_spaces, space_run,
};

verus! {

broadcast use vstd::slice::group_slice_axioms;

/// The time in centiseconds of `s0` after any white space: `hh:mm:ss`,
/// `mm:ss` or `ss`, each with an optional `.cc`. Every field needs a digit;
/// fields saturate at `i64::MAX`, and so does every step of the sum.
pub open spec fn realtext_cs(s0: Seq<u8>) -> Option<int> {
    let s = s0.subrange(space_run(s0, 0) as int, s0.len() as int);
    let a = field_at(s, 0);
    let i = digit_run(s, 0) as int;
    let b = field_at(s, i + 1);
    let i2 = i + 1 + digit_run(s, i + 1);
    let c = field_at(s, i2 + 1);
    let i3 = i2 + 1 + digit_run(s, i2 + 1);
    if s.len() == 0 || i == 0 {
        None
    } else if i < s.len() && s[i] == (':' as u8) {
        if digit_run(s, i + 1) == 0 {
            None
        } else if i2 < s.len() && s[i2] == (':' as u8) {
            let hms = sat(sat(sat(a * 3600) + sat(b * 60)) + c);
            if digit_run(s, i2 + 1) == 0 {
                None
            } else if i3 < s.len() && s[i3] == ('.' as u8) {
                if digit_run(s, i3 + 1) == 0 {
                    None
                } else {
                    Some(sat(sat(hms * 100) + field_at(s, i3 + 1)))
                }
            } else {
                Some(sat(hms * 100))
            }
        } else if i2 < s.len() && s[i2] == ('.' as u8) {
            if digit_run(s, i2 + 1) == 0 {
                None
            } else {
                Some(sat(sat(sat(sat(a * 60) + b) * 100) + field_at(s, i2 + 1)))
            }
        } else {
            Some(sat(sat(sat(a * 60) + b) * 100))
        }
    } else if i < s.len() && s[i] == ('.' as u8) {
        if digit_run(s, i + 1) == 0 {
            None
        } else {
            Some(sat(sat(a * 100) + field_at(s, i + 1)))
        }
    } else {
        Some(sat(a * 100))
    }
}

/// Reads a time; see [`realtext_cs`].
pub fn parse_time_to_cs(s0: &[u8]) -> (r: Option<i64>)
    ensures
        r is None <==> realtext_cs(s0@) is None,
        r matches Some(v) ==> realtext_cs(s0@) == Some(v as int),
{
    let j = skip_spaces(s0, 0);
    let s = &s0[j..s0.len()];
    if s.len() == 0 {
        return None;
    }
    let (a, i) = digits_sat_i64(s, 0);
    proof {
        lemma_digit_run_bounds(s@, 0);
    }
    if i == 0 {
        return None;
    }
    if i < s.len() && s[i] == (':' as u8) {
        let (b, n) = digits_sat_i64(s, i + 1);
        proof {
            lemma_digit_run_bounds(s@, i + 1);
        }
        if n == 0 {
            return None;
        }
        let i2 = i + 1 + n;
        if i2 < s.len() && s[i2] == (':' as u8) {
            let (c, n) = digits_sat_i64(s, i2 + 1);
            proof {
                lemma_digit_run_bounds(s@, i2 + 1);
            }
            if n == 0 {
                return None;
            }
            let i3 = i2 + 1 + n;
            let hms = sat_add_i64(sat_add_i64(sat_mul_i64(a, 3600), sat_mul_i64(b, 60)), c);
            if i3 < s.len() && s[i3] == ('.' as u8) {
                let (ms, n) = digits_sat_i64(s, i3 + 1);
                if n == 0 {
                    return None;
                }
                return Some(sat_add_i64(sat_mul_i64(hms, 100), ms));
            }
            return Some(sat_mul_i64(hms, 100));
        }
        let ms_total = sat_mul_i64(sat_add_i64(sat_mul_i64(a, 60), b), 100);
        if i2 < s.len() && s[i2] == ('.' as u8) {
            let (ms, n) = digits_sat_i64(s, i2 + 1);
            if n == 0 {
                return None;
            }
            return Some(sat_add_i64(ms_total, ms));
        }
        return Some(ms_total);
    }
    if i < s.len() && s[i] == ('.' as u8) {
        let (ms, n) = digits_sat_i64(s, i + 1);
        if n == 0 {
            return None;
        }
        return Some(sat_add_i64(sat_mul_i64(a, 100), ms));
    }
    Some(sat_mul_i64(a, 100))
}

/// Reads a time into `out_cs`; returns 0, or -2 and leaves `out_cs` alone.
pub fn ffmpeg_rs_realtext_read_ts(s: &[u8], out_cs: &mut i64) -> (r: i32)
    ensures
        realtext_cs(s@) matches Some(v) ==> r == 0 && *final(out_cs) == v,
        realtext_cs(s@) is None ==> r == -2 && *final(out_cs) == *old(out_cs),
{
    match parse_time_to_cs(s) {
        Some(v) => {
            *out_cs = v;
            0
        },
        None => -2,
    }
}

} // verus!
