//! MPSub: a cue line of two decimal values, the start and the duration in
//! seconds, read in units of 100 ns.
use vstd::prelude::*;
use crate::scan::{
    cap, clamp, dec_value, digit_run, digits_at, digits_sat_u64, lemma_digit_run_bounds,
    lemma_pow10_pos, parse_signed_i64, pow10, sat_add_i64, sat_sub_i64, signed_sat, skip_spaces,
    space_run,
};

verus! {

broadcast use vstd::slice::group_slice_axioms;

/// Units of the result per second.
pub const TSBASE: i64 = 10_000_000;

/// The fraction digits `d`, scaled to seven digits: padded when shorter,
/// divided down (by a saturated power of ten) when longer. `f` is their
/// saturated value.
pub open spec fn scale7(f: int, nd: nat) -> int {
    if nd < 7 {
        f * pow10((7 - nd) as nat)
    } else if nd > 7 {
        f / cap(pow10((nd - 7) as nat) as int, u64::MAX as int)
    } else {
        f
    }
}

/// One value after optional white space: a signed integer of at most
/// `922337203685` in magnitude, scaled by [`TSBASE`], then an optional
/// `.` with at least one digit. The fraction is added when the scaled
/// integer is positive and subtracted otherwise. The value and the bytes
/// read.
pub open spec fn mpsub_value(s: Seq<u8>) -> Option<(int, int)> {
    let j = space_run(s, 0) as int;
    let t = s.subrange(j, s.len() as int);
    match signed_sat(t) {
        None => None,
        Some((iv, u)) => if iv < -922337203685 || iv > 922337203685 {
            None
        } else {
            let v = iv * 10_000_000;
            if u < t.len() && t[u] == ('.' as u8) {
                let nd = digit_run(t, u + 1);
                let f = cap(dec_value(digits_at(t, u + 1)) as int, u64::MAX as int);
                let fr = cap(scale7(f, nd), i64::MAX as int);
                if nd == 0 {
                    None
                } else if v > 0 {
                    Some((clamp(v + fr, i64::MIN as int, i64::MAX as int), j + u + 1 + nd))
                } else {
                    Some((clamp(v - fr, i64::MIN as int, i64::MAX as int), j + u + 1 + nd))
                }
            } else {
                Some((v, j + u))
            }
        },
    }
}

/// The two values of a cue line.
pub open spec fn mpsub_line(s: Seq<u8>) -> Option<(int, int)> {
    match mpsub_value(s) {
        None => None,
        Some((a, u)) => match mpsub_value(s.subrange(u, s.len() as int)) {
            None => None,
            Some((b, _)) => Some((a, b)),
        },
    }
}

/// Ten to the power `n`, saturated at `u64::MAX`.
pub fn pow10_u64(n: usize) -> (r: u64)
    ensures
        r == cap(pow10(n as nat) as int, u64::MAX as int),
        r >= 1,
{
    let mut v: u64 = 1;
    let mut k: usize = 0;
    while k < n
        invariant
            k <= n,
            v == cap(pow10(k as nat) as int, u64::MAX as int),
            v >= 1,
        decreases n - k,
    {
        proof {
            assert(pow10((k + 1) as nat) == 10 * pow10(k as nat));
        }
        v = match v.checked_mul(10) {
            Some(m) => m,
            None => u64::MAX,
        };
        k = k + 1;
    }
    v
}

/// Reads one value; see [`mpsub_value`].
pub fn parse_one(s: &[u8]) -> (r: Option<(i64, usize)>)
    ensures
        r is None <==> mpsub_value(s@) is None,
        r matches Some((v, n)) ==> mpsub_value(s@) == Some((v as int, n as int)) && n <= s@.len(),
{
    let j = skip_spaces(s, 0);
    let t = &s[j..s.len()];
    let (intval, used_int) = match parse_signed_i64(t) {
        Some(p) => p,
        None => return None,
    };
    if intval < i64::MIN / TSBASE || intval > i64::MAX / TSBASE {
        return None;
    }
    let mut v = intval * TSBASE;
    if used_int < t.len() && t[used_int] == ('.' as u8) {
        let (frac, used_frac) = digits_sat_u64(t, used_int + 1);
        proof {
            lemma_digit_run_bounds(t@, used_int + 1);
        }
        if used_frac == 0 {
            return None;
        }
        let scaled: u64 = if used_frac < 7 {
            proof {
                assert(pow10((7 - used_frac) as nat) <= 1_000_000) by {
                    reveal_with_fuel(pow10, 8);
                }
                assert(dec_value(digits_at(t@, used_int + 1)) < pow10(used_frac as nat)) by {
                    lemma_digits_below_pow10(digits_at(t@, used_int + 1));
                }
                assert(pow10(used_frac as nat) * pow10((7 - used_frac) as nat) == pow10(7)) by {
                    lemma_pow10_add(used_frac as nat, (7 - used_frac) as nat);
                }
                assert(pow10(7) == 10_000_000) by {
                    reveal_with_fuel(pow10, 8);
                }
                lemma_pow10_pos((7 - used_frac) as nat);
                assert(frac * pow10((7 - used_frac) as nat) < 10_000_000) by (nonlinear_arith)
                    requires
                        frac < pow10(used_frac as nat),
                        pow10(used_frac as nat) * pow10((7 - used_frac) as nat) == 10_000_000,
                        pow10((7 - used_frac) as nat) >= 1;
            }
            frac * pow10_u64(7 - used_frac)
        } else if used_frac > 7 {
            frac / pow10_u64(used_frac - 7)
        } else {
            frac
        };
        let frac_i64: i64 = if scaled > i64::MAX as u64 { i64::MAX } else { scaled as i64 };
        if v > 0 {
            v = sat_add_i64(v, frac_i64);
        } else {
            v = sat_sub_i64(v, frac_i64);
        }
        return Some((v, j + used_int + 1 + used_frac));
    }
    Some((v, j + used_int))
}

/// Ten to a sum is the product of the powers.
pub proof fn lemma_pow10_add(a: nat, b: nat)
    ensures
        pow10(a) * pow10(b) == pow10(a + b),
    decreases a,
{
    if a == 0 {
        assert(pow10(0) == 1);
    } else {
        lemma_pow10_add((a - 1) as nat, b);
        assert(pow10(a + b) == 10 * pow10((a - 1 + b) as nat));
        assert(pow10(a) * pow10(b) == 10 * (pow10((a - 1) as nat) * pow10(b))) by (nonlinear_arith)
            requires pow10(a) == 10 * pow10((a - 1) as nat);
    }
}

/// A run of `n` digits is worth less than ten to the `n`.
pub proof fn lemma_digits_below_pow10(d: Seq<u8>)
    requires
        forall|i: int| 0 <= i < d.len() ==> #[trigger] d[i] <= ('9' as u8) && d[i] >= ('0' as u8),
    ensures
        dec_value(d) < pow10(d.len()),
    decreases d.len(),
{
    if d.len() > 0 {
        let p = d.drop_last();
        assert forall|i: int| 0 <= i < p.len() implies #[trigger] p[i] <= ('9' as u8) && p[i] >= (
        '0' as u8) by {
            assert(p[i] == d[i]);
        }
        lemma_digits_below_pow10(p);
        assert(pow10(d.len()) == 10 * pow10(p.len()));
        assert(dec_value(d) == dec_value(p) * 10 + (d.last() - 0x30));
        assert(dec_value(p) * 10 + 9 < 10 * pow10(p.len())) by (nonlinear_arith)
            requires dec_value(p) < pow10(p.len());
    }
}

/// Reads a cue line's two values; see [`mpsub_line`].
pub fn parse_line(line: &[u8]) -> (r: Option<(i64, i64)>)
    ensures
        r is None <==> mpsub_line(line@) is None,
        r matches Some((a, b)) ==> mpsub_line(line@) == Some((a as int, b as int)),
{
    let (a, used) = match parse_one(line) {
        Some(p) => p,
        None => return None,
    };
    let (b, _) = match parse_one(&line[used..line.len()]) {
        Some(p) => p,
        None => return None,
    };
    Some((a, b))
}

/// Reads a cue line into the two outputs; returns 0, or -2 and leaves them
/// alone.
pub fn ffmpeg_rs_mpsub_parse_line(line: &[u8], out_start: &mut i64, out_duration: &mut i64) -> (r: i32)
    ensures
        mpsub_line(line@) matches Some((a, b)) ==> r == 0 && *final(out_start) == a
            && *final(out_duration) == b,
        mpsub_line(line@) is None ==> r == -2 && *final(out_start) == *old(out_start)
            && *final(out_duration) == *old(out_duration),
{
    match parse_line(line) {
        Some((a, b)) => {
            *out_start = a;
            *out_duration = b;
            0
        },
        None => -2,
    }
}

} // verus!
