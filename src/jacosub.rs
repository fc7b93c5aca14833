//! JACOsub: the `#SHIFT` directive and the two forms of cue timing,
//! `h:m:s.f h:m:s.f` and `@start @end`, in frames of the script's time
//! resolution.
use vstd::prelude::*;
use crate::scan::{
    cap, dec_value, field_at, field_end, sat, digit_run, digits_at, digits_sat_i64,
    digits_sat_u64, lemma_digit_run_bounds, sat_add_i64, sat_mul_i64, sat_sub_i64, skip_spaces,
    space_run,
};

verus! {

broadcast use vstd::slice::group_slice_axioms;

/// A signed integer at the start of `s`: an optional `+` or `-`, then at
/// least one digit, its magnitude at most `i64::MAX`. The value and the
/// bytes read.
pub open spec fn signed_field(s: Seq<u8>) -> Option<(int, int)> {
    if s.len() == 0 {
        None
    } else {
        let a: int = if s[0] == ('+' as u8) || s[0] == ('-' as u8) { 1 } else { 0 };
        let v = dec_value(digits_at(s, a));
        if digit_run(s, a) == 0 || v > i64::MAX {
            None
        } else {
            Some((if s[0] == ('-' as u8) { -v } else { v as int }, a + digit_run(s, a)))
        }
    }
}

/// The fields of a shift, read from `i` on and appended to `acc`: up to
/// four signed integers, each followed by one `.` or `:` when another
/// comes. `None` when a field lies outside `i32`.
pub open spec fn shift_fields(t: Seq<u8>, i: int, acc: Seq<int>) -> Option<Seq<int>>
    decreases t.len() - i,
{
    if i < 0 || i >= t.len() || acc.len() >= 4 {
        Some(acc)
    } else {
        match signed_field(t.subrange(i, t.len() as int)) {
            None => Some(acc),
            Some((v, used)) => if v < i32::MIN || v > i32::MAX {
                None
            } else if used <= 0 {
                Some(acc.push(v))
            } else {
                let k = i + used;
                if k < t.len() && (t[k] == ('.' as u8) || t[k] == (':' as u8)) {
                    shift_fields(t, k + 1, acc.push(v))
                } else {
                    Some(acc.push(v))
                }
            },
        }
    }
}

/// The absolute value.
pub open spec fn abs(v: int) -> int {
    if v < 0 { -v } else { v }
}

/// A shift in frames from its fields: `[[[h:]m:]s.]d`, where a single field
/// counts as no shift. The sign comes from a leading `-` or a negative first
/// field. 0 when the value or an intermediate product leaves its range.
pub open spec fn shift_of(t: Seq<u8>, vals: Seq<int>, timeres: int) -> int {
    if vals.len() == 0 || vals[0] == i32::MIN || timeres == 0 {
        0
    } else {
        let neg = t[0] == ('-' as u8) || vals[0] < 0;
        let h0 = abs(vals[0]);
        let h = if vals.len() == 4 { h0 } else { 0 };
        let m = if vals.len() == 3 { h0 } else if vals.len() == 4 { vals[1] } else { 0 };
        let s = if vals.len() == 2 { h0 } else if vals.len() == 3 { vals[1] } else if vals.len()
            == 4 { vals[2] } else { 0 };
        let d = if vals.len() == 1 { 0 } else { vals[vals.len() - 1] };
        let base = h * 3600 + m * 60 + s;
        if abs(base) > (i64::MAX - abs(d)) / timeres {
            0
        } else {
            let ret = if neg { -(base * timeres + d) } else { base * timeres + d };
            if ret < i32::MIN || ret > i32::MAX { 0 } else { ret }
        }
    }
}

/// The `#SHIFT` value of `text` in frames; 0 when there is none.
pub open spec fn shift_value(text: Seq<u8>, timeres: int) -> int {
    let t = text.subrange(space_run(text, 0) as int, text.len() as int);
    if t.len() == 0 {
        0
    } else {
        match shift_fields(t, 0, Seq::empty()) {
            None => 0,
            Some(vals) => shift_of(t, vals, timeres),
        }
    }
}

/// The digit run at `i`, saturated at `u64::MAX`, and its length.
pub fn parse_u64_ascii(s: &[u8]) -> (r: Option<(u64, usize)>)
    ensures
        r is None <==> digit_run(s@, 0) == 0,
        r matches Some((v, n)) ==> v == cap(dec_value(digits_at(s@, 0)) as int, u64::MAX as int)
            && n == digit_run(s@, 0),
{
    let (v, n) = digits_sat_u64(s, 0);
    if n == 0 {
        None
    } else {
        Some((v, n))
    }
}

/// Reads a signed field; see [`signed_field`].
pub fn parse_i64_ascii(s: &[u8]) -> (r: Option<(i64, usize)>)
    ensures
        r is None <==> signed_field(s@) is None,
        r matches Some((v, n)) ==> signed_field(s@) == Some((v as int, n as int)),
{
    if s.len() == 0 {
        return None;
    }
    let a: usize = if s[0] == ('+' as u8) || s[0] == ('-' as u8) { 1 } else { 0 };
    let (v, n) = digits_sat_u64(s, a);
    proof {
        lemma_digit_run_bounds(s@, a as int);
    }
    if n == 0 || v > i64::MAX as u64 {
        return None;
    }
    let v = v as i64;
    Some((if s[0] == ('-' as u8) { -v } else { v }, a + n))
}

/// The magnitude of `v`, which always fits `u128`.
pub fn abs_i64_to_u128(v: i64) -> (r: u128)
    ensures
        r == abs(v as int),
{
    let v128 = v as i128;
    if v128 < 0 {
        (-v128) as u128
    } else {
        v128 as u128
    }
}

/// Reads up to four shift fields from `t`; see [`shift_fields`].
fn read_shift_fields(t: &[u8]) -> (r: Option<Vec<i64>>)
    ensures
        r is None <==> shift_fields(t@, 0, Seq::empty()) is None,
        r matches Some(v) ==> shift_fields(t@, 0, Seq::empty()) == Some(
            v@.map_values(|x: i64| x as int),
        ),
        r matches Some(v) ==> v@.len() <= 4 && forall|k: int|
            0 <= k < v@.len() ==> i32::MIN <= #[trigger] v@[k] <= i32::MAX,
{
    let mut vals: Vec<i64> = Vec::new();
    let mut i: usize = 0;
    assert(vals@.map_values(|x: i64| x as int) =~= Seq::<int>::empty());
    while i < t.len() && vals.len() < 4
        invariant_except_break
            i <= t@.len(),
            vals@.len() <= 4,
            forall|k: int| 0 <= k < vals@.len() ==> i32::MIN <= #[trigger] vals@[k] <= i32::MAX,
            shift_fields(t@, i as int, vals@.map_values(|x: i64| x as int)) == shift_fields(
                t@,
                0,
                Seq::empty(),
            ),
        ensures
            shift_fields(t@, 0, Seq::empty()) == Some(vals@.map_values(|x: i64| x as int)),
            vals@.len() <= 4,
            forall|k: int| 0 <= k < vals@.len() ==> i32::MIN <= #[trigger] vals@[k] <= i32::MAX,
        decreases t@.len() - i,
    {
        let rest = &t[i..t.len()];
        let (v, used) = match parse_i64_ascii(rest) {
            Some(p) => p,
            None => break,
        };
        if v < i32::MIN as i64 || v > i32::MAX as i64 {
            return None;
        }
        proof {
            assert(vals@.push(v).map_values(|x: i64| x as int) =~= vals@.map_values(
                |x: i64| x as int,
            ).push(v as int));
            lemma_digit_run_bounds(rest@, 0);
            lemma_digit_run_bounds(rest@, 1);
        }
        vals.push(v);
        i = i + used;
        if i < t.len() && (t[i] == ('.' as u8) || t[i] == (':' as u8)) {
            i = i + 1;
        } else {
            break;
        }
    }
    proof {
        if !(i < t@.len() && vals@.len() < 4) {
        }
    }
    Some(vals)
}

/// The `#SHIFT` value of `text` in frames; see [`shift_value`].
pub fn parse_shift_like_c(text: &[u8], timeres: u32) -> (r: i32)
    ensures
        r == shift_value(text@, timeres as int),
{
    let j = skip_spaces(text, 0);
    let t = &text[j..text.len()];
    if t.len() == 0 {
        return 0;
    }
    let vals = match read_shift_fields(t) {
        Some(v) => v,
        None => return 0,
    };
    let n = vals.len();
    proof {
        assert(vals@.map_values(|x: i64| x as int).len() == n);
    }
    if n == 0 || vals[0] == i32::MIN as i64 || timeres == 0 {
        return 0;
    }
    let neg = t[0] == ('-' as u8) || vals[0] < 0;
    let h0: i64 = if vals[0] < 0 { -vals[0] } else { vals[0] };
    let h: i64 = if n == 4 { h0 } else { 0 };
    let m: i64 = if n == 3 { h0 } else if n == 4 { vals[1] } else { 0 };
    let s: i64 = if n == 2 { h0 } else if n == 3 { vals[1] } else if n == 4 { vals[2] } else { 0 };
    let d: i64 = if n == 1 { 0 } else { vals[n - 1] };
    let base: i64 = h * 3600 + m * 60 + s;
    let abs_base = abs_i64_to_u128(base);
    let abs_d = abs_i64_to_u128(d);
    let tr = timeres as u128;
    if abs_base > (i64::MAX as u128 - abs_d) / tr {
        return 0;
    }
    proof {
        assert(abs_base * tr <= i64::MAX - abs_d) by (nonlinear_arith)
            requires abs_base <= (i64::MAX - abs_d) / (tr as int), tr > 0, abs_d <= i64::MAX;
        assert(abs(base * tr) == abs_base * tr) by (nonlinear_arith)
            requires abs_base == abs(base as int), tr > 0;
    }
    let x: i64 = base * (timeres as i64) + d;
    let ret: i64 = if neg { -x } else { x };
    if ret < i32::MIN as i64 || ret > i32::MAX as i64 {
        return 0;
    }
    ret as i32
}

/// Truncating division of `x` by a positive `t`.
pub open spec fn trunc_div(x: int, t: int) -> int {
    if x >= 0 { x / t } else { -((-x) / t) }
}

/// Frames to centiseconds: `(ts + shift) * 100 / timeres`, each step
/// saturating, the division truncating.
pub open spec fn frames_to_cs(ts: int, shift: int, timeres: int) -> int {
    trunc_div(sat(sat(ts + shift) * 100), timeres)
}

/// A time `h:m:s.f` in frames, each step saturating.
pub open spec fn frames_of(h: int, m: int, s: int, f: int, timeres: int) -> int {
    sat(sat(sat(sat(sat(h * 3600) + sat(m * 60)) + s) * timeres) + f)
}

/// `i` moved past the white space there.
pub open spec fn past_space(s: Seq<u8>, i: int) -> int {
    i + space_run(s, i)
}

/// `h:m:s.f` at `i`: the four fields and the index after them, or `None`.
pub open spec fn clock_at(s: Seq<u8>, i: int) -> Option<(int, int, int, int, int)> {
    let e1 = field_end(s, i);
    let e2 = field_end(s, e1 + 1);
    let e3 = field_end(s, e2 + 1);
    let e4 = field_end(s, e3 + 1);
    if digit_run(s, i) == 0 || e1 >= s.len() || s[e1] != (':' as u8) {
        None
    } else if digit_run(s, e1 + 1) == 0 || e2 >= s.len() || s[e2] != (':' as u8) {
        None
    } else if digit_run(s, e2 + 1) == 0 || e3 >= s.len() || s[e3] != ('.' as u8) {
        None
    } else if digit_run(s, e3 + 1) == 0 {
        None
    } else {
        Some(
            (field_at(s, i), field_at(s, e1 + 1), field_at(s, e2 + 1), field_at(s, e3 + 1), e4),
        )
    }
}

/// The timing `h:m:s.f h:m:s.f` in frames: start, end and the bytes read,
/// trailing white space included.
pub open spec fn timed_of(s: Seq<u8>, timeres: int) -> Option<(int, int, int)> {
    match clock_at(s, 0) {
        None => None,
        Some((h1, m1, s1, f1, e)) => match clock_at(s, past_space(s, e)) {
            None => None,
            Some((h2, m2, s2, f2, e2)) => Some(
                (
                    frames_of(h1, m1, s1, f1, timeres),
                    frames_of(h2, m2, s2, f2, timeres),
                    past_space(s, e2),
                ),
            ),
        },
    }
}

/// The timing `@start @end` in frames: start, end and the bytes read.
pub open spec fn at_of(s: Seq<u8>) -> Option<(int, int, int)> {
    let e1 = field_end(s, 1);
    let b2 = past_space(s, e1);
    let e2 = field_end(s, b2 + 1);
    if s.len() == 0 || s[0] != ('@' as u8) || digit_run(s, 1) == 0 {
        None
    } else if b2 >= s.len() || s[b2] != ('@' as u8) || digit_run(s, b2 + 1) == 0 {
        None
    } else {
        Some((field_at(s, 1), field_at(s, b2 + 1), past_space(s, e2)))
    }
}

/// Reads `h:m:s.f` at `i`; see [`clock_at`].
fn read_clock(s: &[u8], i: usize) -> (r: Option<(i64, i64, i64, i64, usize)>)
    requires
        i <= s@.len(),
    ensures
        r is None <==> clock_at(s@, i as int) is None,
        r matches Some((h, m, sec, f, e)) ==> clock_at(s@, i as int) == Some(
            (h as int, m as int, sec as int, f as int, e as int),
        ),
        r matches Some((h, m, sec, f, e)) ==> e <= s@.len() && 0 <= h && 0 <= m && 0 <= sec
            && 0 <= f,
{
    let (h, n) = digits_sat_i64(s, i);
    proof {
        lemma_digit_run_bounds(s@, i as int);
        assert(s@.len() == s.len());
    }
    let e1 = i + n;
    if n == 0 || e1 >= s.len() || s[e1] != (':' as u8) {
        return None;
    }
    let (m, n) = digits_sat_i64(s, e1 + 1);
    proof { lemma_digit_run_bounds(s@, e1 + 1); }
    let e2 = e1 + 1 + n;
    if n == 0 || e2 >= s.len() || s[e2] != (':' as u8) {
        return None;
    }
    let (sec, n) = digits_sat_i64(s, e2 + 1);
    proof { lemma_digit_run_bounds(s@, e2 + 1); }
    let e3 = e2 + 1 + n;
    if n == 0 || e3 >= s.len() || s[e3] != ('.' as u8) {
        return None;
    }
    let (f, n) = digits_sat_i64(s, e3 + 1);
    proof { lemma_digit_run_bounds(s@, e3 + 1); }
    if n == 0 {
        return None;
    }
    Some((h, m, sec, f, e3 + 1 + n))
}

/// Frames of `h:m:s.f`; see [`frames_of`].
fn frames(h: i64, m: i64, s: i64, f: i64, timeres: u32) -> (r: i64)
    ensures
        r == frames_of(h as int, m as int, s as int, f as int, timeres as int),
{
    let hm = sat_add_i64(sat_mul_i64(h, 3600), sat_mul_i64(m, 60));
    sat_add_i64(sat_mul_i64(sat_add_i64(hm, s), timeres as i64), f)
}

/// Reads `h:m:s.f h:m:s.f`; see [`timed_of`].
pub fn parse_timed(buf: &[u8], timeres: u32) -> (r: Option<(i64, i64, usize)>)
    ensures
        r is None <==> timed_of(buf@, timeres as int) is None,
        r matches Some((a, b, n)) ==> timed_of(buf@, timeres as int) == Some(
            (a as int, b as int, n as int),
        ),
{
    let (h1, m1, s1, f1, e) = match read_clock(buf, 0) {
        Some(v) => v,
        None => return None,
    };
    let b = skip_spaces(buf, e);
    let (h2, m2, s2, f2, e2) = match read_clock(buf, b) {
        Some(v) => v,
        None => return None,
    };
    let end = skip_spaces(buf, e2);
    Some((frames(h1, m1, s1, f1, timeres), frames(h2, m2, s2, f2, timeres), end))
}

/// Reads `@start @end`; see [`at_of`].
pub fn parse_at(buf: &[u8]) -> (r: Option<(i64, i64, usize)>)
    ensures
        r is None <==> at_of(buf@) is None,
        r matches Some((a, b, n)) ==> at_of(buf@) == Some((a as int, b as int, n as int)),
{
    if buf.len() == 0 || buf[0] != ('@' as u8) {
        return None;
    }
    let (start, n) = digits_sat_i64(buf, 1);
    proof { lemma_digit_run_bounds(buf@, 1); }
    if n == 0 {
        return None;
    }
    let b2 = skip_spaces(buf, 1 + n);
    if b2 >= buf.len() || buf[b2] != ('@' as u8) {
        return None;
    }
    let (end, n2) = digits_sat_i64(buf, b2 + 1);
    proof { lemma_digit_run_bounds(buf@, b2 + 1); }
    if n2 == 0 {
        return None;
    }
    let e = skip_spaces(buf, b2 + 1 + n2);
    Some((start, end, e))
}

/// Truncating division by a positive divisor; see [`trunc_div`].
fn div_trunc(x: i64, t: u32) -> (r: i64)
    requires
        t > 0,
    ensures
        r == trunc_div(x as int, t as int),
{
    let x128 = x as i128;
    let t128 = t as i128;
    let q: i128 = if x128 >= 0 { x128 / t128 } else { -((-x128) / t128) };
    proof {
        if x128 >= 0 {
            assert(x128 / t128 <= x128) by (nonlinear_arith) requires x128 >= 0, t128 >= 1;
        } else {
            let nx: int = -(x128 as int);
            assert(nx / (t128 as int) <= nx) by (nonlinear_arith) requires nx >= 0, t128 >= 1;
        }
    }
    q as i64
}

/// The timing of a cue line: start and end in frames, from either form.
pub open spec fn cue_timing(s: Seq<u8>, timeres: int) -> Option<(int, int, int)> {
    match timed_of(s, timeres) {
        Some(t) => Some(t),
        None => at_of(s),
    }
}

/// Reads a cue's timing, applies a shift in frames, and stores its start and
/// duration in centiseconds. Returns -1 for a zero time resolution, -2 for a
/// line with no timing, else 0; on failure nothing is stored.
pub fn ffmpeg_rs_jacosub_read_ts(
    timeres: u32,
    shift_frames: i32,
    line: &[u8],
    out_start_cs: &mut i64,
    out_duration_cs: &mut i64,
) -> (r: i32)
    ensures
        timeres == 0 ==> r == -1,
        timeres != 0 && cue_timing(line@, timeres as int) is None ==> r == -2,
        r != 0 ==> *final(out_start_cs) == *old(out_start_cs) && *final(out_duration_cs)
            == *old(out_duration_cs),
        timeres != 0 ==> (cue_timing(line@, timeres as int) matches Some((a, b, _)) ==> {
            &&& r == 0
            &&& *final(out_start_cs) == frames_to_cs(a, shift_frames as int, timeres as int)
            &&& *final(out_duration_cs) == sat(
                frames_to_cs(b, shift_frames as int, timeres as int) - frames_to_cs(
                    a,
                    shift_frames as int,
                    timeres as int,
                ),
            )
        }),
{
    if timeres == 0 {
        return -1;
    }
    let parsed = match parse_timed(line, timeres) {
        Some(v) => Some(v),
        None => parse_at(line),
    };
    let (ts_start, ts_end, _off) = match parsed {
        Some(v) => v,
        None => return -2,
    };
    let start = div_trunc(sat_mul_i64(sat_add_i64(ts_start, shift_frames as i64), 100), timeres);
    let end = div_trunc(sat_mul_i64(sat_add_i64(ts_end, shift_frames as i64), 100), timeres);
    *out_start_cs = start;
    *out_duration_cs = sat_sub_i64(end, start);
    0
}

/// The `#SHIFT` value of `text` in frames, 0 for a zero time resolution.
pub fn ffmpeg_rs_jacosub_parse_shift(timeres: u32, text: &[u8]) -> (r: i32)
    ensures
        r == (if timeres == 0 { 0 } else { shift_value(text@, timeres as int) }),
{
    if timeres == 0 {
        return 0;
    }
    parse_shift_like_c(text, timeres)
}

} // verus!
