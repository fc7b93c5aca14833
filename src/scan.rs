//! Byte-level building blocks shared by the scanners: digit runs, their
//! decimal values, and saturating integer arithmetic.
use vstd::prelude::*;

verus! {

broadcast use vstd::slice::group_slice_axioms;

/// An ASCII decimal digit.
pub open spec fn is_digit_byte(b: u8) -> bool {
    0x30 <= b && b <= 0x39
}

/// The value of one ASCII digit.
pub open spec fn digit_of(b: u8) -> nat {
    (b - 0x30) as nat
}

/// Every byte of `s` is a decimal digit.
pub open spec fn all_digits(s: Seq<u8>) -> bool {
    forall|i: int| 0 <= i < s.len() ==> is_digit_byte(#[trigger] s[i])
}

/// The decimal number spelled by a sequence of digits (0 for the empty one).
pub open spec fn dec_value(s: Seq<u8>) -> nat
    decreases s.len(),
{
    if s.len() == 0 {
        0
    } else {
        dec_value(s.drop_last()) * 10 + digit_of(s.last())
    }
}

/// The number of consecutive digits in `s` starting at `i`.
pub open spec fn digit_run(s: Seq<u8>, i: int) -> nat
    decreases s.len() - i,
{
    if i < 0 || i >= s.len() || !is_digit_byte(s[i]) {
        0
    } else {
        1 + digit_run(s, i + 1)
    }
}

/// The digit run of `s` at `i`, as a sequence.
pub open spec fn digits_at(s: Seq<u8>, i: int) -> Seq<u8> {
    s.subrange(i, i + digit_run(s, i))
}

/// `x` capped at `hi`.
pub open spec fn cap(x: int, hi: int) -> int {
    if x > hi { hi } else { x }
}

/// `x` clamped into `[lo, hi]`.
pub open spec fn clamp(x: int, lo: int, hi: int) -> int {
    if x < lo { lo } else if x > hi { hi } else { x }
}

pub proof fn lemma_digit_run_bounds(s: Seq<u8>, i: int)
    requires
        0 <= i <= s.len(),
    ensures
        i + digit_run(s, i) <= s.len(),
        forall|k: int| i <= k < i + digit_run(s, i) ==> is_digit_byte(#[trigger] s[k]),
        i + digit_run(s, i) < s.len() ==> !is_digit_byte(s[i + digit_run(s, i)]),
    decreases s.len() - i,
{
    if i < s.len() && is_digit_byte(s[i]) {
        lemma_digit_run_bounds(s, i + 1);
    }
}

/// A digit run grows by one when the byte after it is a digit.
pub proof fn lemma_digit_run_step(s: Seq<u8>, i: int, k: int)
    requires
        0 <= i <= k < s.len(),
        forall|j: int| i <= j < k ==> is_digit_byte(#[trigger] s[j]),
        is_digit_byte(s[k]) ==> digit_run(s, i) > k - i,
    ensures
        is_digit_byte(s[k]) ==> digit_run(s, i) > k - i,
        !is_digit_byte(s[k]) ==> digit_run(s, i) == k - i,
    decreases k - i,
{
    if i < k {
        lemma_digit_run_step(s, i + 1, k);
    }
}

/// Appending a digit to a run shifts its value one decimal place.
pub proof fn lemma_dec_value_push(s: Seq<u8>, b: u8)
    ensures
        dec_value(s.push(b)) == dec_value(s) * 10 + digit_of(b),
{
    assert(s.push(b).drop_last() =~= s);
}

/// Saturating `10 * v + d` of `u64` tracks the capped decimal value.
pub proof fn lemma_sat_step(exact: nat, v: int, d: nat, hi: int)
    requires
        v == cap(exact as int, hi),
        d < 10,
        hi > 0,
    ensures
        cap(cap(v * 10, hi) + d, hi) == cap((exact * 10 + d) as int, hi),
{
    if exact as int >= hi {
        assert(exact * 10 >= hi) by (nonlinear_arith)
            requires exact as int >= hi, hi > 0;
    } else {
        assert(exact == v);
    }
}

/// Saturating multiplication of `i64` values.
pub fn sat_mul_i64(a: i64, b: i64) -> (r: i64)
    ensures
        r == clamp(a * b, i64::MIN as int, i64::MAX as int),
{
    match a.checked_mul(b) {
        Some(p) => p,
        None => {
            if (a < 0) == (b < 0) {
                proof {
                    if a < 0 {
                        assert(a * b > 0) by (nonlinear_arith) requires a < 0, b < 0;
                    } else {
                        assert(a * b >= 0) by (nonlinear_arith) requires a >= 0, b >= 0;
                    }
                }
                i64::MAX
            } else {
                proof {
                    if a < 0 {
                        assert(a * b <= 0) by (nonlinear_arith) requires a < 0, b >= 0;
                    } else {
                        assert(a * b <= 0) by (nonlinear_arith) requires a >= 0, b < 0;
                    }
                }
                i64::MIN
            }
        },
    }
}

/// Saturating addition of `i64` values.
pub fn sat_add_i64(a: i64, b: i64) -> (r: i64)
    ensures
        r == clamp(a + b, i64::MIN as int, i64::MAX as int),
{
    match a.checked_add(b) {
        Some(s) => s,
        None => if b < 0 { i64::MIN } else { i64::MAX },
    }
}

/// Saturating subtraction of `i64` values.
pub fn sat_sub_i64(a: i64, b: i64) -> (r: i64)
    ensures
        r == clamp(a - b, i64::MIN as int, i64::MAX as int),
{
    match a.checked_sub(b) {
        Some(s) => s,
        None => if b > 0 { i64::MIN } else { i64::MAX },
    }
}

/// Ten to the power `n`.
pub open spec fn pow10(n: nat) -> nat
    decreases n,
{
    if n == 0 { 1 } else { 10 * pow10((n - 1) as nat) }
}

/// A space or a tab.
pub open spec fn is_blank_byte(b: u8) -> bool {
    b == (' ' as u8) || b == ('\t' as u8)
}

/// A space, tab, carriage return or line feed.
pub open spec fn is_space_byte(b: u8) -> bool {
    is_blank_byte(b) || b == ('\r' as u8) || b == ('\n' as u8)
}

/// The number of consecutive blanks in `s` starting at `i`.
pub open spec fn blank_run(s: Seq<u8>, i: int) -> nat
    decreases s.len() - i,
{
    if i < 0 || i >= s.len() || !is_blank_byte(s[i]) {
        0
    } else {
        1 + blank_run(s, i + 1)
    }
}

/// The number of consecutive white-space bytes in `s` starting at `i`.
pub open spec fn space_run(s: Seq<u8>, i: int) -> nat
    decreases s.len() - i,
{
    if i < 0 || i >= s.len() || !is_space_byte(s[i]) {
        0
    } else {
        1 + space_run(s, i + 1)
    }
}

/// The first index at or after `i` that holds `b`, or `s.len()` if there is none.
pub open spec fn index_of_from(s: Seq<u8>, b: u8, i: int) -> int
    decreases s.len() - i,
{
    if i < 0 || i >= s.len() {
        s.len() as int
    } else if s[i] == b {
        i
    } else {
        index_of_from(s, b, i + 1)
    }
}

/// `s` holds `pat` at index `i`.
pub open spec fn occurs_at(s: Seq<u8>, pat: Seq<u8>, i: int) -> bool {
    0 <= i && i + pat.len() <= s.len() && s.subrange(i, i + pat.len()) == pat
}

/// The first index at or after `i` at which `pat` occurs in `s`.
pub open spec fn find_from(s: Seq<u8>, pat: Seq<u8>, i: int) -> Option<int>
    decreases s.len() + 1 - i,
{
    if i < 0 || i + pat.len() > s.len() {
        None
    } else if occurs_at(s, pat, i) {
        Some(i)
    } else {
        find_from(s, pat, i + 1)
    }
}

/// `s` begins with `p`.
pub open spec fn has_prefix(s: Seq<u8>, p: Seq<u8>) -> bool {
    p.len() <= s.len() && s.subrange(0, p.len() as int) == p
}

/// `s` without one trailing carriage return.
pub open spec fn chomp(s: Seq<u8>) -> Seq<u8> {
    if s.len() > 0 && s.last() == ('\r' as u8) {
        s.drop_last()
    } else {
        s
    }
}

pub fn is_digit(b: u8) -> (r: bool)
    ensures
        r == is_digit_byte(b),
{
    ('0' as u8) <= b && b <= ('9' as u8)
}

/// The digit run at `i` and its value, saturated at `u64::MAX`.
pub fn digits_sat_u64(s: &[u8], i: usize) -> (r: (u64, usize))
    requires
        i <= s@.len(),
    ensures
        r.1 == digit_run(s@, i as int),
        r.0 == cap(dec_value(digits_at(s@, i as int)) as int, u64::MAX as int),
{
    let mut k: usize = i;
    let mut v: u64 = 0;
    while k < s.len() && is_digit(s[k])
        invariant
            i <= k <= s@.len(),
            digit_run(s@, i as int) == (k - i) + digit_run(s@, k as int),
            v == cap(dec_value(s@.subrange(i as int, k as int)) as int, u64::MAX as int),
        decreases s@.len() - k,
    {
        let d: u64 = (s[k] - ('0' as u8)) as u64;
        proof {
            let pre = s@.subrange(i as int, k as int);
            lemma_dec_value_push(pre, s@[k as int]);
            assert(s@.subrange(i as int, k + 1) =~= pre.push(s@[k as int]));
            lemma_sat_step(dec_value(pre), v as int, d as nat, u64::MAX as int);
        }
        v = match v.checked_mul(10) {
            Some(m) => m.saturating_add(d),
            None => u64::MAX,
        };
        k = k + 1;
    }
    (v, k - i)
}

/// The digit run at `i` and its value, saturated at `i64::MAX`.
pub fn digits_sat_i64(s: &[u8], i: usize) -> (r: (i64, usize))
    requires
        i <= s@.len(),
    ensures
        r.1 == digit_run(s@, i as int),
        r.0 == cap(dec_value(digits_at(s@, i as int)) as int, i64::MAX as int),
        0 <= r.0,
{
    let mut k: usize = i;
    let mut v: i64 = 0;
    while k < s.len() && is_digit(s[k])
        invariant
            i <= k <= s@.len(),
            digit_run(s@, i as int) == (k - i) + digit_run(s@, k as int),
            v == cap(dec_value(s@.subrange(i as int, k as int)) as int, i64::MAX as int),
            0 <= v,
        decreases s@.len() - k,
    {
        let d: i64 = (s[k] - ('0' as u8)) as i64;
        proof {
            let pre = s@.subrange(i as int, k as int);
            lemma_dec_value_push(pre, s@[k as int]);
            assert(s@.subrange(i as int, k + 1) =~= pre.push(s@[k as int]));
            lemma_sat_step(dec_value(pre), v as int, d as nat, i64::MAX as int);
        }
        v = match v.checked_mul(10) {
            Some(m) => match m.checked_add(d) {
                Some(t) => t,
                None => i64::MAX,
            },
            None => i64::MAX,
        };
        k = k + 1;
    }
    (v, k - i)
}

/// The index just past the blanks that start at `i`.
pub fn skip_blanks(s: &[u8], i: usize) -> (r: usize)
    requires
        i <= s@.len(),
    ensures
        r == i + blank_run(s@, i as int),
        r <= s@.len(),
{
    let mut k: usize = i;
    while k < s.len() && (s[k] == (' ' as u8) || s[k] == ('\t' as u8))
        invariant
            i <= k <= s@.len(),
            blank_run(s@, i as int) == (k - i) + blank_run(s@, k as int),
        decreases s@.len() - k,
    {
        k = k + 1;
    }
    k
}

/// The index just past the white space that starts at `i`.
pub fn skip_spaces(s: &[u8], i: usize) -> (r: usize)
    requires
        i <= s@.len(),
    ensures
        r == i + space_run(s@, i as int),
        r <= s@.len(),
{
    let mut k: usize = i;
    while k < s.len() && (s[k] == (' ' as u8) || s[k] == ('\t' as u8) || s[k] == ('\r' as u8)
        || s[k] == ('\n' as u8))
        invariant
            i <= k <= s@.len(),
            space_run(s@, i as int) == (k - i) + space_run(s@, k as int),
        decreases s@.len() - k,
    {
        k = k + 1;
    }
    k
}

/// The first index at or after `i` that holds `b`, or `s.len()`.
pub fn index_of(s: &[u8], b: u8, i: usize) -> (r: usize)
    requires
        i <= s@.len(),
    ensures
        r == index_of_from(s@, b, i as int),
        i <= r <= s@.len(),
{
    let mut k: usize = i;
    while k < s.len() && s[k] != b
        invariant
            i <= k <= s@.len(),
            index_of_from(s@, b, i as int) == index_of_from(s@, b, k as int),
        decreases s@.len() - k,
    {
        k = k + 1;
    }
    k
}

/// `s` holds `pat` at index `i`.
pub fn matches_at(s: &[u8], pat: &[u8], i: usize) -> (r: bool)
    ensures
        r == occurs_at(s@, pat@, i as int),
{
    if i > s.len() || pat.len() > s.len() - i {
        return false;
    }
    let mut k: usize = 0;
    while k < pat.len()
        invariant
            i + pat@.len() <= s.len(),
            k <= pat@.len(),
            forall|j: int| 0 <= j < k ==> s@[i + j] == pat@[j],
        decreases pat@.len() - k,
    {
        if s[i + k] != pat[k] {
            assert(s@.subrange(i as int, i + pat@.len())[k as int] != pat@[k as int]);
            return false;
        }
        k = k + 1;
    }
    assert(s@.subrange(i as int, i + pat@.len()) =~= pat@);
    true
}

/// The first index at or after `i` at which `pat` occurs in `s`.
pub fn find_pattern(s: &[u8], pat: &[u8], i: usize) -> (r: Option<usize>)
    requires
        pat@.len() > 0,
    ensures
        r matches Some(k) ==> find_from(s@, pat@, i as int) == Some(k as int),
        r is None ==> find_from(s@, pat@, i as int) is None,
{
    let mut k: usize = i;
    while k <= s.len() && pat.len() <= s.len() - k
        invariant
            find_from(s@, pat@, i as int) == find_from(s@, pat@, k as int),
            i <= k,
            pat@.len() > 0,
        decreases s@.len() + 1 - k,
    {
        if matches_at(s, pat, k) {
            return Some(k);
        }
        k = k + 1;
    }
    None
}

/// A match found by `find_from` lies inside `s`.
pub proof fn lemma_find_from_occurs(s: Seq<u8>, pat: Seq<u8>, i: int)
    ensures
        find_from(s, pat, i) matches Some(k) ==> occurs_at(s, pat, k) && i <= k,
    decreases s.len() + 1 - i,
{
    if !(i < 0 || i + pat.len() > s.len()) && !occurs_at(s, pat, i) {
        lemma_find_from_occurs(s, pat, i + 1);
    }
}

/// `index_of_from` stays between its start and the end of `s`.
pub proof fn lemma_index_of_bounds(s: Seq<u8>, b: u8, i: int)
    requires
        0 <= i <= s.len(),
    ensures
        i <= index_of_from(s, b, i) <= s.len(),
    decreases s.len() - i,
{
    if i < s.len() && s[i] != b {
        lemma_index_of_bounds(s, b, i + 1);
    }
}

/// A prefix of a digit sequence is worth no more than the whole.
pub proof fn lemma_dec_value_prefix_le(s: Seq<u8>, k: int)
    requires
        0 <= k <= s.len(),
    ensures
        dec_value(s.take(k)) <= dec_value(s),
    decreases s.len(),
{
    if k < s.len() {
        lemma_dec_value_prefix_le(s.drop_last(), k);
        assert(s.drop_last().take(k) =~= s.take(k));
    } else {
        assert(s.take(k) =~= s);
    }
}

/// The digit run at `i` and its value, or `None` when there is no digit or
/// the value exceeds `u32::MAX`.
pub fn digits_checked_u32(s: &[u8], i: usize) -> (r: Option<(u32, usize)>)
    requires
        i <= s@.len(),
    ensures
        r is None <==> (digit_run(s@, i as int) == 0 || dec_value(digits_at(s@, i as int))
            > u32::MAX),
        r matches Some((v, n)) ==> v == dec_value(digits_at(s@, i as int)) && n == digit_run(
            s@,
            i as int,
        ),
{
    let mut k: usize = i;
    let mut v: u32 = 0;
    proof {
        lemma_digit_run_bounds(s@, i as int);
    }
    while k < s.len() && is_digit(s[k])
        invariant
            i <= k <= s@.len(),
            digit_run(s@, i as int) == (k - i) + digit_run(s@, k as int),
            i + digit_run(s@, i as int) <= s@.len(),
            v == dec_value(s@.subrange(i as int, k as int)),
        decreases s@.len() - k,
    {
        let d: u32 = (s[k] - ('0' as u8)) as u32;
        let ghost pre = s@.subrange(i as int, k as int);
        proof {
            lemma_dec_value_push(pre, s@[k as int]);
            assert(s@.subrange(i as int, k + 1) =~= pre.push(s@[k as int]));
        }
        let next = match v.checked_mul(10) {
            Some(m) => m.checked_add(d),
            None => None,
        };
        match next {
            Some(t) => {
                v = t;
            },
            None => {
                proof {
                    let whole = digits_at(s@, i as int);
                    assert(whole.take(k + 1 - i) =~= s@.subrange(i as int, k + 1));
                    lemma_dec_value_prefix_le(whole, k + 1 - i);
                }
                return None;
            },
        }
        k = k + 1;
    }
    proof {
        assert(digits_at(s@, i as int) =~= s@.subrange(i as int, k as int));
    }
    if k == i {
        return None;
    }
    Some((v, k - i))
}

/// The first six digits of a fraction, zero-padded to six: its value in
/// millionths.
pub open spec fn frac6(d: Seq<u8>) -> nat {
    if d.len() >= 6 {
        dec_value(d.take(6))
    } else {
        dec_value(d) * pow10((6 - d.len()) as nat)
    }
}

/// The first six digits at `i`, zero-padded, in millionths, and the length
/// of the whole digit run.
pub fn frac_micros(s: &[u8], i: usize) -> (r: (i64, usize))
    requires
        i <= s@.len(),
    ensures
        r.1 == digit_run(s@, i as int),
        r.0 == frac6(digits_at(s@, i as int)),
        0 <= r.0 < 1_000_000,
{
    let mut k: usize = i;
    let mut f: i64 = 0;
    let mut m: usize = 0;
    while k < s.len() && is_digit(s[k])
        invariant
            i <= k <= s@.len(),
            digit_run(s@, i as int) == (k - i) + digit_run(s@, k as int),
            m == if k - i < 6 { k - i } else { 6 },
            f == dec_value(s@.subrange(i as int, i + m)),
            0 <= f < pow10(m as nat),
            forall|j: int| i <= j < k ==> is_digit_byte(#[trigger] s@[j]),
        decreases s@.len() - k,
    {
        if m < 6 {
            let d: i64 = (s[k] - ('0' as u8)) as i64;
            proof {
                let pre = s@.subrange(i as int, i + m);
                lemma_dec_value_push(pre, s@[k as int]);
                assert(s@.subrange(i as int, i + m + 1) =~= pre.push(s@[k as int]));
                assert(pow10((m + 1) as nat) == 10 * pow10(m as nat));
                assert(f * 10 + d < pow10((m + 1) as nat)) by (nonlinear_arith)
                    requires f < pow10(m as nat), d < 10, pow10((m + 1) as nat) == 10 * pow10(m as nat);
                assert(pow10(m as nat) <= 100000) by {
                    reveal_with_fuel(pow10, 6);
                }
            }
            f = f * 10 + d;
            m = m + 1;
        }
        k = k + 1;
    }
    let n = k - i;
    proof {
        assert(digits_at(s@, i as int) =~= s@.subrange(i as int, k as int));
        assert(digits_at(s@, i as int).take(m as int) =~= s@.subrange(i as int, i + m));
    }
    let ghost base = f;
    assert(base * pow10(0) == base) by (nonlinear_arith)
        requires pow10(0) == 1;
    let mut t: usize = m;
    while t < 6
        invariant
            m <= t <= 6,
            f == base * pow10((t - m) as nat),
            0 <= f < pow10(t as nat),
        decreases 6 - t,
    {
        proof {
            assert(pow10((t + 1 - m) as nat) == 10 * pow10((t - m) as nat));
            assert(pow10((t + 1) as nat) == 10 * pow10(t as nat));
            assert(pow10(t as nat) <= 100000) by {
                reveal_with_fuel(pow10, 6);
            }
            assert(f * 10 == base * pow10((t + 1 - m) as nat)) by (nonlinear_arith)
                requires f == base * pow10((t - m) as nat),
                    pow10((t + 1 - m) as nat) == 10 * pow10((t - m) as nat);
        }
        f = f * 10;
        t = t + 1;
    }
    proof {
        reveal_with_fuel(pow10, 7);
        let d = digits_at(s@, i as int);
        assert(d.len() == n);
        if n >= 6 {
            assert(f == base);
        } else {
            assert(d.take(m as int) =~= d);
        }
    }
    (f, n)
}

/// The fraction `0.d` rounded half up to whole millionths.
pub open spec fn round6(d: Seq<u8>) -> nat {
    frac6(d) + if d.len() > 6 && d[6] >= ('5' as u8) { 1nat } else { 0nat }
}

/// The digit run at `i` read as a fraction: rounded to millionths, whether
/// it is non-zero, and its length.
pub fn frac_round_micros(s: &[u8], i: usize) -> (r: (i64, bool, usize))
    requires
        i <= s@.len(),
    ensures
        r.0 == round6(digits_at(s@, i as int)),
        r.1 == (dec_value(digits_at(s@, i as int)) > 0),
        r.2 == digit_run(s@, i as int),
        0 <= r.0 <= 1_000_000,
{
    let (f, n) = frac_micros(s, i);
    proof {
        lemma_digit_run_bounds(s@, i as int);
        assert(s@.len() == s.len());
    }
    let end = i + n;
    let up: i64 = if n > 6 && s[i + 6] >= ('5' as u8) { 1 } else { 0 };
    let mut k: usize = i;
    let mut nonzero = false;
    while k < end
        invariant
            i <= k <= end <= s@.len(),
            end == i + n,
            n == digit_run(s@, i as int),
            forall|j: int| i <= j < end ==> is_digit_byte(#[trigger] s@[j]),
            nonzero == (dec_value(s@.subrange(i as int, k as int)) > 0),
        decreases end - k,
    {
        proof {
            assert(is_digit_byte(s@[k as int]));
            let pre = s@.subrange(i as int, k as int);
            lemma_dec_value_push(pre, s@[k as int]);
            assert(s@.subrange(i as int, k + 1) =~= pre.push(s@[k as int]));
        }
        if s[k] != ('0' as u8) {
            nonzero = true;
        }
        k = k + 1;
    }
    proof {
        assert(digits_at(s@, i as int) =~= s@.subrange(i as int, k as int));
    }
    (f + up, nonzero, n)
}

/// A frame number as bracketed subtitle cues write it: an optional `-`,
/// then at least one digit (so no leading blank); the magnitude saturates
/// at `i64::MAX`.
pub open spec fn frame_int(s: Seq<u8>) -> Option<i64> {
    if s.len() == 0 || is_blank_byte(s[0]) {
        None
    } else {
        let a: int = if s[0] == ('-' as u8) { 1 } else { 0 };
        if digit_run(s, a) == 0 {
            None
        } else {
            let v = cap(dec_value(digits_at(s, a)) as int, i64::MAX as int);
            Some((if a == 1 { -v } else { v }) as i64)
        }
    }
}

/// Reads a frame number; see [`frame_int`].
pub fn parse_frame_i64(s: &[u8]) -> (r: Option<i64>)
    ensures
        r == frame_int(s@),
{
    if s.len() == 0 || s[0] == (' ' as u8) || s[0] == ('\t' as u8) {
        return None;
    }
    let a: usize = if s[0] == ('-' as u8) { 1 } else { 0 };
    let (v, n) = digits_sat_i64(s, a);
    if n == 0 {
        return None;
    }
    Some(if a == 1 { -v } else { v })
}

/// A signed field: an optional `+` or `-`, then at least one digit; the
/// magnitude saturates at `i64::MAX`. The value and the bytes read.
pub open spec fn signed_sat(s: Seq<u8>) -> Option<(int, int)> {
    if s.len() == 0 {
        None
    } else {
        let a: int = if s[0] == ('+' as u8) || s[0] == ('-' as u8) { 1 } else { 0 };
        let v = cap(dec_value(digits_at(s, a)) as int, i64::MAX as int);
        if digit_run(s, a) == 0 {
            None
        } else {
            Some((if s[0] == ('-' as u8) { -v } else { v }, a + digit_run(s, a)))
        }
    }
}

/// Reads a signed field; see [`signed_sat`].
pub fn parse_signed_i64(s: &[u8]) -> (r: Option<(i64, usize)>)
    ensures
        r is None <==> signed_sat(s@) is None,
        r matches Some((v, n)) ==> signed_sat(s@) == Some((v as int, n as int)) && n <= s@.len(),
{
    if s.len() == 0 {
        return None;
    }
    let a: usize = if s[0] == ('+' as u8) || s[0] == ('-' as u8) { 1 } else { 0 };
    let (v, n) = digits_sat_i64(s, a);
    proof {
        lemma_digit_run_bounds(s@, a as int);
    }
    if n == 0 {
        return None;
    }
    Some((if s[0] == ('-' as u8) { -v } else { v }, a + n))
}

/// The first index at or after `start` that holds `b`.
pub fn find_byte(hay: &[u8], b: u8, start: usize) -> (r: Option<usize>)
    requires
        start <= hay@.len(),
    ensures
        r is None <==> index_of_from(hay@, b, start as int) == hay@.len(),
        r matches Some(k) ==> k == index_of_from(hay@, b, start as int) && start <= k < hay@.len(),
{
    let k = index_of(hay, b, start);
    if k < hay.len() {
        Some(k)
    } else {
        None
    }
}

/// `v` saturated into the range of `i64`.
pub open spec fn sat(v: int) -> int {
    clamp(v, i64::MIN as int, i64::MAX as int)
}

/// The value of the digit run at `i`, saturated at `i64::MAX`.
pub open spec fn field_at(s: Seq<u8>, i: int) -> int {
    cap(dec_value(digits_at(s, i)) as int, i64::MAX as int)
}

/// The end of the digit run at `i`.
pub open spec fn field_end(s: Seq<u8>, i: int) -> int {
    i + digit_run(s, i)
}

/// `bytes` begins with `prefix`.
pub fn starts_with(bytes: &[u8], prefix: &[u8]) -> (r: bool)
    ensures
        r == has_prefix(bytes@, prefix@),
{
    let r = matches_at(bytes, prefix, 0);
    proof {
        if prefix@.len() <= bytes@.len() {
            assert(occurs_at(bytes@, prefix@, 0) == has_prefix(bytes@, prefix@));
        }
    }
    r
}

/// The first index at or after `i` that is neither `\n` nor `\r`.
pub open spec fn past_newlines(d: Seq<u8>, i: int) -> int
    decreases d.len() - i,
{
    if i < 0 || i >= d.len() || (d[i] != ('\n' as u8) && d[i] != ('\r' as u8)) {
        i
    } else {
        past_newlines(d, i + 1)
    }
}

/// The first index at or after `i` that is neither `\n` nor `\r`.
pub fn skip_newlines(d: &[u8], i: usize) -> (r: usize)
    requires
        i <= d@.len(),
    ensures
        r == past_newlines(d@, i as int),
        i <= r <= d@.len(),
{
    let mut k = i;
    while k < d.len() && (d[k] == ('\n' as u8) || d[k] == ('\r' as u8))
        invariant
            i <= k <= d@.len(),
            past_newlines(d@, k as int) == past_newlines(d@, i as int),
        decreases d@.len() - k,
    {
        k = k + 1;
    }
    k
}

/// `s` without one trailing carriage return.
pub fn chomp_cr(s: &[u8]) -> (r: &[u8])
    ensures
        r@ == chomp(s@),
{
    if s.len() > 0 && s[s.len() - 1] == ('\r' as u8) {
        let r = &s[0..s.len() - 1];
        assert(r@ =~= s@.drop_last());
        r
    } else {
        s
    }
}

/// Powers of ten are positive.
pub proof fn lemma_pow10_pos(n: nat)
    ensures
        pow10(n) >= 1,
    decreases n,
{
    if n > 0 {
        lemma_pow10_pos((n - 1) as nat);
    }
}

/// No byte before the one `index_of_from` finds is a match.
pub proof fn lemma_index_of_skips(s: Seq<u8>, b: u8, i: int)
    requires
        0 <= i <= s.len(),
    ensures
        forall|k: int| i <= k < index_of_from(s, b, i) ==> s[k] != b,
    decreases s.len() - i,
{
    if i < s.len() && s[i] != b {
        lemma_index_of_skips(s, b, i + 1);
    }
}

} // verus!
