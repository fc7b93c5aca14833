//! Tokens with escapes and quotes, as the concat demuxer and option
//! strings write them: after leading white space, a backslash takes the
//! next byte literally, single quotes take everything up to the closing
//! quote, and trailing white space that was not escaped or quoted is cut.
use vstd::prelude::*;
use crate::scan::{index_of_from, is_space_byte, lemma_index_of_bounds, skip_spaces, space_run};

verus! {

broadcast use vstd::slice::group_slice_axioms;

/// Status: a required argument was empty.
pub const EINVAL: i32 = -22;

/// Status: the destination is too small.
pub const ENOSPC: i32 = -28;

/// `b` is one of the terminators in `term`, which end at its first NUL.
pub open spec fn is_term_byte(b: u8, term: Seq<u8>) -> bool {
    b != 0 && exists|k: int| 0 <= k < index_of_from(term, 0, 0) && term[k] == b
}

/// A byte that ends the token: NUL, then white space or a terminator.
pub open spec fn stops(b: u8, term: Seq<u8>, by_space: bool) -> bool {
    b == 0 || if by_space { is_space_byte(b) } else { is_term_byte(b, term) }
}

/// The number of quoted bytes from `i` on: up to a NUL, a quote or the end.
pub open spec fn quoted_run(s: Seq<u8>, i: int) -> nat
    decreases s.len() - i,
{
    if i < 0 || i >= s.len() || s[i] == 0 || s[i] == ('\'' as u8) {
        0
    } else {
        1 + quoted_run(s, i + 1)
    }
}

/// The token read from `i` on: its bytes, the length of its part that
/// ends with the last escaped byte or closed quote (if any), and the index
/// where reading stopped.
pub open spec fn token_from(s: Seq<u8>, i: int, term: Seq<u8>, by_space: bool) -> (
    Seq<u8>,
    Option<int>,
    int,
)
    decreases s.len() - i,
{
    if i < 0 || i >= s.len() || stops(s[i], term, by_space) {
        (Seq::empty(), None, i)
    } else if s[i] == ('\\' as u8) && i + 1 < s.len() && s[i + 1] != 0 {
        let (p, m, e) = token_from(s, i + 2, term, by_space);
        (seq![s[i + 1]] + p, Some(match m { Some(k) => k + 1, None => 1 }), e)
    } else if s[i] == ('\'' as u8) {
        let q = quoted_run(s, i + 1);
        let j = i + 1 + q;
        let closed = j < s.len() && s[j] == ('\'' as u8);
        let after = if closed { j + 1 } else { j };
        if after <= i || after > s.len() {
            (Seq::empty(), None, i)
        } else {
            let (p, m, e) = token_from(s, after, term, by_space);
            (
                s.subrange(i + 1, j) + p,
                match m {
                    Some(k) => Some(k + q),
                    None => if closed { Some(q as int) } else { None },
                },
                e,
            )
        }
    } else {
        let (p, m, e) = token_from(s, i + 1, term, by_space);
        (seq![s[i]] + p, match m { Some(k) => Some(k + 1), None => None }, e)
    }
}

/// What a destination of `cap` bytes holds at `k` after the token `p` was
/// written into it, cut to leave room for a NUL.
pub open spec fn held(p: Seq<u8>, old: Seq<u8>, k: int) -> u8 {
    if k < p.len() && k + 1 < old.len() { p[k] } else { old[k] }
}

/// The token length after cutting white space back to `floor`: bytes are
/// cut while they lie in the destination and are white space there.
pub open spec fn trimmed(p: Seq<u8>, old: Seq<u8>, t: int, floor: int) -> int
    decreases t - floor,
{
    if t > floor && t - 1 < old.len() && is_space_byte(held(p, old, t - 1)) {
        trimmed(p, old, t - 1, floor)
    } else {
        t
    }
}

/// The outcome of reading a token from `s` into a destination that held
/// `old`: the token's bytes, its length after trimming, and where reading
/// stopped.
pub open spec fn token_of(s: Seq<u8>, term: Seq<u8>, by_space: bool, old: Seq<u8>) -> (
    Seq<u8>,
    int,
    int,
) {
    let (p, m, e) = token_from(s, space_run(s, 0) as int, term, by_space);
    let floor = match m { Some(k) => k, None => 0 };
    (p, trimmed(p, old, p.len() as int, floor), e)
}

/// `b` is one of the terminators; see [`is_term_byte`].
pub fn is_term(b: u8, term: &[u8]) -> (r: bool)
    ensures
        r == is_term_byte(b, term@),
{
    if b == 0 {
        return false;
    }
    let mut k: usize = 0;
    while k < term.len() && term[k] != 0
        invariant
            k <= term@.len(),
            index_of_from(term@, 0, k as int) == index_of_from(term@, 0, 0),
            forall|j: int| 0 <= j < k ==> term@[j] != b,
            forall|j: int| 0 <= j < k ==> term@[j] != 0,
        decreases term@.len() - k,
    {
        if term[k] == b {
            proof {
                lemma_index_after(term@, 0, k as int);
            }
            return true;
        }
        k = k + 1;
    }
    proof {
        assert(index_of_from(term@, 0, 0) == k as int);
    }
    false
}

proof fn lemma_index_after(s: Seq<u8>, i: int, k: int)
    requires
        0 <= i <= k < s.len(),
        s[k] != 0,
        forall|j: int| i <= j < k ==> s[j] != 0,
    ensures
        index_of_from(s, 0, i) > k,
    decreases k - i,
{
    if i < k {
        lemma_index_after(s, i + 1, k);
    } else {
        lemma_index_of_bounds(s, 0, k + 1);
    }
}

/// A byte that ends the token; see [`stops`].
fn stops_at(b: u8, term: &[u8], by_space: bool) -> (r: bool)
    ensures
        r == stops(b, term@, by_space),
{
    if b == 0 {
        return true;
    }
    if by_space {
        b == (' ' as u8) || b == ('\n' as u8) || b == ('\t' as u8) || b == ('\r' as u8)
    } else {
        is_term(b, term)
    }
}

/// Writes `b` at `*pos` when there is room for it and a NUL, and counts it.
fn write_byte(
    dst: &mut [u8],
    pos: &mut usize,
    b: u8,
    Ghost(p): Ghost<Seq<u8>>,
    Ghost(old_dst): Ghost<Seq<u8>>,
)
    requires
        *old(pos) == p.len(),
        p.len() < usize::MAX,
        old(dst)@ == Seq::new(old_dst.len(), |k: int| held(p, old_dst, k)),
    ensures
        *final(pos) == p.len() + 1,
        final(dst)@ == Seq::new(old_dst.len(), |k: int| held(p.push(b), old_dst, k)),
{
    if dst.len() > 0 && *pos < dst.len() - 1 {
        dst[*pos] = b;
    }
    *pos = *pos + 1;
    assert(dst@ =~= Seq::new(old_dst.len(), |k: int| held(p.push(b), old_dst, k)));
}

/// Reads one token from `buf` into `dst`, cut to fit with a closing NUL.
/// Stores where reading stopped in `out_advance` and the room the whole
/// token needs in `out_required`. Returns 0, or [`ENOSPC`] when it does not
/// fit, in which case no NUL is written.
pub fn get_token(
    buf: &[u8],
    term: &[u8],
    by_space: bool,
    dst: &mut [u8],
    out_advance: &mut usize,
    out_required: &mut usize,
) -> (r: i32)
    requires
        buf@.len() < usize::MAX,
    ensures
        ({
            let (p, t, e) = token_of(buf@, term@, by_space, old(dst)@);
            let cap = old(dst)@.len();
            let filled = Seq::new(cap, |k: int| held(p, old(dst)@, k));
            &&& *final(out_advance) == e
            &&& *final(out_required) == t + 1
            &&& r == (if cap == 0 || t + 1 > cap { ENOSPC } else { 0 })
            &&& r != 0 ==> final(dst)@ == filled
            &&& r == 0 ==> final(dst)@ == filled.update(t, 0u8)
        }),
{
    let len = buf.len();
    let ghost old_dst = dst@;
    let mut i = skip_spaces(buf, 0);
    let ghost start = i;
    let ghost mut p: Seq<u8> = Seq::empty();
    let ghost mut mark: Option<int> = None;
    let mut out_pos: usize = 0;
    let mut end_pos: usize = 0;
    assert(dst@ =~= Seq::new(old_dst.len(), |k: int| held(p, old_dst, k)));
    while i < len && !stops_at(buf[i], term, by_space)
        invariant
            start <= i <= len == buf@.len(),
            out_pos == p.len(),
            out_pos <= i,
            end_pos == (match mark { Some(k) => k, None => 0 }),
            ({
                let (ps, ms, e) = token_from(buf@, i as int, term@, by_space);
                let (pa, ma, ea) = token_from(buf@, start as int, term@, by_space);
                &&& pa == p + ps
                &&& ea == e
                &&& ma == (match ms { Some(k) => Some(p.len() + k), None => mark })
            }),
            dst@ == Seq::new(old_dst.len(), |k: int| held(p, old_dst, k)),
        decreases len - i,
    {
        let c = buf[i];
        let ghost i0 = i;
        i = i + 1;
        if c == ('\\' as u8) && i < len && buf[i] != 0 {
            let esc = buf[i];
            i = i + 1;
            write_byte(dst, &mut out_pos, esc, Ghost(p), Ghost(old_dst));
            proof {
                let (ps, ms, e) = token_from(buf@, i as int, term@, by_space);
                let (p1, m1, e1) = token_from(buf@, i0 as int, term@, by_space);
                assert(p1 == seq![esc] + ps);
                assert(p.push(esc) + ps =~= p + (seq![esc] + ps));
                p = p.push(esc);
                mark = Some(p.len() as int);
            }
            end_pos = out_pos;
        } else if c == ('\'' as u8) {
            let ghost q0 = i;
            let ghost p0 = p;
            let ghost mark0 = mark;
            assert(p0 + buf@.subrange(q0 as int, q0 as int) =~= p0);
            while i < len && buf[i] != 0 && buf[i] != ('\'' as u8)
                invariant
                    q0 <= i <= len == buf@.len(),
                    out_pos == p.len(),
                    out_pos <= i,
                    p == p0 + buf@.subrange(q0 as int, i as int),
                    quoted_run(buf@, q0 as int) == (i - q0) + quoted_run(buf@, i as int),
                    dst@ == Seq::new(old_dst.len(), |k: int| held(p, old_dst, k)),
                decreases len - i,
            {
                let inner = buf[i];
                write_byte(dst, &mut out_pos, inner, Ghost(p), Ghost(old_dst));
                proof {
                    assert(p.push(inner) =~= p0 + buf@.subrange(q0 as int, i + 1));
                    p = p.push(inner);
                }
                i = i + 1;
            }
            let ghost j = i;
            if i < len && buf[i] == ('\'' as u8) {
                i = i + 1;
                end_pos = out_pos;
                proof {
                    mark = Some(p.len() as int);
                }
            }
            proof {
                let (ps, ms, e) = token_from(buf@, i as int, term@, by_space);
                let (p1, m1, e1) = token_from(buf@, i0 as int, term@, by_space);
                assert(j == q0 + quoted_run(buf@, q0 as int));
                assert(p1 == buf@.subrange(q0 as int, j as int) + ps);
                assert(p0 + p1 =~= p + ps);
            }
        } else {
            write_byte(dst, &mut out_pos, c, Ghost(p), Ghost(old_dst));
            proof {
                let (ps, ms, e) = token_from(buf@, i as int, term@, by_space);
                let (p1, m1, e1) = token_from(buf@, i0 as int, term@, by_space);
                assert(p1 == seq![c] + ps);
                assert(p.push(c) + ps =~= p + (seq![c] + ps));
                p = p.push(c);
            }
        }
    }
    let mut trim_pos = out_pos;
    while trim_pos > end_pos && trim_pos - 1 < dst.len() && (dst[trim_pos - 1] == (' ' as u8)
        || dst[trim_pos - 1] == ('\n' as u8) || dst[trim_pos - 1] == ('\t' as u8) || dst[trim_pos
        - 1] == ('\r' as u8))
        invariant
            trim_pos <= out_pos,
            dst@ == Seq::new(old_dst.len(), |k: int| held(p, old_dst, k)),
            trimmed(p, old_dst, trim_pos as int, end_pos as int) == trimmed(
                p,
                old_dst,
                p.len() as int,
                end_pos as int,
            ),
        decreases trim_pos,
    {
        trim_pos = trim_pos - 1;
    }
    let required = trim_pos + 1;
    *out_required = required;
    *out_advance = i;
    if dst.len() == 0 || required > dst.len() {
        return ENOSPC;
    }
    dst[trim_pos] = 0;
    0
}

} // verus!
