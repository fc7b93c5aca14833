//! MacCaption MCC: payload text where letters stand for common byte runs,
//! expanded to bytes, and the reverse encoding of bytes to that text.
use vstd::prelude::*;

verus! {

broadcast use vstd::slice::group_slice_axioms;

/// The counts of an expansion. `truncated` is 1 when bytes were dropped for
/// want of room, else 0.
#[derive(Copy, Clone, Debug)]
pub struct FFmpegRsMccExpandPayloadResult {
    pub n_bytes_total: usize,
    pub n_bytes_written: usize,
    pub truncated: i32,
}

/// The value of a payload character: a digit, or a letter of either case
/// counting from 10.
pub open spec fn char_value(x: u8) -> Option<u8> {
    if ('0' as u8) <= x && x <= ('9' as u8) {
        Some((x - ('0' as u8)) as u8)
    } else if ('A' as u8) <= x && x <= ('Z' as u8) {
        Some((x - 55) as u8)
    } else if ('a' as u8) <= x && x <= ('z' as u8) {
        Some((x - 87) as u8)
    } else {
        None
    }
}

/// `n` copies of `FA 00 00`.
pub open spec fn fa_triples(n: nat) -> Seq<u8>
    decreases n,
{
    if n == 0 {
        Seq::empty()
    } else {
        fa_triples((n - 1) as nat) + seq![0xFAu8, 0x00u8, 0x00u8]
    }
}

/// The bytes an alias letter (values 16 to 35) stands for.
pub open spec fn alias_bytes(v: u8) -> Seq<u8> {
    if 16 <= v <= 24 {
        fa_triples((v - 15) as nat)
    } else if v == 25 {
        seq![0xFBu8, 0x80u8, 0x80u8]
    } else if v == 26 || v == 30 || v == 31 {
        seq![0xFCu8, 0x80u8, 0x80u8]
    } else if v == 27 {
        seq![0xFDu8, 0x80u8, 0x80u8]
    } else if v == 28 {
        seq![0x96u8, 0x69u8]
    } else if v == 29 {
        seq![0x61u8, 0x01u8]
    } else if v == 32 {
        seq![0xE1u8, 0x00u8, 0x00u8, 0x00u8]
    } else if v == 35 {
        seq![0x00u8]
    } else {
        Seq::empty()
    }
}

/// The bytes of the payload text from `i` on: an alias letter expands to
/// its run, two hex digits give one byte; the expansion stops at the first
/// character that fits neither.
pub open spec fn expand_from(s: Seq<u8>, i: int) -> Seq<u8>
    decreases s.len() - i,
{
    if i < 0 || i >= s.len() {
        Seq::empty()
    } else {
        match char_value(s[i]) {
            None => Seq::empty(),
            Some(v) => if 16 <= v <= 35 {
                alias_bytes(v) + expand_from(s, i + 1)
            } else if i + 1 >= s.len() {
                Seq::empty()
            } else {
                match char_value(s[i + 1]) {
                    Some(w) => if w < 16 {
                        seq![(v * 16 + w) as u8] + expand_from(s, i + 2)
                    } else {
                        Seq::empty()
                    },
                    None => Seq::empty(),
                }
            },
        }
    }
}

/// The value of a payload character; see [`char_value`].
pub fn convert_like_c(x: u8) -> (r: Option<u8>)
    ensures
        r == char_value(x),
{
    if ('0' as u8) <= x && x <= ('9' as u8) {
        Some(x - ('0' as u8))
    } else if ('A' as u8) <= x && x <= ('Z' as u8) {
        Some(x - 55)
    } else if ('a' as u8) <= x && x <= ('z' as u8) {
        Some(x - 87)
    } else {
        None
    }
}

/// Counts `src` and stores as much of it as the buffer has room for.
fn push_bytes(
    out: &mut FFmpegRsMccExpandPayloadResult,
    bytes: &mut [u8],
    src: &[u8],
    Ghost(prev): Ghost<Seq<u8>>,
    Ghost(old_bytes): Ghost<Seq<u8>>,
)
    requires
        old(out).n_bytes_total == prev.len(),
        old(out).n_bytes_written == (if prev.len() < old_bytes.len() { prev.len() } else {
            old_bytes.len()
        }),
        old(out).truncated == (if prev.len() > old_bytes.len() { 1i32 } else { 0i32 }),
        old(bytes)@ == Seq::new(
            old_bytes.len(),
            |k: int| if k < prev.len() { prev[k] } else { old_bytes[k] },
        ),
        src@.len() > 0,
        prev.len() + src@.len() <= usize::MAX,
    ensures
        ({
            let now = prev + src@;
            &&& final(out).n_bytes_total == now.len()
            &&& final(out).n_bytes_written == (if now.len() < old_bytes.len() { now.len() } else {
                old_bytes.len()
            })
            &&& final(out).truncated == (if now.len() > old_bytes.len() { 1i32 } else { 0i32 })
            &&& final(bytes)@ == Seq::new(
                old_bytes.len(),
                |k: int| if k < now.len() { now[k] } else { old_bytes[k] },
            )
        }),
{
    let cap = bytes.len();
    out.n_bytes_total = out.n_bytes_total + src.len();
    if cap == 0 {
        out.truncated = 1;
        assert(bytes@ =~= Seq::new(0, |k: int| old_bytes[k]));
        return;
    }
    let ghost mut cur = prev;
    let mut i: usize = 0;
    while i < src.len()
        invariant
            i <= src@.len(),
            cap == bytes@.len() == old_bytes.len(),
            cap > 0,
            cur == prev + src@.subrange(0, i as int),
            out.n_bytes_total == prev.len() + src@.len(),
            out.n_bytes_written == (if cur.len() < cap { cur.len() as int } else { cap as int }),
            out.truncated == (if cur.len() > cap { 1i32 } else { 0i32 }),
            bytes@ == Seq::new(cap as nat, |k: int| if k < cur.len() { cur[k] } else { old_bytes[k] }),
        decreases src@.len() - i,
    {
        if out.n_bytes_written < cap {
            bytes[out.n_bytes_written] = src[i];
            out.n_bytes_written = out.n_bytes_written + 1;
        } else {
            out.truncated = 1;
        }
        proof {
            assert(prev + src@.subrange(0, i + 1) =~= cur.push(src@[i as int]));
            cur = cur.push(src@[i as int]);
        }
        assert(bytes@ =~= Seq::new(cap as nat, |k: int| if k < cur.len() { cur[k] } else { old_bytes[k] }));
        i = i + 1;
    }
    assert(src@.subrange(0, i as int) =~= src@);
}

/// The bytes an alias letter stands for, as a buffer.
fn alias_run(v: u8) -> (r: Vec<u8>)
    requires
        16 <= v <= 35,
    ensures
        r@ == alias_bytes(v),
{
    let mut r: Vec<u8> = Vec::new();
    if v <= 24 {
        let n = v - 15;
        let mut k: u8 = 0;
        while k < n
            invariant
                k <= n,
                n == v - 15,
                r@ == fa_triples(k as nat),
            decreases n - k,
        {
            r.push(0xFA);
            r.push(0x00);
            r.push(0x00);
            proof {
                assert(fa_triples((k + 1) as nat) == fa_triples(k as nat) + seq![0xFAu8, 0x00u8, 0x00u8]);
                assert(r@ =~= fa_triples(k as nat) + seq![0xFAu8, 0x00u8, 0x00u8]);
            }
            k = k + 1;
        }
        return r;
    }
    if v == 25 {
        r = vec![0xFB, 0x80, 0x80];
    } else if v == 26 || v == 30 || v == 31 {
        r = vec![0xFC, 0x80, 0x80];
    } else if v == 27 {
        r = vec![0xFD, 0x80, 0x80];
    } else if v == 28 {
        r = vec![0x96, 0x69];
    } else if v == 29 {
        r = vec![0x61, 0x01];
    } else if v == 32 {
        r = vec![0xE1, 0x00, 0x00, 0x00];
    } else if v == 35 {
        r = vec![0x00];
    }
    assert(r@ =~= alias_bytes(v));
    r
}

proof fn lemma_expand_len(s: Seq<u8>, i: int)
    requires
        0 <= i <= s.len(),
    ensures
        expand_from(s, i).len() <= 27 * (s.len() - i),
    decreases s.len() - i,
{
    if i < s.len() {
        match char_value(s[i]) {
            None => {},
            Some(v) => {
                if 16 <= v <= 35 {
                    lemma_expand_len(s, i + 1);
                    lemma_alias_len(v);
                } else if i + 1 < s.len() {
                    lemma_expand_len(s, i + 2);
                }
            },
        }
    }
}

proof fn lemma_alias_len(v: u8)
    ensures
        alias_bytes(v).len() <= 27,
{
    if 16 <= v <= 24 {
        lemma_fa_len((v - 15) as nat);
    }
}

proof fn lemma_fa_len(n: nat)
    ensures
        fa_triples(n).len() == 3 * n,
    decreases n,
{
    if n > 0 {
        lemma_fa_len((n - 1) as nat);
    }
}

/// Expands payload text into `bytes`, storing as much as fits and counting
/// all of it in `out`; returns 0. See [`expand_from`].
pub fn ffmpeg_rs_mcc_expand_payload(
    text: &[u8],
    out: &mut FFmpegRsMccExpandPayloadResult,
    bytes: &mut [u8],
) -> (r: i32)
    requires
        27 * text@.len() <= usize::MAX,
    ensures
        ({
            let all = expand_from(text@, 0);
            let cap = old(bytes)@.len();
            &&& r == 0
            &&& final(out).n_bytes_total == all.len()
            &&& final(out).n_bytes_written == (if all.len() < cap { all.len() as int } else { cap as int })
            &&& final(out).truncated == (if all.len() > cap { 1i32 } else { 0i32 })
            &&& final(bytes)@ == Seq::new(cap, |k: int| if k < all.len() { all[k] } else { old(bytes)@[k] })
        }),
{
    let ghost old_bytes = bytes@;
    let ghost mut acc: Seq<u8> = Seq::empty();
    let mut r = FFmpegRsMccExpandPayloadResult { n_bytes_total: 0, n_bytes_written: 0, truncated: 0 };
    let s = text;
    let mut i: usize = 0;
    assert(bytes@ =~= Seq::new(old_bytes.len(), |k: int| if k < acc.len() { acc[k] } else { old_bytes[k] }));
    proof {
        lemma_expand_len(s@, 0);
    }
    loop
        invariant_except_break
            i <= s@.len(),
            acc + expand_from(s@, i as int) == expand_from(s@, 0),
        invariant
            27 * s@.len() <= usize::MAX,
            expand_from(s@, 0).len() <= 27 * s@.len(),
            r.n_bytes_total == acc.len(),
            r.n_bytes_written == (if acc.len() < old_bytes.len() { acc.len() } else {
                old_bytes.len()
            }),
            r.truncated == (if acc.len() > old_bytes.len() { 1i32 } else { 0i32 }),
            bytes@ == Seq::new(
                old_bytes.len(),
                |k: int| if k < acc.len() { acc[k] } else { old_bytes[k] },
            ),
        ensures
            acc == expand_from(s@, 0),
        decreases s@.len() - i,
    {
        if i >= s.len() {
            assert(acc + Seq::<u8>::empty() =~= acc);
            break;
        }
        let v = match convert_like_c(s[i]) {
            Some(v) => v,
            None => {
                assert(acc + Seq::<u8>::empty() =~= acc);
                break;
            },
        };
        i = i + 1;
        if 16 <= v && v <= 35 {
            let run = alias_run(v);
            proof {
                assert(acc + run@ + expand_from(s@, i as int) =~= acc + (run@ + expand_from(
                    s@,
                    i as int,
                )));
                assert((acc + run@).len() <= expand_from(s@, 0).len());
            }
            if run.len() > 0 {
                push_bytes(&mut r, bytes, run.as_slice(), Ghost(acc), Ghost(old_bytes));
            }
            proof {
                if run@.len() == 0 {
                    assert(acc + run@ =~= acc);
                }
                acc = acc + run@;
            }
        } else {
            if i >= s.len() {
                assert(acc + Seq::<u8>::empty() =~= acc);
                break;
            }
            let w = match convert_like_c(s[i]) {
                Some(w) => w,
                None => {
                    assert(acc + Seq::<u8>::empty() =~= acc);
                    break;
                },
            };
            if w >= 16 {
                assert(acc + Seq::<u8>::empty() =~= acc);
                break;
            }
            i = i + 1;
            let b: u8 = v * 16 + w;
            let one = [b];
            proof {
                assert(one@ =~= seq![b]);
                assert(acc + one@ + expand_from(s@, i as int) =~= acc + (seq![b] + expand_from(
                    s@,
                    i as int,
                )));
                assert((acc + one@).len() <= expand_from(s@, 0).len());
            }
            push_bytes(&mut r, bytes, one.as_slice(), Ghost(acc), Ghost(old_bytes));
            proof {
                acc = acc + one@;
            }
        }
    }
    *out = r;
    0
}

/// The uppercase hex digit of a nibble.
pub open spec fn nibble_char(v: u8) -> u8 {
    if v < 10 { (('0' as u8) + v) as u8 } else { (('A' as u8) + (v - 10)) as u8 }
}

/// The number of `FA 00 00` triples in a row from `j`, at most `9 - k`.
pub open spec fn fa_count(b: Seq<u8>, j: int, k: int) -> nat
    decreases 9 - k,
{
    if k >= 9 || j < 0 || j + 2 >= b.len() || !(b[j] == 0xFA && b[j + 1] == 0 && b[j + 2] == 0) {
        0
    } else {
        1 + fa_count(b, j + 3, k + 1)
    }
}

/// The payload text for the bytes from `i` on: runs that have a letter are
/// written as that letter, other bytes as two hex digits. `E1 00 00 00`
/// becomes `U` only when `u_alias` is set.
pub open spec fn encode_from(b: Seq<u8>, i: int, u_alias: bool) -> Seq<u8>
    decreases b.len() - i,
{
    if i < 0 || i >= b.len() {
        Seq::empty()
    } else {
        let x = b[i];
        let n = fa_count(b, i, 0);
        if x == 0xFA && n > 0 && i + 3 * n <= b.len() {
            seq![(('G' as u8) + n - 1) as u8] + encode_from(b, i + 3 * n, u_alias)
        } else if (x == 0xFB || x == 0xFC || x == 0xFD) && i + 2 < b.len() && b[i + 1] == 0x80
            && b[i + 2] == 0x80 {
            seq![(x - 0xFB + ('P' as u8)) as u8] + encode_from(b, i + 3, u_alias)
        } else if x == 0x96 && i + 1 < b.len() && b[i + 1] == 0x69 {
            seq![('S' as u8)] + encode_from(b, i + 2, u_alias)
        } else if x == 0x61 && i + 1 < b.len() && b[i + 1] == 0x01 {
            seq![('T' as u8)] + encode_from(b, i + 2, u_alias)
        } else if x == 0xE1 && u_alias && i + 3 < b.len() && b[i + 1] == 0 && b[i + 2] == 0 && b[i
            + 3] == 0 {
            seq![('U' as u8)] + encode_from(b, i + 4, u_alias)
        } else if x == 0 {
            seq![('Z' as u8)] + encode_from(b, i + 1, u_alias)
        } else {
            seq![nibble_char(x / 16), nibble_char(x % 16)] + encode_from(b, i + 1, u_alias)
        }
    }
}

/// The uppercase hex digit of a nibble.
pub fn hex_nibble(v: u8) -> (r: u8)
    requires
        v < 16,
    ensures
        r == nibble_char(v),
{
    if v < 10 {
        ('0' as u8) + v
    } else {
        ('A' as u8) + (v - 10)
    }
}

proof fn lemma_fa_count_bound(b: Seq<u8>, j: int, k: int)
    requires
        0 <= k <= 9,
    ensures
        fa_count(b, j, k) <= 9 - k,
        fa_count(b, j, k) > 0 ==> j + 3 * fa_count(b, j, k) <= b.len(),
    decreases 9 - k,
{
    if !(k >= 9 || j < 0 || j + 2 >= b.len() || !(b[j] == 0xFA && b[j + 1] == 0 && b[j + 2] == 0)) {
        lemma_fa_count_bound(b, j + 3, k + 1);
    }
}

proof fn lemma_encode_len(b: Seq<u8>, i: int, u: bool)
    requires
        0 <= i <= b.len(),
    ensures
        encode_from(b, i, u).len() <= 2 * (b.len() - i),
    decreases b.len() - i,
{
    if i < b.len() {
        let x = b[i];
        let n = fa_count(b, i, 0);
        lemma_fa_count_bound(b, i, 0);
        if x == 0xFA && n > 0 && i + 3 * n <= b.len() {
            lemma_encode_len(b, i + 3 * n, u);
        } else if (x == 0xFB || x == 0xFC || x == 0xFD) && i + 2 < b.len() && b[i + 1] == 0x80
            && b[i + 2] == 0x80 {
            lemma_encode_len(b, i + 3, u);
        } else if (x == 0x96 && i + 1 < b.len() && b[i + 1] == 0x69) || (x == 0x61 && i + 1
            < b.len() && b[i + 1] == 0x01) {
            lemma_encode_len(b, i + 2, u);
        } else if x == 0xE1 && u && i + 3 < b.len() && b[i + 1] == 0 && b[i + 2] == 0 && b[i + 3]
            == 0 {
            lemma_encode_len(b, i + 4, u);
        } else {
            lemma_encode_len(b, i + 1, u);
        }
    }
}

/// The text for the bytes at `i`: one or two characters (the second is
/// used when `n` is 2) and the index after the bytes they stand for.
#[verifier::rlimit(40)]
fn encode_at(inb: &[u8], i: usize, use_u_alias: i32) -> (r: (u8, u8, usize, usize))
    requires
        i < inb@.len(),
    ensures
        ({
            let (c1, c2, n, next) = r;
            &&& 1 <= n <= 2
            &&& i < next <= inb@.len()
            &&& encode_from(inb@, i as int, use_u_alias != 0) == (if n == 1 { seq![c1] } else {
                seq![c1, c2]
            }) + encode_from(inb@, next as int, use_u_alias != 0)
        }),
{
    let len = inb.len();
    let x = inb[i];
    let ghost u = use_u_alias != 0;
    proof {
        lemma_fa_count_bound(inb@, i as int, 0);
    }
    if x == 0xFA {
        let mut code: u8 = ('G' as u8);
        let mut j = i;
        while code <= ('O' as u8) && len - j > 2 && inb[j] == 0xFA && inb[j + 1] == 0 && inb[j + 2]
            == 0
            invariant
                i <= j <= len,
                len == inb@.len(),
                ('G' as u8) <= code <= ('P' as u8),
                j == i + 3 * (code - ('G' as u8)),
                fa_count(inb@, i as int, 0) == (code - ('G' as u8)) + fa_count(
                    inb@,
                    j as int,
                    code - ('G' as u8),
                ),
            decreases ('P' as u8) - code,
        {
            j = j + 3;
            code = code + 1;
        }
        if code != ('G' as u8) {
            assert(fa_count(inb@, j as int, code - ('G' as u8)) == 0);
            return (code - 1, 0, 1, j);
        }
    } else if (x == 0xFB || x == 0xFC || x == 0xFD) && len - i > 2 && inb[i + 1] == 0x80 && inb[i
        + 2] == 0x80 {
        return ((x - 0xFB) + ('P' as u8), 0, 1, i + 3);
    } else if x == 0x96 && len - i > 1 && inb[i + 1] == 0x69 {
        return (('S' as u8), 0, 1, i + 2);
    } else if x == 0x61 && len - i > 1 && inb[i + 1] == 0x01 {
        return (('T' as u8), 0, 1, i + 2);
    } else if x == 0xE1 && use_u_alias != 0 && len - i > 3 && inb[i + 1] == 0 && inb[i + 2] == 0
        && inb[i + 3] == 0 {
        return (('U' as u8), 0, 1, i + 4);
    } else if x == 0 {
        return (('Z' as u8), 0, 1, i + 1);
    }
    (hex_nibble(x / 16), hex_nibble(x % 16), 2, i + 1)
}

/// Writes the payload text for `bytes` and a closing NUL into `dest`;
/// returns 0, or -2 when `dest` has less than twice the bytes plus one,
/// in which case nothing is written. See [`encode_from`].
pub fn ffmpeg_rs_mcc_bytes_to_hex(dest: &mut [u8], bytes: &[u8], use_u_alias: i32) -> (r: i32)
    ensures
        old(dest)@.len() < 1 + 2 * bytes@.len() ==> r == -2 && final(dest)@ == old(dest)@,
        old(dest)@.len() >= 1 + 2 * bytes@.len() ==> {
            let enc = encode_from(bytes@, 0, use_u_alias != 0).push(0u8);
            &&& r == 0
            &&& final(dest)@ == Seq::new(
                old(dest)@.len(),
                |k: int| if k < enc.len() { enc[k] } else { old(dest)@[k] },
            )
        },
{
    let cap = dest.len();
    if cap == 0 || bytes.len() > (cap - 1) / 2 {
        return -2;
    }
    let ghost u = use_u_alias != 0;
    let ghost old_dest = dest@;
    let ghost mut acc: Seq<u8> = Seq::empty();
    let len = bytes.len();
    let mut oi: usize = 0;
    let mut i: usize = 0;
    proof {
        lemma_encode_len(bytes@, 0, u);
    }
    assert(dest@ =~= Seq::new(cap as nat, |k: int| if k < acc.len() { acc[k] } else { old_dest[k] }));
    while i < len
        invariant
            i <= len == bytes@.len(),
            cap == dest@.len() == old_dest.len(),
            2 * len + 1 <= cap,
            u == (use_u_alias != 0),
            oi == acc.len(),
            acc + encode_from(bytes@, i as int, u) == encode_from(bytes@, 0, u),
            encode_from(bytes@, 0, u).len() <= 2 * len,
            dest@ == Seq::new(cap as nat, |k: int| if k < acc.len() { acc[k] } else { old_dest[k] }),
        decreases len - i,
    {
        let (c1, c2, n, next) = encode_at(bytes, i, use_u_alias);
        proof {
            lemma_encode_len(bytes@, next as int, u);
            let chars = if n == 1 { seq![c1] } else { seq![c1, c2] };
            assert(acc + chars + encode_from(bytes@, next as int, u) =~= acc + (chars + encode_from(
                bytes@,
                next as int,
                u,
            )));
        }
        dest[oi] = c1;
        if n == 2 {
            dest[oi + 1] = c2;
        }
        proof {
            acc = if n == 1 { acc.push(c1) } else { acc.push(c1).push(c2) };
        }
        oi = oi + n;
        assert(dest@ =~= Seq::new(cap as nat, |k: int| if k < acc.len() { acc[k] } else { old_dest[k] }));
        i = next;
    }
    proof {
        assert(acc + Seq::<u8>::empty() =~= acc);
    }
    dest[oi] = 0;
    proof {
        acc = acc.push(0u8);
    }
    assert(dest@ =~= Seq::new(cap as nat, |k: int| if k < acc.len() { acc[k] } else { old_dest[k] }));
    0
}

} // verus!
