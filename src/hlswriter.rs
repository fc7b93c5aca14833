//! The opening lines of an HLS playlist: `#EXTM3U` and `#EXT-X-VERSION`.
use vstd::prelude::*;
use crate::scan::pow10;

verus! {

broadcast use vstd::slice::group_slice_axioms;

/// `buf` with `s` written over it from `pos` on.
pub open spec fn splice(buf: Seq<u8>, pos: int, s: Seq<u8>) -> Seq<u8> {
    buf.subrange(0, pos) + s + buf.subrange(pos + s.len(), buf.len() as int)
}

/// The decimal digits of `n`.
pub open spec fn decimal(n: nat) -> Seq<u8>
    decreases n,
{
    if n < 10 {
        seq![(n + 48) as u8]
    } else {
        decimal(n / 10).push((n % 10 + 48) as u8)
    }
}

/// `#EXTM3U\n#EXT-X-VERSION:`.
pub open spec fn version_prefix() -> Seq<u8> {
    seq![
        ('#' as u8), ('E' as u8), ('X' as u8), ('T' as u8), ('M' as u8), ('3' as u8), ('U' as u8),
        ('\n' as u8), ('#' as u8), ('E' as u8), ('X' as u8), ('T' as u8), ('-' as u8), ('X' as u8),
        ('-' as u8), ('V' as u8), ('E' as u8), ('R' as u8), ('S' as u8), ('I' as u8), ('O' as u8),
        ('N' as u8), (':' as u8)
    ]
}

/// The header text for `version`.
pub open spec fn version_header(version: int) -> Seq<u8> {
    version_prefix() + (if version < 0 { seq![('-' as u8)] } else { Seq::empty() }) + decimal(
        (if version < 0 { -version } else { version }) as nat,
    ) + seq![('\n' as u8)]
}

proof fn lemma_splice_join(buf: Seq<u8>, pos: int, a: Seq<u8>, b: Seq<u8>)
    requires
        0 <= pos,
        pos + a.len() + b.len() <= buf.len(),
    ensures
        splice(splice(buf, pos, a), pos + a.len(), b) == splice(buf, pos, a + b),
{
    assert(splice(splice(buf, pos, a), pos + a.len(), b) =~= splice(buf, pos, a + b));
}

proof fn lemma_decimal_len(n: nat)
    requires
        n <= 0x8000_0000,
    ensures
        1 <= decimal(n).len() <= 10,
{
    assert(pow10(10) == 10_000_000_000) by {
        reveal_with_fuel(pow10, 11);
    }
    lemma_decimal_below(n, 10);
}

proof fn lemma_decimal_below(n: nat, k: nat)
    requires
        n < pow10(k),
        k >= 1,
    ensures
        1 <= decimal(n).len() <= k,
    decreases n,
{
    if n >= 10 {
        assert(k >= 2) by {
            if k == 1 {
                assert(pow10(1) == 10);
            }
        }
        assert(pow10(k) == 10 * pow10((k - 1) as nat));
        assert(n / 10 < pow10((k - 1) as nat));
        lemma_decimal_below(n / 10, (k - 1) as nat);
    }
}

/// Writes `src` into `dst` from `pos` on; returns the index after it.
fn write_bytes(dst: &mut [u8], pos: usize, src: &[u8]) -> (r: usize)
    requires
        pos + src@.len() <= old(dst)@.len(),
    ensures
        final(dst)@ == splice(old(dst)@, pos as int, src@),
        r == pos + src@.len(),
{
    let ghost old_dst = dst@;
    assert(dst@.len() == dst.len());
    let mut i: usize = 0;
    while i < src.len()
        invariant
            pos + src@.len() <= dst.len(),
            dst@.len() == dst.len(),
            dst@.len() == old_dst.len(),
            i <= src@.len(),
            forall|j: int| 0 <= j < pos ==> dst@[j] == old_dst[j],
            forall|j: int| 0 <= j < i ==> dst@[pos + j] == src@[j],
            forall|j: int| pos + i <= j < dst@.len() ==> dst@[j] == old_dst[j],
        decreases src@.len() - i,
    {
        dst[pos + i] = src[i];
        i = i + 1;
    }
    assert(dst@ =~= splice(old_dst, pos as int, src@));
    pos + src.len()
}

/// Writes the decimal digits of `n` from `pos` on; returns the index after
/// them.
fn write_decimal(dst: &mut [u8], pos: usize, n: u64) -> (r: usize)
    requires
        pos + decimal(n as nat).len() <= old(dst)@.len(),
    ensures
        final(dst)@ == splice(old(dst)@, pos as int, decimal(n as nat)),
        r == pos + decimal(n as nat).len(),
    decreases n,
{
    let ghost old_dst = dst@;
    let d: u8 = (n % 10) as u8 + ('0' as u8);
    if n < 10 {
        dst[pos] = d;
        assert(dst@ =~= splice(old_dst, pos as int, decimal(n as nat)));
        return pos + 1;
    }
    let p = write_decimal(dst, pos, n / 10);
    let ghost mid = dst@;
    dst[p] = d;
    proof {
        assert(dst@ =~= splice(mid, p as int, seq![d]));
        lemma_splice_join(old_dst, pos as int, decimal((n / 10) as nat), seq![d]);
        assert(decimal((n / 10) as nat) + seq![d] =~= decimal(n as nat));
    }
    p + 1
}

fn version_prefix_bytes() -> (r: [u8; 23])
    ensures
        r@ == version_prefix(),
{
    let r: [u8; 23] = [
        ('#' as u8), ('E' as u8), ('X' as u8), ('T' as u8), ('M' as u8), ('3' as u8), ('U' as u8),
        ('\n' as u8), ('#' as u8), ('E' as u8), ('X' as u8), ('T' as u8), ('-' as u8), ('X' as u8),
        ('-' as u8), ('V' as u8), ('E' as u8), ('R' as u8), ('S' as u8), ('I' as u8), ('O' as u8),
        ('N' as u8), (':' as u8),
    ];
    assert(r@ =~= version_prefix());
    r
}

/// Writes `#EXTM3U\n#EXT-X-VERSION:<version>\n` and a closing NUL into
/// `dst` and returns the length of the text; -1 for an empty `dst`, -2 for
/// one under 40 bytes, in which case nothing is written.
pub fn ffmpeg_rs_hls_write_playlist_version(dst: &mut [u8], version: i32) -> (r: isize)
    ensures
        old(dst)@.len() == 0 ==> r == -1 && final(dst)@ == old(dst)@,
        0 < old(dst)@.len() < 40 ==> r == -2 && final(dst)@ == old(dst)@,
        old(dst)@.len() >= 40 ==> {
            let h = version_header(version as int);
            &&& r == h.len()
            &&& final(dst)@ == splice(old(dst)@, 0, h + seq![0u8])
        },
{
    if dst.len() == 0 {
        return -1;
    }
    if dst.len() < 40 {
        return -2;
    }
    let ghost old_dst = dst@;
    let neg = version < 0;
    let mag: u64 = if neg { (-(version as i64)) as u64 } else { version as u64 };
    proof {
        lemma_decimal_len(mag as nat);
    }
    let prefix = version_prefix_bytes();
    let mut pos = write_bytes(dst, 0, prefix.as_slice());
    let ghost sign: Seq<u8> = if neg { seq![('-' as u8)] } else { Seq::empty() };
    if neg {
        let ghost before = dst@;
        dst[pos] = ('-' as u8);
        proof {
            assert(dst@ =~= splice(before, pos as int, sign));
        }
        pos = pos + 1;
    }
    proof {
        lemma_splice_join(old_dst, 0, version_prefix(), sign);
    }
    pos = write_decimal(dst, pos, mag);
    proof {
        lemma_splice_join(old_dst, 0, version_prefix() + sign, decimal(mag as nat));
    }
    let ghost before_nl = dst@;
    dst[pos] = ('\n' as u8);
    proof {
        assert(dst@ =~= splice(before_nl, pos as int, seq![('\n' as u8)]));
        lemma_splice_join(
            old_dst,
            0,
            version_prefix() + sign + decimal(mag as nat),
            seq![('\n' as u8)],
        );
    }
    pos = pos + 1;
    let ghost before_nul = dst@;
    dst[pos] = 0;
    proof {
        assert(dst@ =~= splice(before_nul, pos as int, seq![0u8]));
        lemma_splice_join(old_dst, 0, version_header(version as int), seq![0u8]);
    }
    pos as isize
}

} // verus!
