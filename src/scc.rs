//! Scenarist SCC: a line of white-space separated four-digit hex words.
use vstd::prelude::*;
use crate::scan::{is_space_byte, skip_spaces, space_run};

verus! {

broadcast use vstd::slice::group_slice_axioms;

/// The counts of a word scan. `truncated` is 1 when words were dropped for
/// want of room in a non-empty buffer, else 0.
#[derive(Copy, Clone, Debug)]
pub struct FFmpegRsSccParseWordsResult {
    pub n_words_total: usize,
    pub n_words_written: usize,
    pub truncated: i32,
}

/// A hexadecimal digit.
pub open spec fn is_hex_byte(b: u8) -> bool {
    (('0' as u8) <= b && b <= ('9' as u8)) || (('a' as u8) <= b && b <= ('f' as u8)) || (('A' as u8)
        <= b && b <= ('F' as u8))
}

/// The value of a hexadecimal digit.
pub open spec fn hex_of(b: u8) -> int {
    if ('0' as u8) <= b && b <= ('9' as u8) {
        b - ('0' as u8)
    } else if ('a' as u8) <= b && b <= ('f' as u8) {
        b - ('a' as u8) + 10
    } else {
        b - ('A' as u8) + 10
    }
}

/// The word spelled by the first four bytes of a token.
pub open spec fn word_of(tok: Seq<u8>) -> Option<u16> {
    if tok.len() < 4 || !is_hex_byte(tok[0]) || !is_hex_byte(tok[1]) || !is_hex_byte(tok[2])
        || !is_hex_byte(tok[3]) {
        None
    } else {
        Some((hex_of(tok[0]) * 4096 + hex_of(tok[1]) * 256 + hex_of(tok[2]) * 16 + hex_of(tok[3])) as u16)
    }
}

/// The number of bytes from `i` on that are not white space.
pub open spec fn token_run(s: Seq<u8>, i: int) -> nat
    decreases s.len() - i,
{
    if i < 0 || i >= s.len() || is_space_byte(s[i]) {
        0
    } else {
        1 + token_run(s, i + 1)
    }
}

/// The words of the tokens from `i` on, appended to `acc`; the scan stops
/// at the first token that is not a word.
pub open spec fn words_from(s: Seq<u8>, i: int, acc: Seq<u16>) -> Seq<u16>
    decreases s.len() - i,
{
    let j = i + space_run(s, i);
    let t = j + token_run(s, j);
    if i < 0 || j >= s.len() || t <= i || t > s.len() {
        acc
    } else {
        match word_of(s.subrange(j, t)) {
            None => acc,
            Some(w) => words_from(s, t, acc.push(w)),
        }
    }
}

/// The counts reported for `total` words and a buffer of `cap` slots.
pub open spec fn word_counts(total: nat, cap: nat) -> FFmpegRsSccParseWordsResult {
    FFmpegRsSccParseWordsResult {
        n_words_total: total as usize,
        n_words_written: (if total < cap { total } else { cap }) as usize,
        truncated: if cap > 0 && total > cap { 1 } else { 0 },
    }
}

/// A hexadecimal digit.
pub fn is_hex(b: u8) -> (r: bool)
    ensures
        r == is_hex_byte(b),
{
    (('0' as u8) <= b && b <= ('9' as u8)) || (('a' as u8) <= b && b <= ('f' as u8)) || (('A' as u8)
        <= b && b <= ('F' as u8))
}

/// The value of a hexadecimal digit.
pub fn hex_val(b: u8) -> (r: Option<u8>)
    ensures
        r is None <==> !is_hex_byte(b),
        r matches Some(v) ==> v == hex_of(b) && v < 16,
{
    if ('0' as u8) <= b && b <= ('9' as u8) {
        Some(b - ('0' as u8))
    } else if ('a' as u8) <= b && b <= ('f' as u8) {
        Some(b - ('a' as u8) + 10)
    } else if ('A' as u8) <= b && b <= ('F' as u8) {
        Some(b - ('A' as u8) + 10)
    } else {
        None
    }
}

/// Reads the word that opens a token; see [`word_of`].
pub fn parse_word(token: &[u8]) -> (r: Option<u16>)
    ensures
        r == word_of(token@),
{
    if token.len() < 4 {
        return None;
    }
    let (c1, c2, c3, c4) = match (hex_val(token[0]), hex_val(token[1]), hex_val(token[2]), hex_val(token[3])) {
        (Some(a), Some(b), Some(c), Some(d)) => (a, b, c, d),
        _ => return None,
    };
    Some((c1 as u16) * 4096 + (c2 as u16) * 256 + (c3 as u16) * 16 + (c4 as u16))
}

/// The index just past the token that starts at `i`.
fn skip_token(s: &[u8], i: usize) -> (r: usize)
    requires
        i <= s@.len(),
    ensures
        r == i + token_run(s@, i as int),
        r <= s@.len(),
{
    let mut k: usize = i;
    while k < s.len() && !(s[k] == (' ' as u8) || s[k] == ('\t' as u8) || s[k] == ('\r' as u8)
        || s[k] == ('\n' as u8))
        invariant
            i <= k <= s@.len(),
            token_run(s@, i as int) == (k - i) + token_run(s@, k as int),
        decreases s@.len() - k,
    {
        k = k + 1;
    }
    k
}

/// Reads the words of `text`, storing as many as `words` holds and counting
/// all of them; returns 0.
pub fn ffmpeg_rs_scc_parse_words(
    text: &[u8],
    out: &mut FFmpegRsSccParseWordsResult,
    words: &mut [u16],
) -> (r: i32)
    ensures
        ({
            let all = words_from(text@, 0, Seq::empty());
            let cap = old(words)@.len();
            &&& r == 0
            &&& *final(out) == word_counts(all.len(), cap)
            &&& final(out).n_words_total == all.len()
            &&& final(words)@ == Seq::new(cap, |i: int| if i < all.len() { all[i] } else { old(words)@[i] })
        }),
{
    let ghost old_words = words@;
    let ghost mut acc: Seq<u16> = Seq::empty();
    let cap = words.len();
    let mut total: usize = 0;
    let mut written: usize = 0;
    let mut truncated: i32 = 0;
    let mut i: usize = 0;
    assert(words@ =~= Seq::new(cap as nat, |k: int| if k < acc.len() { acc[k] } else { old_words[k] }));
    loop
        invariant_except_break
            i <= text@.len(),
            words_from(text@, i as int, acc) == words_from(text@, 0, Seq::empty()),
            total == acc.len(),
            total <= i,
            written == (if total < cap { total } else { cap }),
            truncated == (if cap > 0 && total > cap { 1i32 } else { 0i32 }),
            words@.len() == cap,
            words@ == Seq::new(cap as nat, |k: int| if k < acc.len() { acc[k] } else { old_words[k] }),
        ensures
            acc == words_from(text@, 0, Seq::empty()),
            total == acc.len(),
            written == (if total < cap { total } else { cap }),
            truncated == (if cap > 0 && total > cap { 1i32 } else { 0i32 }),
            words@ == Seq::new(cap as nat, |k: int| if k < acc.len() { acc[k] } else { old_words[k] }),
        decreases text@.len() - i,
    {
        let j = skip_spaces(text, i);
        if j >= text.len() {
            break;
        }
        let t = skip_token(text, j);
        let word = match parse_word(&text[j..t]) {
            Some(w) => w,
            None => break,
        };
        proof {
            acc = acc.push(word);
        }
        total = total + 1;
        if written < cap {
            words[written] = word;
            written = written + 1;
        } else if cap > 0 {
            truncated = 1;
        }
        assert(words@ =~= Seq::new(cap as nat, |k: int| if k < acc.len() { acc[k] } else { old_words[k] }));
        i = t;
    }
    *out = FFmpegRsSccParseWordsResult { n_words_total: total, n_words_written: written, truncated };
    0
}

} // verus!
