//! `data:` URIs: the content type, the `base64` option and the payload.
use vstd::prelude::*;
use crate::scan::{has_prefix, index_of, index_of_from, starts_with};

verus! {

broadcast use vstd::slice::group_slice_axioms;

/// Status: the text is not a usable `data:` URI.
pub const EINVAL: i32 = -22;

/// Where the parts of a `data:` URI lie, and whether its payload is base64.
#[derive(Copy, Clone, Debug)]
pub struct FFMpegRsDataUriParsed {
    pub content_type_offset: usize,
    pub content_type_len: usize,
    pub payload_offset: usize,
    pub payload_len: usize,
    pub base64: i32,
}

/// `data:`.
pub open spec fn data_scheme() -> Seq<u8> {
    seq![('d' as u8), ('a' as u8), ('t' as u8), ('a' as u8), (':' as u8)]
}

/// `base64`.
pub open spec fn base64_word() -> Seq<u8> {
    seq![('b' as u8), ('a' as u8), ('s' as u8), ('e' as u8), ('6' as u8), ('4' as u8)]
}

/// A byte in ASCII lower case.
pub open spec fn lower(b: u8) -> u8 {
    if ('A' as u8) <= b && b <= ('Z' as u8) { (b + 32) as u8 } else { b }
}

/// Two byte strings equal but for ASCII case.
pub open spec fn eq_ignoring_case(a: Seq<u8>, b: Seq<u8>) -> bool {
    a.len() == b.len() && forall|i: int| 0 <= i < a.len() ==> lower(#[trigger] a[i]) == lower(b[i])
}

/// The options from `opt` up to `comma` hold one equal to `base64` but for
/// case. Each option starts with `;` and runs to the next `;`.
pub open spec fn base64_option(s: Seq<u8>, opt: int, comma: int) -> bool
    decreases comma - opt,
{
    let o = opt + 1;
    let next = index_of_from(s.subrange(0, comma), (';' as u8), o);
    if opt < 0 || opt >= comma || comma > s.len() || s[opt] != (';' as u8) || o >= comma || next
        <= opt || next > comma {
        false
    } else {
        (next > o && eq_ignoring_case(s.subrange(o, next), base64_word())) || base64_option(
            s,
            next,
            comma,
        )
    }
}

/// The reading of a `data:` URI, or `None`: it must be at least six bytes,
/// hold a comma before any NUL after a non-empty meta part, and its
/// content type (up to the first `;`) must hold a `/`. The payload runs
/// from after the comma to the first NUL.
pub open spec fn data_uri_of(s: Seq<u8>) -> Option<FFMpegRsDataUriParsed> {
    let nul = index_of_from(s, 0, 0);
    let comma = index_of_from(s.subrange(0, nul), (',' as u8), 0);
    let first_end = index_of_from(s.subrange(0, comma), (';' as u8), 5);
    let ctype = s.subrange(5, first_end);
    if s.len() < 6 || !has_prefix(s, data_scheme()) || comma >= nul || comma <= 5 {
        None
    } else if ctype.len() == 0 || index_of_from(ctype, ('/' as u8), 0) >= ctype.len() {
        None
    } else {
        Some(
            FFMpegRsDataUriParsed {
                content_type_offset: 5,
                content_type_len: (first_end - 5) as usize,
                payload_offset: (comma + 1) as usize,
                payload_len: (if nul > comma + 1 { nul - (comma + 1) } else { 0 }) as usize,
                base64: if base64_option(s, first_end, comma) { 1 } else { 0 },
            },
        )
    }
}

/// The byte in ASCII lower case.
fn to_lower(b: u8) -> (r: u8)
    ensures
        r == lower(b),
{
    if ('A' as u8) <= b && b <= ('Z' as u8) { b + 32 } else { b }
}

/// Two byte strings equal but for ASCII case.
pub fn eq_ascii_case_insensitive(a: &[u8], b: &[u8]) -> (r: bool)
    ensures
        r == eq_ignoring_case(a@, b@),
{
    if a.len() != b.len() {
        return false;
    }
    let mut i: usize = 0;
    while i < a.len()
        invariant
            a@.len() == b@.len(),
            i <= a@.len(),
            forall|j: int| 0 <= j < i ==> lower(#[trigger] a@[j]) == lower(b@[j]),
        decreases a@.len() - i,
    {
        if to_lower(a[i]) != to_lower(b[i]) {
            return false;
        }
        i = i + 1;
    }
    true
}

fn data_scheme_bytes() -> (r: [u8; 5])
    ensures
        r@ == data_scheme(),
{
    let r: [u8; 5] = [('d' as u8), ('a' as u8), ('t' as u8), ('a' as u8), (':' as u8)];
    assert(r@ =~= data_scheme());
    r
}

fn base64_bytes() -> (r: [u8; 6])
    ensures
        r@ == base64_word(),
{
    let r: [u8; 6] = [('b' as u8), ('a' as u8), ('s' as u8), ('e' as u8), ('6' as u8), ('4' as u8)];
    assert(r@ =~= base64_word());
    r
}

/// Scans the options between `opt` and `comma`; see [`base64_option`].
fn scan_base64(s: &[u8], opt: usize, comma: usize) -> (r: bool)
    requires
        opt <= comma <= s@.len(),
    ensures
        r == base64_option(s@, opt as int, comma as int),
{
    let word = base64_bytes();
    let word = word.as_slice();
    let meta = &s[0..comma];
    let mut opt = opt;
    let ghost start = opt;
    let mut found = false;
    while opt < comma && s[opt] == (';' as u8) && opt + 1 < comma
        invariant
            opt <= comma <= s@.len(),
            meta@ == s@.subrange(0, comma as int),
            word@ == base64_word(),
            base64_option(s@, start as int, comma as int) == (found || base64_option(
                s@,
                opt as int,
                comma as int,
            )),
        decreases comma - opt,
    {
        let o = opt + 1;
        let next = index_of(meta, (';' as u8), o);
        if next > o && eq_ascii_case_insensitive(&s[o..next], word) {
            found = true;
        }
        opt = next;
    }
    found
}

/// Reads a `data:` URI into `out`; returns 0, or [`EINVAL`] and leaves
/// `out` alone. See [`data_uri_of`].
pub fn ffmpeg_rs_data_uri_parse(uri: &[u8], out: &mut FFMpegRsDataUriParsed) -> (r: i32)
    ensures
        data_uri_of(uri@) matches Some(v) ==> r == 0 && *final(out) == v,
        data_uri_of(uri@) is None ==> r == EINVAL && *final(out) == *old(out),
{
    let bytes = uri;
    let scheme = data_scheme_bytes();
    if bytes.len() < 6 || !starts_with(bytes, scheme.as_slice()) {
        return EINVAL;
    }
    let nul = index_of(bytes, 0, 0);
    let comma = index_of(&bytes[0..nul], (',' as u8), 0);
    if comma >= nul || comma <= 5 {
        return EINVAL;
    }
    let first_end = index_of(&bytes[0..comma], (';' as u8), 5);
    let ctype = &bytes[5..first_end];
    if ctype.len() == 0 || index_of(ctype, ('/' as u8), 0) >= ctype.len() {
        return EINVAL;
    }
    let base64 = scan_base64(bytes, first_end, comma);
    *out = FFMpegRsDataUriParsed {
        content_type_offset: 5,
        content_type_len: first_end - 5,
        payload_offset: comma + 1,
        payload_len: if nul > comma + 1 { nul - (comma + 1) } else { 0 },
        base64: if base64 { 1 } else { 0 },
    };
    0
}

} // verus!
