//! ID3v2: the total length of a tag from its ten-byte header.
use vstd::prelude::*;

verus! {

broadcast use vstd::slice::group_slice_axioms;

/// The size of an ID3v2 header, and of its footer.
pub const ID3V2_HEADER_SIZE: i32 = 10;

/// The tag length a header announces: a 28-bit syncsafe size, plus the
/// header, plus a footer when flag bit 4 is set; 0 for fewer than ten bytes.
pub open spec fn id3v2_len(b: Seq<u8>) -> int {
    if b.len() < 10 {
        0
    } else {
        let size = (b[6] % 128) as int * 0x200000 + (b[7] % 128) as int * 0x4000 + (b[8] % 128) as int
            * 0x80 + (b[9] % 128) as int;
        size + 10 + if (b[5] / 16) % 2 == 1 { 10int } else { 0int }
    }
}

/// The tag length a header announces; see [`id3v2_len`].
pub fn ffmpeg_rs_id3v2_tag_len(buf: &[u8]) -> (r: i32)
    ensures
        r == id3v2_len(buf@),
{
    if buf.len() < 10 {
        return 0;
    }
    let len: i32 = (buf[6] % 128) as i32 * 0x200000 + (buf[7] % 128) as i32 * 0x4000
        + (buf[8] % 128) as i32 * 0x80 + (buf[9] % 128) as i32;
    let mut total = len + ID3V2_HEADER_SIZE;
    if (buf[5] / 16) % 2 == 1 {
        total = total + ID3V2_HEADER_SIZE;
    }
    total
}

} // verus!
