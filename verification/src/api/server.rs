//! The local socket's frames: a little-endian `u32` length, then that many
//! bytes.

use vstd::prelude::*;
use crate::text::{dec, push_decimal, push_str};

verus! {

/// The largest frame accepted: 4 MiB.
pub const MAX_FRAME: usize = 4194304;

/// The number four little-endian bytes stand for.
pub open spec fn le_value(b: Seq<u8>) -> nat {
    b[0] as nat + 256 * (b[1] as nat) + 65536 * (b[2] as nat) + 16777216 * (b[3] as nat)
}

/// The length a header announces, when it is acceptable.
pub open spec fn accepted_length(h: Seq<u8>) -> Option<nat> {
    if 0 < le_value(h) <= MAX_FRAME {
        Some(le_value(h))
    } else {
        None
    }
}

/// The header of a frame of `len` bytes.
pub fn frame_header(len: u32) -> (h: [u8; 4])
    ensures
        le_value(h@) == len as nat,
{
    let b0 = (len % 256) as u8;
    let b1 = ((len / 256) % 256) as u8;
    let b2 = ((len / 65536) % 256) as u8;
    let b3 = (len / 16777216) as u8;
    let h = [b0, b1, b2, b3];
    assert(h@[0] == b0 && h@[1] == b1 && h@[2] == b2 && h@[3] == b3);
    h
}

/// The length announced by a header, accepted when it is neither zero nor
/// above [`MAX_FRAME`].
pub fn frame_length(h: [u8; 4]) -> (r: Result<usize, String>)
    ensures
        match accepted_length(h@) {
            Some(n) => r == Ok::<usize, String>(n as usize),
            None => r matches Err(m) && m@ == "invalid frame length: "@ + dec(le_value(h@)),
        },
{
    let len: u64 = h[0] as u64 + 256 * (h[1] as u64) + 65536 * (h[2] as u64) + 16777216 * (h[3] as u64);
    assert(len == le_value(h@));
    if len > 0 && len <= MAX_FRAME as u64 {
        Ok(len as usize)
    } else {
        let mut m = String::new();
        push_str(&mut m, "invalid frame length: ");
        push_decimal(&mut m, len);
        Err(m)
    }
}

/// A frame's header reads back as the length it was written with, and that
/// length is accepted when it is neither zero nor above the limit.
pub proof fn lemma_frame_round_trip(len: u32, h: Seq<u8>)
    requires
        le_value(h) == len as nat,
        0 < len <= MAX_FRAME,
    ensures
        accepted_length(h) == Some(len as nat),
{
}

} // verus!
