use crate::bytes;
use crate::bytes::{copy_range, push_be32, push_bytes, read_be32};
use vstd::prelude::*;

verus! {

/// Why a datagram holds no framed command.
#[derive(Debug, Clone, Copy, PartialEq, Eq, Structural)]
pub enum FrameError {
    /// Fewer than the four bytes of the length prefix.
    TooShort,
    /// The prefix announces more bytes than follow it.
    Truncated,
}

/// A command's encoded bytes behind their length as a big-endian `u32`.
pub open spec fn frame_spec(payload: Seq<u8>) -> Seq<u8> {
    bytes::be32(payload.len() as u32) + payload
}

/// The encoded command that a datagram carries; bytes after it are ignored.
pub open spec fn unframe_spec(d: Seq<u8>) -> Result<Seq<u8>, FrameError> {
    if d.len() < 4 {
        Err(FrameError::TooShort)
    } else {
        let len = bytes::be32_at(d, 0);
        if d.len() < 4 + len {
            Err(FrameError::Truncated)
        } else {
            Ok(d.subrange(4, 4 + len))
        }
    }
}

/// Puts the length prefix in front of a command's encoded bytes.
pub fn udp_frame_command(payload: &[u8]) -> (r: Vec<u8>)
    requires
        payload@.len() <= u32::MAX,
    ensures
        r@ == frame_spec(payload@),
{
    let mut out: Vec<u8> = Vec::new();
    push_be32(&mut out, payload.len() as u32);
    push_bytes(&mut out, payload);
    out
}

/// Takes a command's encoded bytes out of a datagram.
pub fn udp_unframe_command(datagram: &[u8]) -> (r: Result<Vec<u8>, FrameError>)
    ensures
        match r {
            Ok(p) => unframe_spec(datagram@) == Ok::<Seq<u8>, FrameError>(p@),
            Err(e) => unframe_spec(datagram@) == Err::<Seq<u8>, FrameError>(e),
        },
{
    let n = datagram.len();
    if n < 4 {
        return Err(FrameError::TooShort);
    }
    let len = read_be32(datagram, 0) as usize;
    if n - 4 < len {
        return Err(FrameError::Truncated);
    }
    Ok(copy_range(datagram, 4, 4 + len))
}

/// Taking the command out of a framed datagram gives back the bytes that
/// went in.
pub proof fn lemma_frame_roundtrip(payload: Seq<u8>)
    requires
        payload.len() <= u32::MAX,
    ensures
        unframe_spec(frame_spec(payload)) == Ok::<Seq<u8>, FrameError>(payload),
{
    let f = frame_spec(payload);
    bytes::lemma_be32_roundtrip(payload.len() as u32);
    assert(f.subrange(0, 4) =~= bytes::be32(payload.len() as u32));
    assert(f.subrange(4, 4 + payload.len() as int) =~= payload);
}

} // verus!
