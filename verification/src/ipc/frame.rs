//! Frames: a message's bytes behind their length.
use vstd::prelude::*;
use vstd::string::*;

verus! {

broadcast use group_string_axioms;

/// The most bytes of one message: 64 MiB.
pub const MAX_FRAME_BYTES: u32 = 67108864;

/// A message is longer than a frame may be.
#[derive(Clone, Copy, Debug, PartialEq, Eq, Structural)]
pub struct FrameTooLarge;

impl FrameTooLarge {
    /// The error in words.
    pub fn message(&self) -> (r: &'static str)
        ensures
            r@ == "frame too large"@,
    {
        "frame too large"
    }
}

/// A length in four bytes, the least significant first.
pub open spec fn header_of(len: u32) -> Seq<u8> {
    seq![
        (len % 256) as u8,
        ((len / 256) % 256) as u8,
        ((len / 65536) % 256) as u8,
        (len / 16777216) as u8,
    ]
}

/// The length that four bytes write.
pub open spec fn length_in(header: Seq<u8>) -> nat {
    (header[0] + 256 * header[1] + 65536 * header[2] + 16777216 * header[3]) as nat
}

/// A message as it is sent.
pub open spec fn framed(payload: Seq<u8>) -> Seq<u8> {
    header_of(payload.len() as u32) + payload
}

/// The message at the start of what was received, and what stands behind it:
/// an error where it is too long, nothing where bytes are still missing.
pub open spec fn unframed(bytes: Seq<u8>) -> Result<Option<(Seq<u8>, Seq<u8>)>, FrameTooLarge> {
    if bytes.len() < 4 {
        Ok(None)
    } else {
        let n: int = length_in(bytes) as int;
        if n > MAX_FRAME_BYTES {
            Err(FrameTooLarge)
        } else if bytes.len() < 4 + n {
            Ok(None)
        } else {
            Ok(Some((bytes.subrange(4, 4 + n), bytes.skip(4 + n))))
        }
    }
}

/// The bytes to send for a message.
pub fn write_frame(payload: &Vec<u8>) -> (r: Result<Vec<u8>, FrameTooLarge>)
    ensures
        match r {
            Ok(bytes) => payload@.len() <= MAX_FRAME_BYTES && bytes@ == framed(payload@),
            Err(_) => payload@.len() > MAX_FRAME_BYTES,
        },
{
    if payload.len() > MAX_FRAME_BYTES as usize {
        return Err(FrameTooLarge);
    }
    let len: u32 = payload.len() as u32;
    let mut out: Vec<u8> = Vec::new();
    out.push((len % 256) as u8);
    out.push(((len / 256) % 256) as u8);
    out.push(((len / 65536) % 256) as u8);
    out.push((len / 16777216) as u8);
    assert(out@ =~= header_of(len));
    out.extend_from_slice(payload.as_slice());
    assert(out@ =~= framed(payload@));
    Ok(out)
}

/// The number of bytes to receive behind a header.
pub fn read_frame_len(header: &[u8; 4]) -> (r: Result<u32, FrameTooLarge>)
    ensures
        match r {
            Ok(n) => n == length_in(header@) && n <= MAX_FRAME_BYTES,
            Err(_) => length_in(header@) > MAX_FRAME_BYTES,
        },
{
    let n: u64 = header[0] as u64 + 256 * (header[1] as u64) + 65536 * (header[2] as u64)
        + 16777216 * (header[3] as u64);
    if n > MAX_FRAME_BYTES as u64 {
        Err(FrameTooLarge)
    } else {
        Ok(n as u32)
    }
}

/// The header of a length gives the length back.
pub proof fn law_header_round_trip(len: u32)
    ensures
        header_of(len).len() == 4,
        length_in(header_of(len)) == len,
{
    let h: Seq<u8> = header_of(len);
    assert(len / 16777216 < 256);
    assert(len == len % 256 + 256 * ((len / 256) % 256) + 65536 * ((len / 65536) % 256) + 16777216
        * (len / 16777216));
}

/// A message that was sent is received as it was, whatever follows it.
pub proof fn law_frame_round_trip(payload: Seq<u8>, rest: Seq<u8>)
    requires
        payload.len() <= MAX_FRAME_BYTES,
    ensures
        unframed(framed(payload) + rest) == Ok::<Option<(Seq<u8>, Seq<u8>)>, FrameTooLarge>(
            Some((payload, rest)),
        ),
{
    let bytes: Seq<u8> = framed(payload) + rest;
    let len: u32 = payload.len() as u32;
    law_header_round_trip(len);
    assert(bytes[0] == header_of(len)[0] && bytes[1] == header_of(len)[1] && bytes[2] == header_of(
        len,
    )[2] && bytes[3] == header_of(len)[3]);
    let n: int = payload.len() as int;
    assert(bytes.subrange(4, 4 + n) =~= payload);
    assert(bytes.skip(4 + n) =~= rest);
}

/// A frame is the message's length in four bytes, the least significant first,
/// and then the message.
pub proof fn law_frame_layout(payload: Seq<u8>, i: int)
    requires
        payload.len() <= u32::MAX,
    ensures
        framed(payload).len() == 4 + payload.len(),
        framed(payload)[0] + 256 * framed(payload)[1] + 65536 * framed(payload)[2] + 16777216
            * framed(payload)[3] == payload.len(),
        0 <= i < payload.len() ==> framed(payload)[4 + i] == payload[i],
{
    law_header_round_trip(payload.len() as u32);
}

/// A frame that is not there as a whole is waited for, and one that is longer
/// than allowed is refused.
pub proof fn law_partial_and_large_frames(bytes: Seq<u8>)
    ensures
        bytes.len() < 4 ==> unframed(bytes) == Ok::<Option<(Seq<u8>, Seq<u8>)>, FrameTooLarge>(
            None,
        ),
        bytes.len() >= 4 ==> ({
            let n: int = bytes[0] + 256 * bytes[1] + 65536 * bytes[2] + 16777216 * bytes[3];
            &&& unframed(bytes) is Err <==> n > 64 * 1024 * 1024
            &&& n <= 64 * 1024 * 1024 && bytes.len() < 4 + n ==> unframed(bytes) == Ok::<
                Option<(Seq<u8>, Seq<u8>)>,
                FrameTooLarge,
            >(None)
            &&& n <= 64 * 1024 * 1024 && bytes.len() >= 4 + n ==> unframed(bytes) == Ok::<
                Option<(Seq<u8>, Seq<u8>)>,
                FrameTooLarge,
            >(Some((bytes.subrange(4, 4 + n), bytes.skip(4 + n))))
        }),
{
}

} // verus!
