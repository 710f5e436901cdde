//! Byte-exact framing of one MJPEG multipart chunk, and one step of the
//! streaming loop.
//!
//! A consumer's connection is served by repeating one step at a fixed small
//! cadence: read the latest frame of the name and emit it as one chunk, or
//! end the response as not found if the name has never been written. The
//! cadence, the transport and the connection's end are the caller's; frames
//! overwritten between two steps are never observed (no buffering).

use vstd::prelude::*;
use vstd::string::StrSliceExecFns;
use vstd::string::StringSliceAdditionalSpecFns;
use crate::bytes::push_all;
use crate::digits::decimal_digits;
use crate::digits::spec_decimal;
use crate::digits::spec_decimal_value;
use crate::digits::lemma_decimal_round_trip;
use crate::store::FrameStore;

verus! {

/// Everything of one chunk before the frame's length: the boundary line and
/// the fixed header fields.
pub open spec fn spec_chunk_prefix() -> Seq<u8> {
    "\r\n--FRAME\r\nContent-Type: image/jpeg\r\nContent-Length: ".spec_bytes()
}

/// One multipart chunk carrying `frame`: the boundary line, the two header
/// fields with the frame's length in decimal, a blank line, the frame's
/// bytes, and a closing line break.
pub open spec fn spec_chunk(frame: Seq<u8>) -> Seq<u8> {
    spec_chunk_prefix() + spec_decimal(frame.len()) + "\r\n\r\n".spec_bytes() + frame
        + "\r\n".spec_bytes()
}

/// Offset of the frame's first byte within its chunk: just past the blank
/// line that ends the header.
pub open spec fn spec_chunk_body_start(frame_len: nat) -> nat {
    spec_chunk_prefix().len() + spec_decimal(frame_len).len() + "\r\n\r\n".spec_bytes().len()
}

/// A chunk carries its frame intact: the bytes between the header's blank
/// line and the closing line break are exactly the frame, and the header's
/// length field denotes exactly the frame's length.
pub proof fn lemma_chunk_carries_frame(frame: Seq<u8>)
    ensures
        spec_chunk(frame).len() == spec_chunk_body_start(frame.len()) + frame.len()
            + "\r\n".spec_bytes().len(),
        spec_chunk(frame).subrange(
            spec_chunk_body_start(frame.len()) as int,
            spec_chunk_body_start(frame.len()) + frame.len() as int,
        ) == frame,
        spec_decimal_value(
            spec_chunk(frame).subrange(
                spec_chunk_prefix().len() as int,
                spec_chunk_prefix().len() + spec_decimal(frame.len()).len() as int,
            ),
        ) == frame.len(),
{
    let c = spec_chunk(frame);
    let start = spec_chunk_body_start(frame.len());
    assert(c.subrange(start as int, start + frame.len() as int) =~= frame);
    assert(c.subrange(
        spec_chunk_prefix().len() as int,
        spec_chunk_prefix().len() + spec_decimal(frame.len()).len() as int,
    ) =~= spec_decimal(frame.len()));
    lemma_decimal_round_trip(frame.len());
}

/// One multipart chunk carrying `frame`, byte for byte as [`spec_chunk`]
/// lays it out.
pub fn mjpeg_chunk(frame: &Vec<u8>) -> (r: Vec<u8>)
    ensures
        r@ == spec_chunk(frame@),
{
    let mut r = "\r\n--FRAME\r\nContent-Type: image/jpeg\r\nContent-Length: ".as_bytes_vec();
    let length_field = decimal_digits(frame.len() as u64);
    push_all(&mut r, &length_field);
    let separator = "\r\n\r\n".as_bytes_vec();
    push_all(&mut r, &separator);
    push_all(&mut r, frame);
    let closing = "\r\n".as_bytes_vec();
    push_all(&mut r, &closing);
    proof {
        assert(r@ =~= spec_chunk(frame@));
    }
    r
}

/// One step of the streaming loop for `name`: an independent copy of the
/// latest frame, framed as one chunk, or `None` if `name` has never been
/// written, on which the response ends as not found. A frame that appears
/// later is only observed by a new connection.
pub fn stream_step(frames: &FrameStore, name: &Vec<u8>) -> (r: Option<Vec<u8>>)
    requires
        frames.wf(),
    ensures
        (match r {
            Some(chunk) => frames@.contains_key(name@)
                && chunk@ == spec_chunk(frames@[name@]),
            None => !frames@.contains_key(name@),
        }),
{
    match frames.get(name) {
        Some(frame) => Some(mjpeg_chunk(&frame)),
        None => None,
    }
}

/// The value of the streaming response's Content-Type header.
pub fn stream_content_type() -> (r: &'static str)
    ensures
        r@ == "multipart/x-mixed-replace;boundary=--FRAME"@,
{
    "multipart/x-mixed-replace;boundary=--FRAME"
}

} // verus!
