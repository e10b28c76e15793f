//! Frames: each packet travels behind its length.

use crate::protocol::varint::{
    lemma_varint_len, lemma_varint_round_trip, read_varint, unsigned_bits, varint_encoding,
    varint_read, write_varint, ReadError,
};
use vstd::prelude::*;
use vstd::slice::slice_subrange;

verus! {

/// The longest body that a frame may hold: 2 to the power of 21 bytes.
pub const MAX_FRAME_LEN: usize = 2_097_152;

/// Why writing to the stream failed.
#[derive(Clone, Copy, Debug, PartialEq, Eq, Structural, Hash)]
pub enum WriteError {
    /// The body is longer than [`MAX_FRAME_LEN`]: no reader would take it.
    FrameTooLarge,
    /// A text or a run of bytes is longer than its place in the packet
    /// allows.
    TextTooLong,
}

/// Appends `src` to `out`.
pub fn append_bytes(out: &mut Vec<u8>, src: &[u8])
    ensures
        final(out)@ == old(out)@ + src@,
{
    let mut i: usize = 0;
    while i < src.len()
        invariant
            i <= src@.len(),
            out@ == old(out)@ + src@.take(i as int),
        decreases src@.len() - i,
    {
        out.push(src[i]);
        i += 1;
        assert(src@.take(i as int) == src@.take(i - 1).push(src@[i - 1]));
    }
    assert(src@.take(i as int) == src@);
}

/// A frame on the wire: the length of the body, then the body.
pub open spec fn frame_encoding(body: Seq<u8>) -> Seq<u8> {
    varint_encoding(body.len()) + body
}

/// The body of a packet: its number, then its payload.
pub open spec fn packet_body(packet_id: i32, payload: Seq<u8>) -> Seq<u8> {
    varint_encoding(unsigned_bits(packet_id)) + payload
}

/// What the front of `input` holds: a whole frame (its body, and the number
/// of bytes that the frame took), the beginning of one (`None`), or an
/// error.
pub open spec fn frame_parse(input: Seq<u8>) -> Result<Option<(Seq<u8>, nat)>, ReadError> {
    match varint_read(input) {
        Err(ReadError::Eof) => Ok(None),
        Err(e) => Err(e),
        Ok((len, n)) => if len < 0 || len > MAX_FRAME_LEN {
            Err(ReadError::FrameTooLarge)
        } else if input.len() < n + len {
            Ok(None)
        } else {
            Ok(Some((input.subrange(n as int, n + len), n + len as nat)))
        },
    }
}

/// Appends the frame of `body` to `out`. A body above [`MAX_FRAME_LEN`] is
/// refused and leaves `out` as it was.
pub fn write_frame(body: &[u8], out: &mut Vec<u8>) -> (written: Result<(), WriteError>)
    ensures
        written.is_ok() == (body@.len() <= MAX_FRAME_LEN),
        written.is_ok() ==> final(out)@ == old(out)@ + frame_encoding(body@),
        written.is_err() ==> final(out)@ == old(out)@ && written == Err::<(), WriteError>(
            WriteError::FrameTooLarge,
        ),
{
    if body.len() > MAX_FRAME_LEN {
        return Err(WriteError::FrameTooLarge);
    }
    write_varint(body.len() as i32, out);
    append_bytes(out, body);
    assert(out@ == old(out)@ + frame_encoding(body@));
    Ok(())
}

/// Takes one frame from the front of `buf`. Gives its body and the number
/// of bytes to drop from `buf`, or `None` while the frame is not all there.
pub fn read_frame(buf: &[u8]) -> (read: Result<Option<(Vec<u8>, usize)>, ReadError>)
    ensures
        match (read, frame_parse(buf@)) {
            (Ok(Some((body, consumed))), Ok(Some((b, c)))) => body@ == b && consumed == c,
            (Ok(None), Ok(None)) => true,
            (Err(e), Err(f)) => e == f,
            _ => false,
        },
{
    assert(buf@.skip(0) == buf@);
    match read_varint(buf, 0) {
        Err(ReadError::Eof) => Ok(None),
        Err(e) => Err(e),
        Ok((len, n)) => {
            if len < 0 || len as usize > MAX_FRAME_LEN {
                Err(ReadError::FrameTooLarge)
            } else if buf.len() - n < len as usize {
                Ok(None)
            } else {
                let mut body: Vec<u8> = Vec::new();
                append_bytes(&mut body, slice_subrange(buf, n, n + len as usize));
                Ok(Some((body, n + len as usize)))
            }
        },
    }
}

/// At the end of the stream the beginning of a frame is an error: what
/// [`read_frame`] gives, with [`ReadError::Eof`] in place of `None`.
pub fn read_last_frame(buf: &[u8]) -> (read: Result<(Vec<u8>, usize), ReadError>)
    ensures
        match (read, frame_parse(buf@)) {
            (Ok((body, consumed)), Ok(Some((b, c)))) => body@ == b && consumed == c,
            (Err(e), Ok(None)) => e == ReadError::Eof,
            (Err(e), Err(f)) => e == f,
            _ => false,
        },
{
    match read_frame(buf) {
        Ok(Some(frame)) => Ok(frame),
        Ok(None) => Err(ReadError::Eof),
        Err(e) => Err(e),
    }
}

/// Splits the body of a packet into the packet's number and its payload.
pub fn split_packet(body: &[u8]) -> (split: Result<(i32, Vec<u8>), ReadError>)
    ensures
        match (split, varint_read(body@)) {
            (Ok((packet_id, payload)), Ok((id, n))) => packet_id == id && payload@ == body@.skip(
                n as int,
            ),
            (Err(e), Err(f)) => e == f,
            _ => false,
        },
{
    assert(body@.skip(0) == body@);
    match read_varint(body, 0) {
        Err(e) => Err(e),
        Ok((packet_id, n)) => {
            let mut payload: Vec<u8> = Vec::new();
            append_bytes(&mut payload, slice_subrange(body, n, body.len()));
            Ok((packet_id, payload))
        },
    }
}

/// Joins a packet's number and its payload into the packet's body.
pub fn join_packet(packet_id: i32, payload: &[u8]) -> (body: Vec<u8>)
    ensures
        body@ == packet_body(packet_id, payload@),
{
    let mut body: Vec<u8> = Vec::new();
    write_varint(packet_id, &mut body);
    append_bytes(&mut body, payload);
    body
}

/// A frame survives the wire: what [`write_frame`] wrote for a body of at
/// most [`MAX_FRAME_LEN`] bytes, followed by anything, is read back by
/// [`read_frame`] as that body, and the reader stops where the frame ends.
pub proof fn lemma_frame_round_trip(body: Seq<u8>, rest: Seq<u8>)
    requires
        body.len() <= MAX_FRAME_LEN,
    ensures
        frame_parse(frame_encoding(body) + rest) == Ok::<Option<(Seq<u8>, nat)>, ReadError>(
            Some((body, frame_encoding(body).len())),
        ),
{
    let len = body.len() as i32;
    let head = varint_encoding(body.len());
    let input = frame_encoding(body) + rest;
    assert(unsigned_bits(len) == body.len());
    assert(input == head + (body + rest));
    lemma_varint_round_trip(len, body + rest);
    assert(input.subrange(head.len() as int, (head.len() + body.len()) as int) == body);
}

/// A packet survives the split: the body that [`join_packet`] made gives
/// the packet's number and payload back.
pub proof fn lemma_packet_round_trip(packet_id: i32, payload: Seq<u8>)
    ensures
        varint_read(packet_body(packet_id, payload)) == Ok::<(i32, nat), ReadError>(
            (packet_id, varint_encoding(unsigned_bits(packet_id)).len()),
        ),
        packet_body(packet_id, payload).skip(
            varint_encoding(unsigned_bits(packet_id)).len() as int,
        ) == payload,
{
    lemma_varint_round_trip(packet_id, payload);
    lemma_varint_len(unsigned_bits(packet_id));
}

} // verus!
