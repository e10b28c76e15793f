//! Texts on the wire: the length in bytes, then the bytes of the text in
//! UTF-8.

use crate::protocol::frame::{append_bytes, WriteError};
use crate::protocol::varint::{
    lemma_varint_round_trip, read_varint, unsigned_bits, varint_encoding, varint_read,
    write_varint, ReadError,
};
use vstd::prelude::*;
use vstd::slice::slice_subrange;
use vstd::string::{StrSliceExecFns, StringSliceAdditionalSpecFns};
use vstd::utf8::{
    decode_utf8, encode_utf8, encode_utf8_decode_utf8, encode_utf8_valid_utf8, is_ascii_chars,
    is_ascii_chars_encode_utf8, valid_utf8,
};

verus! {

/// The longest text that the protocol knows, in characters.
pub const MAX_TEXT_LEN: u32 = 32767;

/// Makes a `String` of bytes with `String::from_utf8`. Trusted: the result
/// is there exactly for bytes that are UTF-8, and it is the text that they
/// encode.
#[verifier::external_body]
fn string_from_utf8(bytes: Vec<u8>) -> (text: Option<String>)
    ensures
        text.is_some() == valid_utf8(bytes@),
        text.is_some() ==> text.unwrap()@ == decode_utf8(bytes@),
{
    match String::from_utf8(bytes) {
        Ok(text) => Some(text),
        Err(_) => None,
    }
}

/// The text whose characters are the ASCII codes in `bytes`.
pub open spec fn ascii_text(bytes: Seq<u8>) -> Seq<char> {
    Seq::new(bytes.len(), |i: int| bytes[i] as char)
}

/// Makes a text of ASCII codes.
pub fn string_from_ascii(bytes: Vec<u8>) -> (text: String)
    requires
        forall|i: int| 0 <= i < bytes@.len() ==> bytes@[i] < 128,
    ensures
        text@ == ascii_text(bytes@),
{
    proof {
        let chars = ascii_text(bytes@);
        assert(is_ascii_chars(chars));
        is_ascii_chars_encode_utf8(chars);
        assert(encode_utf8(chars) =~= bytes@);
        encode_utf8_valid_utf8(chars);
        encode_utf8_decode_utf8(chars);
    }
    match string_from_utf8(bytes) {
        Some(text) => text,
        None => vstd::pervasive::unreached(),
    }
}

/// The bytes of a text on the wire, given its bytes in UTF-8.
pub open spec fn text_encoding(text: Seq<u8>) -> Seq<u8> {
    varint_encoding(text.len()) + text
}

/// Whether a text of these characters may travel where at most `max_chars`
/// characters are allowed: it has no more characters than that, no more
/// bytes than four times that, and no more bytes than a length can
/// announce.
pub open spec fn text_fits(chars: Seq<char>, max_chars: nat) -> bool {
    &&& chars.len() <= max_chars
    &&& encode_utf8(chars).len() <= 4 * max_chars
    &&& encode_utf8(chars).len() <= i32::MAX
}

/// What the front of `input` holds, read as a text of at most `max_chars`
/// characters: the text and the number of bytes that it took, or the error.
#[verifier::opaque]
pub open spec fn text_read(input: Seq<u8>, max_chars: nat) -> Result<(Seq<char>, nat), ReadError> {
    match varint_read(input) {
        Err(e) => Err(e),
        Ok((len, n)) => if len < 0 || len > 4 * max_chars {
            Err(ReadError::MalformedPacket)
        } else if input.len() < n + len {
            Err(ReadError::Eof)
        } else {
            let bytes = input.subrange(n as int, n + len);
            if valid_utf8(bytes) && decode_utf8(bytes).len() <= max_chars {
                Ok((decode_utf8(bytes), (n + len) as nat))
            } else {
                Err(ReadError::MalformedPacket)
            }
        },
    }
}

/// Appends a text to `out` as it travels on the wire.
pub fn append_text(text: &str, out: &mut Vec<u8>)
    requires
        text.spec_bytes().len() <= i32::MAX,
    ensures
        final(out)@ == old(out)@ + text_encoding(text.spec_bytes()),
{
    let bytes = text.as_bytes();
    write_varint(bytes.len() as i32, out);
    append_bytes(out, bytes);
    assert(unsigned_bits(bytes@.len() as i32) == bytes@.len());
    assert(out@ == old(out)@ + text_encoding(text.spec_bytes()));
}

/// Appends a text of at most `max_chars` characters to `out`. A longer text
/// is refused and leaves `out` as it was.
pub fn write_text(text: &str, max_chars: u32, out: &mut Vec<u8>) -> (written: Result<
    (),
    WriteError,
>)
    ensures
        written.is_ok() == text_fits(text@, max_chars as nat),
        written.is_ok() ==> final(out)@ == old(out)@ + text_encoding(text.spec_bytes()),
        written.is_err() ==> final(out)@ == old(out)@ && written == Err::<(), WriteError>(
            WriteError::TextTooLong,
        ),
{
    let bytes: u64 = text.as_bytes().len() as u64;
    if text.unicode_len() as u64 > max_chars as u64 || bytes > 4 * (max_chars as u64) || bytes
        > i32::MAX as u64 {
        return Err(WriteError::TextTooLong);
    }
    append_text(text, out);
    Ok(())
}

/// Reads a text of at most `max_chars` characters from `buf` at `pos`.
/// Gives the text and the number of bytes that it took.
pub fn read_text(buf: &[u8], pos: usize, max_chars: u32) -> (read: Result<(String, usize), ReadError>)
    requires
        pos <= buf@.len(),
    ensures
        match (read, text_read(buf@.skip(pos as int), max_chars as nat)) {
            (Ok((text, len)), Ok((t, l))) => text@ == t && len == l && pos + len <= buf@.len(),
            (Err(e), Err(f)) => e == f,
            _ => false,
        },
{
    let ghost input = buf@.skip(pos as int);
    proof {
        reveal(text_read);
    }
    match read_varint(buf, pos) {
        Err(e) => Err(e),
        Ok((len, n)) => {
            if len < 0 || len as u64 > 4 * (max_chars as u64) {
                Err(ReadError::MalformedPacket)
            } else if buf.len() - pos - n < len as usize {
                Err(ReadError::Eof)
            } else {
                let from: usize = pos + n;
                let mut bytes: Vec<u8> = Vec::new();
                append_bytes(&mut bytes, slice_subrange(buf, from, from + len as usize));
                proof {
                    assert(bytes@ == input.subrange(n as int, n + len));
                }
                match string_from_utf8(bytes) {
                    Some(text) => {
                        if text.as_str().unicode_len() > max_chars as usize {
                            Err(ReadError::MalformedPacket)
                        } else {
                            Ok((text, n + len as usize))
                        }
                    },
                    None => Err(ReadError::MalformedPacket),
                }
            }
        },
    }
}

/// A text survives the wire: what [`write_text`] wrote for a text that
/// fits, followed by anything, is read back by [`read_text`] as that text,
/// and the reader stops where the text ends.
pub proof fn lemma_text_round_trip(chars: Seq<char>, max_chars: nat, rest: Seq<u8>)
    requires
        text_fits(chars, max_chars),
    ensures
        text_read(text_encoding(encode_utf8(chars)) + rest, max_chars) == Ok::<
            (Seq<char>, nat),
            ReadError,
        >((chars, text_encoding(encode_utf8(chars)).len())),
{
    reveal(text_read);
    let bytes = encode_utf8(chars);
    let head = varint_encoding(bytes.len());
    let input = text_encoding(bytes) + rest;
    assert(input == head + (bytes + rest));
    lemma_varint_round_trip(bytes.len() as i32, bytes + rest);
    assert(unsigned_bits(bytes.len() as i32) == bytes.len());
    assert(input.subrange(head.len() as int, (head.len() + bytes.len()) as int) == bytes);
    encode_utf8_valid_utf8(chars);
    encode_utf8_decode_utf8(chars);
}

} // verus!
