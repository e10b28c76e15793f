//! The compressed envelope: once a threshold is set, each body travels
//! behind the length it has when inflated, and is deflated only from the
//! threshold on.

use crate::protocol::frame::append_bytes;
use crate::protocol::varint::{
    lemma_varint_round_trip, read_varint, unsigned_bits, varint_encoding, varint_read,
    write_varint, ReadError,
};
use vstd::prelude::*;
use vstd::slice::slice_subrange;

verus! {

/// The zlib stream that the compressor makes of `data`.
pub uninterp spec fn zlib_deflated(data: Seq<u8>) -> Seq<u8>;

/// The bytes that the zlib stream `data` inflates to, or `None` where
/// `data` is no such stream.
pub uninterp spec fn zlib_inflated(data: Seq<u8>) -> Option<Seq<u8>>;

/// Deflates `data` with `flate2::write::ZlibEncoder` at the default level.
/// Trusted: the result is a function of `data`, and it is a zlib stream
/// that inflates to `data` again.
#[verifier::external_body]
fn zlib_compress(data: &[u8]) -> (out: Vec<u8>)
    ensures
        out@ == zlib_deflated(data@),
        zlib_inflated(out@) == Some(data@),
{
    let mut encoder = flate2::write::ZlibEncoder::new(Vec::new(), flate2::Compression::default());
    std::io::Write::write_all(&mut encoder, data).expect("a write to memory succeeds");
    encoder.finish().expect("a write to memory succeeds")
}

/// Inflates `data` with `flate2::read::ZlibDecoder`. Trusted: the result is
/// a function of `data`; `None` stands for the decoder's error.
#[verifier::external_body]
fn zlib_decompress(data: &[u8]) -> (out: Option<Vec<u8>>)
    ensures
        match out {
            Some(bytes) => zlib_inflated(data@) == Some(bytes@),
            None => zlib_inflated(data@).is_none(),
        },
{
    let mut out = Vec::new();
    match std::io::Read::read_to_end(&mut flate2::read::ZlibDecoder::new(data), &mut out) {
        Ok(_) => Some(out),
        Err(_) => None,
    }
}

/// The envelope of `body` under `threshold`, with `deflated` for the
/// deflated body: a body of at least `threshold` bytes travels deflated
/// behind its own length, a shorter one as it is behind a zero.
pub open spec fn envelope_of(body: Seq<u8>, threshold: nat, deflated: Seq<u8>) -> Seq<u8> {
    if body.len() >= threshold {
        varint_encoding(body.len()) + deflated
    } else {
        varint_encoding(0) + body
    }
}

/// The envelope of `body` under `threshold`.
pub open spec fn envelope(body: Seq<u8>, threshold: nat) -> Seq<u8> {
    envelope_of(body, threshold, zlib_deflated(body))
}

/// What the envelope `inner` holds under `threshold`, with `inflated` for
/// what the bytes behind the length inflate to.
///
/// A length of zero announces a body that travels as it is. Any other
/// length must reach the threshold and be the length of the inflated body.
pub open spec fn open_envelope_of(inner: Seq<u8>, threshold: nat, inflated: Option<Seq<u8>>) -> Result<
    Seq<u8>,
    ReadError,
> {
    match varint_read(inner) {
        Err(e) => Err(e),
        Ok((data_length, n)) => if data_length == 0 {
            Ok(inner.skip(n as int))
        } else if data_length < 0 || data_length < threshold {
            Err(ReadError::DecompressError)
        } else {
            match inflated {
                Some(body) => if body.len() == data_length {
                    Ok(body)
                } else {
                    Err(ReadError::DecompressError)
                },
                None => Err(ReadError::DecompressError),
            }
        },
    }
}

/// The bytes of `inner` behind its leading length.
pub open spec fn behind_length(inner: Seq<u8>) -> Seq<u8> {
    match varint_read(inner) {
        Ok((_, n)) => inner.skip(n as int),
        Err(_) => Seq::empty(),
    }
}

/// What the envelope `inner` holds under `threshold`.
pub open spec fn open_envelope(inner: Seq<u8>, threshold: nat) -> Result<Seq<u8>, ReadError> {
    open_envelope_of(inner, threshold, zlib_inflated(behind_length(inner)))
}

/// Puts `body` into its envelope, given the deflated body where the
/// threshold asks for it.
pub fn seal_envelope(body: &[u8], threshold: u32, deflated: Option<Vec<u8>>) -> (inner: Vec<u8>)
    requires
        body@.len() <= i32::MAX,
        (body@.len() >= threshold) == deflated.is_some(),
    ensures
        deflated.is_some() ==> inner@ == envelope_of(body@, threshold as nat, deflated.unwrap()@),
        deflated.is_none() ==> inner@ == envelope_of(body@, threshold as nat, Seq::empty()),
{
    let mut inner: Vec<u8> = Vec::new();
    match deflated {
        Some(bytes) => {
            write_varint(body.len() as i32, &mut inner);
            append_bytes(&mut inner, bytes.as_slice());
        },
        None => {
            write_varint(0, &mut inner);
            append_bytes(&mut inner, body);
        },
    }
    inner
}

/// Puts `body` into its envelope under `threshold`. A body of at least one
/// byte comes out of the envelope again as it went in, and travels deflated
/// exactly when it has at least `threshold` bytes.
pub fn compress_body(body: &[u8], threshold: u32) -> (inner: Vec<u8>)
    requires
        body@.len() <= i32::MAX,
    ensures
        inner@ == envelope(body@, threshold as nat),
        body@.len() > 0 ==> open_envelope(inner@, threshold as nat) == Ok::<Seq<u8>, ReadError>(
            body@,
        ),
        body@.len() > 0 ==> match varint_read(inner@) {
            Ok((data_length, _)) => (data_length != 0) == (body@.len() >= threshold),
            Err(_) => false,
        },
{
    proof {
        if body@.len() > 0 {
            lemma_envelope_round_trip(body@, threshold as nat, zlib_deflated(body@));
        }
    }
    if body.len() >= threshold as usize {
        let deflated = zlib_compress(body);
        seal_envelope(body, threshold, Some(deflated))
    } else {
        seal_envelope(body, threshold, None)
    }
}

/// The length that the envelope `inner` announces, and where the bytes behind
/// it begin.
pub fn read_data_length(inner: &[u8]) -> (read: Result<(i32, usize), ReadError>)
    ensures
        match (read, varint_read(inner@)) {
            (Ok((value, len)), Ok((v, l))) => value == v && len == l && len <= inner@.len(),
            (Err(e), Err(f)) => e == f,
            _ => false,
        },
{
    assert(inner@.skip(0) == inner@);
    read_varint(inner, 0)
}

/// Takes the body out of the envelope `inner`, given what the bytes behind
/// the length inflate to where the envelope announces a deflated body.
pub fn unseal_envelope(inner: &[u8], threshold: u32, inflated: Option<Vec<u8>>) -> (body: Result<
    Vec<u8>,
    ReadError,
>)
    ensures
        match (
            body,
            open_envelope_of(
                inner@,
                threshold as nat,
                match inflated {
                    Some(bytes) => Some(bytes@),
                    None => None,
                },
            ),
        ) {
            (Ok(bytes), Ok(b)) => bytes@ == b,
            (Err(e), Err(f)) => e == f,
            _ => false,
        },
{
    match read_data_length(inner) {
        Err(e) => Err(e),
        Ok((data_length, n)) => {
            if data_length == 0 {
                let mut body: Vec<u8> = Vec::new();
                append_bytes(&mut body, slice_subrange(inner, n, inner.len()));
                Ok(body)
            } else if data_length < 0 || (data_length as u32) < threshold {
                Err(ReadError::DecompressError)
            } else {
                match inflated {
                    Some(bytes) => {
                        if bytes.len() == data_length as usize {
                            Ok(bytes)
                        } else {
                            Err(ReadError::DecompressError)
                        }
                    },
                    None => Err(ReadError::DecompressError),
                }
            }
        },
    }
}

/// Takes the body out of the envelope `inner` under `threshold`.
pub fn decompress_body(inner: &[u8], threshold: u32) -> (body: Result<Vec<u8>, ReadError>)
    ensures
        match (body, open_envelope(inner@, threshold as nat)) {
            (Ok(bytes), Ok(b)) => bytes@ == b,
            (Err(e), Err(f)) => e == f,
            _ => false,
        },
{
    match read_data_length(inner) {
        Err(e) => Err(e),
        Ok((data_length, n)) => {
            if data_length > 0 && data_length as u32 >= threshold {
                let inflated = zlib_decompress(slice_subrange(inner, n, inner.len()));
                unseal_envelope(inner, threshold, inflated)
            } else {
                unseal_envelope(inner, threshold, None)
            }
        },
    }
}

/// Whether the envelope `inner` announces a deflated body.
pub fn is_compressed(inner: &[u8]) -> (compressed: bool)
    ensures
        compressed == match varint_read(inner@) {
            Ok((data_length, _)) => data_length != 0,
            Err(_) => false,
        },
{
    match read_data_length(inner) {
        Ok((data_length, _)) => data_length != 0,
        Err(_) => false,
    }
}

/// An envelope gives back what was put into it: for every threshold, every
/// body of at least one byte that a length can announce, and whatever
/// stands for the deflated body as long as `body` is what that inflates to.
/// The envelope announces a deflated body exactly when the body has at
/// least `threshold` bytes, and the deflated body then lies behind the
/// length.
pub proof fn lemma_envelope_round_trip(body: Seq<u8>, threshold: nat, deflated: Seq<u8>)
    requires
        0 < body.len() <= i32::MAX,
    ensures
        open_envelope_of(envelope_of(body, threshold, deflated), threshold, Some(body)) == Ok::<
            Seq<u8>,
            ReadError,
        >(body),
        match varint_read(envelope_of(body, threshold, deflated)) {
            Ok((data_length, _)) => (data_length != 0) == (body.len() >= threshold),
            Err(_) => false,
        },
        body.len() >= threshold ==> behind_length(envelope_of(body, threshold, deflated))
            == deflated,
{
    if body.len() >= threshold {
        lemma_varint_round_trip(body.len() as i32, deflated);
        assert(unsigned_bits(body.len() as i32) == body.len());
        let head = varint_encoding(body.len());
        assert((head + deflated).skip(head.len() as int) == deflated);
    } else {
        lemma_varint_round_trip(0, body);
        let head = varint_encoding(0);
        assert((head + body).skip(head.len() as int) == body);
    }
}

} // verus!
