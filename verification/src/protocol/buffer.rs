//! The fields of packets: runs of bytes behind their length, numbers with
//! the highest byte first, and truth values.

use crate::protocol::frame::{append_bytes, WriteError};
use crate::protocol::varint::{
    lemma_varint_round_trip, read_varint, unsigned_bits, varint_encoding, varint_read,
    write_varint, ReadError,
};
use vstd::prelude::*;
use vstd::slice::slice_subrange;

verus! {

/// A run of bytes on the wire: its length, then the bytes.
pub open spec fn bytes_encoding(data: Seq<u8>) -> Seq<u8> {
    varint_encoding(data.len()) + data
}

/// What the front of `input` holds, read as a run of at most `max_len`
/// bytes: the bytes and the number of bytes that the field took, or the
/// error.
pub open spec fn bytes_read(input: Seq<u8>, max_len: nat) -> Result<(Seq<u8>, nat), ReadError> {
    match varint_read(input) {
        Err(e) => Err(e),
        Ok((len, n)) => if len < 0 || len > max_len {
            Err(ReadError::MalformedPacket)
        } else if input.len() < n + len {
            Err(ReadError::Eof)
        } else {
            Ok((input.subrange(n as int, n + len), (n + len) as nat))
        },
    }
}

/// Appends a run of at most `max_len` bytes to `out`. A longer run is
/// refused and leaves `out` as it was.
pub fn write_byte_array(data: &[u8], max_len: u32, out: &mut Vec<u8>) -> (written: Result<
    (),
    WriteError,
>)
    ensures
        written.is_ok() == (data@.len() <= max_len && data@.len() <= i32::MAX),
        written.is_ok() ==> final(out)@ == old(out)@ + bytes_encoding(data@),
        written.is_err() ==> final(out)@ == old(out)@ && written == Err::<(), WriteError>(
            WriteError::TextTooLong,
        ),
{
    if data.len() as u64 > max_len as u64 || data.len() as u64 > i32::MAX as u64 {
        return Err(WriteError::TextTooLong);
    }
    write_varint(data.len() as i32, out);
    append_bytes(out, data);
    assert(unsigned_bits(data@.len() as i32) == data@.len());
    assert(out@ == old(out)@ + bytes_encoding(data@));
    Ok(())
}

/// Reads a run of at most `max_len` bytes from `buf` at `pos`. Gives the
/// bytes and the number of bytes that the field took.
pub fn read_byte_array(buf: &[u8], pos: usize, max_len: u32) -> (read: Result<
    (Vec<u8>, usize),
    ReadError,
>)
    requires
        pos <= buf@.len(),
    ensures
        match (read, bytes_read(buf@.skip(pos as int), max_len as nat)) {
            (Ok((data, len)), Ok((d, l))) => data@ == d && len == l && pos + len <= buf@.len(),
            (Err(e), Err(f)) => e == f,
            _ => false,
        },
{
    let ghost input = buf@.skip(pos as int);
    match read_varint(buf, pos) {
        Err(e) => Err(e),
        Ok((len, n)) => {
            if len < 0 || len as u64 > max_len as u64 {
                Err(ReadError::MalformedPacket)
            } else if buf.len() - pos - n < len as usize {
                Err(ReadError::Eof)
            } else {
                let from: usize = pos + n;
                let mut data: Vec<u8> = Vec::new();
                append_bytes(&mut data, slice_subrange(buf, from, from + len as usize));
                proof {
                    assert(data@ == input.subrange(n as int, n + len));
                }
                Ok((data, n + len as usize))
            }
        },
    }
}

/// A run of bytes survives the wire.
pub proof fn lemma_bytes_round_trip(data: Seq<u8>, max_len: nat, rest: Seq<u8>)
    requires
        data.len() <= max_len,
        data.len() <= i32::MAX,
    ensures
        bytes_read(bytes_encoding(data) + rest, max_len) == Ok::<(Seq<u8>, nat), ReadError>(
            (data, bytes_encoding(data).len()),
        ),
{
    let head = varint_encoding(data.len());
    let input = bytes_encoding(data) + rest;
    assert(input == head + (data + rest));
    lemma_varint_round_trip(data.len() as i32, data + rest);
    assert(unsigned_bits(data.len() as i32) == data.len());
    assert(input.subrange(head.len() as int, (head.len() + data.len()) as int) == data);
}

/// The `n` bytes that spell `v`, highest byte first.
pub open spec fn be_bytes(v: nat, n: nat) -> Seq<u8>
    decreases n,
{
    if n == 0 {
        Seq::empty()
    } else {
        be_bytes(v / 256, (n - 1) as nat).push((v % 256) as u8)
    }
}

/// The number that the bytes spell, highest byte first.
pub open spec fn be_value(bytes: Seq<u8>) -> nat
    decreases bytes.len(),
{
    if bytes.len() == 0 {
        0
    } else {
        be_value(bytes.drop_last()) * 256 + bytes.last() as nat
    }
}

/// 256 to the power of `n`.
pub open spec fn pow256(n: nat) -> nat
    decreases n,
{
    if n == 0 {
        1
    } else {
        256 * pow256((n - 1) as nat)
    }
}

/// The bytes of a number spell the number, as long as they are enough for
/// it.
pub proof fn lemma_be_round_trip(v: nat, n: nat)
    requires
        v < pow256(n),
    ensures
        be_bytes(v, n).len() == n,
        be_value(be_bytes(v, n)) == v,
    decreases n,
{
    if n > 0 {
        assert(v / 256 < pow256((n - 1) as nat));
        lemma_be_round_trip(v / 256, (n - 1) as nat);
        assert(be_bytes(v, n).drop_last() == be_bytes(v / 256, (n - 1) as nat));
    }
}

/// What the front of `input` holds, read as a number of `n` bytes.
pub open spec fn number_read(input: Seq<u8>, n: nat) -> Result<nat, ReadError> {
    if input.len() < n {
        Err(ReadError::Eof)
    } else {
        Ok(be_value(input.take(n as int)))
    }
}

/// A number survives the wire.
pub proof fn lemma_number_round_trip(v: nat, n: nat, rest: Seq<u8>)
    requires
        v < pow256(n),
    ensures
        number_read(be_bytes(v, n) + rest, n) == Ok::<nat, ReadError>(v),
{
    lemma_be_round_trip(v, n);
    assert((be_bytes(v, n) + rest).take(n as int) == be_bytes(v, n));
}

/// Appends the `n` bytes of `v` to `out`, highest byte first.
pub fn write_number(v: u128, n: usize, out: &mut Vec<u8>)
    requires
        n <= 16,
    ensures
        final(out)@ == old(out)@ + be_bytes(v as nat, n as nat),
{
    let mut shift: usize = n;
    // the bytes are written from the highest down: the divisor of the byte
    // at hand is 256 to the power of the bytes that follow it
    let mut k: usize = 0;
    while k < n
        invariant
            k <= n <= 16,
            shift == n - k,
            out@ == old(out)@ + be_bytes(high_part(v as nat, (n - k) as nat), k as nat),
        decreases n - k,
    {
        shift = shift - 1;
        let byte: u8 = (shifted(v, shift) % 256) as u8;
        let ghost before = out@;
        out.push(byte);
        proof {
            let upper = high_part(v as nat, (n - k) as nat);
            let next = high_part(v as nat, (n - k - 1) as nat);
            lemma_high_part_step(v as nat, (n - k - 1) as nat);
            assert(next / 256 == upper && next % 256 == byte);
            assert(be_bytes(next, (k + 1) as nat) == be_bytes(upper, k as nat).push(byte));
            assert(out@ == old(out)@ + be_bytes(next, (k + 1) as nat));
        }
        k += 1;
    }
    proof {
        assert(pow256(0) == 1);
        assert(high_part(v as nat, 0) == v);
    }
}

/// `v` without its lowest `drop` bytes.
pub open spec fn high_part(v: nat, drop: nat) -> nat {
    v / pow256(drop)
}

proof fn lemma_high_part_step(v: nat, drop: nat)
    ensures
        high_part(v, drop) / 256 == high_part(v, drop + 1),
{
    let p = pow256(drop);
    lemma_pow256_positive(drop);
    assert(pow256(drop + 1) == 256 * p);
    assert(v / p / 256 == v / (256 * p)) by (nonlinear_arith)
        requires
            p > 0,
    ;
}

proof fn lemma_pow256_positive(n: nat)
    ensures
        pow256(n) > 0,
    decreases n,
{
    if n > 0 {
        lemma_pow256_positive((n - 1) as nat);
    }
}

/// `v` without its lowest `drop` bytes.
fn shifted(v: u128, drop: usize) -> (high: u128)
    requires
        drop < 16,
    ensures
        high == high_part(v as nat, drop as nat),
{
    let mut high: u128 = v;
    let mut k: usize = 0;
    proof {
        assert(pow256(0) == 1);
        assert(high_part(v as nat, 0) == v);
    }
    while k < drop
        invariant
            k <= drop,
            high == high_part(v as nat, k as nat),
        decreases drop - k,
    {
        proof {
            lemma_high_part_step(v as nat, k as nat);
        }
        high = high / 256;
        k += 1;
    }
    high
}

/// Reads a number of `n` bytes from `buf` at `pos`, highest byte first.
pub fn read_number(buf: &[u8], pos: usize, n: usize) -> (read: Result<u128, ReadError>)
    requires
        pos <= buf@.len(),
        n <= 16,
    ensures
        match (read, number_read(buf@.skip(pos as int), n as nat)) {
            (Ok(value), Ok(v)) => value == v && pos + n <= buf@.len(),
            (Err(e), Err(f)) => e == f,
            _ => false,
        },
{
    let len: usize = buf.len();
    if len - pos < n {
        return Err(ReadError::Eof);
    }
    let ghost bytes = buf@.skip(pos as int).take(n as int);
    let mut value: u128 = 0;
    let mut k: usize = 0;
    while k < n
        invariant
            k <= n <= 16,
            pos + n <= buf@.len(),
            buf@.len() == len,
            bytes == buf@.skip(pos as int).take(n as int),
            value == be_value(bytes.take(k as int)),
            value < pow256(k as nat),
        decreases n - k,
    {
        let byte: u8 = buf[pos + k];
        proof {
            assert(bytes[k as int] == byte);
            assert(bytes.take(k + 1).drop_last() == bytes.take(k as int));
            assert(bytes.take(k + 1).last() == byte);
            lemma_pow256_grows((k + 1) as nat, 16);
            assert(pow256(16) == 0x1_0000_0000_0000_0000_0000_0000_0000_0000) by {
                reveal_with_fuel(pow256, 17);
            }
            assert(pow256((k + 1) as nat) == 256 * pow256(k as nat));
        }
        value = value * 256 + byte as u128;
        k += 1;
    }
    assert(bytes.take(n as int) == bytes);
    Ok(value)
}

/// A number of `n` bytes lies below 256 to the power of `n`.
pub proof fn lemma_be_value_bound(bytes: Seq<u8>)
    ensures
        be_value(bytes) < pow256(bytes.len()),
    decreases bytes.len(),
{
    if bytes.len() > 0 {
        lemma_be_value_bound(bytes.drop_last());
    }
}

/// Powers of 256 grow with the power.
pub proof fn lemma_pow256_grows(a: nat, b: nat)
    requires
        a <= b,
    ensures
        pow256(a) <= pow256(b),
    decreases b,
{
    if a < b {
        lemma_pow256_grows(a, (b - 1) as nat);
    }
}

/// What the front of `input` holds, read as a truth value: a zero is false,
/// every other byte is true.
pub open spec fn bool_read(input: Seq<u8>) -> Result<bool, ReadError> {
    if input.len() < 1 {
        Err(ReadError::Eof)
    } else {
        Ok(input[0] != 0)
    }
}

/// The byte of a truth value.
pub open spec fn bool_encoding(value: bool) -> Seq<u8> {
    seq![if value {
        1u8
    } else {
        0u8
    }]
}

/// Appends a truth value to `out`.
pub fn write_bool(value: bool, out: &mut Vec<u8>)
    ensures
        final(out)@ == old(out)@ + bool_encoding(value),
{
    out.push(if value {
        1
    } else {
        0
    });
    assert(out@ == old(out)@ + bool_encoding(value));
}

/// Reads a truth value from `buf` at `pos`.
pub fn read_bool(buf: &[u8], pos: usize) -> (read: Result<bool, ReadError>)
    requires
        pos <= buf@.len(),
    ensures
        match (read, bool_read(buf@.skip(pos as int))) {
            (Ok(value), Ok(v)) => value == v && pos + 1 <= buf@.len(),
            (Err(e), Err(f)) => e == f,
            _ => false,
        },
{
    if pos == buf.len() {
        Err(ReadError::Eof)
    } else {
        Ok(buf[pos] != 0)
    }
}

} // verus!
