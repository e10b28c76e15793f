//! Variable-length integers: seven bits to a byte, lowest first, the high
//! bit of a byte set while more bytes follow.

use vstd::prelude::*;

verus! {

/// The most bytes that a variable-length integer of 32 bits takes.
pub const MAX_VARINT_LEN: usize = 5;

/// The bytes that stand for `v`.
pub open spec fn varint_encoding(v: nat) -> Seq<u8>
    decreases v,
{
    if v < 128 {
        seq![v as u8]
    } else {
        seq![(v % 128 + 128) as u8] + varint_encoding(v / 128)
    }
}

/// What the front of a byte string holds, read as a variable-length
/// integer.
pub enum VarIntParse {
    /// A value, and the number of bytes that it took.
    Value { value: nat, len: nat },
    /// The bytes end before the integer does.
    Incomplete,
    /// The integer goes on after the last byte that it may take.
    TooLong,
}

/// Reads a variable-length integer of at most `room` bytes from the front
/// of `s`.
pub open spec fn varint_parse(s: Seq<u8>, room: nat) -> VarIntParse
    decreases room,
{
    if room == 0 {
        VarIntParse::TooLong
    } else if s.len() == 0 {
        VarIntParse::Incomplete
    } else if s[0] < 128 {
        VarIntParse::Value { value: s[0] as nat, len: 1 }
    } else {
        match varint_parse(s.skip(1), (room - 1) as nat) {
            VarIntParse::Value { value, len } => VarIntParse::Value {
                value: (s[0] - 128) as nat + 128 * value,
                len: len + 1,
            },
            other => other,
        }
    }
}

/// The 32 bits of `v`, read as an unsigned number.
pub open spec fn unsigned_bits(v: i32) -> nat {
    if v < 0 {
        (v + 0x1_0000_0000) as nat
    } else {
        v as nat
    }
}

/// The signed number whose 32 bits are `bits`.
pub open spec fn signed_value(bits: nat) -> int {
    if bits >= 0x8000_0000 {
        bits - 0x1_0000_0000
    } else {
        bits as int
    }
}

/// Why reading from the stream failed.
#[derive(Clone, Copy, Debug, PartialEq, Eq, Structural, Hash)]
pub enum ReadError {
    /// The stream ended inside a frame.
    Eof,
    /// A frame is longer than [`crate::protocol::frame::MAX_FRAME_LEN`].
    FrameTooLarge,
    /// A variable-length integer takes more than five bytes or more than 32
    /// bits.
    BadVarInt,
    /// The compressed envelope does not hold what it announces.
    DecompressError,
    /// The current phase has no packet with this number.
    UnknownPacketId,
    /// The payload does not fit the packet's layout.
    MalformedPacket,
}

/// What [`read_varint`] owes for the bytes `s`: the value and its length, or
/// the error.
pub open spec fn varint_read(s: Seq<u8>) -> Result<(i32, nat), ReadError> {
    match varint_parse(s, 5) {
        VarIntParse::Value { value, len } => if value <= 0xffff_ffff {
            Ok((signed_value(value) as i32, len))
        } else {
            Err(ReadError::BadVarInt)
        },
        VarIntParse::Incomplete => Err(ReadError::Eof),
        VarIntParse::TooLong => Err(ReadError::BadVarInt),
    }
}

/// Appends the bytes that stand for `value` to `out`.
pub fn write_varint(value: i32, out: &mut Vec<u8>)
    ensures
        final(out)@ == old(out)@ + varint_encoding(unsigned_bits(value)),
{
    let mut rest: u64 = if value < 0 {
        (value as i64 + 0x1_0000_0000) as u64
    } else {
        value as u64
    };
    while rest >= 128
        invariant
            out@ + varint_encoding(rest as nat) == old(out)@ + varint_encoding(
                unsigned_bits(value),
            ),
        decreases rest,
    {
        let ghost before = out@;
        out.push((rest % 128 + 128) as u8);
        proof {
            assert(varint_encoding(rest as nat) == seq![(rest % 128 + 128) as u8]
                + varint_encoding((rest / 128) as nat));
            assert(out@ + varint_encoding((rest / 128) as nat) == before + varint_encoding(
                rest as nat,
            ));
        }
        rest = rest / 128;
    }
    let ghost before = out@;
    out.push(rest as u8);
    proof {
        assert(out@ == before + varint_encoding(rest as nat));
    }
}

/// The number of bytes that stand for `value`.
pub fn varint_len(value: i32) -> (len: usize)
    ensures
        len == varint_encoding(unsigned_bits(value)).len(),
        1 <= len <= MAX_VARINT_LEN,
{
    let bits: u64 = if value < 0 {
        (value as i64 + 0x1_0000_0000) as u64
    } else {
        value as u64
    };
    proof {
        lemma_varint_len(bits as nat);
    }
    if bits < 0x80 {
        1
    } else if bits < 0x4000 {
        2
    } else if bits < 0x20_0000 {
        3
    } else if bits < 0x1000_0000 {
        4
    } else {
        5
    }
}

/// How many bytes an encoding takes, by the size of the value.
pub proof fn lemma_varint_len(v: nat)
    requires
        v <= 0xffff_ffff,
    ensures
        varint_encoding(v).len() == if v < 0x80 {
            1nat
        } else if v < 0x4000 {
            2nat
        } else if v < 0x20_0000 {
            3nat
        } else if v < 0x1000_0000 {
            4nat
        } else {
            5nat
        },
    decreases v,
{
    if v >= 128 {
        lemma_varint_len(v / 128);
    }
}

/// Reads at most `room` bytes of a variable-length integer that starts at
/// `pos`.
fn parse_varint_at(buf: &[u8], pos: usize, room: u8) -> (parsed: Option<Option<(u128, usize)>>)
    requires
        pos <= buf@.len(),
        room <= 10,
    ensures
        match parsed {
            Some(Some((value, len))) => varint_parse(buf@.skip(pos as int), room as nat) == (
            VarIntParse::Value { value: value as nat, len: len as nat }) && len <= room && pos + len
                <= buf@.len() && value < pow128(len as nat),
            Some(None) => varint_parse(buf@.skip(pos as int), room as nat)
                == VarIntParse::Incomplete,
            None => varint_parse(buf@.skip(pos as int), room as nat) == VarIntParse::TooLong,
        },
    decreases room,
{
    let ghost s = buf@.skip(pos as int);
    if room == 0 {
        None
    } else if pos == buf.len() {
        Some(None)
    } else {
        let first: u8 = buf[pos];
        assert(s[0] == first);
        if first < 128 {
            assert(pow128(1) == 128) by {
                reveal_with_fuel(pow128, 2);
            }
            Some(Some((first as u128, 1)))
        } else {
            assert(s.skip(1) == buf@.skip(pos + 1));
            match parse_varint_at(buf, pos + 1, room - 1) {
                Some(Some((value, len))) => {
                    assert(pow128(len as nat) <= pow128(9)) by {
                        lemma_pow128_grows(len as nat, 9);
                    }
                    assert(pow128(9) == 0x8000_0000_0000_0000) by {
                        reveal_with_fuel(pow128, 10);
                    }
                    assert(pow128((len + 1) as nat) == 128 * pow128(len as nat));
                    Some(Some(((first - 128) as u128 + 128 * value, len + 1)))
                },
                Some(None) => Some(None),
                None => None,
            }
        }
    }
}

/// 128 to the power of `n`.
pub open spec fn pow128(n: nat) -> nat
    decreases n,
{
    if n == 0 {
        1
    } else {
        128 * pow128((n - 1) as nat)
    }
}

proof fn lemma_pow128_grows(a: nat, b: nat)
    requires
        a <= b,
    ensures
        pow128(a) <= pow128(b),
    decreases b,
{
    if a < b {
        lemma_pow128_grows(a, (b - 1) as nat);
    }
}

/// Reads a variable-length integer from `buf` at `pos`. Gives the value and
/// the number of bytes that it took.
pub fn read_varint(buf: &[u8], pos: usize) -> (read: Result<(i32, usize), ReadError>)
    requires
        pos <= buf@.len(),
    ensures
        match (read, varint_read(buf@.skip(pos as int))) {
            (Ok((value, len)), Ok((v, l))) => value == v && len == l && pos + len <= buf@.len(),
            (Err(e), Err(f)) => e == f,
            _ => false,
        },
{
    match parse_varint_at(buf, pos, 5) {
        Some(Some((value, len))) => {
            if value > 0xffff_ffff {
                Err(ReadError::BadVarInt)
            } else if value >= 0x8000_0000 {
                Ok(((value as i128 - 0x1_0000_0000) as i32, len))
            } else {
                Ok((value as i32, len))
            }
        },
        Some(None) => Err(ReadError::Eof),
        None => Err(ReadError::BadVarInt),
    }
}

/// Reading finds again what writing wrote, whatever follows it: a value
/// below `128` to the power of `room` is read back, with its length, from
/// its encoding followed by `rest`.
pub proof fn lemma_varint_parse_encoding(v: nat, rest: Seq<u8>, room: nat)
    requires
        1 <= room,
        v < pow128(room),
    ensures
        varint_parse(varint_encoding(v) + rest, room) == (VarIntParse::Value {
            value: v,
            len: varint_encoding(v).len(),
        }),
    decreases v,
{
    let s = varint_encoding(v) + rest;
    if v < 128 {
        assert(s[0] == v as u8);
    } else {
        assert(room > 1) by {
            reveal_with_fuel(pow128, 2);
        }
        let tail = varint_encoding(v / 128);
        assert(s[0] == (v % 128 + 128) as u8);
        assert(s.skip(1) == tail + rest);
        assert(v / 128 < pow128((room - 1) as nat));
        lemma_varint_parse_encoding(v / 128, rest, (room - 1) as nat);
    }
}

/// Every 32-bit integer survives writing and reading: [`read_varint`] on
/// what [`write_varint`] wrote, followed by anything, gives the value back
/// and stops where the encoding ends.
pub proof fn lemma_varint_round_trip(value: i32, rest: Seq<u8>)
    ensures
        varint_read(varint_encoding(unsigned_bits(value)) + rest) == Ok::<(i32, nat), ReadError>(
            (value, varint_encoding(unsigned_bits(value)).len()),
        ),
{
    assert(pow128(5) == 0x8_0000_0000) by {
        reveal_with_fuel(pow128, 6);
    }
    lemma_varint_parse_encoding(unsigned_bits(value), rest, 5);
}

/// The 64 bits of `v`, read as an unsigned number.
pub open spec fn unsigned_bits_64(v: i64) -> nat {
    if v < 0 {
        (v + 0x1_0000_0000_0000_0000) as nat
    } else {
        v as nat
    }
}

/// The signed number whose 64 bits are `bits`.
pub open spec fn signed_value_64(bits: nat) -> int {
    if bits >= 0x8000_0000_0000_0000 {
        bits - 0x1_0000_0000_0000_0000
    } else {
        bits as int
    }
}

/// What [`read_varlong`] owes for the bytes `s`: the value and its length,
/// or the error.
pub open spec fn varlong_read(s: Seq<u8>) -> Result<(i64, nat), ReadError> {
    match varint_parse(s, 10) {
        VarIntParse::Value { value, len } => if value <= 0xffff_ffff_ffff_ffff {
            Ok((signed_value_64(value) as i64, len))
        } else {
            Err(ReadError::BadVarInt)
        },
        VarIntParse::Incomplete => Err(ReadError::Eof),
        VarIntParse::TooLong => Err(ReadError::BadVarInt),
    }
}

/// Appends the bytes that stand for the 64-bit `value` to `out`.
pub fn write_varlong(value: i64, out: &mut Vec<u8>)
    ensures
        final(out)@ == old(out)@ + varint_encoding(unsigned_bits_64(value)),
{
    let mut rest: u128 = if value < 0 {
        (value as i128 + 0x1_0000_0000_0000_0000) as u128
    } else {
        value as u128
    };
    while rest >= 128
        invariant
            out@ + varint_encoding(rest as nat) == old(out)@ + varint_encoding(
                unsigned_bits_64(value),
            ),
        decreases rest,
    {
        let ghost before = out@;
        out.push((rest % 128 + 128) as u8);
        proof {
            assert(varint_encoding(rest as nat) == seq![(rest % 128 + 128) as u8]
                + varint_encoding((rest / 128) as nat));
            assert(out@ + varint_encoding((rest / 128) as nat) == before + varint_encoding(
                rest as nat,
            ));
        }
        rest = rest / 128;
    }
    let ghost before = out@;
    out.push(rest as u8);
    proof {
        assert(out@ == before + varint_encoding(rest as nat));
    }
}

/// Reads a variable-length integer of 64 bits from `buf` at `pos`. Gives
/// the value and the number of bytes that it took.
pub fn read_varlong(buf: &[u8], pos: usize) -> (read: Result<(i64, usize), ReadError>)
    requires
        pos <= buf@.len(),
    ensures
        match (read, varlong_read(buf@.skip(pos as int))) {
            (Ok((value, len)), Ok((v, l))) => value == v && len == l && pos + len <= buf@.len(),
            (Err(e), Err(f)) => e == f,
            _ => false,
        },
{
    match parse_varint_at(buf, pos, 10) {
        Some(Some((value, len))) => {
            if value > 0xffff_ffff_ffff_ffff {
                Err(ReadError::BadVarInt)
            } else if value >= 0x8000_0000_0000_0000 {
                Ok(((value as i128 - 0x1_0000_0000_0000_0000) as i64, len))
            } else {
                Ok((value as i64, len))
            }
        },
        Some(None) => Err(ReadError::Eof),
        None => Err(ReadError::BadVarInt),
    }
}

/// Every 64-bit integer survives writing and reading: [`read_varlong`] on
/// what [`write_varlong`] wrote, followed by anything, gives the value back
/// and stops where the encoding ends.
pub proof fn lemma_varlong_round_trip(value: i64, rest: Seq<u8>)
    ensures
        varlong_read(varint_encoding(unsigned_bits_64(value)) + rest) == Ok::<
            (i64, nat),
            ReadError,
        >((value, varint_encoding(unsigned_bits_64(value)).len())),
{
    assert(pow128(10) == 0x40_0000_0000_0000_0000) by {
        reveal_with_fuel(pow128, 11);
    }
    lemma_varint_parse_encoding(unsigned_bits_64(value), rest, 10);
}

} // verus!
