//! The address of a server: a host, and a port where one is named.

use crate::protocol::text::{ascii_text, string_from_ascii};
use crate::protocol::frame::append_bytes;
use crate::session::JoinError;
use vstd::prelude::*;
use vstd::slice::slice_subrange;
use vstd::string::StringSliceAdditionalSpecFns;

verus! {

/// The port of a server whose address names none.
pub const DEFAULT_PORT: u16 = 25565;

/// Where a server is.
#[derive(Clone, Debug, PartialEq, Eq)]
pub struct ServerAddress {
    pub host: String,
    pub port: u16,
}

/// The place of the first colon in `text`, or the length of `text` where it
/// holds none.
pub open spec fn colon_at(text: Seq<u8>) -> int
    decreases text.len(),
{
    if text.len() == 0 {
        0
    } else if text[0] == 58 {
        0
    } else {
        1 + colon_at(text.skip(1))
    }
}

/// Whether every byte is a decimal digit.
pub open spec fn all_digits(text: Seq<u8>) -> bool {
    forall|i: int| 0 <= i < text.len() ==> 48 <= #[trigger] text[i] <= 57
}

/// The number that the digits spell.
pub open spec fn decimal_value(digits: Seq<u8>) -> nat
    decreases digits.len(),
{
    if digits.len() == 0 {
        0
    } else {
        decimal_value(digits.drop_last()) * 10 + (digits.last() - 48) as nat
    }
}

/// Whether every byte is an ASCII code.
pub open spec fn all_ascii(text: Seq<u8>) -> bool {
    forall|i: int| 0 <= i < text.len() ==> #[trigger] text[i] < 128
}

/// The host and the port that `text` names, if it is an address: a host of
/// at least one ASCII character without a colon, and then nothing, or a
/// colon and a port of at least one decimal digit that is at most 65535.
pub open spec fn parse_address(text: Seq<u8>) -> Option<(Seq<u8>, u16)> {
    let colon = colon_at(text);
    let host = text.take(colon);
    if host.len() == 0 || !all_ascii(host) {
        None
    } else if colon == text.len() {
        Some((host, DEFAULT_PORT))
    } else {
        let port = text.skip(colon + 1);
        if port.len() > 0 && all_digits(port) && decimal_value(port) <= 65535 {
            Some((host, decimal_value(port) as u16))
        } else {
            None
        }
    }
}

proof fn lemma_colon_at(text: Seq<u8>)
    ensures
        0 <= colon_at(text) <= text.len(),
        forall|i: int| 0 <= i < colon_at(text) ==> text[i] != 58,
        colon_at(text) < text.len() ==> text[colon_at(text)] == 58,
    decreases text.len(),
{
    if text.len() > 0 && text[0] != 58 {
        lemma_colon_at(text.skip(1));
        assert forall|i: int| 0 <= i < colon_at(text) implies text[i] != 58 by {
            if i > 0 {
                assert(text.skip(1)[i - 1] == text[i]);
            }
        }
    }
}

/// Only one place is the place of the first colon.
proof fn lemma_colon_at_unique(text: Seq<u8>, at: int)
    requires
        0 <= at <= text.len(),
        forall|i: int| 0 <= i < at ==> text[i] != 58,
        at < text.len() ==> text[at] == 58,
    ensures
        colon_at(text) == at,
{
    lemma_colon_at(text);
    let c = colon_at(text);
    if c < at {
        assert(text[c] != 58);
    } else if at < c {
        assert(text[at] != 58);
    }
}

/// A number grows with every digit that is put behind it.
proof fn lemma_decimal_value_grows(digits: Seq<u8>, n: int)
    requires
        0 <= n <= digits.len(),
        all_digits(digits),
    ensures
        decimal_value(digits.take(n)) <= decimal_value(digits),
    decreases digits.len() - n,
{
    if n < digits.len() {
        assert(digits.take(n + 1).drop_last() == digits.take(n));
        assert(digits.take(n + 1).last() == digits[n]);
        lemma_decimal_value_grows(digits, n + 1);
    } else {
        assert(digits.take(n) == digits);
    }
}

/// Reads a port: at least one decimal digit, and at most 65535.
fn parse_port(digits: &[u8]) -> (port: Option<u16>)
    ensures
        port.is_some() == (digits@.len() > 0 && all_digits(digits@) && decimal_value(digits@)
            <= 65535),
        port.is_some() ==> port.unwrap() == decimal_value(digits@),
{
    if digits.len() == 0 {
        return None;
    }
    let mut value: u32 = 0;
    let mut i: usize = 0;
    while i < digits.len()
        invariant
            i <= digits@.len(),
            all_digits(digits@.take(i as int)),
            value == decimal_value(digits@.take(i as int)),
            value <= 65535,
        decreases digits@.len() - i,
    {
        let byte: u8 = digits[i];
        if byte < 48 || byte > 57 {
            return None;
        }
        proof {
            assert(digits@.take(i + 1).drop_last() == digits@.take(i as int));
            assert(digits@.take(i + 1).last() == byte);
            assert forall|k: int| 0 <= k < i + 1 implies 48 <= #[trigger] digits@.take(i + 1)[k]
                <= 57 by {
                if k < i {
                    assert(digits@.take(i as int)[k] == digits@[k]);
                }
            }
        }
        value = value * 10 + (byte - 48) as u32;
        i += 1;
        if value > 65535 {
            proof {
                if all_digits(digits@) {
                    lemma_decimal_value_grows(digits@, i as int);
                }
            }
            return None;
        }
    }
    assert(digits@.take(i as int) == digits@);
    Some(value as u16)
}

/// Reads an address as a user writes it: `host` or `host:port`.
pub fn parse_server_address(text: &str) -> (parsed: Result<ServerAddress, JoinError>)
    ensures
        match parsed {
            Ok(address) => match parse_address(text.spec_bytes()) {
                Some((host, port)) => address.host@ == ascii_text(host) && address.port == port,
                None => false,
            },
            Err(e) => e == JoinError::InvalidAddress && parse_address(text.spec_bytes()).is_none(),
        },
{
    let bytes = text.as_bytes();
    let mut colon: usize = 0;
    let mut ascii: bool = true;
    while colon < bytes.len() && bytes[colon] != 58
        invariant
            colon <= bytes@.len(),
            forall|i: int| 0 <= i < colon ==> bytes@[i] != 58,
            ascii == all_ascii(bytes@.take(colon as int)),
        decreases bytes@.len() - colon,
    {
        let ghost before = all_ascii(bytes@.take(colon as int));
        if bytes[colon] >= 128 {
            ascii = false;
        }
        proof {
            let longer = bytes@.take(colon + 1);
            let shorter = bytes@.take(colon as int);
            assert(longer[colon as int] == bytes@[colon as int]);
            if before && bytes@[colon as int] < 128 {
                assert forall|i: int| 0 <= i < longer.len() implies #[trigger] longer[i] < 128 by {
                    if i < colon {
                        assert(shorter[i] == longer[i]);
                    }
                }
            } else if !before {
                let i = choose|i: int| 0 <= i < shorter.len() && !(#[trigger] shorter[i] < 128);
                assert(longer[i] == shorter[i]);
            }
        }
        colon += 1;
    }
    proof {
        lemma_colon_at_unique(bytes@, colon as int);
    }
    if colon == 0 || !ascii {
        return Err(JoinError::InvalidAddress);
    }
    let port: u16 = if colon == bytes.len() {
        DEFAULT_PORT
    } else {
        match parse_port(slice_subrange(bytes, colon + 1, bytes.len())) {
            Some(port) => port,
            None => {
                return Err(JoinError::InvalidAddress);
            },
        }
    };
    let mut host: Vec<u8> = Vec::new();
    append_bytes(&mut host, slice_subrange(bytes, 0, colon));
    proof {
        assert(host@ == bytes@.take(colon as int));
    }
    Ok(ServerAddress { host: string_from_ascii(host), port })
}

/// Where to connect for `address`: where the service record of the host
/// points, if it has one, and else to the address itself.
pub fn connection_target(address: ServerAddress, service_record: Option<ServerAddress>) -> (target:
    ServerAddress)
    ensures
        target == match service_record {
            Some(record) => record,
            None => address,
        },
{
    match service_record {
        Some(record) => record,
        None => address,
    }
}

/// The name under which the service record of `host` is looked up:
/// `_minecraft._tcp.` and the host.
pub fn service_record_name(host: &str) -> (name: Vec<u8>)
    ensures
        name@ == "_minecraft._tcp.".spec_bytes() + host.spec_bytes(),
{
    let mut name: Vec<u8> = Vec::new();
    append_bytes(&mut name, "_minecraft._tcp.".as_bytes());
    append_bytes(&mut name, host.as_bytes());
    name
}

} // verus!
