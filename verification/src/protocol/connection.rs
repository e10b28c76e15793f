//! One end of a connection, without the socket: packets become the bytes to
//! send, and the bytes received become packets.

use crate::protocol::compression::{compress_body, decompress_body, envelope, open_envelope};
use crate::protocol::encryption::{
    cfb8_decrypted, cfb8_encrypted, cfb8_register, lemma_cfb8_round_trip, Cfb8,
};
use crate::protocol::frame::{
    append_bytes, frame_encoding, frame_parse, join_packet, lemma_frame_round_trip,
    lemma_packet_round_trip, packet_body, read_frame, split_packet, write_frame, WriteError,
    MAX_FRAME_LEN,
};
use crate::protocol::varint::{varint_read, ReadError};
use crate::session::Phase;
use vstd::prelude::*;
use vstd::slice::slice_subrange;

verus! {

/// The body of a packet as it lies in its frame: in an envelope once a
/// threshold is set.
pub open spec fn sealed(body: Seq<u8>, compression: Option<u32>) -> Seq<u8> {
    match compression {
        Some(threshold) => envelope(body, threshold as nat),
        None => body,
    }
}

/// The body that lies in a frame.
pub open spec fn unsealed(inner: Seq<u8>, compression: Option<u32>) -> Result<Seq<u8>, ReadError> {
    match compression {
        Some(threshold) => open_envelope(inner, threshold as nat),
        None => Ok(inner),
    }
}

/// The bytes of a packet before they are encrypted.
pub open spec fn plain_wire(packet_id: i32, payload: Seq<u8>, compression: Option<u32>) -> Seq<u8> {
    frame_encoding(sealed(packet_body(packet_id, payload), compression))
}

/// Whether a packet can be written: its body is no longer than a length can
/// announce, and what lies in the frame is no longer than a frame may be.
pub open spec fn writable(packet_id: i32, payload: Seq<u8>, compression: Option<u32>) -> bool {
    &&& packet_body(packet_id, payload).len() <= i32::MAX
    &&& sealed(packet_body(packet_id, payload), compression).len() <= MAX_FRAME_LEN
}

/// What the front of the bytes received holds: a packet (its number and
/// payload, and the number of bytes that its frame took), the beginning of
/// a frame (`None`), or an error.
pub open spec fn packet_parse(inbound: Seq<u8>, compression: Option<u32>) -> Result<
    Option<((i32, Seq<u8>), nat)>,
    ReadError,
> {
    match frame_parse(inbound) {
        Err(e) => Err(e),
        Ok(None) => Ok(None),
        Ok(Some((inner, consumed))) => match unsealed(inner, compression) {
            Err(e) => Err(e),
            Ok(body) => match varint_read(body) {
                Err(e) => Err(e),
                Ok((packet_id, n)) => Ok(Some(((packet_id, body.skip(n as int)), consumed))),
            },
        },
    }
}

/// The bytes that a whole frame at the front of `inbound` takes, or zero.
pub open spec fn frame_len(inbound: Seq<u8>) -> nat {
    match frame_parse(inbound) {
        Ok(Some((_, consumed))) => consumed,
        _ => 0,
    }
}

/// One end of a connection.
#[derive(Clone, Debug)]
pub struct Connection {
    /// The phase whose packets are spoken.
    pub phase: Phase,
    /// The threshold, once one is set.
    pub compression: Option<u32>,
    /// The cipher for what is sent, once encryption is on.
    pub encryptor: Option<Cfb8>,
    /// The cipher for what is received, once encryption is on.
    pub decryptor: Option<Cfb8>,
    /// The bytes received and decrypted that no packet was made of yet.
    pub inbound: Vec<u8>,
}

impl Connection {
    /// Both ciphers are there or neither, and each is sound.
    pub open spec fn wf(self) -> bool {
        &&& self.encryptor.is_some() == self.decryptor.is_some()
        &&& self.encryptor.is_some() ==> self.encryptor.unwrap().wf()
        &&& self.decryptor.is_some() ==> self.decryptor.unwrap().wf()
    }

    /// Decides [`Connection::wf`].
    pub fn is_wf(&self) -> (sound: bool)
        ensures
            sound == self.wf(),
    {
        match (&self.encryptor, &self.decryptor) {
            (Some(encryptor), Some(decryptor)) => encryptor.is_wf() && decryptor.is_wf(),
            (None, None) => true,
            _ => false,
        }
    }

    /// A connection that was just made: in the first phase, with neither
    /// compression nor encryption.
    pub fn new() -> (connection: Connection)
        ensures
            connection.wf(),
            connection.phase == Phase::Handshake,
            connection.compression.is_none(),
            connection.encryptor.is_none(),
            connection.decryptor.is_none(),
            connection.inbound@.len() == 0,
    {
        Connection {
            phase: Phase::Handshake,
            compression: None,
            encryptor: None,
            decryptor: None,
            inbound: Vec::new(),
        }
    }

    /// Moves on to a later phase. A phase that is not later is refused.
    pub fn switch_phase(&mut self, phase: Phase) -> (switched: bool)
        ensures
            switched == (old(self).phase.rank() < phase.rank()),
            final(self).phase == if switched {
                phase
            } else {
                old(self).phase
            },
            final(self).compression == old(self).compression,
            final(self).encryptor == old(self).encryptor,
            final(self).decryptor == old(self).decryptor,
            final(self).inbound == old(self).inbound,
    {
        if phase_rank(self.phase) < phase_rank(phase) {
            self.phase = phase;
            true
        } else {
            false
        }
    }

    /// Sets the threshold from which bodies travel deflated. A threshold
    /// that is set stays: a second one is refused.
    pub fn set_compression(&mut self, threshold: u32) -> (set: bool)
        ensures
            set == old(self).compression.is_none(),
            final(self).compression == if set {
                Some(threshold)
            } else {
                old(self).compression
            },
            final(self).phase == old(self).phase,
            final(self).encryptor == old(self).encryptor,
            final(self).decryptor == old(self).decryptor,
            final(self).inbound == old(self).inbound,
    {
        if self.compression.is_none() {
            self.compression = Some(threshold);
            true
        } else {
            false
        }
    }

    /// Switches encryption on, in both directions, with the key as the
    /// starting register. A second key is refused.
    pub fn set_encryption(&mut self, key: &[u8; 16]) -> (set: bool)
        requires
            old(self).wf(),
        ensures
            final(self).wf(),
            set == old(self).encryptor.is_none(),
            set ==> final(self).encryptor.is_some() && final(self).encryptor.unwrap().key() == key@
                && final(self).encryptor.unwrap().register() == key@ && final(self).decryptor.unwrap().key() == key@ && final(self).decryptor.unwrap().register()
                == key@,
            !set ==> final(self).encryptor == old(self).encryptor && final(self).decryptor == old(self).decryptor,
            final(self).phase == old(self).phase,
            final(self).compression == old(self).compression,
            final(self).inbound == old(self).inbound,
    {
        if self.encryptor.is_none() {
            self.encryptor = Some(Cfb8::new(key));
            self.decryptor = Some(Cfb8::new(key));
            true
        } else {
            false
        }
    }

    /// What goes over the wire for bytes that are sent.
    pub open spec fn on_wire(self, plain: Seq<u8>) -> Seq<u8> {
        match self.encryptor {
            Some(cipher) => cfb8_encrypted(cipher.key(), cipher.register(), plain),
            None => plain,
        }
    }

    /// What bytes from the wire stand for.
    pub open spec fn off_wire(self, wire: Seq<u8>) -> Seq<u8> {
        match self.decryptor {
            Some(cipher) => cfb8_decrypted(cipher.key(), cipher.register(), wire),
            None => wire,
        }
    }

    /// Makes the bytes to send for a packet: the packet's number and
    /// payload, in an envelope once a threshold is set, in a frame, and
    /// encrypted once encryption is on. A reader with the same settings
    /// gets number and payload back. A packet that cannot be written leaves
    /// the connection as it was.
    pub fn write_packet(&mut self, packet_id: i32, payload: &[u8]) -> (written: Result<
        Vec<u8>,
        WriteError,
    >)
        requires
            old(self).wf(),
        ensures
            final(self).wf(),
            final(self).phase == old(self).phase,
            final(self).compression == old(self).compression,
            final(self).decryptor == old(self).decryptor,
            final(self).inbound == old(self).inbound,
            written.is_ok() == writable(packet_id, payload@, old(self).compression),
            match written {
                Ok(wire) => {
                    let plain = plain_wire(packet_id, payload@, old(self).compression);
                    &&& wire@ == old(self).on_wire(plain)
                    &&& forall|rest: Seq<u8>| #[trigger]
                        packet_parse(plain + rest, old(self).compression) == Ok::<
                            Option<((i32, Seq<u8>), nat)>,
                            ReadError,
                        >(Some(((packet_id, payload@), plain.len())))
                    &&& match old(self).encryptor {
                        Some(cipher) => final(self).encryptor.is_some() && final(self).encryptor.unwrap().key() == cipher.key() && final(self).encryptor.unwrap().register() == cfb8_register(cipher.register(), wire@)
                            && cfb8_decrypted(cipher.key(), cipher.register(), wire@) == plain,
                        None => final(self).encryptor.is_none(),
                    }
                },
                Err(e) => e == WriteError::FrameTooLarge && final(self).encryptor == old(self).encryptor,
            },
    {
        let body = join_packet(packet_id, payload);
        if body.len() > i32::MAX as usize {
            return Err(WriteError::FrameTooLarge);
        }
        let inner = match self.compression {
            Some(threshold) => compress_body(body.as_slice(), threshold),
            None => body,
        };
        let mut wire: Vec<u8> = Vec::new();
        match write_frame(inner.as_slice(), &mut wire) {
            Ok(()) => {},
            Err(e) => {
                return Err(e);
            },
        }
        let ghost plain = wire@;
        proof {
            lemma_packet_round_trip(packet_id, payload@);
            assert(packet_body(packet_id, payload@).len() > 0);
            assert(plain == plain_wire(packet_id, payload@, self.compression));
            assert forall|rest: Seq<u8>| #[trigger]
                packet_parse(plain + rest, self.compression) == Ok::<
                    Option<((i32, Seq<u8>), nat)>,
                    ReadError,
                >(Some(((packet_id, payload@), plain.len()))) by {
                lemma_frame_round_trip(inner@, rest);
            }
        }
        match &mut self.encryptor {
            Some(cipher) => {
                proof {
                    lemma_cfb8_round_trip(cipher.key(), cipher.register(), plain);
                }
                cipher.encrypt(&mut wire);
            },
            None => {},
        }
        Ok(wire)
    }

    /// Takes in bytes from the wire: they are decrypted once encryption is
    /// on, and wait behind those that came before.
    pub fn receive(&mut self, bytes: Vec<u8>)
        requires
            old(self).wf(),
        ensures
            final(self).wf(),
            final(self).phase == old(self).phase,
            final(self).compression == old(self).compression,
            final(self).encryptor == old(self).encryptor,
            final(self).inbound@ == old(self).inbound@ + old(self).off_wire(bytes@),
            match old(self).decryptor {
                Some(cipher) => final(self).decryptor.is_some() && final(self).decryptor.unwrap().key() == cipher.key() && final(self).decryptor.unwrap().register() == cfb8_register(cipher.register(), bytes@),
                None => final(self).decryptor.is_none(),
            },
    {
        let mut bytes = bytes;
        match &mut self.decryptor {
            Some(cipher) => {
                cipher.decrypt(&mut bytes);
            },
            None => {},
        }
        append_bytes(&mut self.inbound, bytes.as_slice());
    }

    /// Takes the next packet from the bytes received: its number and its
    /// payload, or `None` while its frame is not all there. The bytes of a
    /// whole frame are used up, also where what lies in it is at fault.
    pub fn read_packet(&mut self) -> (read: Result<Option<(i32, Vec<u8>)>, ReadError>)
        requires
            old(self).wf(),
        ensures
            final(self).wf(),
            final(self).phase == old(self).phase,
            final(self).compression == old(self).compression,
            final(self).encryptor == old(self).encryptor,
            final(self).decryptor == old(self).decryptor,
            final(self).inbound@ == old(self).inbound@.skip(frame_len(old(self).inbound@) as int),
            match (read, packet_parse(old(self).inbound@, old(self).compression)) {
                (Ok(Some((packet_id, payload))), Ok(Some(((id, bytes), _)))) => packet_id == id
                    && payload@ == bytes,
                (Ok(None), Ok(None)) => true,
                (Err(e), Err(f)) => e == f,
                _ => false,
            },
    {
        let (inner, consumed) = match read_frame(self.inbound.as_slice()) {
            Err(e) => {
                assert(self.inbound@.skip(0) == self.inbound@);
                return Err(e);
            },
            Ok(None) => {
                assert(self.inbound@.skip(0) == self.inbound@);
                return Ok(None);
            },
            Ok(Some(frame)) => frame,
        };
        let mut rest: Vec<u8> = Vec::new();
        append_bytes(&mut rest, slice_subrange(self.inbound.as_slice(), consumed, self.inbound.len()));
        self.inbound = rest;
        let body = match self.compression {
            Some(threshold) => match decompress_body(inner.as_slice(), threshold) {
                Ok(body) => body,
                Err(e) => {
                    return Err(e);
                },
            },
            None => inner,
        };
        match split_packet(body.as_slice()) {
            Ok(packet) => Ok(Some(packet)),
            Err(e) => Err(e),
        }
    }
}

/// The place of a phase in the order in which a connection passes through
/// them.
pub fn phase_rank(phase: Phase) -> (rank: u8)
    ensures
        rank == phase.rank(),
{
    match phase {
        Phase::Handshake => 0,
        Phase::Login => 1,
        Phase::Configuration => 2,
        Phase::Play => 3,
        Phase::Closed => 4,
    }
}

} // verus!
