//! The packets that a session is made of, and their layouts on the wire.
//! Every other packet of the game passes through as it came.

use crate::client::{ChatVisibility, ClientInformation};
use crate::protocol::buffer::{
    be_bytes, bool_encoding, bool_read, bytes_encoding, bytes_read, lemma_bytes_round_trip,
    lemma_number_round_trip, number_read, pow256, read_bool, read_byte_array, read_number,
    write_bool, write_byte_array, write_number,
};
use crate::protocol::frame::{append_bytes, WriteError};
use crate::protocol::text::{
    lemma_text_round_trip, read_text, text_encoding, text_fits, text_read, write_text,
};
use crate::protocol::varint::{
    lemma_varint_round_trip, read_varint, unsigned_bits, varint_encoding, varint_read,
    write_varint, ReadError,
};
use crate::session::{GameProfile, Phase, ProfileProperty};
use vstd::prelude::*;
use vstd::slice::slice_subrange;
use vstd::utf8::encode_utf8;

verus! {

/// The most characters of a host name.
pub const MAX_HOSTNAME_LEN: u32 = 255;

/// The most characters of a player's name.
pub const MAX_NAME_LEN: u32 = 16;

/// The most characters of a server's id.
pub const MAX_SERVER_ID_LEN: u32 = 20;

/// The most characters of an identifier, and of a text of the profile.
pub const MAX_IDENTIFIER_LEN: u32 = 32767;

/// The most characters of the reason for a disconnect.
pub const MAX_REASON_LEN: u32 = 262144;

/// The most bytes of a key, of a nonce, and of the data of a query.
pub const MAX_ARRAY_LEN: u32 = 1048576;

/// What a client wants of a server that it shakes hands with.
#[derive(Clone, Copy, Debug, PartialEq, Eq, Structural, Hash)]
pub enum Intention {
    Status,
    Login,
}

/// A packet from the client to the server.
#[derive(Clone, Debug, PartialEq, Eq)]
pub enum ServerboundPacket {
    /// Handshake: what the client wants, and of whom.
    ClientIntention { protocol_version: i32, hostname: String, port: u16, intention: Intention },
    /// Login: who wants to log in.
    Hello { name: String, profile_id: u128 },
    /// Login: the secret and the nonce, encrypted for the server.
    Key { key_bytes: Vec<u8>, encrypted_challenge: Vec<u8> },
    /// Login: the answer to a plugin's question, if there is one.
    CustomQueryAnswer { transaction_id: i32, data: Option<Vec<u8>> },
    /// Login: the login is understood.
    LoginAcknowledged,
    /// Configuration and play: the options of the game.
    ClientInformation(ClientInformation),
    /// Configuration and play: a message on a channel of a plugin.
    CustomPayload { identifier: String, data: Vec<u8> },
    /// Configuration: the configuration is understood.
    FinishConfiguration,
    /// Configuration and play: the echo of the server's number.
    KeepAlive { id: u64 },
}

/// The options of the game, as contracts see them.
pub struct ClientInformationView {
    pub language: Seq<char>,
    pub view_distance: u8,
    pub chat_visibility: ChatVisibility,
    pub chat_colors: bool,
    pub model_customization: u8,
    pub right_handed: bool,
    pub text_filtering_enabled: bool,
    pub allows_listing: bool,
}

/// A packet to the server, as contracts see it.
pub enum ServerboundView {
    ClientIntention { protocol_version: i32, hostname: Seq<char>, port: u16, intention: Intention },
    Hello { name: Seq<char>, profile_id: u128 },
    Key { key_bytes: Seq<u8>, encrypted_challenge: Seq<u8> },
    CustomQueryAnswer { transaction_id: i32, data: Option<Seq<u8>> },
    LoginAcknowledged,
    ClientInformation(ClientInformationView),
    CustomPayload { identifier: Seq<char>, data: Seq<u8> },
    FinishConfiguration,
    KeepAlive { id: u64 },
}

/// The options of the game, as contracts see them.
pub open spec fn information_view(information: ClientInformation) -> ClientInformationView {
    ClientInformationView {
        language: information.language@,
        view_distance: information.view_distance,
        chat_visibility: information.chat_visibility,
        chat_colors: information.chat_colors,
        model_customization: information.model_customization,
        right_handed: information.right_handed,
        text_filtering_enabled: information.text_filtering_enabled,
        allows_listing: information.allows_listing,
    }
}

impl View for ServerboundPacket {
    type V = ServerboundView;

    open spec fn view(&self) -> ServerboundView {
        match *self {
            ServerboundPacket::ClientIntention { protocol_version, hostname, port, intention } => {
                ServerboundView::ClientIntention {
                    protocol_version,
                    hostname: hostname@,
                    port,
                    intention,
                }
            },
            ServerboundPacket::Hello { name, profile_id } => ServerboundView::Hello {
                name: name@,
                profile_id,
            },
            ServerboundPacket::Key { key_bytes, encrypted_challenge } => ServerboundView::Key {
                key_bytes: key_bytes@,
                encrypted_challenge: encrypted_challenge@,
            },
            ServerboundPacket::CustomQueryAnswer { transaction_id, data } => {
                ServerboundView::CustomQueryAnswer {
                    transaction_id,
                    data: match data {
                        Some(bytes) => Some(bytes@),
                        None => None,
                    },
                }
            },
            ServerboundPacket::LoginAcknowledged => ServerboundView::LoginAcknowledged,
            ServerboundPacket::ClientInformation(information) => ServerboundView::ClientInformation(
                information_view(information),
            ),
            ServerboundPacket::CustomPayload { identifier, data } => ServerboundView::CustomPayload {
                identifier: identifier@,
                data: data@,
            },
            ServerboundPacket::FinishConfiguration => ServerboundView::FinishConfiguration,
            ServerboundPacket::KeepAlive { id } => ServerboundView::KeepAlive { id },
        }
    }
}

/// The number of a packet to the server among the packets of `phase`, or
/// `None` where the phase has no such packet.
pub open spec fn serverbound_id(phase: Phase, packet: ServerboundView) -> Option<i32> {
    match (phase, packet) {
        (Phase::Handshake, ServerboundView::ClientIntention { .. }) => Some(0x00),
        (Phase::Login, ServerboundView::Hello { .. }) => Some(0x00),
        (Phase::Login, ServerboundView::Key { .. }) => Some(0x01),
        (Phase::Login, ServerboundView::CustomQueryAnswer { .. }) => Some(0x02),
        (Phase::Login, ServerboundView::LoginAcknowledged) => Some(0x03),
        (Phase::Configuration, ServerboundView::ClientInformation(_)) => Some(0x00),
        (Phase::Configuration, ServerboundView::CustomPayload { .. }) => Some(0x01),
        (Phase::Configuration, ServerboundView::FinishConfiguration) => Some(0x02),
        (Phase::Configuration, ServerboundView::KeepAlive { .. }) => Some(0x03),
        (Phase::Play, ServerboundView::ClientInformation(_)) => Some(0x09),
        (Phase::Play, ServerboundView::CustomPayload { .. }) => Some(0x0f),
        (Phase::Play, ServerboundView::KeepAlive { .. }) => Some(0x14),
        _ => None,
    }
}

/// The number that stands for an intention.
pub open spec fn intention_id(intention: Intention) -> nat {
    match intention {
        Intention::Status => 1,
        Intention::Login => 2,
    }
}

/// The number that stands for a choice of chat messages.
pub open spec fn chat_visibility_id(visibility: ChatVisibility) -> nat {
    match visibility {
        ChatVisibility::Full => 0,
        ChatVisibility::System => 1,
        ChatVisibility::Hidden => 2,
    }
}

/// Whether every field of the packet fits its place.
pub open spec fn serverbound_fits(packet: ServerboundView) -> bool {
    match packet {
        ServerboundView::ClientIntention { hostname, .. } => text_fits(
            hostname,
            MAX_HOSTNAME_LEN as nat,
        ),
        ServerboundView::Hello { name, .. } => text_fits(name, MAX_NAME_LEN as nat),
        ServerboundView::Key { key_bytes, encrypted_challenge } => key_bytes.len() <= MAX_ARRAY_LEN
            && encrypted_challenge.len() <= MAX_ARRAY_LEN,
        ServerboundView::CustomQueryAnswer { data, .. } => match data {
            Some(bytes) => bytes.len() <= MAX_ARRAY_LEN,
            None => true,
        },
        ServerboundView::ClientInformation(information) => text_fits(
            information.language,
            MAX_NAME_LEN as nat,
        ),
        ServerboundView::CustomPayload { identifier, data } => text_fits(
            identifier,
            MAX_IDENTIFIER_LEN as nat,
        ) && data.len() <= MAX_ARRAY_LEN,
        _ => true,
    }
}

/// The last five options of the game.
pub open spec fn information_flags(information: ClientInformationView) -> InformationFlags {
    InformationFlags {
        chat_colors: information.chat_colors,
        model_customization: information.model_customization,
        right_handed: information.right_handed,
        text_filtering_enabled: information.text_filtering_enabled,
        allows_listing: information.allows_listing,
    }
}

/// The payload of a packet to the server.
pub open spec fn serverbound_encoding(packet: ServerboundView) -> Seq<u8> {
    match packet {
        ServerboundView::ClientIntention { protocol_version, hostname, port, intention } => {
            varint_encoding(unsigned_bits(protocol_version)) + text_encoding(encode_utf8(hostname))
                + be_bytes(port as nat, 2) + varint_encoding(intention_id(intention))
        },
        ServerboundView::Hello { name, profile_id } => text_encoding(encode_utf8(name)) + be_bytes(
            profile_id as nat,
            16,
        ),
        ServerboundView::Key { key_bytes, encrypted_challenge } => bytes_encoding(key_bytes)
            + bytes_encoding(encrypted_challenge),
        ServerboundView::CustomQueryAnswer { transaction_id, data } => varint_encoding(
            unsigned_bits(transaction_id),
        ) + match data {
            Some(bytes) => bool_encoding(true) + bytes,
            None => bool_encoding(false),
        },
        ServerboundView::LoginAcknowledged => Seq::empty(),
        ServerboundView::ClientInformation(information) => text_encoding(
            encode_utf8(information.language),
        ) + seq![information.view_distance] + varint_encoding(
            chat_visibility_id(information.chat_visibility),
        ) + flags_encoding(information_flags(information)),
        ServerboundView::CustomPayload { identifier, data } => text_encoding(
            encode_utf8(identifier),
        ) + data,
        ServerboundView::FinishConfiguration => Seq::empty(),
        ServerboundView::KeepAlive { id } => be_bytes(id as nat, 8),
    }
}

/// Why a packet could not be written.
#[derive(Clone, Copy, Debug, PartialEq, Eq, Structural, Hash)]
pub enum EncodeError {
    /// The phase has no such packet.
    NotInPhase,
    /// A field is longer than its place allows.
    TooLong,
}

/// The number of a packet to the server among the packets of `phase`.
pub fn serverbound_packet_id(phase: Phase, packet: &ServerboundPacket) -> (id: Option<i32>)
    ensures
        id == serverbound_id(phase, packet@),
{
    match (phase, packet) {
        (Phase::Handshake, ServerboundPacket::ClientIntention { .. }) => Some(0x00),
        (Phase::Login, ServerboundPacket::Hello { .. }) => Some(0x00),
        (Phase::Login, ServerboundPacket::Key { .. }) => Some(0x01),
        (Phase::Login, ServerboundPacket::CustomQueryAnswer { .. }) => Some(0x02),
        (Phase::Login, ServerboundPacket::LoginAcknowledged) => Some(0x03),
        (Phase::Configuration, ServerboundPacket::ClientInformation(_)) => Some(0x00),
        (Phase::Configuration, ServerboundPacket::CustomPayload { .. }) => Some(0x01),
        (Phase::Configuration, ServerboundPacket::FinishConfiguration) => Some(0x02),
        (Phase::Configuration, ServerboundPacket::KeepAlive { .. }) => Some(0x03),
        (Phase::Play, ServerboundPacket::ClientInformation(_)) => Some(0x09),
        (Phase::Play, ServerboundPacket::CustomPayload { .. }) => Some(0x0f),
        (Phase::Play, ServerboundPacket::KeepAlive { .. }) => Some(0x14),
        _ => None,
    }
}

/// Whether writing a field succeeded; the error of a packet otherwise.
fn fitted(written: Result<(), WriteError>) -> (fits: Result<(), EncodeError>)
    ensures
        fits.is_ok() == written.is_ok(),
        fits.is_err() ==> fits == Err::<(), EncodeError>(EncodeError::TooLong),
{
    match written {
        Ok(()) => Ok(()),
        Err(_) => Err(EncodeError::TooLong),
    }
}

/// Appends the last five options of the game to `out`.
fn write_flags(information: &ClientInformation, out: &mut Vec<u8>)
    ensures
        final(out)@ == old(out)@ + flags_encoding(
            information_flags(information_view(*information)),
        ),
{
    write_bool(information.chat_colors, out);
    let ghost colors = out@;
    out.push(information.model_customization);
    write_varint(
        if information.right_handed {
            1
        } else {
            0
        },
        out,
    );
    write_bool(information.text_filtering_enabled, out);
    write_bool(information.allows_listing, out);
    proof {
        assert(colors.push(information.model_customization) == colors
            + seq![information.model_customization]);
        assert(out@ == old(out)@ + flags_encoding(
            information_flags(information_view(*information)),
        ));
    }
}

/// Writes the payload of the packet that tells the options of the game.
fn encode_client_information(information: &ClientInformation) -> (encoded: Result<
    Vec<u8>,
    EncodeError,
>)
    ensures
        encoded.is_ok() == text_fits(information.language@, MAX_NAME_LEN as nat),
        encoded.is_ok() ==> encoded.unwrap()@ == serverbound_encoding(
            ServerboundView::ClientInformation(information_view(*information)),
        ),
        encoded.is_err() ==> encoded == Err::<Vec<u8>, EncodeError>(EncodeError::TooLong),
{
    let mut out: Vec<u8> = Vec::new();
    match fitted(write_text(information.language.as_str(), MAX_NAME_LEN, &mut out)) {
        Ok(()) => {},
        Err(e) => {
            return Err(e);
        },
    }
    let ghost language = out@;
    out.push(information.view_distance);
    write_varint(
        match information.chat_visibility {
            ChatVisibility::Full => 0,
            ChatVisibility::System => 1,
            ChatVisibility::Hidden => 2,
        },
        &mut out,
    );
    write_flags(information, &mut out);
    proof {
        assert(language.push(information.view_distance) == language
            + seq![information.view_distance]);
    }
    Ok(out)
}

/// Writes the payload of the packet that opens a connection.
fn encode_client_intention(
    protocol_version: i32,
    hostname: &String,
    port: u16,
    intention: Intention,
) -> (encoded: Result<Vec<u8>, EncodeError>)
    ensures
        encoded.is_ok() == text_fits(hostname@, MAX_HOSTNAME_LEN as nat),
        encoded.is_ok() ==> encoded.unwrap()@ == serverbound_encoding(
            ServerboundView::ClientIntention {
                protocol_version,
                hostname: hostname@,
                port,
                intention,
            },
        ),
        encoded.is_err() ==> encoded == Err::<Vec<u8>, EncodeError>(EncodeError::TooLong),
{
    let mut out: Vec<u8> = Vec::new();
    write_varint(protocol_version, &mut out);
    match fitted(write_text(hostname.as_str(), MAX_HOSTNAME_LEN, &mut out)) {
        Ok(()) => {},
        Err(e) => {
            return Err(e);
        },
    }
    write_number(port as u128, 2, &mut out);
    write_varint(
        match intention {
            Intention::Status => 1,
            Intention::Login => 2,
        },
        &mut out,
    );
    Ok(out)
}

/// Writes the payload of the packet that carries the encrypted secret.
fn encode_key(key_bytes: &Vec<u8>, encrypted_challenge: &Vec<u8>) -> (encoded: Result<
    Vec<u8>,
    EncodeError,
>)
    ensures
        encoded.is_ok() == (key_bytes@.len() <= MAX_ARRAY_LEN && encrypted_challenge@.len()
            <= MAX_ARRAY_LEN),
        encoded.is_ok() ==> encoded.unwrap()@ == bytes_encoding(key_bytes@) + bytes_encoding(
            encrypted_challenge@,
        ),
        encoded.is_err() ==> encoded == Err::<Vec<u8>, EncodeError>(EncodeError::TooLong),
{
    let mut out: Vec<u8> = Vec::new();
    if key_bytes.len() as u64 > MAX_ARRAY_LEN as u64 || encrypted_challenge.len() as u64
        > MAX_ARRAY_LEN as u64 {
        return Err(EncodeError::TooLong);
    }
    match fitted(write_byte_array(key_bytes.as_slice(), MAX_ARRAY_LEN, &mut out)) {
        Ok(()) => {},
        Err(e) => {
            return Err(e);
        },
    }
    match fitted(write_byte_array(encrypted_challenge.as_slice(), MAX_ARRAY_LEN, &mut out)) {
        Ok(()) => {},
        Err(e) => {
            return Err(e);
        },
    }
    Ok(out)
}

/// Writes the payload of a packet to the server. A packet with a field
/// that is longer than its place allows is refused.
pub fn encode_serverbound(packet: &ServerboundPacket) -> (encoded: Result<Vec<u8>, EncodeError>)
    ensures
        encoded.is_ok() == serverbound_fits(packet@),
        encoded.is_ok() ==> encoded.unwrap()@ == serverbound_encoding(packet@),
        encoded.is_err() ==> encoded == Err::<Vec<u8>, EncodeError>(EncodeError::TooLong),
{
    let mut out: Vec<u8> = Vec::new();
    match packet {
        ServerboundPacket::ClientIntention { protocol_version, hostname, port, intention } => {
            encode_client_intention(*protocol_version, hostname, *port, *intention)
        },
        ServerboundPacket::Hello { name, profile_id } => {
            match fitted(write_text(name.as_str(), MAX_NAME_LEN, &mut out)) {
                Ok(()) => {},
                Err(e) => {
                    return Err(e);
                },
            }
            write_number(*profile_id, 16, &mut out);
            Ok(out)
        },
        ServerboundPacket::Key { key_bytes, encrypted_challenge } => encode_key(
            key_bytes,
            encrypted_challenge,
        ),
        ServerboundPacket::CustomQueryAnswer { transaction_id, data } => {
            write_varint(*transaction_id, &mut out);
            match data {
                Some(bytes) => {
                    if bytes.len() as u64 > MAX_ARRAY_LEN as u64 {
                        return Err(EncodeError::TooLong);
                    }
                    write_bool(true, &mut out);
                    append_bytes(&mut out, bytes.as_slice());
                },
                None => {
                    write_bool(false, &mut out);
                },
            }
            Ok(out)
        },
        ServerboundPacket::LoginAcknowledged => Ok(out),
        ServerboundPacket::ClientInformation(information) => encode_client_information(
            information,
        ),
        ServerboundPacket::CustomPayload { identifier, data } => {
            match fitted(write_text(identifier.as_str(), MAX_IDENTIFIER_LEN, &mut out)) {
                Ok(()) => {},
                Err(e) => {
                    return Err(e);
                },
            }
            if data.len() as u64 > MAX_ARRAY_LEN as u64 {
                return Err(EncodeError::TooLong);
            }
            append_bytes(&mut out, data.as_slice());
            Ok(out)
        },
        ServerboundPacket::FinishConfiguration => Ok(out),
        ServerboundPacket::KeepAlive { id } => {
            write_number(*id as u128, 8, &mut out);
            Ok(out)
        },
    }
}

/// The intention that a number stands for.
pub open spec fn intention_of(id: int) -> Option<Intention> {
    if id == 1 {
        Some(Intention::Status)
    } else if id == 2 {
        Some(Intention::Login)
    } else {
        None
    }
}

/// The choice of chat messages that a number stands for.
pub open spec fn chat_visibility_of(id: int) -> Option<ChatVisibility> {
    if id == 0 {
        Some(ChatVisibility::Full)
    } else if id == 1 {
        Some(ChatVisibility::System)
    } else if id == 2 {
        Some(ChatVisibility::Hidden)
    } else {
        None
    }
}

/// What a payload holds where everything in it was read: the packet, if the
/// payload ends where the packet does.
pub open spec fn complete<T>(payload: Seq<u8>, used: nat, packet: T) -> Result<T, ReadError> {
    if used == payload.len() {
        Ok(packet)
    } else {
        Err(ReadError::MalformedPacket)
    }
}

pub open spec fn parse_client_intention(payload: Seq<u8>) -> Result<ServerboundView, ReadError> {
    match varint_read(payload) {
        Err(e) => Err(e),
        Ok((protocol_version, a)) => match text_read(
            payload.skip(a as int),
            MAX_HOSTNAME_LEN as nat,
        ) {
            Err(e) => Err(e),
            Ok((hostname, b)) => match number_read(payload.skip((a + b) as int), 2) {
                Err(e) => Err(e),
                Ok(port) => match varint_read(payload.skip((a + b + 2) as int)) {
                    Err(e) => Err(e),
                    Ok((next, c)) => match intention_of(next as int) {
                        None => Err(ReadError::MalformedPacket),
                        Some(intention) => complete(
                            payload,
                            a + b + 2 + c,
                            ServerboundView::ClientIntention {
                                protocol_version,
                                hostname,
                                port: port as u16,
                                intention,
                            },
                        ),
                    },
                },
            },
        },
    }
}

pub open spec fn parse_serverbound_hello(payload: Seq<u8>) -> Result<ServerboundView, ReadError> {
    match text_read(payload, MAX_NAME_LEN as nat) {
        Err(e) => Err(e),
        Ok((name, a)) => match number_read(payload.skip(a as int), 16) {
            Err(e) => Err(e),
            Ok(profile_id) => complete(
                payload,
                a + 16,
                ServerboundView::Hello { name, profile_id: profile_id as u128 },
            ),
        },
    }
}

pub open spec fn parse_key(payload: Seq<u8>) -> Result<ServerboundView, ReadError> {
    match bytes_read(payload, MAX_ARRAY_LEN as nat) {
        Err(e) => Err(e),
        Ok((key_bytes, a)) => match bytes_read(payload.skip(a as int), MAX_ARRAY_LEN as nat) {
            Err(e) => Err(e),
            Ok((encrypted_challenge, b)) => complete(
                payload,
                a + b,
                ServerboundView::Key { key_bytes, encrypted_challenge },
            ),
        },
    }
}

pub open spec fn parse_custom_query_answer(payload: Seq<u8>) -> Result<ServerboundView, ReadError> {
    match varint_read(payload) {
        Err(e) => Err(e),
        Ok((transaction_id, a)) => match bool_read(payload.skip(a as int)) {
            Err(e) => Err(e),
            Ok(answered) => if answered {
                if payload.len() - a - 1 <= MAX_ARRAY_LEN {
                    Ok(
                        ServerboundView::CustomQueryAnswer {
                            transaction_id,
                            data: Some(payload.skip((a + 1) as int)),
                        },
                    )
                } else {
                    Err(ReadError::MalformedPacket)
                }
            } else {
                complete(
                    payload,
                    a + 1,
                    ServerboundView::CustomQueryAnswer { transaction_id, data: None },
                )
            },
        },
    }
}

/// The last five options of the game: whether chat is coloured, the parts of
/// the skin, the main hand, whether texts are filtered, and whether the
/// player may be listed.
pub struct InformationFlags {
    pub chat_colors: bool,
    pub model_customization: u8,
    pub right_handed: bool,
    pub text_filtering_enabled: bool,
    pub allows_listing: bool,
}

pub open spec fn flags_encoding(flags: InformationFlags) -> Seq<u8> {
    bool_encoding(flags.chat_colors) + seq![flags.model_customization] + varint_encoding(
        if flags.right_handed {
            1nat
        } else {
            0nat
        },
    ) + bool_encoding(flags.text_filtering_enabled) + bool_encoding(flags.allows_listing)
}

/// What the front of `input` holds, read as the last five options, and the
/// number of bytes that they took.
pub open spec fn flags_read(input: Seq<u8>) -> Result<(InformationFlags, nat), ReadError> {
    match bool_read(input) {
        Err(e) => Err(e),
        Ok(chat_colors) => match number_read(input.skip(1), 1) {
            Err(e) => Err(e),
            Ok(model_customization) => match varint_read(input.skip(2)) {
                Err(e) => Err(e),
                Ok((hand, c)) => match bool_read(input.skip((2 + c) as int)) {
                    Err(e) => Err(e),
                    Ok(text_filtering_enabled) => match bool_read(input.skip((3 + c) as int)) {
                        Err(e) => Err(e),
                        Ok(allows_listing) => if hand != 0 && hand != 1 {
                            Err(ReadError::MalformedPacket)
                        } else {
                            Ok(
                                (
                                    InformationFlags {
                                        chat_colors,
                                        model_customization: model_customization as u8,
                                        right_handed: hand == 1,
                                        text_filtering_enabled,
                                        allows_listing,
                                    },
                                    (4 + c) as nat,
                                ),
                            )
                        },
                    },
                },
            },
        },
    }
}

pub open spec fn parse_client_information(payload: Seq<u8>) -> Result<ServerboundView, ReadError> {
    match text_read(payload, MAX_NAME_LEN as nat) {
        Err(e) => Err(e),
        Ok((language, a)) => match number_read(payload.skip(a as int), 1) {
            Err(e) => Err(e),
            Ok(view_distance) => match varint_read(payload.skip((a + 1) as int)) {
                Err(e) => Err(e),
                Ok((chat, b)) => match flags_read(payload.skip((a + 1 + b) as int)) {
                    Err(e) => Err(e),
                    Ok((flags, c)) => match chat_visibility_of(chat as int) {
                        None => Err(ReadError::MalformedPacket),
                        Some(chat_visibility) => complete(
                            payload,
                            a + 1 + b + c,
                            ServerboundView::ClientInformation(
                                ClientInformationView {
                                    language,
                                    view_distance: view_distance as u8,
                                    chat_visibility,
                                    chat_colors: flags.chat_colors,
                                    model_customization: flags.model_customization,
                                    right_handed: flags.right_handed,
                                    text_filtering_enabled: flags.text_filtering_enabled,
                                    allows_listing: flags.allows_listing,
                                },
                            ),
                        ),
                    },
                },
            },
        },
    }
}

pub open spec fn parse_custom_payload(payload: Seq<u8>) -> Result<ServerboundView, ReadError> {
    match text_read(payload, MAX_IDENTIFIER_LEN as nat) {
        Err(e) => Err(e),
        Ok((identifier, a)) => if payload.len() - a <= MAX_ARRAY_LEN {
            Ok(ServerboundView::CustomPayload { identifier, data: payload.skip(a as int) })
        } else {
            Err(ReadError::MalformedPacket)
        },
    }
}

pub open spec fn parse_serverbound_keep_alive(payload: Seq<u8>) -> Result<
    ServerboundView,
    ReadError,
> {
    match number_read(payload, 8) {
        Err(e) => Err(e),
        Ok(id) => complete(payload, 8, ServerboundView::KeepAlive { id: id as u64 }),
    }
}

/// What a server reads of the payload of the packet with the number
/// `packet_id` among the packets of `phase`.
pub open spec fn serverbound_parse(phase: Phase, packet_id: i32, payload: Seq<u8>) -> Result<
    ServerboundView,
    ReadError,
> {
    match phase {
        Phase::Handshake => if packet_id == 0x00 {
            parse_client_intention(payload)
        } else {
            Err(ReadError::UnknownPacketId)
        },
        Phase::Login => if packet_id == 0x00 {
            parse_serverbound_hello(payload)
        } else if packet_id == 0x01 {
            parse_key(payload)
        } else if packet_id == 0x02 {
            parse_custom_query_answer(payload)
        } else if packet_id == 0x03 {
            complete(payload, 0, ServerboundView::LoginAcknowledged)
        } else {
            Err(ReadError::UnknownPacketId)
        },
        Phase::Configuration => if packet_id == 0x00 {
            parse_client_information(payload)
        } else if packet_id == 0x01 {
            parse_custom_payload(payload)
        } else if packet_id == 0x02 {
            complete(payload, 0, ServerboundView::FinishConfiguration)
        } else if packet_id == 0x03 {
            parse_serverbound_keep_alive(payload)
        } else {
            Err(ReadError::UnknownPacketId)
        },
        Phase::Play => if packet_id == 0x09 {
            parse_client_information(payload)
        } else if packet_id == 0x0f {
            parse_custom_payload(payload)
        } else if packet_id == 0x14 {
            parse_serverbound_keep_alive(payload)
        } else {
            Err(ReadError::UnknownPacketId)
        },
        Phase::Closed => Err(ReadError::UnknownPacketId),
    }
}

/// What follows a field in a payload: the payload without the field.
proof fn lemma_skip_field(field: Seq<u8>, rest: Seq<u8>)
    ensures
        (field + rest).skip(field.len() as int) == rest,
{
}

/// A number of one byte is the byte.
proof fn lemma_one_byte(byte: u8, rest: Seq<u8>)
    ensures
        number_read(seq![byte] + rest, 1) == Ok::<nat, ReadError>(byte as nat),
{
    assert(pow256(1) == 256) by {
        reveal_with_fuel(pow256, 2);
    }
    assert(be_bytes(byte as nat, 1) == seq![byte]) by {
        reveal_with_fuel(be_bytes, 2);
        assert(Seq::<u8>::empty().push(byte) == seq![byte]);
    }
    lemma_number_round_trip(byte as nat, 1, rest);
}

/// A truth value survives the wire.
proof fn lemma_bool_round_trip(value: bool, rest: Seq<u8>)
    ensures
        bool_read(bool_encoding(value) + rest) == Ok::<bool, ReadError>(value),
        bool_encoding(value).len() == 1,
{
}

proof fn lemma_powers()
    ensures
        pow256(1) == 0x100,
        pow256(2) == 0x1_0000,
        pow256(8) == 0x1_0000_0000_0000_0000,
        pow256(16) == 0x1_0000_0000_0000_0000_0000_0000_0000_0000,
{
    reveal_with_fuel(pow256, 17);
}

proof fn lemma_client_intention_round_trip(packet: ServerboundView)
    requires
        serverbound_fits(packet),
        packet is ClientIntention,
    ensures
        parse_client_intention(serverbound_encoding(packet)) == Ok::<ServerboundView, ReadError>(
            packet,
        ),
{
    let payload = serverbound_encoding(packet);
    let nothing = Seq::<u8>::empty();
    lemma_powers();
    match packet {
        ServerboundView::ClientIntention { protocol_version, hostname, port, intention } => {
            let f1 = varint_encoding(unsigned_bits(protocol_version));
            let f2 = text_encoding(encode_utf8(hostname));
            let f3 = be_bytes(port as nat, 2);
            let f4 = varint_encoding(intention_id(intention));
            let r3 = f4 + nothing;
            let r2 = f3 + r3;
            let r1 = f2 + r2;
            assert(payload == f1 + r1);
            lemma_varint_round_trip(protocol_version, r1);
            lemma_skip_field(f1, r1);
            lemma_text_round_trip(hostname, MAX_HOSTNAME_LEN as nat, r2);
            assert(payload.skip((f1.len() + f2.len()) as int) == r2);
            lemma_number_round_trip(port as nat, 2, r3);
            crate::protocol::buffer::lemma_be_round_trip(port as nat, 2);
            assert(payload.skip((f1.len() + f2.len() + 2) as int) == r3);
            lemma_varint_round_trip(intention_id(intention) as i32, nothing);
            assert(payload.len() == f1.len() + f2.len() + 2 + f4.len());
        },
        _ => {},
    }
}

proof fn lemma_hello_round_trip(packet: ServerboundView)
    requires
        serverbound_fits(packet),
        packet is Hello,
    ensures
        parse_serverbound_hello(serverbound_encoding(packet)) == Ok::<ServerboundView, ReadError>(
            packet,
        ),
{
    let payload = serverbound_encoding(packet);
    let nothing = Seq::<u8>::empty();
    lemma_powers();
    match packet {
        ServerboundView::Hello { name, profile_id } => {
            let f1 = text_encoding(encode_utf8(name));
            let f2 = be_bytes(profile_id as nat, 16);
            assert(payload == f1 + (f2 + nothing));
            lemma_text_round_trip(name, MAX_NAME_LEN as nat, f2 + nothing);
            lemma_skip_field(f1, f2 + nothing);
            lemma_number_round_trip(profile_id as nat, 16, nothing);
            crate::protocol::buffer::lemma_be_round_trip(profile_id as nat, 16);
            assert(payload.len() == f1.len() + 16);
        },
        _ => {},
    }
}

proof fn lemma_key_round_trip(packet: ServerboundView)
    requires
        serverbound_fits(packet),
        packet is Key,
    ensures
        parse_key(serverbound_encoding(packet)) == Ok::<ServerboundView, ReadError>(packet),
{
    let payload = serverbound_encoding(packet);
    let nothing = Seq::<u8>::empty();
    match packet {
        ServerboundView::Key { key_bytes, encrypted_challenge } => {
            let f1 = bytes_encoding(key_bytes);
            let f2 = bytes_encoding(encrypted_challenge);
            assert(payload == f1 + (f2 + nothing));
            lemma_bytes_round_trip(key_bytes, MAX_ARRAY_LEN as nat, f2 + nothing);
            lemma_skip_field(f1, f2 + nothing);
            lemma_bytes_round_trip(encrypted_challenge, MAX_ARRAY_LEN as nat, nothing);
            assert(payload.len() == f1.len() + f2.len());
        },
        _ => {},
    }
}

proof fn lemma_custom_query_answer_round_trip(packet: ServerboundView)
    requires
        serverbound_fits(packet),
        packet is CustomQueryAnswer,
    ensures
        parse_custom_query_answer(serverbound_encoding(packet)) == Ok::<
            ServerboundView,
            ReadError,
        >(packet),
{
    let payload = serverbound_encoding(packet);
    let nothing = Seq::<u8>::empty();
    match packet {
        ServerboundView::CustomQueryAnswer { transaction_id, data } => {
            let f1 = varint_encoding(unsigned_bits(transaction_id));
            match data {
                Some(bytes) => {
                    let f2 = bool_encoding(true);
                    assert(payload == f1 + (f2 + bytes));
                    lemma_varint_round_trip(transaction_id, f2 + bytes);
                    lemma_skip_field(f1, f2 + bytes);
                    lemma_bool_round_trip(true, bytes);
                    assert(payload.skip((f1.len() + 1) as int) == bytes);
                },
                None => {
                    let f2 = bool_encoding(false);
                    assert(payload == f1 + (f2 + nothing));
                    lemma_varint_round_trip(transaction_id, f2 + nothing);
                    lemma_skip_field(f1, f2 + nothing);
                    lemma_bool_round_trip(false, nothing);
                    assert(payload.len() == f1.len() + 1);
                },
            }
        },
        _ => {},
    }
}

proof fn lemma_flags_round_trip(flags: InformationFlags, rest: Seq<u8>)
    ensures
        flags_read(flags_encoding(flags) + rest) == Ok::<(InformationFlags, nat), ReadError>(
            (flags, flags_encoding(flags).len()),
        ),
{
    let input = flags_encoding(flags) + rest;
    let f4 = bool_encoding(flags.chat_colors);
    let f5 = seq![flags.model_customization];
    let hand: nat = if flags.right_handed {
        1
    } else {
        0
    };
    let f6 = varint_encoding(hand);
    let f7 = bool_encoding(flags.text_filtering_enabled);
    let f8 = bool_encoding(flags.allows_listing);
    let r7 = f8 + rest;
    let r6 = f7 + r7;
    let r5 = f6 + r6;
    let r4 = f5 + r5;
    assert(input == f4 + r4);
    lemma_bool_round_trip(flags.chat_colors, r4);
    assert(input.skip(1) == r4);
    lemma_one_byte(flags.model_customization, r5);
    assert(input.skip(2) == r5);
    lemma_varint_round_trip(hand as i32, r6);
    let c = f6.len();
    assert(input.skip((2 + c) as int) == r6);
    lemma_bool_round_trip(flags.text_filtering_enabled, r7);
    assert(input.skip((3 + c) as int) == r7);
    lemma_bool_round_trip(flags.allows_listing, rest);
    assert(flags_encoding(flags).len() == 4 + c);
}

proof fn lemma_client_information_round_trip(packet: ServerboundView)
    requires
        serverbound_fits(packet),
        packet is ClientInformation,
    ensures
        parse_client_information(serverbound_encoding(packet)) == Ok::<
            ServerboundView,
            ReadError,
        >(packet),
{
    let payload = serverbound_encoding(packet);
    let nothing = Seq::<u8>::empty();
    match packet {
        ServerboundView::ClientInformation(information) => {
            let flags = information_flags(information);
            let f1 = text_encoding(encode_utf8(information.language));
            let f2 = seq![information.view_distance];
            let chat = chat_visibility_id(information.chat_visibility);
            let f3 = varint_encoding(chat);
            let r3 = flags_encoding(flags) + nothing;
            let r2 = f3 + r3;
            let r1 = f2 + r2;
            assert(payload == f1 + r1);
            lemma_text_round_trip(information.language, MAX_NAME_LEN as nat, r1);
            lemma_skip_field(f1, r1);
            lemma_one_byte(information.view_distance, r2);
            let a = f1.len();
            assert(payload.skip((a + 1) as int) == r2);
            lemma_varint_round_trip(chat as i32, r3);
            let b = f3.len();
            assert(payload.skip((a + 1 + b) as int) == r3);
            lemma_flags_round_trip(flags, nothing);
            assert(payload.len() == a + 1 + b + flags_encoding(flags).len());
        },
        _ => {},
    }
}

proof fn lemma_custom_payload_round_trip(packet: ServerboundView)
    requires
        serverbound_fits(packet),
        packet is CustomPayload,
    ensures
        parse_custom_payload(serverbound_encoding(packet)) == Ok::<ServerboundView, ReadError>(
            packet,
        ),
{
    let payload = serverbound_encoding(packet);
    match packet {
        ServerboundView::CustomPayload { identifier, data } => {
            let f1 = text_encoding(encode_utf8(identifier));
            assert(payload == f1 + data);
            lemma_text_round_trip(identifier, MAX_IDENTIFIER_LEN as nat, data);
            lemma_skip_field(f1, data);
        },
        _ => {},
    }
}

proof fn lemma_keep_alive_round_trip(packet: ServerboundView)
    requires
        packet is KeepAlive,
    ensures
        parse_serverbound_keep_alive(serverbound_encoding(packet)) == Ok::<
            ServerboundView,
            ReadError,
        >(packet),
{
    let payload = serverbound_encoding(packet);
    let nothing = Seq::<u8>::empty();
    lemma_powers();
    match packet {
        ServerboundView::KeepAlive { id } => {
            let f1 = be_bytes(id as nat, 8);
            assert(payload == f1 + nothing);
            lemma_number_round_trip(id as nat, 8, nothing);
            crate::protocol::buffer::lemma_be_round_trip(id as nat, 8);
        },
        _ => {},
    }
}

/// Every packet that a client sends survives the wire: what a server reads
/// of the payload that is written for a packet that fits, in a phase that
/// has the packet, is the packet.
pub proof fn lemma_serverbound_round_trip(phase: Phase, packet: ServerboundView)
    requires
        serverbound_fits(packet),
        serverbound_id(phase, packet).is_some(),
    ensures
        serverbound_parse(phase, serverbound_id(phase, packet).unwrap(), serverbound_encoding(packet))
            == Ok::<ServerboundView, ReadError>(packet),
{
    match packet {
        ServerboundView::ClientIntention { .. } => lemma_client_intention_round_trip(packet),
        ServerboundView::Hello { .. } => lemma_hello_round_trip(packet),
        ServerboundView::Key { .. } => lemma_key_round_trip(packet),
        ServerboundView::CustomQueryAnswer { .. } => lemma_custom_query_answer_round_trip(packet),
        ServerboundView::LoginAcknowledged => {},
        ServerboundView::ClientInformation(_) => lemma_client_information_round_trip(packet),
        ServerboundView::CustomPayload { .. } => lemma_custom_payload_round_trip(packet),
        ServerboundView::FinishConfiguration => {},
        ServerboundView::KeepAlive { .. } => lemma_keep_alive_round_trip(packet),
    }
}

/// The most properties of a profile.
pub const MAX_PROPERTIES: i32 = 16;

/// The packets from the server that the phase of configuration knows.
pub const CONFIGURATION_PACKETS: i32 = 9;

/// The packets from the server that the phase of play knows.
pub const PLAY_PACKETS: i32 = 111;

/// A packet from the server to the client.
#[derive(Clone, Debug, PartialEq, Eq)]
pub enum ClientboundPacket {
    /// Login: the server turns the player away.
    LoginDisconnect { reason: String },
    /// Login: the server asks for encryption.
    Hello { server_id: String, public_key: Vec<u8>, nonce: Vec<u8> },
    /// Login: the server accepts the player.
    GameProfile { game_profile: GameProfile },
    /// Login: the server sets the compression threshold.
    LoginCompression { compression_threshold: i32 },
    /// Login: a plugin asks a question.
    CustomQuery { transaction_id: i32, identifier: String, data: Vec<u8> },
    /// Configuration and play: the server ends the connection.
    Disconnect { reason: String },
    /// Configuration: the server is done configuring.
    FinishConfiguration,
    /// Configuration and play: the server wants its number echoed.
    KeepAlive { id: u64 },
    /// Configuration and play: any other packet, as it came.
    Other { packet_id: i32, payload: Vec<u8> },
}

/// A property of a profile, as contracts see it.
pub struct PropertyView {
    pub name: Seq<char>,
    pub value: Seq<char>,
    pub signature: Option<Seq<char>>,
}

/// A profile, as contracts see it.
pub struct ProfileView {
    pub uuid: u128,
    pub name: Seq<char>,
    pub properties: Seq<PropertyView>,
}

/// A packet from the server, as contracts see it.
pub enum ClientboundView {
    LoginDisconnect { reason: Seq<char> },
    Hello { server_id: Seq<char>, public_key: Seq<u8>, nonce: Seq<u8> },
    GameProfile { game_profile: ProfileView },
    LoginCompression { compression_threshold: i32 },
    CustomQuery { transaction_id: i32, identifier: Seq<char>, data: Seq<u8> },
    Disconnect { reason: Seq<char> },
    FinishConfiguration,
    KeepAlive { id: u64 },
    Other { packet_id: i32, payload: Seq<u8> },
}

pub open spec fn property_view(property: ProfileProperty) -> PropertyView {
    PropertyView {
        name: property.name@,
        value: property.value@,
        signature: match property.signature {
            Some(signature) => Some(signature@),
            None => None,
        },
    }
}

pub open spec fn properties_view(properties: Seq<ProfileProperty>) -> Seq<PropertyView> {
    Seq::new(properties.len(), |i: int| property_view(properties[i]))
}

pub open spec fn profile_view(profile: GameProfile) -> ProfileView {
    ProfileView {
        uuid: profile.uuid,
        name: profile.name@,
        properties: properties_view(profile.properties@),
    }
}

impl View for ClientboundPacket {
    type V = ClientboundView;

    open spec fn view(&self) -> ClientboundView {
        match *self {
            ClientboundPacket::LoginDisconnect { reason } => ClientboundView::LoginDisconnect {
                reason: reason@,
            },
            ClientboundPacket::Hello { server_id, public_key, nonce } => ClientboundView::Hello {
                server_id: server_id@,
                public_key: public_key@,
                nonce: nonce@,
            },
            ClientboundPacket::GameProfile { game_profile } => ClientboundView::GameProfile {
                game_profile: profile_view(game_profile),
            },
            ClientboundPacket::LoginCompression { compression_threshold } => {
                ClientboundView::LoginCompression { compression_threshold }
            },
            ClientboundPacket::CustomQuery { transaction_id, identifier, data } => {
                ClientboundView::CustomQuery {
                    transaction_id,
                    identifier: identifier@,
                    data: data@,
                }
            },
            ClientboundPacket::Disconnect { reason } => ClientboundView::Disconnect {
                reason: reason@,
            },
            ClientboundPacket::FinishConfiguration => ClientboundView::FinishConfiguration,
            ClientboundPacket::KeepAlive { id } => ClientboundView::KeepAlive { id },
            ClientboundPacket::Other { packet_id, payload } => ClientboundView::Other {
                packet_id,
                payload: payload@,
            },
        }
    }
}

/// What the front of `input` holds, read as a property of a profile, and
/// the number of bytes that it took.
#[verifier::opaque]
pub open spec fn property_read(input: Seq<u8>) -> Result<(PropertyView, nat), ReadError> {
    match text_read(input, MAX_IDENTIFIER_LEN as nat) {
        Err(e) => Err(e),
        Ok((name, a)) => match text_read(input.skip(a as int), MAX_IDENTIFIER_LEN as nat) {
            Err(e) => Err(e),
            Ok((value, b)) => match bool_read(input.skip((a + b) as int)) {
                Err(e) => Err(e),
                Ok(signed) => if signed {
                    match text_read(input.skip((a + b + 1) as int), MAX_IDENTIFIER_LEN as nat) {
                        Err(e) => Err(e),
                        Ok((signature, c)) => Ok(
                            (
                                PropertyView { name, value, signature: Some(signature) },
                                (a + b + 1 + c) as nat,
                            ),
                        ),
                    }
                } else {
                    Ok((PropertyView { name, value, signature: None }, (a + b + 1) as nat))
                },
            },
        },
    }
}

/// What the front of `input` holds, read as `n` properties one after the
/// other, and the number of bytes that they took.
pub open spec fn properties_read(input: Seq<u8>, n: nat) -> Result<(Seq<PropertyView>, nat), ReadError>
    decreases n,
{
    if n == 0 {
        Ok((Seq::empty(), 0))
    } else {
        match properties_read(input, (n - 1) as nat) {
            Err(e) => Err(e),
            Ok((before, used)) => match property_read(input.skip(used as int)) {
                Err(e) => Err(e),
                Ok((property, m)) => Ok((before.push(property), used + m)),
            },
        }
    }
}

pub open spec fn parse_login_disconnect(payload: Seq<u8>) -> Result<ClientboundView, ReadError> {
    match text_read(payload, MAX_REASON_LEN as nat) {
        Err(e) => Err(e),
        Ok((reason, a)) => complete(payload, a, ClientboundView::LoginDisconnect { reason }),
    }
}

pub open spec fn parse_disconnect(payload: Seq<u8>) -> Result<ClientboundView, ReadError> {
    match text_read(payload, MAX_REASON_LEN as nat) {
        Err(e) => Err(e),
        Ok((reason, a)) => complete(payload, a, ClientboundView::Disconnect { reason }),
    }
}

pub open spec fn parse_clientbound_hello(payload: Seq<u8>) -> Result<ClientboundView, ReadError> {
    match text_read(payload, MAX_SERVER_ID_LEN as nat) {
        Err(e) => Err(e),
        Ok((server_id, a)) => match bytes_read(payload.skip(a as int), MAX_ARRAY_LEN as nat) {
            Err(e) => Err(e),
            Ok((public_key, b)) => match bytes_read(
                payload.skip((a + b) as int),
                MAX_ARRAY_LEN as nat,
            ) {
                Err(e) => Err(e),
                Ok((nonce, c)) => complete(
                    payload,
                    a + b + c,
                    ClientboundView::Hello { server_id, public_key, nonce },
                ),
            },
        },
    }
}

pub open spec fn parse_game_profile(payload: Seq<u8>) -> Result<ClientboundView, ReadError> {
    match number_read(payload, 16) {
        Err(e) => Err(e),
        Ok(uuid) => match text_read(payload.skip(16), MAX_NAME_LEN as nat) {
            Err(e) => Err(e),
            Ok((name, a)) => match varint_read(payload.skip((16 + a) as int)) {
                Err(e) => Err(e),
                Ok((count, b)) => if count < 0 || count > MAX_PROPERTIES {
                    Err(ReadError::MalformedPacket)
                } else {
                    match properties_read(payload.skip((16 + a + b) as int), count as nat) {
                        Err(e) => Err(e),
                        Ok((properties, c)) => complete(
                            payload,
                            16 + a + b + c,
                            ClientboundView::GameProfile {
                                game_profile: ProfileView { uuid: uuid as u128, name, properties },
                            },
                        ),
                    }
                },
            },
        },
    }
}

pub open spec fn parse_login_compression(payload: Seq<u8>) -> Result<ClientboundView, ReadError> {
    match varint_read(payload) {
        Err(e) => Err(e),
        Ok((compression_threshold, a)) => complete(
            payload,
            a,
            ClientboundView::LoginCompression { compression_threshold },
        ),
    }
}

pub open spec fn parse_custom_query(payload: Seq<u8>) -> Result<ClientboundView, ReadError> {
    match varint_read(payload) {
        Err(e) => Err(e),
        Ok((transaction_id, a)) => match text_read(
            payload.skip(a as int),
            MAX_IDENTIFIER_LEN as nat,
        ) {
            Err(e) => Err(e),
            Ok((identifier, b)) => if payload.len() - a - b <= MAX_ARRAY_LEN {
                Ok(
                    ClientboundView::CustomQuery {
                        transaction_id,
                        identifier,
                        data: payload.skip((a + b) as int),
                    },
                )
            } else {
                Err(ReadError::MalformedPacket)
            },
        },
    }
}

pub open spec fn parse_clientbound_keep_alive(payload: Seq<u8>) -> Result<
    ClientboundView,
    ReadError,
> {
    match number_read(payload, 8) {
        Err(e) => Err(e),
        Ok(id) => complete(payload, 8, ClientboundView::KeepAlive { id: id as u64 }),
    }
}

/// What a client reads of the payload of the packet with the number
/// `packet_id` among the packets of `phase`. The packets of the login are
/// all read. Of the packets of configuration and play, those that end the
/// connection, finish the configuration or ask for an echo are read; the
/// others pass as they came. A number that the phase does not know is an
/// error.
pub open spec fn clientbound_parse(phase: Phase, packet_id: i32, payload: Seq<u8>) -> Result<
    ClientboundView,
    ReadError,
> {
    match phase {
        Phase::Login => if packet_id == 0x00 {
            parse_login_disconnect(payload)
        } else if packet_id == 0x01 {
            parse_clientbound_hello(payload)
        } else if packet_id == 0x02 {
            parse_game_profile(payload)
        } else if packet_id == 0x03 {
            parse_login_compression(payload)
        } else if packet_id == 0x04 {
            parse_custom_query(payload)
        } else {
            Err(ReadError::UnknownPacketId)
        },
        Phase::Configuration => if packet_id == 0x01 {
            parse_disconnect(payload)
        } else if packet_id == 0x02 {
            complete(payload, 0, ClientboundView::FinishConfiguration)
        } else if packet_id == 0x03 {
            parse_clientbound_keep_alive(payload)
        } else if 0 <= packet_id < CONFIGURATION_PACKETS {
            Ok(ClientboundView::Other { packet_id, payload })
        } else {
            Err(ReadError::UnknownPacketId)
        },
        Phase::Play => if packet_id == 0x1b {
            parse_disconnect(payload)
        } else if packet_id == 0x24 {
            parse_clientbound_keep_alive(payload)
        } else if 0 <= packet_id < PLAY_PACKETS {
            Ok(ClientboundView::Other { packet_id, payload })
        } else {
            Err(ReadError::UnknownPacketId)
        },
        Phase::Handshake | Phase::Closed => Err(ReadError::UnknownPacketId),
    }
}

/// Whether the payload ends where the packet does.
fn completed(payload: &[u8], used: usize, packet: ClientboundPacket) -> (decoded: Result<
    ClientboundPacket,
    ReadError,
>)
    ensures
        match (decoded, complete(payload@, used as nat, packet@)) {
            (Ok(p), Ok(v)) => p@ == v,
            (Err(e), Err(f)) => e == f,
            _ => false,
        },
{
    if used == payload.len() {
        Ok(packet)
    } else {
        Err(ReadError::MalformedPacket)
    }
}

fn decode_reason(payload: &[u8], login: bool) -> (decoded: Result<ClientboundPacket, ReadError>)
    ensures
        match (
            decoded,
            if login {
                parse_login_disconnect(payload@)
            } else {
                parse_disconnect(payload@)
            },
        ) {
            (Ok(p), Ok(v)) => p@ == v,
            (Err(e), Err(f)) => e == f,
            _ => false,
        },
{
    assert(payload@.skip(0) == payload@);
    match read_text(payload, 0, MAX_REASON_LEN) {
        Err(e) => Err(e),
        Ok((reason, a)) => if login {
            completed(payload, a, ClientboundPacket::LoginDisconnect { reason })
        } else {
            completed(payload, a, ClientboundPacket::Disconnect { reason })
        },
    }
}

fn decode_hello(payload: &[u8]) -> (decoded: Result<ClientboundPacket, ReadError>)
    ensures
        match (decoded, parse_clientbound_hello(payload@)) {
            (Ok(p), Ok(v)) => p@ == v,
            (Err(e), Err(f)) => e == f,
            _ => false,
        },
{
    assert(payload@.skip(0) == payload@);
    let total: usize = payload.len();
    let (server_id, a) = match read_text(payload, 0, MAX_SERVER_ID_LEN) {
        Ok(field) => field,
        Err(e) => {
            return Err(e);
        },
    };
    let (public_key, b) = match read_byte_array(payload, a, MAX_ARRAY_LEN) {
        Ok(field) => field,
        Err(e) => {
            return Err(e);
        },
    };
    let (nonce, c) = match read_byte_array(payload, a + b, MAX_ARRAY_LEN) {
        Ok(field) => field,
        Err(e) => {
            return Err(e);
        },
    };
    completed(payload, a + b + c, ClientboundPacket::Hello { server_id, public_key, nonce })
}

/// Reads a property of a profile from `buf` at `pos`.
fn read_property(buf: &[u8], pos: usize) -> (read: Result<(ProfileProperty, usize), ReadError>)
    requires
        pos <= buf@.len(),
    ensures
        match (read, property_read(buf@.skip(pos as int))) {
            (Ok((property, len)), Ok((p, l))) => property_view(property) == p && len == l && pos
                + len <= buf@.len(),
            (Err(e), Err(f)) => e == f,
            _ => false,
        },
{
    let ghost input = buf@.skip(pos as int);
    let total: usize = buf.len();
    proof {
        reveal(property_read);
    }
    let (name, a) = match read_text(buf, pos, MAX_IDENTIFIER_LEN) {
        Ok(field) => field,
        Err(e) => {
            return Err(e);
        },
    };
    assert(input.skip(a as int) == buf@.skip(pos + a));
    let (value, b) = match read_text(buf, pos + a, MAX_IDENTIFIER_LEN) {
        Ok(field) => field,
        Err(e) => {
            return Err(e);
        },
    };
    assert(input.skip((a + b) as int) == buf@.skip(pos + a + b));
    let signed = match read_bool(buf, pos + a + b) {
        Ok(field) => field,
        Err(e) => {
            return Err(e);
        },
    };
    if signed {
        assert(input.skip((a + b + 1) as int) == buf@.skip(pos + a + b + 1));
        let (signature, c) = match read_text(buf, pos + a + b + 1, MAX_IDENTIFIER_LEN) {
            Ok(field) => field,
            Err(e) => {
                return Err(e);
            },
        };
        Ok((ProfileProperty { name, value, signature: Some(signature) }, a + b + 1 + c))
    } else {
        Ok((ProfileProperty { name, value, signature: None }, a + b + 1))
    }
}

/// Reads `count` properties of a profile from `buf` at `pos`.
fn read_properties(buf: &[u8], pos: usize, count: i32) -> (read: Result<
    (Vec<ProfileProperty>, usize),
    ReadError,
>)
    requires
        pos <= buf@.len(),
        0 <= count <= 16,
    ensures
        match (read, properties_read(buf@.skip(pos as int), count as nat)) {
            (Ok((properties, len)), Ok((p, l))) => properties_view(properties@) == p && len == l
                && pos + len <= buf@.len(),
            (Err(e), Err(f)) => e == f,
            _ => false,
        },
{
    let ghost input = buf@.skip(pos as int);
    let total: usize = buf.len();
    let mut properties: Vec<ProfileProperty> = Vec::new();
    let mut used: usize = 0;
    let mut k: i32 = 0;
    proof {
        assert(properties_view(properties@) =~= Seq::<PropertyView>::empty());
    }
    while k < count
        invariant
            0 <= k <= count <= 16,
            buf@.len() == total,
            pos + used <= buf@.len(),
            input == buf@.skip(pos as int),
            properties@.len() == k,
            properties_read(input, k as nat) == Ok::<(Seq<PropertyView>, nat), ReadError>(
                (properties_view(properties@), used as nat),
            ),
        ensures
            k == count,
        decreases count - k,
    {
        assert(input.skip(used as int) == buf@.skip(pos + used));
        let ghost before = properties_view(properties@);
        match read_property(buf, pos + used) {
            Ok((property, m)) => {
                properties.push(property);
                used = used + m;
                assert(properties_view(properties@) =~= before.push(property_view(property)));
            },
            Err(e) => {
                proof {
                    lemma_properties_fail(input, (k + 1) as nat, count as nat);
                }
                return Err(e);
            },
        }
        k += 1;
    }
    Ok((properties, used))
}

fn decode_game_profile(payload: &[u8]) -> (decoded: Result<ClientboundPacket, ReadError>)
    ensures
        match (decoded, parse_game_profile(payload@)) {
            (Ok(p), Ok(v)) => p@ == v,
            (Err(e), Err(f)) => e == f,
            _ => false,
        },
{
    assert(payload@.skip(0) == payload@);
    let total: usize = payload.len();
    let uuid = match read_number(payload, 0, 16) {
        Ok(field) => field,
        Err(e) => {
            return Err(e);
        },
    };
    let (name, a) = match read_text(payload, 16, MAX_NAME_LEN) {
        Ok(field) => field,
        Err(e) => {
            return Err(e);
        },
    };
    let (count, b) = match read_varint(payload, 16 + a) {
        Ok(field) => field,
        Err(e) => {
            return Err(e);
        },
    };
    if count < 0 || count > MAX_PROPERTIES {
        return Err(ReadError::MalformedPacket);
    }
    let (properties, c) = match read_properties(payload, 16 + a + b, count) {
        Ok(field) => field,
        Err(e) => {
            return Err(e);
        },
    };
    completed(
        payload,
        16 + a + b + c,
        ClientboundPacket::GameProfile { game_profile: GameProfile { uuid, name, properties } },
    )
}

/// Where the first `n` properties cannot be read, more cannot be read
/// either, and for the same reason.
proof fn lemma_properties_fail(input: Seq<u8>, n: nat, m: nat)
    requires
        n <= m,
        properties_read(input, n).is_err(),
    ensures
        properties_read(input, m) == properties_read(input, n),
    decreases m - n,
{
    if n < m {
        lemma_properties_fail(input, n, (m - 1) as nat);
    }
}

fn decode_custom_query(payload: &[u8]) -> (decoded: Result<ClientboundPacket, ReadError>)
    ensures
        match (decoded, parse_custom_query(payload@)) {
            (Ok(p), Ok(v)) => p@ == v,
            (Err(e), Err(f)) => e == f,
            _ => false,
        },
{
    assert(payload@.skip(0) == payload@);
    let total: usize = payload.len();
    let (transaction_id, a) = match read_varint(payload, 0) {
        Ok(field) => field,
        Err(e) => {
            return Err(e);
        },
    };
    let (identifier, b) = match read_text(payload, a, MAX_IDENTIFIER_LEN) {
        Ok(field) => field,
        Err(e) => {
            return Err(e);
        },
    };
    if (payload.len() - a - b) as u64 > MAX_ARRAY_LEN as u64 {
        return Err(ReadError::MalformedPacket);
    }
    let mut data: Vec<u8> = Vec::new();
    append_bytes(&mut data, slice_subrange(payload, a + b, payload.len()));
    Ok(ClientboundPacket::CustomQuery { transaction_id, identifier, data })
}

fn decode_keep_alive(payload: &[u8]) -> (decoded: Result<ClientboundPacket, ReadError>)
    ensures
        match (decoded, parse_clientbound_keep_alive(payload@)) {
            (Ok(p), Ok(v)) => p@ == v,
            (Err(e), Err(f)) => e == f,
            _ => false,
        },
{
    assert(payload@.skip(0) == payload@);
    match read_number(payload, 0, 8) {
        Err(e) => Err(e),
        Ok(id) => {
            proof {
                crate::protocol::buffer::lemma_be_value_bound(payload@.take(8));
                lemma_powers();
            }
            completed(payload, 8, ClientboundPacket::KeepAlive { id: id as u64 })
        },
    }
}

fn decode_other(packet_id: i32, payload: &[u8]) -> (packet: ClientboundPacket)
    ensures
        packet@ == (ClientboundView::Other { packet_id, payload: payload@ }),
{
    let mut bytes: Vec<u8> = Vec::new();
    append_bytes(&mut bytes, payload);
    ClientboundPacket::Other { packet_id, payload: bytes }
}

/// Reads the payload of the packet with the number `packet_id` among the
/// packets from the server of `phase`.
pub fn decode_clientbound(phase: Phase, packet_id: i32, payload: &[u8]) -> (decoded: Result<
    ClientboundPacket,
    ReadError,
>)
    ensures
        match (decoded, clientbound_parse(phase, packet_id, payload@)) {
            (Ok(p), Ok(v)) => p@ == v,
            (Err(e), Err(f)) => e == f,
            _ => false,
        },
{
    assert(payload@.skip(0) == payload@);
    match phase {
        Phase::Login => {
            if packet_id == 0x00 {
                decode_reason(payload, true)
            } else if packet_id == 0x01 {
                decode_hello(payload)
            } else if packet_id == 0x02 {
                decode_game_profile(payload)
            } else if packet_id == 0x03 {
                match read_varint(payload, 0) {
                    Err(e) => Err(e),
                    Ok((compression_threshold, a)) => completed(
                        payload,
                        a,
                        ClientboundPacket::LoginCompression { compression_threshold },
                    ),
                }
            } else if packet_id == 0x04 {
                decode_custom_query(payload)
            } else {
                Err(ReadError::UnknownPacketId)
            }
        },
        Phase::Configuration => {
            if packet_id == 0x01 {
                decode_reason(payload, false)
            } else if packet_id == 0x02 {
                completed(payload, 0, ClientboundPacket::FinishConfiguration)
            } else if packet_id == 0x03 {
                decode_keep_alive(payload)
            } else if 0 <= packet_id && packet_id < CONFIGURATION_PACKETS {
                Ok(decode_other(packet_id, payload))
            } else {
                Err(ReadError::UnknownPacketId)
            }
        },
        Phase::Play => {
            if packet_id == 0x1b {
                decode_reason(payload, false)
            } else if packet_id == 0x24 {
                decode_keep_alive(payload)
            } else if 0 <= packet_id && packet_id < PLAY_PACKETS {
                Ok(decode_other(packet_id, payload))
            } else {
                Err(ReadError::UnknownPacketId)
            }
        },
        Phase::Handshake => Err(ReadError::UnknownPacketId),
        Phase::Closed => Err(ReadError::UnknownPacketId),
    }
}

/// The number of a packet from the server among the packets of `phase`, or
/// `None` where the phase has no such packet.
pub open spec fn clientbound_id(phase: Phase, packet: ClientboundView) -> Option<i32> {
    match (phase, packet) {
        (Phase::Login, ClientboundView::LoginDisconnect { .. }) => Some(0x00),
        (Phase::Login, ClientboundView::Hello { .. }) => Some(0x01),
        (Phase::Login, ClientboundView::GameProfile { .. }) => Some(0x02),
        (Phase::Login, ClientboundView::LoginCompression { .. }) => Some(0x03),
        (Phase::Login, ClientboundView::CustomQuery { .. }) => Some(0x04),
        (Phase::Configuration, ClientboundView::Disconnect { .. }) => Some(0x01),
        (Phase::Configuration, ClientboundView::FinishConfiguration) => Some(0x02),
        (Phase::Configuration, ClientboundView::KeepAlive { .. }) => Some(0x03),
        (Phase::Configuration, ClientboundView::Other { packet_id, .. }) => if 0 <= packet_id
            < CONFIGURATION_PACKETS && packet_id != 0x01 && packet_id != 0x02 && packet_id
            != 0x03 {
            Some(packet_id)
        } else {
            None
        },
        (Phase::Play, ClientboundView::Disconnect { .. }) => Some(0x1b),
        (Phase::Play, ClientboundView::KeepAlive { .. }) => Some(0x24),
        (Phase::Play, ClientboundView::Other { packet_id, .. }) => if 0 <= packet_id
            < PLAY_PACKETS && packet_id != 0x1b && packet_id != 0x24 {
            Some(packet_id)
        } else {
            None
        },
        _ => None,
    }
}

/// Whether every field of the property fits its place.
pub open spec fn property_fits(property: PropertyView) -> bool {
    &&& text_fits(property.name, MAX_IDENTIFIER_LEN as nat)
    &&& text_fits(property.value, MAX_IDENTIFIER_LEN as nat)
    &&& match property.signature {
        Some(signature) => text_fits(signature, MAX_IDENTIFIER_LEN as nat),
        None => true,
    }
}

/// Whether every field of the packet fits its place.
pub open spec fn clientbound_fits(packet: ClientboundView) -> bool {
    match packet {
        ClientboundView::LoginDisconnect { reason } => text_fits(reason, MAX_REASON_LEN as nat),
        ClientboundView::Disconnect { reason } => text_fits(reason, MAX_REASON_LEN as nat),
        ClientboundView::Hello { server_id, public_key, nonce } => text_fits(
            server_id,
            MAX_SERVER_ID_LEN as nat,
        ) && public_key.len() <= MAX_ARRAY_LEN && nonce.len() <= MAX_ARRAY_LEN,
        ClientboundView::GameProfile { game_profile } => text_fits(
            game_profile.name,
            MAX_NAME_LEN as nat,
        ) && game_profile.properties.len() <= MAX_PROPERTIES && forall|i: int|
            0 <= i < game_profile.properties.len() ==> property_fits(
                #[trigger] game_profile.properties[i],
            ),
        ClientboundView::CustomQuery { identifier, data, .. } => text_fits(
            identifier,
            MAX_IDENTIFIER_LEN as nat,
        ) && data.len() <= MAX_ARRAY_LEN,
        _ => true,
    }
}

/// A property of a profile on the wire.
pub open spec fn property_encoding(property: PropertyView) -> Seq<u8> {
    text_encoding(encode_utf8(property.name)) + text_encoding(encode_utf8(property.value))
        + match property.signature {
        Some(signature) => bool_encoding(true) + text_encoding(encode_utf8(signature)),
        None => bool_encoding(false),
    }
}

/// Properties on the wire, one after the other.
pub open spec fn properties_encoding(properties: Seq<PropertyView>) -> Seq<u8>
    decreases properties.len(),
{
    if properties.len() == 0 {
        Seq::empty()
    } else {
        properties_encoding(properties.drop_last()) + property_encoding(properties.last())
    }
}

/// The payload of a packet from the server.
pub open spec fn clientbound_encoding(packet: ClientboundView) -> Seq<u8> {
    match packet {
        ClientboundView::LoginDisconnect { reason } => text_encoding(encode_utf8(reason)),
        ClientboundView::Disconnect { reason } => text_encoding(encode_utf8(reason)),
        ClientboundView::Hello { server_id, public_key, nonce } => text_encoding(
            encode_utf8(server_id),
        ) + bytes_encoding(public_key) + bytes_encoding(nonce),
        ClientboundView::GameProfile { game_profile } => be_bytes(game_profile.uuid as nat, 16)
            + text_encoding(encode_utf8(game_profile.name)) + varint_encoding(
            game_profile.properties.len(),
        ) + properties_encoding(game_profile.properties),
        ClientboundView::LoginCompression { compression_threshold } => varint_encoding(
            unsigned_bits(compression_threshold),
        ),
        ClientboundView::CustomQuery { transaction_id, identifier, data } => varint_encoding(
            unsigned_bits(transaction_id),
        ) + text_encoding(encode_utf8(identifier)) + data,
        ClientboundView::FinishConfiguration => Seq::empty(),
        ClientboundView::KeepAlive { id } => be_bytes(id as nat, 8),
        ClientboundView::Other { payload, .. } => payload,
    }
}

proof fn lemma_property_round_trip(property: PropertyView, rest: Seq<u8>)
    requires
        property_fits(property),
    ensures
        property_read(property_encoding(property) + rest) == Ok::<(PropertyView, nat), ReadError>(
            (property, property_encoding(property).len()),
        ),
{
    reveal(property_read);
    let input = property_encoding(property) + rest;
    let f1 = text_encoding(encode_utf8(property.name));
    let f2 = text_encoding(encode_utf8(property.value));
    match property.signature {
        Some(signature) => {
            let f3 = bool_encoding(true);
            let f4 = text_encoding(encode_utf8(signature));
            let r3 = f4 + rest;
            let r2 = f3 + r3;
            let r1 = f2 + r2;
            assert(input == f1 + r1);
            lemma_text_round_trip(property.name, MAX_IDENTIFIER_LEN as nat, r1);
            lemma_skip_field(f1, r1);
            lemma_text_round_trip(property.value, MAX_IDENTIFIER_LEN as nat, r2);
            assert(input.skip((f1.len() + f2.len()) as int) == r2);
            lemma_bool_round_trip(true, r3);
            assert(input.skip((f1.len() + f2.len() + 1) as int) == r3);
            lemma_text_round_trip(signature, MAX_IDENTIFIER_LEN as nat, rest);
            assert(property_encoding(property).len() == f1.len() + f2.len() + 1 + f4.len());
        },
        None => {
            let f3 = bool_encoding(false);
            let r2 = f3 + rest;
            let r1 = f2 + r2;
            assert(input == f1 + r1);
            lemma_text_round_trip(property.name, MAX_IDENTIFIER_LEN as nat, r1);
            lemma_skip_field(f1, r1);
            lemma_text_round_trip(property.value, MAX_IDENTIFIER_LEN as nat, r2);
            assert(input.skip((f1.len() + f2.len()) as int) == r2);
            lemma_bool_round_trip(false, rest);
            assert(property_encoding(property).len() == f1.len() + f2.len() + 1);
        },
    }
}

proof fn lemma_properties_round_trip(properties: Seq<PropertyView>, rest: Seq<u8>)
    requires
        forall|i: int| 0 <= i < properties.len() ==> property_fits(#[trigger] properties[i]),
    ensures
        properties_read(properties_encoding(properties) + rest, properties.len()) == Ok::<
            (Seq<PropertyView>, nat),
            ReadError,
        >((properties, properties_encoding(properties).len())),
    decreases properties.len(),
{
    if properties.len() > 0 {
        let before = properties.drop_last();
        let last = properties.last();
        let head = properties_encoding(before);
        let tail = property_encoding(last);
        let input = properties_encoding(properties) + rest;
        assert(input == head + (tail + rest));
        assert forall|i: int| 0 <= i < before.len() implies property_fits(
            #[trigger] before[i],
        ) by {
            assert(before[i] == properties[i]);
        }
        lemma_properties_round_trip(before, tail + rest);
        lemma_skip_field(head, tail + rest);
        assert(property_fits(properties[properties.len() - 1]));
        lemma_property_round_trip(last, rest);
        assert(before.push(last) == properties);
        assert(properties_read(input, before.len()) == Ok::<(Seq<PropertyView>, nat), ReadError>(
            (before, head.len()),
        ));
        assert(property_read(input.skip(head.len() as int)) == Ok::<
            (PropertyView, nat),
            ReadError,
        >((last, tail.len())));
        assert(properties_encoding(properties).len() == head.len() + tail.len());
    } else {
        assert(properties =~= Seq::<PropertyView>::empty());
    }
}

proof fn lemma_clientbound_hello_round_trip(packet: ClientboundView)
    requires
        clientbound_fits(packet),
        packet is Hello,
    ensures
        parse_clientbound_hello(clientbound_encoding(packet)) == Ok::<ClientboundView, ReadError>(
            packet,
        ),
{
    let payload = clientbound_encoding(packet);
    let nothing = Seq::<u8>::empty();
    match packet {
        ClientboundView::Hello { server_id, public_key, nonce } => {
            let f1 = text_encoding(encode_utf8(server_id));
            let f2 = bytes_encoding(public_key);
            let f3 = bytes_encoding(nonce);
            let r2 = f3 + nothing;
            let r1 = f2 + r2;
            assert(payload == f1 + r1);
            lemma_text_round_trip(server_id, MAX_SERVER_ID_LEN as nat, r1);
            lemma_skip_field(f1, r1);
            lemma_bytes_round_trip(public_key, MAX_ARRAY_LEN as nat, r2);
            assert(payload.skip((f1.len() + f2.len()) as int) == r2);
            lemma_bytes_round_trip(nonce, MAX_ARRAY_LEN as nat, nothing);
            assert(payload.len() == f1.len() + f2.len() + f3.len());
        },
        _ => {},
    }
}

proof fn lemma_game_profile_round_trip(packet: ClientboundView)
    requires
        clientbound_fits(packet),
        packet is GameProfile,
    ensures
        parse_game_profile(clientbound_encoding(packet)) == Ok::<ClientboundView, ReadError>(
            packet,
        ),
{
    let payload = clientbound_encoding(packet);
    let nothing = Seq::<u8>::empty();
    lemma_powers();
    match packet {
        ClientboundView::GameProfile { game_profile } => {
            let f1 = be_bytes(game_profile.uuid as nat, 16);
            let f2 = text_encoding(encode_utf8(game_profile.name));
            let count = game_profile.properties.len();
            let f3 = varint_encoding(count);
            let f4 = properties_encoding(game_profile.properties);
            let r3 = f4 + nothing;
            let r2 = f3 + r3;
            let r1 = f2 + r2;
            assert(payload == f1 + r1);
            lemma_number_round_trip(game_profile.uuid as nat, 16, r1);
            crate::protocol::buffer::lemma_be_round_trip(game_profile.uuid as nat, 16);
            assert(payload.skip(16) == r1);
            lemma_text_round_trip(game_profile.name, MAX_NAME_LEN as nat, r2);
            assert(payload.skip((16 + f2.len()) as int) == r2);
            lemma_varint_round_trip(count as i32, r3);
            assert(payload.skip((16 + f2.len() + f3.len()) as int) == r3);
            lemma_properties_round_trip(game_profile.properties, nothing);
            assert(payload.len() == 16 + f2.len() + f3.len() + f4.len());
        },
        _ => {},
    }
}

proof fn lemma_custom_query_round_trip(packet: ClientboundView)
    requires
        clientbound_fits(packet),
        packet is CustomQuery,
    ensures
        parse_custom_query(clientbound_encoding(packet)) == Ok::<ClientboundView, ReadError>(
            packet,
        ),
{
    let payload = clientbound_encoding(packet);
    match packet {
        ClientboundView::CustomQuery { transaction_id, identifier, data } => {
            let f1 = varint_encoding(unsigned_bits(transaction_id));
            let f2 = text_encoding(encode_utf8(identifier));
            assert(payload == f1 + (f2 + data));
            lemma_varint_round_trip(transaction_id, f2 + data);
            lemma_skip_field(f1, f2 + data);
            lemma_text_round_trip(identifier, MAX_IDENTIFIER_LEN as nat, data);
            assert(payload.skip((f1.len() + f2.len()) as int) == data);
        },
        _ => {},
    }
}

proof fn lemma_reason_round_trip(reason: Seq<char>)
    requires
        text_fits(reason, MAX_REASON_LEN as nat),
    ensures
        parse_login_disconnect(text_encoding(encode_utf8(reason))) == Ok::<
            ClientboundView,
            ReadError,
        >(ClientboundView::LoginDisconnect { reason }),
        parse_disconnect(text_encoding(encode_utf8(reason))) == Ok::<ClientboundView, ReadError>(
            ClientboundView::Disconnect { reason },
        ),
{
    let f1 = text_encoding(encode_utf8(reason));
    let nothing = Seq::<u8>::empty();
    assert(f1 == f1 + nothing);
    lemma_text_round_trip(reason, MAX_REASON_LEN as nat, nothing);
}

proof fn lemma_clientbound_keep_alive_round_trip(id: u64)
    ensures
        parse_clientbound_keep_alive(be_bytes(id as nat, 8)) == Ok::<ClientboundView, ReadError>(
            ClientboundView::KeepAlive { id },
        ),
{
    let nothing = Seq::<u8>::empty();
    lemma_powers();
    let f1 = be_bytes(id as nat, 8);
    assert(f1 == f1 + nothing);
    lemma_number_round_trip(id as nat, 8, nothing);
    crate::protocol::buffer::lemma_be_round_trip(id as nat, 8);
}

/// Every packet that a server sends survives the wire: what a client reads
/// of the payload that is written for a packet that fits, in a phase that
/// has the packet, is the packet.
pub proof fn lemma_clientbound_round_trip(phase: Phase, packet: ClientboundView)
    requires
        clientbound_fits(packet),
        clientbound_id(phase, packet).is_some(),
    ensures
        clientbound_parse(phase, clientbound_id(phase, packet).unwrap(), clientbound_encoding(packet))
            == Ok::<ClientboundView, ReadError>(packet),
{
    match packet {
        ClientboundView::LoginDisconnect { reason } => lemma_reason_round_trip(reason),
        ClientboundView::Disconnect { reason } => lemma_reason_round_trip(reason),
        ClientboundView::Hello { .. } => lemma_clientbound_hello_round_trip(packet),
        ClientboundView::GameProfile { .. } => lemma_game_profile_round_trip(packet),
        ClientboundView::LoginCompression { compression_threshold } => {
            let nothing = Seq::<u8>::empty();
            let f1 = varint_encoding(unsigned_bits(compression_threshold));
            assert(f1 == f1 + nothing);
            lemma_varint_round_trip(compression_threshold, nothing);
        },
        ClientboundView::CustomQuery { .. } => lemma_custom_query_round_trip(packet),
        ClientboundView::FinishConfiguration => {},
        ClientboundView::KeepAlive { id } => lemma_clientbound_keep_alive_round_trip(id),
        ClientboundView::Other { .. } => {},
    }
}

/// The number of a packet from the server among the packets of `phase`.
pub fn clientbound_packet_id(phase: Phase, packet: &ClientboundPacket) -> (id: Option<i32>)
    ensures
        id == clientbound_id(phase, packet@),
{
    match (phase, packet) {
        (Phase::Login, ClientboundPacket::LoginDisconnect { .. }) => Some(0x00),
        (Phase::Login, ClientboundPacket::Hello { .. }) => Some(0x01),
        (Phase::Login, ClientboundPacket::GameProfile { .. }) => Some(0x02),
        (Phase::Login, ClientboundPacket::LoginCompression { .. }) => Some(0x03),
        (Phase::Login, ClientboundPacket::CustomQuery { .. }) => Some(0x04),
        (Phase::Configuration, ClientboundPacket::Disconnect { .. }) => Some(0x01),
        (Phase::Configuration, ClientboundPacket::FinishConfiguration) => Some(0x02),
        (Phase::Configuration, ClientboundPacket::KeepAlive { .. }) => Some(0x03),
        (Phase::Configuration, ClientboundPacket::Other { packet_id, .. }) => {
            if 0 <= *packet_id && *packet_id < CONFIGURATION_PACKETS && *packet_id != 0x01
                && *packet_id != 0x02 && *packet_id != 0x03 {
                Some(*packet_id)
            } else {
                None
            }
        },
        (Phase::Play, ClientboundPacket::Disconnect { .. }) => Some(0x1b),
        (Phase::Play, ClientboundPacket::KeepAlive { .. }) => Some(0x24),
        (Phase::Play, ClientboundPacket::Other { packet_id, .. }) => {
            if 0 <= *packet_id && *packet_id < PLAY_PACKETS && *packet_id != 0x1b && *packet_id
                != 0x24 {
                Some(*packet_id)
            } else {
                None
            }
        },
        _ => None,
    }
}

/// Appends a property of a profile to `out`. A property with a text that
/// is too long is refused; `out` may then hold a part of it.
fn write_property(property: &ProfileProperty, out: &mut Vec<u8>) -> (written: Result<
    (),
    EncodeError,
>)
    ensures
        written.is_ok() == property_fits(property_view(*property)),
        written.is_ok() ==> final(out)@ == old(out)@ + property_encoding(property_view(*property)),
        written.is_err() ==> written == Err::<(), EncodeError>(EncodeError::TooLong),
{
    match fitted(write_text(property.name.as_str(), MAX_IDENTIFIER_LEN, out)) {
        Ok(()) => {},
        Err(e) => {
            return Err(e);
        },
    }
    match fitted(write_text(property.value.as_str(), MAX_IDENTIFIER_LEN, out)) {
        Ok(()) => {},
        Err(e) => {
            return Err(e);
        },
    }
    match &property.signature {
        Some(signature) => {
            write_bool(true, out);
            match fitted(write_text(signature.as_str(), MAX_IDENTIFIER_LEN, out)) {
                Ok(()) => {},
                Err(e) => {
                    return Err(e);
                },
            }
        },
        None => {
            write_bool(false, out);
        },
    }
    proof {
        assert(out@ == old(out)@ + property_encoding(property_view(*property)));
    }
    Ok(())
}

/// Writes the payload of the packet that accepts a player.
fn encode_game_profile(game_profile: &GameProfile) -> (encoded: Result<Vec<u8>, EncodeError>)
    ensures
        encoded.is_ok() == clientbound_fits(
            ClientboundView::GameProfile { game_profile: profile_view(*game_profile) },
        ),
        encoded.is_ok() ==> encoded.unwrap()@ == clientbound_encoding(
            ClientboundView::GameProfile { game_profile: profile_view(*game_profile) },
        ),
        encoded.is_err() ==> encoded == Err::<Vec<u8>, EncodeError>(EncodeError::TooLong),
{
    let mut out: Vec<u8> = Vec::new();
    let ghost views = properties_view(game_profile.properties@);
    write_number(game_profile.uuid, 16, &mut out);
    match fitted(write_text(game_profile.name.as_str(), MAX_NAME_LEN, &mut out)) {
        Ok(()) => {},
        Err(e) => {
            return Err(e);
        },
    }
    if game_profile.properties.len() > MAX_PROPERTIES as usize {
        return Err(EncodeError::TooLong);
    }
    write_varint(game_profile.properties.len() as i32, &mut out);
    let ghost head = out@;
    let mut k: usize = 0;
    proof {
        assert(views.take(0) =~= Seq::<PropertyView>::empty());
    }
    while k < game_profile.properties.len()
        invariant
            k <= game_profile.properties@.len(),
            views == properties_view(game_profile.properties@),
            out@ == head + properties_encoding(views.take(k as int)),
            forall|i: int| 0 <= i < k ==> property_fits(#[trigger] views[i]),
        decreases game_profile.properties@.len() - k,
    {
        proof {
            assert(views.take(k + 1).drop_last() == views.take(k as int));
            assert(views.take(k + 1).last() == views[k as int]);
        }
        match write_property(&game_profile.properties[k], &mut out) {
            Ok(()) => {},
            Err(e) => {
                return Err(e);
            },
        }
        k += 1;
    }
    proof {
        assert(views.take(k as int) == views);
    }
    Ok(out)
}

/// Writes the payload of a packet from the server. A packet with a field
/// that is longer than its place allows is refused.
pub fn encode_clientbound(packet: &ClientboundPacket) -> (encoded: Result<Vec<u8>, EncodeError>)
    ensures
        encoded.is_ok() == clientbound_fits(packet@),
        encoded.is_ok() ==> encoded.unwrap()@ == clientbound_encoding(packet@),
        encoded.is_err() ==> encoded == Err::<Vec<u8>, EncodeError>(EncodeError::TooLong),
{
    let mut out: Vec<u8> = Vec::new();
    match packet {
        ClientboundPacket::LoginDisconnect { reason } => {
            match fitted(write_text(reason.as_str(), MAX_REASON_LEN, &mut out)) {
                Ok(()) => Ok(out),
                Err(e) => Err(e),
            }
        },
        ClientboundPacket::Disconnect { reason } => {
            match fitted(write_text(reason.as_str(), MAX_REASON_LEN, &mut out)) {
                Ok(()) => Ok(out),
                Err(e) => Err(e),
            }
        },
        ClientboundPacket::Hello { server_id, public_key, nonce } => {
            match fitted(write_text(server_id.as_str(), MAX_SERVER_ID_LEN, &mut out)) {
                Ok(()) => {},
                Err(e) => {
                    return Err(e);
                },
            }
            match encode_key(public_key, nonce) {
                Ok(arrays) => {
                    append_bytes(&mut out, arrays.as_slice());
                    proof {
                        assert(out@ == clientbound_encoding(packet@));
                    }
                    Ok(out)
                },
                Err(e) => Err(e),
            }
        },
        ClientboundPacket::GameProfile { game_profile } => encode_game_profile(game_profile),
        ClientboundPacket::LoginCompression { compression_threshold } => {
            write_varint(*compression_threshold, &mut out);
            Ok(out)
        },
        ClientboundPacket::CustomQuery { transaction_id, identifier, data } => {
            write_varint(*transaction_id, &mut out);
            match fitted(write_text(identifier.as_str(), MAX_IDENTIFIER_LEN, &mut out)) {
                Ok(()) => {},
                Err(e) => {
                    return Err(e);
                },
            }
            if data.len() as u64 > MAX_ARRAY_LEN as u64 {
                return Err(EncodeError::TooLong);
            }
            append_bytes(&mut out, data.as_slice());
            Ok(out)
        },
        ClientboundPacket::FinishConfiguration => Ok(out),
        ClientboundPacket::KeepAlive { id } => {
            write_number(*id as u128, 8, &mut out);
            Ok(out)
        },
        ClientboundPacket::Other { payload, .. } => {
            append_bytes(&mut out, payload.as_slice());
            Ok(out)
        },
    }
}

} // verus!
