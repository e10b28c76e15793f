use azalea::account::Account;
use azalea::address::ServerAddress;
use azalea::client::{ChatVisibility, ClientInformation};
use azalea::driver::{event_of, packet_for, Driver};
use azalea::protocol::buffer::{
    read_bool, read_byte_array, read_number, write_bool, write_byte_array, write_number,
};
use azalea::protocol::connection::Connection;
use azalea::protocol::frame::WriteError;
use azalea::protocol::packets::{
    clientbound_packet_id, decode_clientbound, encode_clientbound, encode_serverbound,
    serverbound_packet_id, ClientboundPacket, EncodeError, Intention, ServerboundPacket,
};
use azalea::protocol::varint::ReadError;
use azalea::session::{
    EncryptedSecret, GameProfile, Phase, ProfileProperty, Session, SessionAction, SessionEvent,
};

fn profile() -> GameProfile {
    GameProfile {
        uuid: 0x0011_2233_4455_6677_8899_aabb_ccdd_eeff,
        name: "bot".to_string(),
        properties: vec![
            ProfileProperty {
                name: "textures".to_string(),
                value: "abc".to_string(),
                signature: Some("sig".to_string()),
            },
            ProfileProperty { name: "n".to_string(), value: "".to_string(), signature: None },
        ],
    }
}

fn information() -> ClientInformation {
    ClientInformation {
        language: "en_us".to_string(),
        view_distance: 8,
        chat_visibility: ChatVisibility::System,
        chat_colors: true,
        model_customization: 0x7f,
        right_handed: true,
        text_filtering_enabled: false,
        allows_listing: true,
    }
}

#[test]
fn fields_on_the_wire() {
    let mut out = vec![0xaa];
    write_number(0x0102, 2, &mut out);
    write_number(0x01, 1, &mut out);
    write_number(0xffff_ffff_ffff_ffff_ffff_ffff_ffff_ffff, 16, &mut out);
    write_number(5, 0, &mut out);
    write_bool(true, &mut out);
    write_bool(false, &mut out);
    assert_eq!(write_byte_array(&[7, 8], 2, &mut out), Ok(()));
    assert_eq!(write_byte_array(&[7, 8, 9], 2, &mut out), Err(WriteError::TextTooLong));
    let mut expected = vec![0xaa, 0x01, 0x02, 0x01];
    expected.extend_from_slice(&[0xff; 16]);
    expected.extend_from_slice(&[1, 0, 2, 7, 8]);
    assert_eq!(out, expected);
    assert_eq!(read_number(&out, 1, 2), Ok(0x0102));
    assert_eq!(read_number(&out, 3, 1), Ok(1));
    assert_eq!(read_number(&out, 4, 16), Ok(u128::MAX));
    assert_eq!(read_number(&out, 20, 0), Ok(0));
    assert_eq!(read_number(&out, 20, 8), Err(ReadError::Eof));
    assert_eq!(read_bool(&out, 20), Ok(true));
    assert_eq!(read_bool(&out, 21), Ok(false));
    assert_eq!(read_bool(&[9], 0), Ok(true));
    assert_eq!(read_bool(&out, out.len()), Err(ReadError::Eof));
    assert_eq!(read_byte_array(&out, 22, 2), Ok((vec![7, 8], 3)));
    assert_eq!(read_byte_array(&out, 22, 1), Err(ReadError::MalformedPacket));
    assert_eq!(read_byte_array(&[3, 1, 2], 0, 5), Err(ReadError::Eof));
    assert_eq!(read_byte_array(&[0xff, 0xff, 0xff, 0xff, 0x0f], 0, 5), Err(ReadError::MalformedPacket));
}

#[test]
fn serverbound_layouts() {
    let intention = ServerboundPacket::ClientIntention {
        protocol_version: 764,
        hostname: "localhost".to_string(),
        port: 25565,
        intention: Intention::Login,
    };
    let mut expected = vec![0xfc, 0x05, 9];
    expected.extend_from_slice(b"localhost");
    expected.extend_from_slice(&[0x63, 0xdd, 0x02]);
    assert_eq!(encode_serverbound(&intention), Ok(expected));

    let hello = ServerboundPacket::Hello { name: "bot".to_string(), profile_id: 0x0102 };
    let mut expected = vec![3, b'b', b'o', b't'];
    expected.extend_from_slice(&[0; 14]);
    expected.extend_from_slice(&[1, 2]);
    assert_eq!(encode_serverbound(&hello), Ok(expected));

    let key = ServerboundPacket::Key { key_bytes: vec![1, 2, 3], encrypted_challenge: vec![4] };
    assert_eq!(encode_serverbound(&key), Ok(vec![3, 1, 2, 3, 1, 4]));

    let unanswered = ServerboundPacket::CustomQueryAnswer { transaction_id: 5, data: None };
    assert_eq!(encode_serverbound(&unanswered), Ok(vec![5, 0]));
    let answered = ServerboundPacket::CustomQueryAnswer { transaction_id: 300, data: Some(vec![9, 9]) };
    assert_eq!(encode_serverbound(&answered), Ok(vec![0xac, 0x02, 1, 9, 9]));

    assert_eq!(encode_serverbound(&ServerboundPacket::LoginAcknowledged), Ok(vec![]));
    assert_eq!(encode_serverbound(&ServerboundPacket::FinishConfiguration), Ok(vec![]));
    assert_eq!(
        encode_serverbound(&ServerboundPacket::KeepAlive { id: 0x0102_0304_0506_0708 }),
        Ok(vec![1, 2, 3, 4, 5, 6, 7, 8])
    );
    let brand = ServerboundPacket::CustomPayload {
        identifier: "minecraft:brand".to_string(),
        data: vec![7, b'v', b'a', b'n', b'i', b'l', b'l', b'a'],
    };
    let mut expected = vec![15];
    expected.extend_from_slice(b"minecraft:brand");
    expected.extend_from_slice(&[7, b'v', b'a', b'n', b'i', b'l', b'l', b'a']);
    assert_eq!(encode_serverbound(&brand), Ok(expected));

    let mut expected = vec![5];
    expected.extend_from_slice(b"en_us");
    expected.extend_from_slice(&[8, 1, 1, 0x7f, 1, 0, 1]);
    assert_eq!(encode_serverbound(&ServerboundPacket::ClientInformation(information())), Ok(expected));
}

#[test]
fn serverbound_numbers_by_phase() {
    let hello = ServerboundPacket::Hello { name: "bot".to_string(), profile_id: 1 };
    assert_eq!(serverbound_packet_id(Phase::Login, &hello), Some(0));
    assert_eq!(serverbound_packet_id(Phase::Play, &hello), None);
    assert_eq!(serverbound_packet_id(Phase::Handshake, &hello), None);
    let keep_alive = ServerboundPacket::KeepAlive { id: 1 };
    assert_eq!(serverbound_packet_id(Phase::Configuration, &keep_alive), Some(3));
    assert_eq!(serverbound_packet_id(Phase::Play, &keep_alive), Some(0x14));
    assert_eq!(serverbound_packet_id(Phase::Login, &keep_alive), None);
    assert_eq!(serverbound_packet_id(Phase::Closed, &keep_alive), None);
    let information = ServerboundPacket::ClientInformation(information());
    assert_eq!(serverbound_packet_id(Phase::Configuration, &information), Some(0));
    assert_eq!(serverbound_packet_id(Phase::Play, &information), Some(9));
    assert_eq!(serverbound_packet_id(Phase::Login, &ServerboundPacket::LoginAcknowledged), Some(3));
    assert_eq!(serverbound_packet_id(Phase::Configuration, &ServerboundPacket::FinishConfiguration), Some(2));
}

#[test]
fn serverbound_fields_that_do_not_fit() {
    let long_name = ServerboundPacket::Hello { name: "seventeen letters".to_string(), profile_id: 1 };
    assert_eq!(encode_serverbound(&long_name), Err(EncodeError::TooLong));
    let long_host = ServerboundPacket::ClientIntention {
        protocol_version: 764,
        hostname: "h".repeat(256),
        port: 1,
        intention: Intention::Status,
    };
    assert_eq!(encode_serverbound(&long_host), Err(EncodeError::TooLong));
    let long_key = ServerboundPacket::Key { key_bytes: vec![0; 1048577], encrypted_challenge: vec![] };
    assert_eq!(encode_serverbound(&long_key), Err(EncodeError::TooLong));
    let fits = ServerboundPacket::Key { key_bytes: vec![0; 1048576], encrypted_challenge: vec![] };
    assert_eq!(encode_serverbound(&fits).map(|bytes| bytes.len()), Ok(1048576 + 3 + 1));
}

#[test]
fn clientbound_packets_survive_the_wire() {
    let packets = vec![
        (Phase::Login, ClientboundPacket::LoginDisconnect { reason: "{\"text\":\"no\"}".to_string() }),
        (
            Phase::Login,
            ClientboundPacket::Hello {
                server_id: "".to_string(),
                public_key: vec![0x30, 0x81, 0x9f],
                nonce: vec![1, 2, 3, 4],
            },
        ),
        (Phase::Login, ClientboundPacket::GameProfile { game_profile: profile() }),
        (Phase::Login, ClientboundPacket::LoginCompression { compression_threshold: 256 }),
        (Phase::Login, ClientboundPacket::LoginCompression { compression_threshold: -1 }),
        (
            Phase::Login,
            ClientboundPacket::CustomQuery {
                transaction_id: 7,
                identifier: "mod:hello".to_string(),
                data: vec![5, 6],
            },
        ),
        (Phase::Configuration, ClientboundPacket::Disconnect { reason: "bye".to_string() }),
        (Phase::Configuration, ClientboundPacket::FinishConfiguration),
        (Phase::Configuration, ClientboundPacket::KeepAlive { id: u64::MAX }),
        (Phase::Configuration, ClientboundPacket::Other { packet_id: 5, payload: vec![1, 2, 3] }),
        (Phase::Play, ClientboundPacket::Disconnect { reason: "bye".to_string() }),
        (Phase::Play, ClientboundPacket::KeepAlive { id: 12345 }),
        (Phase::Play, ClientboundPacket::Other { packet_id: 0x29, payload: vec![] }),
    ];
    for (phase, packet) in packets {
        let id = clientbound_packet_id(phase, &packet).unwrap();
        let payload = encode_clientbound(&packet).unwrap();
        assert_eq!(decode_clientbound(phase, id, &payload), Ok(packet));
    }
}

#[test]
fn clientbound_layouts() {
    assert_eq!(
        decode_clientbound(Phase::Login, 0x03, &[0x80, 0x02]),
        Ok(ClientboundPacket::LoginCompression { compression_threshold: 256 })
    );
    assert_eq!(
        decode_clientbound(Phase::Login, 0x01, &[1, b's', 2, 0xaa, 0xbb, 1, 0xcc]),
        Ok(ClientboundPacket::Hello {
            server_id: "s".to_string(),
            public_key: vec![0xaa, 0xbb],
            nonce: vec![0xcc]
        })
    );
    let mut payload = vec![0; 15];
    payload.extend_from_slice(&[9, 3, b'b', b'o', b't', 1, 1, b'k', 1, b'v', 0]);
    assert_eq!(
        decode_clientbound(Phase::Login, 0x02, &payload),
        Ok(ClientboundPacket::GameProfile {
            game_profile: GameProfile {
                uuid: 9,
                name: "bot".to_string(),
                properties: vec![ProfileProperty {
                    name: "k".to_string(),
                    value: "v".to_string(),
                    signature: None
                }],
            }
        })
    );
    assert_eq!(
        decode_clientbound(Phase::Play, 0x24, &[0, 0, 0, 0, 0, 0, 1, 2]),
        Ok(ClientboundPacket::KeepAlive { id: 258 })
    );
    assert_eq!(
        decode_clientbound(Phase::Play, 0x1b, &[2, b'h', b'i']),
        Ok(ClientboundPacket::Disconnect { reason: "hi".to_string() })
    );
    assert_eq!(
        decode_clientbound(Phase::Configuration, 0x02, &[]),
        Ok(ClientboundPacket::FinishConfiguration)
    );
}

#[test]
fn clientbound_numbers_that_the_phase_does_not_know() {
    assert_eq!(decode_clientbound(Phase::Login, 5, &[]), Err(ReadError::UnknownPacketId));
    assert_eq!(decode_clientbound(Phase::Login, -1, &[]), Err(ReadError::UnknownPacketId));
    assert_eq!(decode_clientbound(Phase::Handshake, 0, &[]), Err(ReadError::UnknownPacketId));
    assert_eq!(decode_clientbound(Phase::Closed, 0, &[]), Err(ReadError::UnknownPacketId));
    assert_eq!(decode_clientbound(Phase::Configuration, 9, &[]), Err(ReadError::UnknownPacketId));
    assert_eq!(decode_clientbound(Phase::Play, 111, &[]), Err(ReadError::UnknownPacketId));
    assert_eq!(
        decode_clientbound(Phase::Play, 110, &[4]),
        Ok(ClientboundPacket::Other { packet_id: 110, payload: vec![4] })
    );
    assert_eq!(
        clientbound_packet_id(Phase::Play, &ClientboundPacket::Other { packet_id: 0x24, payload: vec![] }),
        None
    );
    assert_eq!(clientbound_packet_id(Phase::Play, &ClientboundPacket::FinishConfiguration), None);
}

#[test]
fn clientbound_payloads_that_are_at_fault() {
    // bytes behind the end of the packet
    assert_eq!(decode_clientbound(Phase::Login, 0x03, &[1, 0]), Err(ReadError::MalformedPacket));
    assert_eq!(decode_clientbound(Phase::Configuration, 0x02, &[0]), Err(ReadError::MalformedPacket));
    assert_eq!(
        decode_clientbound(Phase::Play, 0x24, &[0, 0, 0, 0, 0, 0, 0, 1, 0]),
        Err(ReadError::MalformedPacket)
    );
    // a packet that ends early
    assert_eq!(decode_clientbound(Phase::Play, 0x24, &[0, 0, 0]), Err(ReadError::Eof));
    assert_eq!(decode_clientbound(Phase::Login, 0x01, &[1, b's', 2, 0xaa]), Err(ReadError::Eof));
    assert_eq!(decode_clientbound(Phase::Login, 0x03, &[]), Err(ReadError::Eof));
    // a server id of 21 characters
    let mut long_id = vec![21];
    long_id.extend_from_slice(&[b'x'; 21]);
    long_id.extend_from_slice(&[0, 0]);
    assert_eq!(decode_clientbound(Phase::Login, 0x01, &long_id), Err(ReadError::MalformedPacket));
    // more properties than a profile may have
    let mut payload = vec![0; 16];
    payload.extend_from_slice(&[1, b'b', 17]);
    assert_eq!(decode_clientbound(Phase::Login, 0x02, &payload), Err(ReadError::MalformedPacket));
    // fewer properties than announced
    let mut payload = vec![0; 16];
    payload.extend_from_slice(&[1, b'b', 2, 1, b'k', 1, b'v', 0]);
    assert_eq!(decode_clientbound(Phase::Login, 0x02, &payload), Err(ReadError::Eof));
    assert_eq!(
        decode_clientbound(Phase::Login, 0x00, &[2, 0xc3, 0x28]),
        Err(ReadError::MalformedPacket)
    );
    assert_eq!(
        decode_clientbound(Phase::Login, 0x03, &[0x80, 0x80, 0x80, 0x80, 0x80, 0x00]),
        Err(ReadError::BadVarInt)
    );
}

#[test]
fn packets_become_events() {
    assert_eq!(
        event_of(ClientboundPacket::LoginCompression { compression_threshold: 64 }),
        Some(SessionEvent::LoginCompression { threshold: 64 })
    );
    assert_eq!(
        event_of(ClientboundPacket::GameProfile { game_profile: profile() }),
        Some(SessionEvent::LoginFinished(profile()))
    );
    assert_eq!(
        event_of(ClientboundPacket::CustomQuery {
            transaction_id: -3,
            identifier: "x".to_string(),
            data: vec![]
        }),
        Some(SessionEvent::CustomQuery { transaction_id: -3 })
    );
    assert_eq!(event_of(ClientboundPacket::KeepAlive { id: 4 }), Some(SessionEvent::KeepAlive { id: 4 }));
    assert_eq!(
        event_of(ClientboundPacket::Disconnect { reason: "r".to_string() }),
        Some(SessionEvent::Disconnect { reason: "r".to_string() })
    );
    assert_eq!(
        event_of(ClientboundPacket::LoginDisconnect { reason: "r".to_string() }),
        Some(SessionEvent::LoginDisconnect { reason: "r".to_string() })
    );
    assert_eq!(event_of(ClientboundPacket::FinishConfiguration), Some(SessionEvent::FinishConfiguration));
    assert_eq!(event_of(ClientboundPacket::Other { packet_id: 1, payload: vec![] }), None);
}

#[test]
fn actions_become_packets() {
    let mut session = Session::new(false);
    let account = Account::offline("bot");
    let address = ServerAddress { host: "example.com".to_string(), port: 25566 };
    assert_eq!(
        packet_for(SessionAction::SendIntention, &session, &account, &address),
        Some(ServerboundPacket::ClientIntention {
            protocol_version: 764,
            hostname: "example.com".to_string(),
            port: 25566,
            intention: Intention::Login
        })
    );
    assert_eq!(
        packet_for(SessionAction::SendHello, &session, &account, &address),
        Some(ServerboundPacket::Hello { name: "bot".to_string(), profile_id: account.uuid.unwrap() })
    );
    // an account that holds no identity says hello as the offline player of
    // its name
    let nameless = Account { username: "jeb_".to_string(), uuid: None, access_token: None };
    assert_eq!(
        packet_for(SessionAction::SendHello, &session, &nameless, &address),
        Some(ServerboundPacket::Hello {
            name: "jeb_".to_string(),
            profile_id: 0xa762f560_4fce_3236_812a_b80efff0b62b
        })
    );
    assert_eq!(packet_for(SessionAction::SendKey, &session, &account, &address), None);
    session.secret = Some(EncryptedSecret {
        secret_key: [1; 16],
        encrypted_public_key: vec![2, 3],
        encrypted_nonce: vec![4],
    });
    assert_eq!(
        packet_for(SessionAction::SendKey, &session, &account, &address),
        Some(ServerboundPacket::Key { key_bytes: vec![2, 3], encrypted_challenge: vec![4] })
    );
    assert_eq!(
        packet_for(SessionAction::AnswerCustomQuery(9), &session, &account, &address),
        Some(ServerboundPacket::CustomQueryAnswer { transaction_id: 9, data: None })
    );
    assert_eq!(
        packet_for(SessionAction::SendBrand, &session, &account, &address),
        Some(ServerboundPacket::CustomPayload {
            identifier: "minecraft:brand".to_string(),
            data: vec![7, b'v', b'a', b'n', b'i', b'l', b'l', b'a']
        })
    );
    assert_eq!(
        packet_for(SessionAction::SendKeepAlive(5), &session, &account, &address),
        Some(ServerboundPacket::KeepAlive { id: 5 })
    );
    assert_eq!(
        packet_for(SessionAction::SendLoginAcknowledged, &session, &account, &address),
        Some(ServerboundPacket::LoginAcknowledged)
    );
    assert_eq!(
        packet_for(SessionAction::AcknowledgeConfiguration, &session, &account, &address),
        Some(ServerboundPacket::FinishConfiguration)
    );
    for action in [
        SessionAction::EncryptSecret,
        SessionAction::Authenticate,
        SessionAction::RefreshToken,
        SessionAction::EnableEncryption,
        SessionAction::SetCompression(1),
        SessionAction::SwitchPhase(Phase::Play),
        SessionAction::EmitLogin,
        SessionAction::EmitDisconnect,
        SessionAction::Close,
    ] {
        assert_eq!(packet_for(action, &session, &account, &address), None);
    }
}

/// A server that speaks in bytes: what it sends arrives at the client as
/// frames, and what the client sends is checked byte by byte.
struct MockServer {
    connection: Connection,
    phase: Phase,
}

impl MockServer {
    fn send(&mut self, packet: ClientboundPacket) -> Vec<u8> {
        let id = clientbound_packet_id(self.phase, &packet).unwrap();
        self.connection.write_packet(id, &encode_clientbound(&packet).unwrap()).unwrap()
    }

    fn expect(&mut self, wire: Vec<u8>, packet: ServerboundPacket) {
        self.connection.receive(wire);
        let id = serverbound_packet_id(self.phase, &packet).unwrap();
        let payload = encode_serverbound(&packet).unwrap();
        assert_eq!(self.connection.read_packet(), Ok(Some((id, payload))));
    }
}

/// Lets the client take in bytes from the server and act on them. Gives the
/// bytes that the client sends, packet by packet, and what it tells the user.
fn client_turn(
    client: &mut Driver,
    account: &Account,
    address: &ServerAddress,
    wire: Vec<u8>,
) -> (Vec<Vec<u8>>, Vec<SessionAction>) {
    let mut sent = Vec::new();
    let mut told = Vec::new();
    client.receive(wire);
    while let Some((id, payload)) = client.read_packet().unwrap() {
        let packet = decode_clientbound(client.connection().phase, id, &payload).unwrap();
        if let Some(event) = event_of(packet) {
            client.handle(event);
            while let Some(action) = client.next_action() {
                if let Some(packet) = packet_for(action, client.session(), account, address) {
                    let id = serverbound_packet_id(client.connection().phase, &packet).unwrap();
                    sent.push(client.write_packet(id, &encode_serverbound(&packet).unwrap()).unwrap());
                } else {
                    told.push(action);
                }
            }
        }
    }
    (sent, told)
}

#[test]
fn offline_join_on_a_mock_server_in_bytes() {
    let account = Account::offline("bot");
    let address = ServerAddress { host: "localhost".to_string(), port: 25565 };
    let mut server = MockServer { connection: Connection::new(), phase: Phase::Handshake };
    let mut client = Driver::new(false);

    // the client opens the connection
    client.handle(SessionEvent::Connected);
    let mut opening = Vec::new();
    while let Some(action) = client.next_action() {
        if let Some(packet) = packet_for(action, client.session(), &account, &address) {
            let id = serverbound_packet_id(client.connection().phase, &packet).unwrap();
            opening.push(client.write_packet(id, &encode_serverbound(&packet).unwrap()).unwrap());
        }
    }
    assert_eq!(opening.len(), 2);
    let mut intention = vec![16, 0x00, 0xfc, 0x05, 9];
    intention.extend_from_slice(b"localhost");
    intention.extend_from_slice(&[0x63, 0xdd, 0x02]);
    assert_eq!(opening[0], intention);
    server.expect(
        opening[0].clone(),
        ServerboundPacket::ClientIntention {
            protocol_version: 764,
            hostname: "localhost".to_string(),
            port: 25565,
            intention: Intention::Login,
        },
    );
    server.phase = Phase::Login;
    server.expect(
        opening[1].clone(),
        ServerboundPacket::Hello { name: "bot".to_string(), profile_id: account.uuid.unwrap() },
    );

    // the server sets the threshold, then accepts the player
    let uuid = 0x0011_2233_4455_6677_8899_aabb_ccdd_eeff;
    let mut wire = server.send(ClientboundPacket::LoginCompression { compression_threshold: 256 });
    assert_eq!(wire, vec![3, 0x03, 0x80, 0x02]);
    server.connection.set_compression(256);
    wire.extend_from_slice(&server.send(ClientboundPacket::GameProfile { game_profile: profile() }));
    let (sent, told) = client_turn(&mut client, &account, &address, wire);
    assert_eq!(
        told,
        vec![SessionAction::SetCompression(256), SessionAction::SwitchPhase(Phase::Configuration)]
    );
    assert_eq!(sent.len(), 2);
    // the acknowledgement already travels in an envelope
    assert_eq!(sent[0], vec![2, 0, 0x03]);
    server.expect(sent[0].clone(), ServerboundPacket::LoginAcknowledged);
    server.phase = Phase::Configuration;
    server.expect(
        sent[1].clone(),
        ServerboundPacket::CustomPayload {
            identifier: "minecraft:brand".to_string(),
            data: vec![7, b'v', b'a', b'n', b'i', b'l', b'l', b'a'],
        },
    );
    assert_eq!(client.session().phase, Phase::Configuration);

    // the configuration ends, and the player is in the game
    let mut wire = server.send(ClientboundPacket::Other { packet_id: 5, payload: vec![0; 400] });
    assert!(wire.len() < 100);
    wire.extend_from_slice(&server.send(ClientboundPacket::KeepAlive { id: 77 }));
    wire.extend_from_slice(&server.send(ClientboundPacket::FinishConfiguration));
    let (sent, told) = client_turn(&mut client, &account, &address, wire);
    assert_eq!(told, vec![SessionAction::SwitchPhase(Phase::Play), SessionAction::EmitLogin]);
    server.expect(sent[0].clone(), ServerboundPacket::KeepAlive { id: 77 });
    server.expect(sent[1].clone(), ServerboundPacket::FinishConfiguration);
    server.phase = Phase::Play;
    assert_eq!(client.session().phase, Phase::Play);
    assert_eq!(client.connection().phase, Phase::Play);
    // the login that the user is told of carries the profile
    let told = client.session().profile.as_ref().unwrap();
    assert_eq!((told.name.as_str(), told.uuid), ("bot", uuid));
    assert_eq!(told, &profile());

    // the server ends the connection
    let wire = server.send(ClientboundPacket::Disconnect { reason: "bye".to_string() });
    let (sent, told) = client_turn(&mut client, &account, &address, wire);
    assert!(sent.is_empty());
    assert_eq!(told, vec![SessionAction::EmitDisconnect, SessionAction::Close]);
    assert_eq!(client.session().disconnect_reason.as_deref(), Some("bye"));
    assert_eq!(client.connection().phase, Phase::Closed);
}
