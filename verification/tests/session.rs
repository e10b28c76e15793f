use azalea::protocol::varint::ReadError;
use azalea::session::{
    brand_data, EncryptedSecret, EncryptionRequest, GameProfile, JoinError,
    LoginStage, Phase, Session, SessionAction, SessionEvent, SessionServerError,
    PROTOCOL_VERSION,
};

fn request() -> EncryptionRequest {
    EncryptionRequest { server_id: "".to_string(), public_key: vec![1, 2, 3], nonce: vec![4, 5, 6, 7] }
}

fn secret() -> EncryptedSecret {
    EncryptedSecret { secret_key: [9; 16], encrypted_public_key: vec![8; 128], encrypted_nonce: vec![7; 128] }
}

fn profile() -> GameProfile {
    GameProfile {
        uuid: 0x1234_5678_9abc_def0_1234_5678_9abc_def0,
        name: "bot".to_string(),
        properties: vec![],
    }
}

fn in_login(online: bool) -> Session {
    let mut session = Session::new(online);
    assert_eq!(
        session.handle(SessionEvent::Connected),
        vec![
            SessionAction::SendIntention,
            SessionAction::SwitchPhase(Phase::Login),
            SessionAction::SendHello
        ]
    );
    assert_eq!(session.phase, Phase::Login);
    session
}

fn awaiting_session_server() -> Session {
    let mut session = in_login(true);
    assert_eq!(session.handle(SessionEvent::Hello(request())), vec![SessionAction::EncryptSecret]);
    assert_eq!(
        session.handle(SessionEvent::SecretEncrypted(secret())),
        vec![SessionAction::Authenticate]
    );
    assert_eq!(session.stage, LoginStage::AwaitingSessionServer);
    assert_eq!(session.attempts, 1);
    session
}

#[test]
fn offline_join_on_a_mock_server() {
    let mut session = in_login(false);
    assert_eq!(
        session.handle(SessionEvent::LoginCompression { threshold: 256 }),
        vec![SessionAction::SetCompression(256)]
    );
    assert_eq!(session.compression, Some(256));
    assert_eq!(
        session.handle(SessionEvent::LoginFinished(profile())),
        vec![
            SessionAction::SendLoginAcknowledged,
            SessionAction::SwitchPhase(Phase::Configuration),
            SessionAction::SendBrand
        ]
    );
    assert_eq!(session.phase, Phase::Configuration);
    assert_eq!(
        session.handle(SessionEvent::FinishConfiguration),
        vec![
            SessionAction::AcknowledgeConfiguration,
            SessionAction::SwitchPhase(Phase::Play),
            SessionAction::EmitLogin
        ]
    );
    assert_eq!(session.phase, Phase::Play);
    // the login that the user is told of carries the profile
    let told = session.profile.as_ref().unwrap();
    assert_eq!(told.name, "bot");
    assert_eq!(told.uuid, 0x1234_5678_9abc_def0_1234_5678_9abc_def0);
    assert_eq!(session.compression, Some(256));
    assert!(!session.encrypted);
}

#[test]
fn offline_login_with_encryption_asks_no_session_server() {
    let mut session = in_login(false);
    assert_eq!(session.handle(SessionEvent::Hello(request())), vec![SessionAction::EncryptSecret]);
    assert_eq!(session.stage, LoginStage::AwaitingSecret);
    assert_eq!(
        session.handle(SessionEvent::SecretEncrypted(secret())),
        vec![SessionAction::SendKey, SessionAction::EnableEncryption]
    );
    assert!(session.encrypted);
    assert_eq!(session.stage, LoginStage::AwaitingPacket);
    assert_eq!(session.secret.as_ref().unwrap().secret_key, [9; 16]);
    assert_eq!(session.request.as_ref().unwrap().nonce, vec![4, 5, 6, 7]);
}

#[test]
fn online_login_without_trouble() {
    let mut session = awaiting_session_server();
    assert_eq!(
        session.handle(SessionEvent::Authenticated),
        vec![SessionAction::SendKey, SessionAction::EnableEncryption]
    );
    assert!(session.encrypted);
    assert_eq!(session.phase, Phase::Login);
}

#[test]
fn reauth_on_invalid_session() {
    let mut session = awaiting_session_server();
    let mut refreshes = 0;
    let mut actions =
        session.handle(SessionEvent::AuthenticationFailed(SessionServerError::InvalidSession));
    assert_eq!(actions, vec![SessionAction::RefreshToken]);
    refreshes += actions.iter().filter(|a| **a == SessionAction::RefreshToken).count();
    actions = session.handle(SessionEvent::TokenRefreshed);
    assert_eq!(actions, vec![SessionAction::Authenticate]);
    assert_eq!(session.attempts, 2);
    refreshes += actions.iter().filter(|a| **a == SessionAction::RefreshToken).count();
    actions = session.handle(SessionEvent::Authenticated);
    assert_eq!(actions, vec![SessionAction::SendKey, SessionAction::EnableEncryption]);
    refreshes += actions.iter().filter(|a| **a == SessionAction::RefreshToken).count();
    actions = session.handle(SessionEvent::LoginFinished(profile()));
    refreshes += actions.iter().filter(|a| **a == SessionAction::RefreshToken).count();
    // the login completes, and the token was refreshed exactly once
    assert_eq!(session.phase, Phase::Configuration);
    assert_eq!(refreshes, 1);
}

#[test]
fn reauth_on_forbidden_operation() {
    let mut session = awaiting_session_server();
    assert_eq!(
        session.handle(SessionEvent::AuthenticationFailed(SessionServerError::ForbiddenOperation)),
        vec![SessionAction::RefreshToken]
    );
    assert_eq!(session.stage, LoginStage::AwaitingToken);
}

#[test]
fn second_refusal_is_fatal() {
    let mut session = awaiting_session_server();
    session.handle(SessionEvent::AuthenticationFailed(SessionServerError::InvalidSession));
    session.handle(SessionEvent::TokenRefreshed);
    assert_eq!(
        session.handle(SessionEvent::AuthenticationFailed(SessionServerError::InvalidSession)),
        vec![
            SessionAction::Fail(JoinError::SessionServer(SessionServerError::InvalidSession)),
            SessionAction::Close
        ]
    );
    assert_eq!(session.phase, Phase::Closed);
}

#[test]
fn other_refusals_are_fatal_at_once() {
    for error in [SessionServerError::Banned, SessionServerError::MultiplayerDisabled, SessionServerError::Unknown] {
        let mut session = awaiting_session_server();
        assert_eq!(
            session.handle(SessionEvent::AuthenticationFailed(error)),
            vec![SessionAction::Fail(JoinError::SessionServer(error)), SessionAction::Close]
        );
        assert_eq!(session.phase, Phase::Closed);
    }
}

#[test]
fn failed_refresh_is_fatal() {
    let mut session = awaiting_session_server();
    session.handle(SessionEvent::AuthenticationFailed(SessionServerError::InvalidSession));
    assert_eq!(
        session.handle(SessionEvent::TokenRefreshFailed),
        vec![SessionAction::Fail(JoinError::Auth), SessionAction::Close]
    );
    assert_eq!(session.phase, Phase::Closed);
}

#[test]
fn login_disconnect_keeps_the_reason() {
    let mut session = in_login(false);
    assert_eq!(
        session.handle(SessionEvent::LoginDisconnect { reason: "banned".to_string() }),
        vec![SessionAction::Fail(JoinError::Disconnect), SessionAction::Close]
    );
    assert_eq!(session.phase, Phase::Closed);
    assert_eq!(session.disconnect_reason.as_deref(), Some("banned"));
}

#[test]
fn custom_query_is_answered() {
    let mut session = in_login(false);
    assert_eq!(
        session.handle(SessionEvent::CustomQuery { transaction_id: 77 }),
        vec![SessionAction::AnswerCustomQuery(77)]
    );
    assert_eq!(session.phase, Phase::Login);
}

#[test]
fn compression_threshold_is_set_once() {
    let mut session = in_login(false);
    assert_eq!(session.handle(SessionEvent::LoginCompression { threshold: -1 }), vec![]);
    assert_eq!(session.compression, None);
    assert_eq!(
        session.handle(SessionEvent::LoginCompression { threshold: 0 }),
        vec![SessionAction::SetCompression(0)]
    );
    assert_eq!(session.handle(SessionEvent::LoginCompression { threshold: -1 }), vec![]);
    assert_eq!(session.compression, Some(0));
    assert_eq!(
        session.handle(SessionEvent::LoginCompression { threshold: 64 }),
        vec![
            SessionAction::Fail(JoinError::ReadPacket(ReadError::MalformedPacket)),
            SessionAction::Close
        ]
    );
    assert_eq!(session.compression, Some(0));
    assert_eq!(session.phase, Phase::Closed);
}

#[test]
fn keep_alive_is_echoed() {
    let mut session = in_login(false);
    session.handle(SessionEvent::LoginFinished(profile()));
    assert_eq!(session.handle(SessionEvent::KeepAlive { id: 5 }), vec![SessionAction::SendKeepAlive(5)]);
    session.handle(SessionEvent::FinishConfiguration);
    assert_eq!(
        session.handle(SessionEvent::KeepAlive { id: u64::MAX }),
        vec![SessionAction::SendKeepAlive(u64::MAX)]
    );
    assert_eq!(session.phase, Phase::Play);
}

#[test]
fn clean_disconnect() {
    let mut session = in_login(false);
    session.handle(SessionEvent::LoginFinished(profile()));
    session.handle(SessionEvent::FinishConfiguration);
    let mut emitted = 0;
    let actions = session.handle(SessionEvent::Disconnect { reason: "bye".to_string() });
    assert_eq!(actions, vec![SessionAction::EmitDisconnect, SessionAction::Close]);
    emitted += actions.iter().filter(|a| **a == SessionAction::EmitDisconnect).count();
    assert_eq!(session.phase, Phase::Closed);
    assert_eq!(session.disconnect_reason.as_deref(), Some("bye"));
    // whatever comes after it, the stream stays closed
    for event in [
        SessionEvent::ConnectionDead,
        SessionEvent::KeepAlive { id: 1 },
        SessionEvent::Disconnect { reason: "again".to_string() },
        SessionEvent::DisconnectRequested,
        SessionEvent::Connected,
    ] {
        let actions = session.handle(event);
        emitted += actions.iter().filter(|a| **a == SessionAction::EmitDisconnect).count();
        assert_eq!(actions, vec![]);
    }
    assert_eq!(emitted, 1);
    assert_eq!(session.disconnect_reason.as_deref(), Some("bye"));
}

#[test]
fn dead_connection_closes_every_phase() {
    let mut fresh = Session::new(false);
    assert_eq!(
        fresh.handle(SessionEvent::ConnectionDead),
        vec![SessionAction::EmitDisconnect, SessionAction::Close]
    );
    assert_eq!(fresh.phase, Phase::Closed);
    let mut session = awaiting_session_server();
    assert_eq!(
        session.handle(SessionEvent::DisconnectRequested),
        vec![SessionAction::EmitDisconnect, SessionAction::Close]
    );
    assert_eq!(session.phase, Phase::Closed);
    assert_eq!(session.stage, LoginStage::AwaitingPacket);
    assert_eq!(session.disconnect_reason, None);
}

#[test]
fn packet_of_the_wrong_phase_aborts() {
    let abort = vec![
        SessionAction::Fail(JoinError::ReadPacket(ReadError::UnknownPacketId)),
        SessionAction::Close,
    ];
    let mut session = Session::new(false);
    assert_eq!(session.handle(SessionEvent::LoginCompression { threshold: 1 }), abort);
    assert_eq!(session.phase, Phase::Closed);

    let mut session = in_login(false);
    assert_eq!(session.handle(SessionEvent::FinishConfiguration), abort);

    let mut session = in_login(false);
    assert_eq!(session.handle(SessionEvent::KeepAlive { id: 1 }), abort);

    let mut session = in_login(false);
    assert_eq!(session.handle(SessionEvent::Connected), abort);

    let mut session = in_login(false);
    assert_eq!(session.handle(SessionEvent::Authenticated), abort);

    let mut session = in_login(false);
    session.handle(SessionEvent::Hello(request()));
    assert_eq!(session.handle(SessionEvent::LoginFinished(profile())), abort);

    let mut session = in_login(false);
    session.handle(SessionEvent::LoginFinished(profile()));
    assert_eq!(session.handle(SessionEvent::Hello(request())), abort);
    assert_eq!(session.phase, Phase::Closed);
}

#[test]
fn brand_is_the_text_vanilla() {
    assert_eq!(brand_data(), vec![7, b'v', b'a', b'n', b'i', b'l', b'l', b'a']);
    assert_eq!(PROTOCOL_VERSION, 764);
}

#[test]
fn session_soundness_can_be_tested() {
    let mut session = awaiting_session_server();
    assert!(session.is_wf());
    session.handle(SessionEvent::AuthenticationFailed(SessionServerError::InvalidSession));
    assert!(session.is_wf());
    session.attempts = 2;
    assert!(!session.is_wf());
    session.attempts = 1;
    session.secret = None;
    assert!(!session.is_wf());
    assert!(Session::new(true).is_wf());
    let mut odd = Session::new(false);
    odd.stage = LoginStage::AwaitingSecret;
    assert!(!odd.is_wf());
}
