//! The life of a connection, from the first packet to the last: a machine
//! that is told what happened and answers with what to do next. It never
//! touches the network itself.

use crate::protocol::text::{append_text, text_encoding};
use crate::protocol::varint::ReadError;
use vstd::prelude::*;
use vstd::string::StringSliceAdditionalSpecFns;

verus! {

/// The version of the protocol that the client speaks.
pub const PROTOCOL_VERSION: i32 = 764;

/// The phases of a connection. Each has its own table of packets.
#[derive(Clone, Copy, Debug, PartialEq, Eq, Structural, Hash)]
pub enum Phase {
    Handshake,
    Login,
    Configuration,
    Play,
    Closed,
}

impl Phase {
    /// The place of the phase in the order in which a connection passes
    /// through them.
    pub open spec fn rank(self) -> nat {
        match self {
            Phase::Handshake => 0,
            Phase::Login => 1,
            Phase::Configuration => 2,
            Phase::Play => 3,
            Phase::Closed => 4,
        }
    }
}

/// Why the session server turned a login down.
#[derive(Clone, Copy, Debug, PartialEq, Eq, Structural, Hash)]
pub enum SessionServerError {
    /// The token is no longer valid. A fresh token may help.
    InvalidSession,
    /// The token does not allow this. A fresh token may help.
    ForbiddenOperation,
    /// Too many logins at once.
    MultiplayerDisabled,
    /// The account is banned from multiplayer.
    Banned,
    /// Anything else, the answer's status among them.
    Unknown,
}

impl SessionServerError {
    /// Whether a fresh token may turn the refusal into a welcome.
    pub open spec fn is_stale_token(self) -> bool {
        self == SessionServerError::InvalidSession || self
            == SessionServerError::ForbiddenOperation
    }
}

/// Why joining a server failed.
#[derive(Clone, Copy, Debug, PartialEq, Eq, Structural, Hash)]
pub enum JoinError {
    /// The address could not be resolved.
    Resolver,
    /// The connection could not be made or broke.
    Connection,
    /// A frame or a packet could not be read.
    ReadPacket(ReadError),
    /// The session server refused the login.
    SessionServer(SessionServerError),
    /// The address given is no server address.
    InvalidAddress,
    /// The access token could not be refreshed.
    Auth,
    /// The server sent the client away. The session keeps the reason.
    Disconnect,
}

/// The server's request to encrypt the connection.
#[derive(Clone, Debug, PartialEq, Eq)]
pub struct EncryptionRequest {
    pub server_id: String,
    pub public_key: Vec<u8>,
    pub nonce: Vec<u8>,
}

/// The secret that both sides encrypt with, and what the server gets to see
/// of it: secret and nonce, each encrypted with the server's public key.
#[derive(Clone, Debug, PartialEq, Eq)]
pub struct EncryptedSecret {
    pub secret_key: [u8; 16],
    pub encrypted_public_key: Vec<u8>,
    pub encrypted_nonce: Vec<u8>,
}

/// Something that the profile of a player says of the player, such as the
/// skin, and the signature that vouches for it.
#[derive(Clone, Debug, PartialEq, Eq)]
pub struct ProfileProperty {
    pub name: String,
    pub value: String,
    pub signature: Option<String>,
}

/// Who the server says the player is.
#[derive(Clone, Debug, PartialEq, Eq)]
pub struct GameProfile {
    pub uuid: u128,
    pub name: String,
    pub properties: Vec<ProfileProperty>,
}

/// What can happen to a connection.
#[derive(Clone, Debug, PartialEq, Eq)]
pub enum SessionEvent {
    /// The connection to the server stands.
    Connected,
    /// Login: the server asks for encryption.
    Hello(EncryptionRequest),
    /// Login: the server sets the compression threshold. A negative
    /// threshold leaves compression off.
    LoginCompression { threshold: i32 },
    /// Login: the server accepts the player.
    LoginFinished(GameProfile),
    /// Login: the server turns the player away.
    LoginDisconnect { reason: String },
    /// Login: a plugin asks a question.
    CustomQuery { transaction_id: i32 },
    /// The secret was made and encrypted.
    SecretEncrypted(EncryptedSecret),
    /// The session server accepted the login.
    Authenticated,
    /// The session server refused the login.
    AuthenticationFailed(SessionServerError),
    /// A fresh access token is there.
    TokenRefreshed,
    /// No fresh access token could be had.
    TokenRefreshFailed,
    /// Configuration: the server is done configuring.
    FinishConfiguration,
    /// Configuration or play: the server wants its number echoed.
    KeepAlive { id: u64 },
    /// Configuration or play: the server ends the connection.
    Disconnect { reason: String },
    /// The connection broke.
    ConnectionDead,
    /// The user ends the connection.
    DisconnectRequested,
}

/// What the machine asks for. The data that an action needs is kept in the
/// [`Session`].
#[derive(Clone, Copy, Debug, PartialEq, Eq, Structural, Hash)]
pub enum SessionAction {
    /// Send the intention to log in.
    SendIntention,
    /// Speak the packets of this phase from now on.
    SwitchPhase(Phase),
    /// Send the player's name and identity.
    SendHello,
    /// Make a secret and encrypt it and the nonce of the encryption request
    /// with the server's public key.
    EncryptSecret,
    /// Name the login to the session server.
    Authenticate,
    /// Get a fresh access token.
    RefreshToken,
    /// Send the encrypted secret and nonce.
    SendKey,
    /// Encrypt everything after this with the secret.
    EnableEncryption,
    /// Put bodies of at least this many bytes into compressed envelopes.
    SetCompression(u32),
    /// Tell the server that the login is understood.
    SendLoginAcknowledged,
    /// Answer a plugin's question with "not understood".
    AnswerCustomQuery(i32),
    /// Tell the server which client this is.
    SendBrand,
    /// Tell the server that the configuration is understood.
    AcknowledgeConfiguration,
    /// Echo the server's number.
    SendKeepAlive(u64),
    /// Tell the user that the player is logged in.
    EmitLogin,
    /// Tell the user that the connection ended.
    EmitDisconnect,
    /// Give up joining with this error.
    Fail(JoinError),
    /// Close the connection.
    Close,
}

/// Where the login stands.
#[derive(Clone, Copy, Debug, PartialEq, Eq, Structural, Hash)]
pub enum LoginStage {
    /// Waiting for the server's next packet.
    AwaitingPacket,
    /// Waiting for the secret to be made.
    AwaitingSecret,
    /// Waiting for the session server.
    AwaitingSessionServer,
    /// Waiting for a fresh token.
    AwaitingToken,
}

/// The state of one connection.
#[derive(Clone, Debug, PartialEq, Eq)]
pub struct Session {
    pub phase: Phase,
    pub stage: LoginStage,
    /// Whether the account proves its identity to the session server.
    pub online: bool,
    /// How often the session server was asked about the request at hand.
    pub attempts: u8,
    /// The threshold, once the server set one.
    pub compression: Option<u32>,
    pub encrypted: bool,
    /// The encryption request at hand.
    pub request: Option<EncryptionRequest>,
    /// The secret made for the request at hand.
    pub secret: Option<EncryptedSecret>,
    /// Who the server says the player is, from the end of the login on.
    pub profile: Option<GameProfile>,
    /// Why the server ended the connection, if it said so.
    pub disconnect_reason: Option<String>,
}

/// A session and the actions of one step.
pub struct Step {
    pub session: Session,
    pub actions: Seq<SessionAction>,
}

impl Session {
    /// The session server is asked at most twice about one request, and
    /// whatever the machine waits for has what it needs.
    pub open spec fn wf(self) -> bool {
        &&& self.attempts <= 2
        &&& self.stage != LoginStage::AwaitingPacket ==> self.phase == Phase::Login
            && self.request.is_some()
        &&& (self.stage == LoginStage::AwaitingSessionServer || self.stage
            == LoginStage::AwaitingToken) ==> self.secret.is_some() && self.online && 1
            <= self.attempts
        &&& self.stage == LoginStage::AwaitingToken ==> self.attempts == 1
    }

    /// The session of a connection that is about to be made.
    pub open spec fn initial(online: bool) -> Session {
        Session {
            phase: Phase::Handshake,
            stage: LoginStage::AwaitingPacket,
            online,
            attempts: 0,
            compression: None,
            encrypted: false,
            request: None,
            secret: None,
            profile: None,
            disconnect_reason: None,
        }
    }

    /// The session after a failure: closed, and waiting for nothing.
    pub open spec fn closed(self) -> Session {
        Session { phase: Phase::Closed, stage: LoginStage::AwaitingPacket, ..self }
    }

    /// Giving up with `error`.
    pub open spec fn fail(self, error: JoinError) -> Step {
        Step { session: self.closed(), actions: seq![SessionAction::Fail(error), SessionAction::Close] }
    }

    /// What an event of the wrong phase leads to.
    pub open spec fn out_of_phase(self) -> Step {
        self.fail(JoinError::ReadPacket(ReadError::UnknownPacketId))
    }

    /// The end of the connection, told to the user.
    pub open spec fn end(self, reason: Option<String>) -> Step {
        Step {
            session: Session { disconnect_reason: reason, ..self.closed() },
            actions: seq![SessionAction::EmitDisconnect, SessionAction::Close],
        }
    }

    /// Sending the key and switching encryption on, once the session server
    /// agrees or need not be asked.
    pub open spec fn send_key(self) -> Step {
        Step {
            session: Session { stage: LoginStage::AwaitingPacket, encrypted: true, ..self },
            actions: seq![SessionAction::SendKey, SessionAction::EnableEncryption],
        }
    }

    /// What the machine does on `event`, and the session after it.
    ///
    /// A closed session stays closed and does nothing. A connection that
    /// broke, or that the user ends, closes with a word to the user in
    /// every other phase. Every other event belongs to one phase, and
    /// to one stage of the login; elsewhere it ends the session with an
    /// error.
    pub open spec fn step(self, event: SessionEvent) -> Step {
        if self.phase == Phase::Closed {
            Step { session: self, actions: seq![] }
        } else {
            match event {
                SessionEvent::ConnectionDead | SessionEvent::DisconnectRequested => self.end(None),
                SessionEvent::Connected => if self.phase == Phase::Handshake {
                    Step {
                        session: Session { phase: Phase::Login, ..self },
                        actions: seq![
                            SessionAction::SendIntention,
                            SessionAction::SwitchPhase(Phase::Login),
                            SessionAction::SendHello,
                        ],
                    }
                } else {
                    self.out_of_phase()
                },
                SessionEvent::Hello(request) => if self.awaits_login_packet() {
                    Step {
                        session: Session {
                            stage: LoginStage::AwaitingSecret,
                            request: Some(request),
                            secret: None,
                            attempts: 0,
                            ..self
                        },
                        actions: seq![SessionAction::EncryptSecret],
                    }
                } else {
                    self.out_of_phase()
                },
                SessionEvent::SecretEncrypted(secret) => if self.phase == Phase::Login && self.stage
                    == LoginStage::AwaitingSecret {
                    let with_secret = Session { secret: Some(secret), ..self };
                    if self.online {
                        Step {
                            session: Session {
                                stage: LoginStage::AwaitingSessionServer,
                                attempts: 1,
                                ..with_secret
                            },
                            actions: seq![SessionAction::Authenticate],
                        }
                    } else {
                        with_secret.send_key()
                    }
                } else {
                    self.out_of_phase()
                },
                SessionEvent::Authenticated => if self.phase == Phase::Login && self.stage
                    == LoginStage::AwaitingSessionServer {
                    self.send_key()
                } else {
                    self.out_of_phase()
                },
                SessionEvent::AuthenticationFailed(error) => if self.phase == Phase::Login
                    && self.stage == LoginStage::AwaitingSessionServer {
                    if self.attempts < 2 && error.is_stale_token() {
                        Step {
                            session: Session { stage: LoginStage::AwaitingToken, ..self },
                            actions: seq![SessionAction::RefreshToken],
                        }
                    } else {
                        self.fail(JoinError::SessionServer(error))
                    }
                } else {
                    self.out_of_phase()
                },
                SessionEvent::TokenRefreshed => if self.phase == Phase::Login && self.stage
                    == LoginStage::AwaitingToken {
                    Step {
                        session: Session {
                            stage: LoginStage::AwaitingSessionServer,
                            attempts: 2,
                            ..self
                        },
                        actions: seq![SessionAction::Authenticate],
                    }
                } else {
                    self.out_of_phase()
                },
                SessionEvent::TokenRefreshFailed => if self.phase == Phase::Login && self.stage
                    == LoginStage::AwaitingToken {
                    self.fail(JoinError::Auth)
                } else {
                    self.out_of_phase()
                },
                SessionEvent::LoginCompression { threshold } => if self.awaits_login_packet() {
                    if threshold < 0 {
                        Step { session: self, actions: seq![] }
                    } else if self.compression.is_some() {
                        self.fail(JoinError::ReadPacket(ReadError::MalformedPacket))
                    } else {
                        Step {
                            session: Session { compression: Some(threshold as u32), ..self },
                            actions: seq![SessionAction::SetCompression(threshold as u32)],
                        }
                    }
                } else {
                    self.out_of_phase()
                },
                SessionEvent::LoginFinished(profile) => if self.awaits_login_packet() {
                    Step {
                        session: Session {
                            phase: Phase::Configuration,
                            profile: Some(profile),
                            ..self
                        },
                        actions: seq![
                            SessionAction::SendLoginAcknowledged,
                            SessionAction::SwitchPhase(Phase::Configuration),
                            SessionAction::SendBrand,
                        ],
                    }
                } else {
                    self.out_of_phase()
                },
                SessionEvent::LoginDisconnect { reason } => if self.awaits_login_packet() {
                    Step {
                        session: Session { disconnect_reason: Some(reason), ..self.closed() },
                        actions: seq![
                            SessionAction::Fail(JoinError::Disconnect),
                            SessionAction::Close,
                        ],
                    }
                } else {
                    self.out_of_phase()
                },
                SessionEvent::CustomQuery { transaction_id } => if self.awaits_login_packet() {
                    Step {
                        session: self,
                        actions: seq![SessionAction::AnswerCustomQuery(transaction_id)],
                    }
                } else {
                    self.out_of_phase()
                },
                SessionEvent::FinishConfiguration => if self.phase == Phase::Configuration {
                    Step {
                        session: Session { phase: Phase::Play, ..self },
                        actions: seq![
                            SessionAction::AcknowledgeConfiguration,
                            SessionAction::SwitchPhase(Phase::Play),
                            SessionAction::EmitLogin,
                        ],
                    }
                } else {
                    self.out_of_phase()
                },
                SessionEvent::KeepAlive { id } => if self.phase == Phase::Configuration
                    || self.phase == Phase::Play {
                    Step { session: self, actions: seq![SessionAction::SendKeepAlive(id)] }
                } else {
                    self.out_of_phase()
                },
                SessionEvent::Disconnect { reason } => if self.phase == Phase::Configuration
                    || self.phase == Phase::Play {
                    self.end(Some(reason))
                } else {
                    self.out_of_phase()
                },
            }
        }
    }

    /// Whether the login waits for the server's next packet.
    pub open spec fn awaits_login_packet(self) -> bool {
        self.phase == Phase::Login && self.stage == LoginStage::AwaitingPacket
    }

    /// Decides [`Session::wf`].
    pub fn is_wf(&self) -> (sound: bool)
        ensures
            sound == self.wf(),
    {
        let awaits_packet: bool = matches!(self.stage, LoginStage::AwaitingPacket);
        let asks: bool = matches!(self.stage, LoginStage::AwaitingSessionServer) || matches!(
            self.stage,
            LoginStage::AwaitingToken
        );
        self.attempts <= 2 && (awaits_packet || (matches!(self.phase, Phase::Login)
            && self.request.is_some())) && (!asks || (self.secret.is_some() && self.online
            && 1 <= self.attempts)) && (!matches!(self.stage, LoginStage::AwaitingToken)
            || self.attempts == 1)
    }

    /// The session of a connection that is about to be made, for an account
    /// that is `online` where it proves its identity to the session server.
    pub fn new(online: bool) -> (session: Session)
        ensures
            session == Session::initial(online),
            session.wf(),
    {
        Session {
            phase: Phase::Handshake,
            stage: LoginStage::AwaitingPacket,
            online,
            attempts: 0,
            compression: None,
            encrypted: false,
            request: None,
            secret: None,
            profile: None,
            disconnect_reason: None,
        }
    }

    fn close_with(&mut self, first: SessionAction) -> (actions: Vec<SessionAction>)
        ensures
            *final(self) == old(self).closed(),
            actions@ == seq![first, SessionAction::Close],
    {
        self.phase = Phase::Closed;
        self.stage = LoginStage::AwaitingPacket;
        let mut actions: Vec<SessionAction> = Vec::new();
        actions.push(first);
        actions.push(SessionAction::Close);
        actions
    }

    fn one(action: SessionAction) -> (actions: Vec<SessionAction>)
        ensures
            actions@ == seq![action],
    {
        let mut actions: Vec<SessionAction> = Vec::new();
        actions.push(action);
        actions
    }

    fn three(a: SessionAction, b: SessionAction, c: SessionAction) -> (actions: Vec<SessionAction>)
        ensures
            actions@ == seq![a, b, c],
    {
        let mut actions: Vec<SessionAction> = Vec::new();
        actions.push(a);
        actions.push(b);
        actions.push(c);
        actions
    }

    fn key_actions(&mut self) -> (actions: Vec<SessionAction>)
        ensures
            *final(self) == old(self).send_key().session,
            actions@ == old(self).send_key().actions,
    {
        self.stage = LoginStage::AwaitingPacket;
        self.encrypted = true;
        let mut actions: Vec<SessionAction> = Vec::new();
        actions.push(SessionAction::SendKey);
        actions.push(SessionAction::EnableEncryption);
        actions
    }

    /// Takes `event` in and says what to do, in order.
    pub fn handle(&mut self, event: SessionEvent) -> (actions: Vec<SessionAction>)
        requires
            old(self).wf(),
        ensures
            final(self).wf(),
            *final(self) == old(self).step(event).session,
            actions@ == old(self).step(event).actions,
    {
        if matches!(self.phase, Phase::Closed) {
            return Vec::new();
        }
        let in_login: bool = matches!(self.phase, Phase::Login);
        let awaits_packet: bool = in_login && matches!(self.stage, LoginStage::AwaitingPacket);
        let past_login: bool = matches!(self.phase, Phase::Configuration) || matches!(
            self.phase,
            Phase::Play
        );
        let out_of_phase = SessionAction::Fail(JoinError::ReadPacket(ReadError::UnknownPacketId));
        match event {
            SessionEvent::ConnectionDead | SessionEvent::DisconnectRequested => {
                self.disconnect_reason = None;
                self.close_with(SessionAction::EmitDisconnect)
            },
            SessionEvent::Connected => {
                if matches!(self.phase, Phase::Handshake) {
                    self.phase = Phase::Login;
                    Session::three(
                        SessionAction::SendIntention,
                        SessionAction::SwitchPhase(Phase::Login),
                        SessionAction::SendHello,
                    )
                } else {
                    self.close_with(out_of_phase)
                }
            },
            SessionEvent::Hello(request) => {
                if awaits_packet {
                    self.stage = LoginStage::AwaitingSecret;
                    self.request = Some(request);
                    self.secret = None;
                    self.attempts = 0;
                    Session::one(SessionAction::EncryptSecret)
                } else {
                    self.close_with(out_of_phase)
                }
            },
            SessionEvent::SecretEncrypted(secret) => {
                if in_login && matches!(self.stage, LoginStage::AwaitingSecret) {
                    self.secret = Some(secret);
                    if self.online {
                        self.stage = LoginStage::AwaitingSessionServer;
                        self.attempts = 1;
                        Session::one(SessionAction::Authenticate)
                    } else {
                        self.key_actions()
                    }
                } else {
                    self.close_with(out_of_phase)
                }
            },
            SessionEvent::Authenticated => {
                if in_login && matches!(self.stage, LoginStage::AwaitingSessionServer) {
                    self.key_actions()
                } else {
                    self.close_with(out_of_phase)
                }
            },
            SessionEvent::AuthenticationFailed(error) => {
                if in_login && matches!(self.stage, LoginStage::AwaitingSessionServer) {
                    // one refusal for a stale token is forgiven: the second
                    // ends the login, whatever its reason
                    if self.attempts < 2 && matches!(
                        error,
                        SessionServerError::InvalidSession | SessionServerError::ForbiddenOperation
                    ) {
                        self.stage = LoginStage::AwaitingToken;
                        Session::one(SessionAction::RefreshToken)
                    } else {
                        self.close_with(SessionAction::Fail(JoinError::SessionServer(error)))
                    }
                } else {
                    self.close_with(out_of_phase)
                }
            },
            SessionEvent::TokenRefreshed => {
                if in_login && matches!(self.stage, LoginStage::AwaitingToken) {
                    self.stage = LoginStage::AwaitingSessionServer;
                    self.attempts = 2;
                    Session::one(SessionAction::Authenticate)
                } else {
                    self.close_with(out_of_phase)
                }
            },
            SessionEvent::TokenRefreshFailed => {
                if in_login && matches!(self.stage, LoginStage::AwaitingToken) {
                    self.close_with(SessionAction::Fail(JoinError::Auth))
                } else {
                    self.close_with(out_of_phase)
                }
            },
            SessionEvent::LoginCompression { threshold } => {
                if awaits_packet {
                    if threshold < 0 {
                        Vec::new()
                    } else if self.compression.is_some() {
                        self.close_with(
                            SessionAction::Fail(JoinError::ReadPacket(ReadError::MalformedPacket)),
                        )
                    } else {
                        self.compression = Some(threshold as u32);
                        Session::one(SessionAction::SetCompression(threshold as u32))
                    }
                } else {
                    self.close_with(out_of_phase)
                }
            },
            SessionEvent::LoginFinished(profile) => {
                if awaits_packet {
                    self.phase = Phase::Configuration;
                    self.profile = Some(profile);
                    Session::three(
                        SessionAction::SendLoginAcknowledged,
                        SessionAction::SwitchPhase(Phase::Configuration),
                        SessionAction::SendBrand,
                    )
                } else {
                    self.close_with(out_of_phase)
                }
            },
            SessionEvent::LoginDisconnect { reason } => {
                if awaits_packet {
                    self.disconnect_reason = Some(reason);
                    self.close_with(SessionAction::Fail(JoinError::Disconnect))
                } else {
                    self.close_with(out_of_phase)
                }
            },
            SessionEvent::CustomQuery { transaction_id } => {
                if awaits_packet {
                    Session::one(SessionAction::AnswerCustomQuery(transaction_id))
                } else {
                    self.close_with(out_of_phase)
                }
            },
            SessionEvent::FinishConfiguration => {
                if matches!(self.phase, Phase::Configuration) {
                    self.phase = Phase::Play;
                    Session::three(
                        SessionAction::AcknowledgeConfiguration,
                        SessionAction::SwitchPhase(Phase::Play),
                        SessionAction::EmitLogin,
                    )
                } else {
                    self.close_with(out_of_phase)
                }
            },
            SessionEvent::KeepAlive { id } => {
                if past_login {
                    Session::one(SessionAction::SendKeepAlive(id))
                } else {
                    self.close_with(out_of_phase)
                }
            },
            SessionEvent::Disconnect { reason } => {
                if past_login {
                    self.disconnect_reason = Some(reason);
                    self.close_with(SessionAction::EmitDisconnect)
                } else {
                    self.close_with(out_of_phase)
                }
            },
        }
    }
}

/// A connection moves through its phases in one direction only.
pub proof fn lemma_phase_never_goes_back(session: Session, event: SessionEvent)
    ensures
        session.phase.rank() <= session.step(event).session.phase.rank(),
{
}

/// A threshold that was set stays as it is for as long as the connection
/// lives.
pub proof fn lemma_compression_is_set_once(session: Session, event: SessionEvent)
    requires
        session.compression.is_some(),
    ensures
        session.step(event).session.compression == session.compression,
{
}

/// A closed session takes no event in: it stays as it is and asks for
/// nothing.
pub proof fn lemma_closed_is_final(session: Session, event: SessionEvent)
    requires
        session.phase == Phase::Closed,
    ensures
        session.step(event).session == session,
        session.step(event).actions.len() == 0,
{
}

/// An event that belongs to another phase than the one the session is in
/// ends the session with an error.
pub proof fn lemma_wrong_phase_aborts(session: Session, event: SessionEvent)
    requires
        session.phase != Phase::Closed,
        match event {
            SessionEvent::ConnectionDead | SessionEvent::DisconnectRequested => false,
            SessionEvent::Connected => session.phase != Phase::Handshake,
            SessionEvent::FinishConfiguration => session.phase != Phase::Configuration,
            SessionEvent::KeepAlive { .. } | SessionEvent::Disconnect { .. } => session.phase
                != Phase::Configuration && session.phase != Phase::Play,
            _ => session.phase != Phase::Login,
        },
    ensures
        session.step(event).session.phase == Phase::Closed,
        session.step(event).actions == seq![
            SessionAction::Fail(JoinError::ReadPacket(ReadError::UnknownPacketId)),
            SessionAction::Close,
        ],
{
}

/// A fresh token is asked for only after the first refusal of a request:
/// a second refusal ends the login, so that no request sees two refreshes.
pub proof fn lemma_one_refresh_per_request(session: Session, event: SessionEvent)
    requires
        session.wf(),
        session.step(event).actions.contains(SessionAction::RefreshToken),
    ensures
        session.attempts == 1,
        session.step(event).session.stage == LoginStage::AwaitingToken,
        forall|next: SessionEvent|
            !(#[trigger] session.step(event).session.step(next)).actions.contains(
                SessionAction::RefreshToken,
            ),
{
    let step = session.step(event);
    assert(step.actions.len() > 0);
    assert forall|i: int| 0 <= i < step.actions.len() && step.actions[i]
        == SessionAction::RefreshToken implies session.stage
        == LoginStage::AwaitingSessionServer by {}
    let i = choose|i: int| 0 <= i < step.actions.len() && step.actions[i]
        == SessionAction::RefreshToken;
    assert(step.actions[i] == SessionAction::RefreshToken);
    assert forall|next: SessionEvent|
        !(#[trigger] step.session.step(next)).actions.contains(SessionAction::RefreshToken) by {
        let after = step.session.step(next);
        if after.actions.contains(SessionAction::RefreshToken) {
            let j = choose|j: int| 0 <= j < after.actions.len() && after.actions[j]
                == SessionAction::RefreshToken;
            assert(after.actions[j] == SessionAction::RefreshToken);
        }
    }
}

/// The data of the packet that tells the server which client this is: the
/// text `vanilla`.
pub fn brand_data() -> (data: Vec<u8>)
    ensures
        data@ == text_encoding("vanilla".spec_bytes()),
{
    let brand = "vanilla";
    proof {
        reveal_strlit("vanilla");
        assert(brand@.len() == 7);
        vstd::string::is_ascii_spec_bytes(brand);
        assert(vstd::string::is_ascii(brand)) by {
            vstd::utf8::is_ascii_chars_nat_bound(brand@);
        }
    }
    let mut data: Vec<u8> = Vec::new();
    append_text(brand, &mut data);
    data
}

} // verus!
