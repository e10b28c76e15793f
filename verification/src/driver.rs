//! The session at the wheel of its connection: what the session decides is
//! done to the connection at once, so that the two never disagree.

use crate::account::Account;
use crate::address::ServerAddress;
use crate::protocol::connection::Connection;
use crate::protocol::frame::append_bytes;
use crate::protocol::packets::{
    ClientboundPacket, ClientboundView, Intention, ServerboundPacket, ServerboundView,
};
use crate::protocol::text::text_encoding;
use crate::session::{
    brand_data, EncryptionRequest, Phase, Session, SessionAction, SessionEvent, PROTOCOL_VERSION,
};
use vstd::prelude::*;
use vstd::string::StringSliceAdditionalSpecFns;

verus! {

/// Whether the connection is as the session says: in the same phase, with
/// the same threshold, and encrypted exactly if the session says so.
pub open spec fn in_step(connection: Connection, session: Session) -> bool {
    &&& connection.phase == session.phase
    &&& connection.compression == session.compression
    &&& connection.encryptor.is_some() == session.encrypted
}

/// The phase of a connection after an action.
pub open spec fn phase_after(phase: Phase, action: SessionAction) -> Phase {
    match action {
        SessionAction::SwitchPhase(next) => if phase.rank() < next.rank() {
            next
        } else {
            phase
        },
        SessionAction::Close => Phase::Closed,
        _ => phase,
    }
}

/// The threshold of a connection after an action.
pub open spec fn compression_after(compression: Option<u32>, action: SessionAction) -> Option<u32> {
    match action {
        SessionAction::SetCompression(threshold) => if compression.is_none() {
            Some(threshold)
        } else {
            compression
        },
        _ => compression,
    }
}

/// Whether a connection is encrypted after an action, given that the
/// session holds a secret.
pub open spec fn encrypted_after(encrypted: bool, action: SessionAction) -> bool {
    encrypted || action == SessionAction::EnableEncryption
}

/// The phase after the first `n` actions.
pub open spec fn phase_after_all(phase: Phase, actions: Seq<SessionAction>, n: nat) -> Phase
    decreases n,
{
    if n == 0 {
        phase
    } else {
        phase_after(phase_after_all(phase, actions, (n - 1) as nat), actions[n - 1])
    }
}

/// The threshold after the first `n` actions.
pub open spec fn compression_after_all(
    compression: Option<u32>,
    actions: Seq<SessionAction>,
    n: nat,
) -> Option<u32>
    decreases n,
{
    if n == 0 {
        compression
    } else {
        compression_after(
            compression_after_all(compression, actions, (n - 1) as nat),
            actions[n - 1],
        )
    }
}

/// Whether the connection is encrypted after the first `n` actions.
pub open spec fn encrypted_after_all(encrypted: bool, actions: Seq<SessionAction>, n: nat) -> bool
    decreases n,
{
    if n == 0 {
        encrypted
    } else {
        encrypted_after(encrypted_after_all(encrypted, actions, (n - 1) as nat), actions[n - 1])
    }
}

/// Does to the connection what one action asks of it. Actions that send
/// packets or call for a service leave the connection as it is.
pub fn apply_action(connection: &mut Connection, session: &Session, action: SessionAction)
    requires
        old(connection).wf(),
        action == SessionAction::EnableEncryption ==> session.secret.is_some(),
    ensures
        final(connection).wf(),
        final(connection).phase == phase_after(old(connection).phase, action),
        final(connection).compression == compression_after(old(connection).compression, action),
        final(connection).encryptor.is_some() == encrypted_after(
            old(connection).encryptor.is_some(),
            action,
        ),
        final(connection).inbound == old(connection).inbound,
        action == SessionAction::EnableEncryption && old(connection).encryptor.is_none() ==> {
            let key = session.secret.unwrap().secret_key@;
            &&& final(connection).encryptor.unwrap().key() == key
            &&& final(connection).encryptor.unwrap().register() == key
            &&& final(connection).decryptor.unwrap().key() == key
            &&& final(connection).decryptor.unwrap().register() == key
        },
        action != SessionAction::EnableEncryption ==> final(connection).encryptor == old(
            connection,
        ).encryptor && final(connection).decryptor == old(connection).decryptor,
{
    match action {
        SessionAction::SwitchPhase(phase) => {
            connection.switch_phase(phase);
        },
        SessionAction::Close => {
            connection.switch_phase(Phase::Closed);
        },
        SessionAction::SetCompression(threshold) => {
            connection.set_compression(threshold);
        },
        SessionAction::EnableEncryption => {
            match &session.secret {
                Some(secret) => {
                    connection.set_encryption(&secret.secret_key);
                },
                None => vstd::pervasive::unreached(),
            }
        },
        _ => {},
    }
}

/// A session together with its connection. The actions of an event are
/// handed out one by one, and each is done to the connection as it is
/// handed out: a packet that an action asks to send leaves in the state
/// that the actions before it made.
pub struct Driver {
    session: Session,
    connection: Connection,
    /// The actions of the event at hand.
    pending: Vec<SessionAction>,
    /// How many of them were handed out.
    taken: usize,
    /// Phase, threshold and encryption of the connection when the event at
    /// hand came.
    phase_before: Phase,
    compression_before: Option<u32>,
    encrypted_before: bool,
}

impl Driver {
    /// Session and connection are sound, the connection is what the actions
    /// handed out so far made of it, and the actions still to come bring it
    /// in step with the session.
    pub closed spec fn wf(self) -> bool {
        let n = self.pending@.len();
        &&& self.session.wf()
        &&& self.connection.wf()
        &&& self.taken <= n
        &&& self.connection.phase == phase_after_all(
            self.phase_before,
            self.pending@,
            self.taken as nat,
        )
        &&& self.connection.compression == compression_after_all(
            self.compression_before,
            self.pending@,
            self.taken as nat,
        )
        &&& self.connection.encryptor.is_some() == encrypted_after_all(
            self.encrypted_before,
            self.pending@,
            self.taken as nat,
        )
        &&& phase_after_all(self.phase_before, self.pending@, n) == self.session.phase
        &&& compression_after_all(self.compression_before, self.pending@, n)
            == self.session.compression
        &&& encrypted_after_all(self.encrypted_before, self.pending@, n) == self.session.encrypted
        &&& forall|i: int|
            0 <= i < n && self.pending@[i] == SessionAction::EnableEncryption
                ==> self.session.secret.is_some()
    }

    /// The session.
    pub closed spec fn session_view(self) -> Session {
        self.session
    }

    /// The connection.
    pub closed spec fn connection_view(self) -> Connection {
        self.connection
    }

    /// The actions of the event at hand.
    pub closed spec fn pending_view(self) -> Seq<SessionAction> {
        self.pending@
    }

    /// How many of the actions were handed out.
    pub closed spec fn taken_view(self) -> nat {
        self.taken as nat
    }

    /// Whether every action of the event at hand was handed out.
    pub open spec fn idle(self) -> bool {
        self.taken_view() == self.pending_view().len()
    }

    /// The session.
    pub fn session(&self) -> (session: &Session)
        requires
            self.wf(),
        ensures
            *session == self.session_view(),
            session.wf(),
    {
        &self.session
    }

    /// The connection.
    pub fn connection(&self) -> (connection: &Connection)
        requires
            self.wf(),
        ensures
            *connection == self.connection_view(),
            connection.wf(),
            self.idle() ==> in_step(*connection, self.session_view()),
    {
        &self.connection
    }

    /// Decides [`Driver::idle`].
    pub fn is_idle(&self) -> (idle: bool)
        ensures
            idle == self.idle(),
    {
        self.taken == self.pending.len()
    }

    /// A session that is about to begin, with its connection.
    pub fn new(online: bool) -> (driver: Driver)
        ensures
            driver.wf(),
            driver.idle(),
            driver.session_view() == Session::initial(online),
            in_step(driver.connection_view(), driver.session_view()),
    {
        Driver {
            session: Session::new(online),
            connection: Connection::new(),
            pending: Vec::new(),
            taken: 0,
            phase_before: Phase::Handshake,
            compression_before: None,
            encrypted_before: false,
        }
    }

    /// Takes an event to the session. The actions that the session decides
    /// on wait to be handed out.
    pub fn handle(&mut self, event: SessionEvent)
        requires
            old(self).wf(),
            old(self).idle(),
        ensures
            final(self).wf(),
            final(self).session_view() == old(self).session_view().step(event).session,
            final(self).pending_view() == old(self).session_view().step(event).actions,
            final(self).taken_view() == 0,
            final(self).connection_view() == old(self).connection_view(),
    {
        proof {
            lemma_actions_keep_step(self.session, event);
        }
        self.phase_before = self.connection.phase;
        self.compression_before = self.connection.compression;
        self.encrypted_before = self.connection.encryptor.is_some();
        self.pending = self.session.handle(event);
        self.taken = 0;
    }

    /// Hands out the next action of the event at hand, and does to the
    /// connection what it asks. When no action is left, session and
    /// connection are in step.
    pub fn next_action(&mut self) -> (action: Option<SessionAction>)
        requires
            old(self).wf(),
        ensures
            final(self).wf(),
            final(self).session_view() == old(self).session_view(),
            final(self).pending_view() == old(self).pending_view(),
            final(self).connection_view().inbound == old(self).connection_view().inbound,
            match action {
                Some(next) => {
                    &&& !old(self).idle()
                    &&& next == old(self).pending_view()[old(self).taken_view() as int]
                    &&& final(self).taken_view() == old(self).taken_view() + 1
                    &&& final(self).connection_view().phase == phase_after(
                        old(self).connection_view().phase,
                        next,
                    )
                    &&& final(self).connection_view().compression == compression_after(
                        old(self).connection_view().compression,
                        next,
                    )
                    &&& final(self).connection_view().encryptor.is_some() == encrypted_after(
                        old(self).connection_view().encryptor.is_some(),
                        next,
                    )
                },
                None => {
                    &&& old(self).idle()
                    &&& final(self).connection_view() == old(self).connection_view()
                    &&& final(self).taken_view() == old(self).taken_view()
                    &&& in_step(final(self).connection_view(), final(self).session_view())
                },
            },
    {
        if self.taken == self.pending.len() {
            return None;
        }
        let action = self.pending[self.taken];
        apply_action(&mut self.connection, &self.session, action);
        self.taken = self.taken + 1;
        Some(action)
    }

    /// Makes the bytes to send for a packet, as
    /// [`Connection::write_packet`] does.
    pub fn write_packet(&mut self, packet_id: i32, payload: &[u8]) -> (written: Result<
        Vec<u8>,
        crate::protocol::frame::WriteError,
    >)
        requires
            old(self).wf(),
        ensures
            final(self).wf(),
            final(self).session_view() == old(self).session_view(),
            final(self).pending_view() == old(self).pending_view(),
            final(self).taken_view() == old(self).taken_view(),
            written.is_ok() == crate::protocol::connection::writable(
                packet_id,
                payload@,
                old(self).connection_view().compression,
            ),
            written.is_ok() ==> written.unwrap()@ == old(self).connection_view().on_wire(
                crate::protocol::connection::plain_wire(
                    packet_id,
                    payload@,
                    old(self).connection_view().compression,
                ),
            ),
    {
        self.connection.write_packet(packet_id, payload)
    }

    /// Takes in bytes from the wire, as [`Connection::receive`] does.
    pub fn receive(&mut self, bytes: Vec<u8>)
        requires
            old(self).wf(),
        ensures
            final(self).wf(),
            final(self).session_view() == old(self).session_view(),
            final(self).pending_view() == old(self).pending_view(),
            final(self).taken_view() == old(self).taken_view(),
            final(self).connection_view().inbound@ == old(self).connection_view().inbound@ + old(self).connection_view().off_wire(bytes@),
    {
        self.connection.receive(bytes);
    }

    /// Takes the next packet from the bytes received, as
    /// [`Connection::read_packet`] does.
    pub fn read_packet(&mut self) -> (read: Result<
        Option<(i32, Vec<u8>)>,
        crate::protocol::varint::ReadError,
    >)
        requires
            old(self).wf(),
        ensures
            final(self).wf(),
            final(self).session_view() == old(self).session_view(),
            final(self).pending_view() == old(self).pending_view(),
            final(self).taken_view() == old(self).taken_view(),
            final(self).connection_view().inbound@ == old(self).connection_view().inbound@.skip(
                crate::protocol::connection::frame_len(old(self).connection_view().inbound@) as int,
            ),
            match (
                read,
                crate::protocol::connection::packet_parse(
                    old(self).connection_view().inbound@,
                    old(self).connection_view().compression,
                ),
            ) {
                (Ok(Some((packet_id, payload))), Ok(Some(((id, bytes), _)))) => packet_id == id
                    && payload@ == bytes,
                (Ok(None), Ok(None)) => true,
                (Err(e), Err(f)) => e == f,
                _ => false,
            },
    {
        self.connection.read_packet()
    }
}

/// What a step asks for brings a connection that was in step with the
/// session in step with the session after the step. Encryption is asked for
/// only when the secret is there.
pub proof fn lemma_actions_keep_step(session: Session, event: SessionEvent)
    requires
        session.wf(),
    ensures
        ({
            let step = session.step(event);
            let n = step.actions.len();
            &&& phase_after_all(session.phase, step.actions, n) == step.session.phase
            &&& compression_after_all(session.compression, step.actions, n)
                == step.session.compression
            &&& encrypted_after_all(session.encrypted, step.actions, n) == step.session.encrypted
            &&& forall|i: int|
                0 <= i < n && step.actions[i] == SessionAction::EnableEncryption
                    ==> step.session.secret.is_some()
        }),
{
    reveal_with_fuel(phase_after_all, 4);
    reveal_with_fuel(compression_after_all, 4);
    reveal_with_fuel(encrypted_after_all, 4);
}

/// What a packet from the server is to the session, as contracts see it:
/// whether it is an event, and which.
pub open spec fn is_event_of(packet: ClientboundView, event: Option<SessionEvent>) -> bool {
    match packet {
        ClientboundView::LoginDisconnect { reason } => match event {
            Some(SessionEvent::LoginDisconnect { reason: r }) => r@ == reason,
            _ => false,
        },
        ClientboundView::Hello { server_id, public_key, nonce } => match event {
            Some(SessionEvent::Hello(request)) => request.server_id@ == server_id
                && request.public_key@ == public_key && request.nonce@ == nonce,
            _ => false,
        },
        ClientboundView::GameProfile { game_profile } => match event {
            Some(SessionEvent::LoginFinished(profile)) => crate::protocol::packets::profile_view(
                profile,
            ) == game_profile,
            _ => false,
        },
        ClientboundView::LoginCompression { compression_threshold } => event == Some(
            SessionEvent::LoginCompression { threshold: compression_threshold },
        ),
        ClientboundView::CustomQuery { transaction_id, .. } => event == Some(
            SessionEvent::CustomQuery { transaction_id },
        ),
        ClientboundView::Disconnect { reason } => match event {
            Some(SessionEvent::Disconnect { reason: r }) => r@ == reason,
            _ => false,
        },
        ClientboundView::FinishConfiguration => event == Some(SessionEvent::FinishConfiguration),
        ClientboundView::KeepAlive { id } => event == Some(SessionEvent::KeepAlive { id }),
        ClientboundView::Other { .. } => event.is_none(),
    }
}

/// The event that a packet from the server is to the session. A packet that
/// passes as it came is none.
pub fn event_of(packet: ClientboundPacket) -> (event: Option<SessionEvent>)
    ensures
        is_event_of(packet@, event),
{
    match packet {
        ClientboundPacket::LoginDisconnect { reason } => Some(
            SessionEvent::LoginDisconnect { reason },
        ),
        ClientboundPacket::Hello { server_id, public_key, nonce } => Some(
            SessionEvent::Hello(EncryptionRequest { server_id, public_key, nonce }),
        ),
        ClientboundPacket::GameProfile { game_profile } => Some(
            SessionEvent::LoginFinished(game_profile),
        ),
        ClientboundPacket::LoginCompression { compression_threshold } => Some(
            SessionEvent::LoginCompression { threshold: compression_threshold },
        ),
        ClientboundPacket::CustomQuery { transaction_id, .. } => Some(
            SessionEvent::CustomQuery { transaction_id },
        ),
        ClientboundPacket::Disconnect { reason } => Some(SessionEvent::Disconnect { reason }),
        ClientboundPacket::FinishConfiguration => Some(SessionEvent::FinishConfiguration),
        ClientboundPacket::KeepAlive { id } => Some(SessionEvent::KeepAlive { id }),
        ClientboundPacket::Other { .. } => None,
    }
}

/// The packet that an action sends, as contracts see it. The intention
/// names the host and the port of the address, the hello the name and the
/// identity of the account, the key what the secret is to the server; a plugin's question is left
/// unanswered, and the brand is `vanilla`.
pub open spec fn packet_of(
    action: SessionAction,
    session: Session,
    account: Account,
    address: ServerAddress,
) -> Option<ServerboundView> {
    match action {
        SessionAction::SendIntention => Some(
            ServerboundView::ClientIntention {
                protocol_version: PROTOCOL_VERSION,
                hostname: address.host@,
                port: address.port,
                intention: Intention::Login,
            },
        ),
        SessionAction::SendHello => Some(
            ServerboundView::Hello {
                name: account.username@,
                profile_id: account.identity(),
            },
        ),
        SessionAction::SendKey => match session.secret {
            Some(secret) => Some(
                ServerboundView::Key {
                    key_bytes: secret.encrypted_public_key@,
                    encrypted_challenge: secret.encrypted_nonce@,
                },
            ),
            None => None,
        },
        SessionAction::SendLoginAcknowledged => Some(ServerboundView::LoginAcknowledged),
        SessionAction::AnswerCustomQuery(transaction_id) => Some(
            ServerboundView::CustomQueryAnswer { transaction_id, data: None },
        ),
        SessionAction::SendBrand => Some(
            ServerboundView::CustomPayload {
                identifier: "minecraft:brand"@,
                data: text_encoding("vanilla".spec_bytes()),
            },
        ),
        SessionAction::AcknowledgeConfiguration => Some(ServerboundView::FinishConfiguration),
        SessionAction::SendKeepAlive(id) => Some(ServerboundView::KeepAlive { id }),
        _ => None,
    }
}

/// The packet that an action sends, if it sends one.
pub fn packet_for(
    action: SessionAction,
    session: &Session,
    account: &Account,
    address: &ServerAddress,
) -> (packet: Option<ServerboundPacket>)
    ensures
        match (packet, packet_of(action, *session, *account, *address)) {
            (Some(p), Some(v)) => p@ == v,
            (None, None) => true,
            _ => false,
        },
{
    match action {
        SessionAction::SendIntention => Some(
            ServerboundPacket::ClientIntention {
                protocol_version: PROTOCOL_VERSION,
                hostname: address.host.clone(),
                port: address.port,
                intention: Intention::Login,
            },
        ),
        SessionAction::SendHello => Some(
            ServerboundPacket::Hello {
                name: account.username.clone(),
                profile_id: account.profile_id(),
            },
        ),
        SessionAction::SendKey => match &session.secret {
            Some(secret) => {
                let mut key_bytes: Vec<u8> = Vec::new();
                append_bytes(&mut key_bytes, secret.encrypted_public_key.as_slice());
                let mut encrypted_challenge: Vec<u8> = Vec::new();
                append_bytes(&mut encrypted_challenge, secret.encrypted_nonce.as_slice());
                Some(ServerboundPacket::Key { key_bytes, encrypted_challenge })
            },
            None => None,
        },
        SessionAction::SendLoginAcknowledged => Some(ServerboundPacket::LoginAcknowledged),
        SessionAction::AnswerCustomQuery(transaction_id) => Some(
            ServerboundPacket::CustomQueryAnswer { transaction_id, data: None },
        ),
        // they don't have to know :)
        SessionAction::SendBrand => Some(
            ServerboundPacket::CustomPayload {
                identifier: "minecraft:brand".to_owned(),
                data: brand_data(),
            },
        ),
        SessionAction::AcknowledgeConfiguration => Some(ServerboundPacket::FinishConfiguration),
        SessionAction::SendKeepAlive(id) => Some(ServerboundPacket::KeepAlive { id }),
        _ => None,
    }
}

} // verus!
