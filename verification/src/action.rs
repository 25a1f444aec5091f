//! What goes into an engine and what comes out of it.

use vstd::prelude::*;

use crate::address::SocketAddress;
use crate::config::CipherSuite;
use crate::error::EngineError;
use crate::id::{ConversationId, PeerId, SessionId};
use crate::time::{Duration, Instant};

verus! {

/// High-level authenticated session state.
#[derive(Clone, Copy, Debug, Eq, PartialEq, Structural)]
pub enum SessionState {
    Idle,
    Handshaking,
    Ready,
    Reconnecting,
    Closed,
}

/// Why a locally received UDP datagram was intentionally discarded before it
/// could be placed in a protected tunnel record.
#[derive(Clone, Copy, Debug, Eq, PartialEq, Structural)]
pub enum ClientDatagramDropReason {
    /// The bounded handshaking/reconnection queue was already full.
    ReconnectQueueFull,
    /// The datagram waited too long for an authenticated session.
    ReconnectQueueExpired,
    /// The handshake ended without establishing a session.
    SessionClosed,
}

/// Inputs accepted by the synchronous engine.
#[derive(Debug)]
#[allow(inconsistent_fields)]
pub enum TunnelEvent {
    Start,
    Reconnect,
    ClientDatagram { local_peer: SocketAddress, payload: Vec<u8> },
    ServerDatagram { session_id: SessionId, conversation_id: ConversationId, payload: Vec<u8> },
    TunnelFrame { peer_id: PeerId, bytes: Vec<u8> },
    TimeAdvanced(Instant),
    CloseConversation { session_id: Option<SessionId>, conversation_id: ConversationId },
}

/// What a [`TunnelEvent`] says.
#[allow(inconsistent_fields)]
pub enum EventModel {
    Start,
    Reconnect,
    ClientDatagram { local_peer: SocketAddress, payload: Seq<u8> },
    ServerDatagram { session_id: SessionId, conversation_id: ConversationId, payload: Seq<u8> },
    TunnelFrame { peer_id: PeerId, bytes: Seq<u8> },
    TimeAdvanced(Instant),
    CloseConversation { session_id: Option<SessionId>, conversation_id: ConversationId },
}

impl View for TunnelEvent {
    type V = EventModel;

    open spec fn view(&self) -> EventModel {
        match *self {
            TunnelEvent::Start => EventModel::Start,
            TunnelEvent::Reconnect => EventModel::Reconnect,
            TunnelEvent::ClientDatagram { local_peer, payload } => EventModel::ClientDatagram {
                local_peer,
                payload: payload@,
            },
            TunnelEvent::ServerDatagram { session_id, conversation_id, payload } =>
                EventModel::ServerDatagram { session_id, conversation_id, payload: payload@ },
            TunnelEvent::TunnelFrame { peer_id, bytes } => EventModel::TunnelFrame {
                peer_id,
                bytes: bytes@,
            },
            TunnelEvent::TimeAdvanced(at) => EventModel::TimeAdvanced(at),
            TunnelEvent::CloseConversation { session_id, conversation_id } =>
                EventModel::CloseConversation { session_id, conversation_id },
        }
    }
}

/// Side effects the host must execute.
#[derive(Debug, Eq, PartialEq)]
#[allow(inconsistent_fields)]
pub enum TunnelAction {
    SendTunnelFrame { peer_id: PeerId, bytes: Vec<u8> },
    DeliverToClient { local_peer: SocketAddress, payload: Vec<u8> },
    DeliverToUpstream { session_id: SessionId, conversation_id: ConversationId, payload: Vec<u8> },
    SessionEstablished {
        peer_id: PeerId,
        session_id: SessionId,
        cipher_suite: CipherSuite,
        resumed: bool,
    },
    SessionResumed { peer_id: PeerId, old_session_id: SessionId, new_session_id: SessionId },
    SessionClosed { peer_id: PeerId, session_id: SessionId },
    /// The server can no longer resume the session, so a host may release
    /// resources retained solely for its recovery window.
    SessionRecoveryExpired { session_id: SessionId },
    ConversationOpened { session_id: Option<SessionId>, conversation_id: ConversationId },
    ConversationClosed { session_id: Option<SessionId>, conversation_id: ConversationId },
    ClientDatagramDropped { local_peer: SocketAddress, reason: ClientDatagramDropReason },
    ScheduleTimer(Duration),
}

/// What a [`TunnelAction`] says.
#[allow(inconsistent_fields)]
pub enum ActionModel {
    SendTunnelFrame { peer_id: PeerId, bytes: Seq<u8> },
    DeliverToClient { local_peer: SocketAddress, payload: Seq<u8> },
    DeliverToUpstream { session_id: SessionId, conversation_id: ConversationId, payload: Seq<u8> },
    SessionEstablished {
        peer_id: PeerId,
        session_id: SessionId,
        cipher_suite: CipherSuite,
        resumed: bool,
    },
    SessionResumed { peer_id: PeerId, old_session_id: SessionId, new_session_id: SessionId },
    SessionClosed { peer_id: PeerId, session_id: SessionId },
    SessionRecoveryExpired { session_id: SessionId },
    ConversationOpened { session_id: Option<SessionId>, conversation_id: ConversationId },
    ConversationClosed { session_id: Option<SessionId>, conversation_id: ConversationId },
    ClientDatagramDropped { local_peer: SocketAddress, reason: ClientDatagramDropReason },
    ScheduleTimer(Duration),
}

impl View for TunnelAction {
    type V = ActionModel;

    open spec fn view(&self) -> ActionModel {
        match *self {
            TunnelAction::SendTunnelFrame { peer_id, bytes } => ActionModel::SendTunnelFrame {
                peer_id,
                bytes: bytes@,
            },
            TunnelAction::DeliverToClient { local_peer, payload } => ActionModel::DeliverToClient {
                local_peer,
                payload: payload@,
            },
            TunnelAction::DeliverToUpstream { session_id, conversation_id, payload } =>
                ActionModel::DeliverToUpstream { session_id, conversation_id, payload: payload@ },
            TunnelAction::SessionEstablished { peer_id, session_id, cipher_suite, resumed } =>
                ActionModel::SessionEstablished { peer_id, session_id, cipher_suite, resumed },
            TunnelAction::SessionResumed { peer_id, old_session_id, new_session_id } =>
                ActionModel::SessionResumed { peer_id, old_session_id, new_session_id },
            TunnelAction::SessionClosed { peer_id, session_id } => ActionModel::SessionClosed {
                peer_id,
                session_id,
            },
            TunnelAction::SessionRecoveryExpired { session_id } =>
                ActionModel::SessionRecoveryExpired { session_id },
            TunnelAction::ConversationOpened { session_id, conversation_id } =>
                ActionModel::ConversationOpened { session_id, conversation_id },
            TunnelAction::ConversationClosed { session_id, conversation_id } =>
                ActionModel::ConversationClosed { session_id, conversation_id },
            TunnelAction::ClientDatagramDropped { local_peer, reason } =>
                ActionModel::ClientDatagramDropped { local_peer, reason },
            TunnelAction::ScheduleTimer(span) => ActionModel::ScheduleTimer(span),
        }
    }
}

/// What a list of actions says.
pub open spec fn models(actions: Seq<TunnelAction>) -> Seq<ActionModel> {
    actions.map_values(|action: TunnelAction| action@)
}

/// What an engine answers.
pub open spec fn outcome(result: Result<Vec<TunnelAction>, EngineError>) -> Result<
    Seq<ActionModel>,
    EngineError,
> {
    match result {
        Ok(actions) => Ok(models(actions@)),
        Err(error) => Err(error),
    }
}

/// No actions.
pub(crate) fn no_actions() -> (r: Vec<TunnelAction>)
    ensures
        models(r@) == Seq::<ActionModel>::empty(),
{
    let r: Vec<TunnelAction> = Vec::new();
    assert(models(r@) =~= Seq::<ActionModel>::empty());
    r
}

/// One action.
pub(crate) fn one_action(first: TunnelAction) -> (r: Vec<TunnelAction>)
    ensures
        models(r@) == seq![first@],
{
    let mut r: Vec<TunnelAction> = Vec::new();
    r.push(first);
    assert(models(r@) =~= seq![first@]);
    r
}

/// Two actions.
pub(crate) fn two_actions(first: TunnelAction, second: TunnelAction) -> (r: Vec<TunnelAction>)
    ensures
        models(r@) == seq![first@, second@],
{
    let mut r: Vec<TunnelAction> = Vec::new();
    r.push(first);
    r.push(second);
    assert(models(r@) =~= seq![first@, second@]);
    r
}

/// Puts an action behind the others.
pub(crate) fn add_action(actions: &mut Vec<TunnelAction>, action: TunnelAction)
    ensures
        models(final(actions)@) == models(old(actions)@).push(action@),
{
    actions.push(action);
    assert(models(actions@) =~= models(old(actions)@).push(action@));
}

/// Puts actions behind the others.
pub(crate) fn add_actions(actions: &mut Vec<TunnelAction>, more: Vec<TunnelAction>)
    ensures
        models(final(actions)@) == models(old(actions)@) + models(more@),
{
    let mut more = more;
    let ghost added = more@;
    actions.append(&mut more);
    assert(models(actions@) =~= models(old(actions)@) + models(added));
}

} // verus!
