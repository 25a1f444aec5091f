//! What the managed services decide: how they are set up, what the actions of an
//! engine ask of the host, and which upstream routes are open.

use vstd::prelude::*;

use crate::action;
use crate::action::{ActionModel, TunnelAction, TunnelEvent};
use crate::address::SocketAddress;
use crate::bytes::piece;
use crate::client::ClientEngine;
use crate::client_model;
use crate::client_model::{ClientDraws, ClientModel};
use crate::config;
use crate::config::{EngineConfig, Role};
use crate::error::{ConfigError, EngineError};
use crate::id::{ConversationId, PeerId, SessionId};
use crate::protocol::MAX_FRAME_PAYLOAD;
use crate::secret::Psk;
use crate::server::ServerEngine;
use crate::server_model;
use crate::server_model::{ServerDraws, ServerModel};
use crate::table::Key;
use crate::time::Instant;
use crate::transport::{OutboundPacket, PacketModel, PacketTransport};

verus! {

/// Configuration of a managed service.
#[derive(Clone, Copy, Debug)]
pub struct ServiceConfig {
    pub engine: EngineConfig,
    /// Maximum packets waiting between the transport poller and protocol task.
    pub queue_capacity: usize,
    /// Reserved for a session-sharded runtime. The services have one engine owner
    /// and therefore require one worker.
    pub packet_workers: usize,
}

/// A service that cannot be set up or run.
#[derive(Debug)]
pub enum ServiceError {
    CoreConfig(ConfigError),
    ZeroQueueCapacity,
    UnsupportedPacketWorkerCount(usize),
    InvalidEngineRole,
    Engine(EngineError),
    /// A socket operation failed, and why.
    Io(String),
}

impl From<ConfigError> for ServiceError {
    fn from(error: ConfigError) -> (r: Self) {
        ServiceError::CoreConfig(error)
    }
}

impl vstd::std_specs::convert::FromSpecImpl<ConfigError> for ServiceError {
    open spec fn obeys_from_spec() -> bool {
        true
    }

    open spec fn from_spec(error: ConfigError) -> Self {
        ServiceError::CoreConfig(error)
    }
}

impl From<EngineError> for ServiceError {
    fn from(error: EngineError) -> (r: Self) {
        ServiceError::Engine(error)
    }
}

impl vstd::std_specs::convert::FromSpecImpl<EngineError> for ServiceError {
    open spec fn obeys_from_spec() -> bool {
        true
    }

    open spec fn from_spec(error: EngineError) -> Self {
        ServiceError::Engine(error)
    }
}

/// What is wrong with a service configuration.
pub open spec fn service_fault(config: ServiceConfig) -> Option<ServiceError> {
    match config::config_fault(config.engine) {
        Some(fault) => Some(ServiceError::CoreConfig(fault)),
        None => if config.queue_capacity == 0 {
            Some(ServiceError::ZeroQueueCapacity)
        } else if config.packet_workers != 1 {
            Some(ServiceError::UnsupportedPacketWorkerCount(config.packet_workers))
        } else {
            None
        },
    }
}

impl ServiceConfig {
    pub fn validate(&self) -> (r: Result<(), ServiceError>)
        ensures
            match r {
                Ok(()) => service_fault(*self) is None,
                Err(error) => service_fault(*self) == Some(error),
            },
    {
        match self.engine.validate() {
            Ok(()) => {},
            Err(error) => {
                return Err(ServiceError::from(error));
            },
        }
        if self.queue_capacity == 0 {
            return Err(ServiceError::ZeroQueueCapacity);
        }
        if self.packet_workers != 1 {
            return Err(ServiceError::UnsupportedPacketWorkerCount(self.packet_workers));
        }
        Ok(())
    }
}

/// Explicit bounded-queue and error counters of a managed service.
#[derive(Clone, Copy, Debug, Eq, PartialEq, Structural)]
pub struct ServiceMetrics {
    pub transport_queue_dropped: u64,
    pub client_datagrams_dropped: u64,
    pub upstream_datagrams_dropped: u64,
    pub transport_errors: u64,
    pub engine_errors: u64,
}

impl Default for ServiceMetrics {
    fn default() -> (r: Self)
        ensures
            r == (ServiceMetrics {
                transport_queue_dropped: 0,
                client_datagrams_dropped: 0,
                upstream_datagrams_dropped: 0,
                transport_errors: 0,
                engine_errors: 0,
            }),
    {
        ServiceMetrics {
            transport_queue_dropped: 0,
            client_datagrams_dropped: 0,
            upstream_datagrams_dropped: 0,
            transport_errors: 0,
            engine_errors: 0,
        }
    }
}

/// One of the counters of [`ServiceMetrics`].
#[derive(Clone, Copy, Debug, Eq, PartialEq, Structural)]
pub enum Counter {
    TransportQueueDropped,
    ClientDatagramsDropped,
    UpstreamDatagramsDropped,
    TransportErrors,
    EngineErrors,
}

/// Where a counter stands.
pub open spec fn reading(metrics: ServiceMetrics, counter: Counter) -> u64 {
    match counter {
        Counter::TransportQueueDropped => metrics.transport_queue_dropped,
        Counter::ClientDatagramsDropped => metrics.client_datagrams_dropped,
        Counter::UpstreamDatagramsDropped => metrics.upstream_datagrams_dropped,
        Counter::TransportErrors => metrics.transport_errors,
        Counter::EngineErrors => metrics.engine_errors,
    }
}

impl ServiceMetrics {
    /// Where a counter stands.
    pub fn read(&self, counter: Counter) -> (r: u64)
        ensures
            r == reading(*self, counter),
    {
        match counter {
            Counter::TransportQueueDropped => self.transport_queue_dropped,
            Counter::ClientDatagramsDropped => self.client_datagrams_dropped,
            Counter::UpstreamDatagramsDropped => self.upstream_datagrams_dropped,
            Counter::TransportErrors => self.transport_errors,
            Counter::EngineErrors => self.engine_errors,
        }
    }

    /// Counts one more; the other counters stay.
    pub fn count(&mut self, counter: Counter)
        requires
            reading(*old(self), counter) < u64::MAX,
        ensures
            forall|other: Counter| #[trigger]
                reading(*final(self), other) == reading(*old(self), other) + if other == counter {
                    1int
                } else {
                    0
                },
    {
        match counter {
            Counter::TransportQueueDropped => {
                self.transport_queue_dropped += 1;
            },
            Counter::ClientDatagramsDropped => {
                self.client_datagrams_dropped += 1;
            },
            Counter::UpstreamDatagramsDropped => {
                self.upstream_datagrams_dropped += 1;
            },
            Counter::TransportErrors => {
                self.transport_errors += 1;
            },
            Counter::EngineErrors => {
                self.engine_errors += 1;
            },
        }
    }
}

/// A configuration and the transport that a service will use.
pub struct ServiceBuilder<T> {
    config: ServiceConfig,
    transport: T,
}

/// A client that is set up: its engine, its transport and where it listens.
pub struct ClientService<T> {
    pub config: ServiceConfig,
    pub transport: T,
    pub engine: ClientEngine,
    pub listen: SocketAddress,
    pub metrics: ServiceMetrics,
}

/// A server that is set up: its engine, its transport, where it listens and where
/// it forwards to.
pub struct ServerService<T> {
    pub config: ServiceConfig,
    pub transport: T,
    pub engine: ServerEngine,
    pub listen: SocketAddress,
    pub upstream: SocketAddress,
    pub metrics: ServiceMetrics,
}

/// Counters that have counted nothing.
pub open spec fn no_counts(metrics: ServiceMetrics) -> bool {
    forall|counter: Counter| #[trigger] reading(metrics, counter) == 0
}

impl<T: PacketTransport> ServiceBuilder<T> {
    pub closed spec fn configuration(self) -> ServiceConfig {
        self.config
    }

    pub closed spec fn carrier(self) -> T {
        self.transport
    }

    pub fn new(config: ServiceConfig, transport: T) -> (r: Self)
        ensures
            r.configuration() == config,
            r.carrier() == transport,
    {
        ServiceBuilder { config, transport }
    }

    pub fn build_client(self, psk: Psk, server_peer: PeerId, listen: SocketAddress) -> (r: Result<
        ClientService<T>,
        ServiceError,
    >)
        ensures
            match r {
                Ok(service) => {
                    &&& service_fault(self.configuration()) is None
                    &&& self.configuration().engine.role == Role::Client
                    &&& service.config == self.configuration()
                    &&& service.transport == self.carrier()
                    &&& service.engine@ == client_model::new_client(
                        self.configuration().engine,
                        psk@,
                        server_peer,
                    )
                    &&& client_model::client_valid(service.engine@)
                    &&& service.listen == listen
                    &&& no_counts(service.metrics)
                },
                Err(error) => match service_fault(self.configuration()) {
                    Some(fault) => error == fault,
                    None => self.configuration().engine.role != Role::Client && error
                        == ServiceError::InvalidEngineRole,
                },
            },
    {
        match self.config.validate() {
            Ok(()) => {},
            Err(error) => {
                return Err(error);
            },
        }
        if self.config.engine.role != Role::Client {
            return Err(ServiceError::InvalidEngineRole);
        }
        match ClientEngine::new(self.config.engine, psk, server_peer) {
            Ok(engine) => Ok(
                ClientService {
                    config: self.config,
                    transport: self.transport,
                    engine,
                    listen,
                    metrics: ServiceMetrics::default(),
                },
            ),
            Err(error) => Err(ServiceError::from(error)),
        }
    }

    pub fn build_server(self, psk: Psk, listen: SocketAddress, upstream: SocketAddress) -> (r:
        Result<ServerService<T>, ServiceError>)
        ensures
            match r {
                Ok(service) => {
                    &&& service_fault(self.configuration()) is None
                    &&& self.configuration().engine.role == Role::Server
                    &&& service.config == self.configuration()
                    &&& service.transport == self.carrier()
                    &&& service.engine@.cookie_secret.len() == 32
                    &&& service.engine@ == server_model::new_server(
                        self.configuration().engine,
                        psk@,
                        service.engine@.cookie_secret,
                    )
                    &&& server_model::server_valid(service.engine@)
                    &&& service.listen == listen
                    &&& service.upstream == upstream
                    &&& no_counts(service.metrics)
                },
                Err(error) => match service_fault(self.configuration()) {
                    Some(fault) => error == fault,
                    None => if self.configuration().engine.role != Role::Server {
                        error == ServiceError::InvalidEngineRole
                    } else {
                        error == ServiceError::Engine(EngineError::RandomnessUnavailable)
                    },
                },
            },
    {
        match self.config.validate() {
            Ok(()) => {},
            Err(error) => {
                return Err(error);
            },
        }
        if self.config.engine.role != Role::Server {
            return Err(ServiceError::InvalidEngineRole);
        }
        match ServerEngine::new(self.config.engine, psk) {
            Ok(engine) => Ok(
                ServerService {
                    config: self.config,
                    transport: self.transport,
                    engine,
                    listen,
                    upstream,
                    metrics: ServiceMetrics::default(),
                },
            ),
            Err(error) => Err(ServiceError::from(error)),
        }
    }
}

/// What a client's host has to do.
#[derive(Debug, Eq, PartialEq)]
#[allow(inconsistent_fields)]
pub enum ClientCommand {
    /// Put a packet into the queue of the transport.
    Enqueue(OutboundPacket),
    /// Send a datagram to a local peer.
    Deliver { local_peer: SocketAddress, payload: Vec<u8> },
    /// Count something.
    Count(Counter),
}

/// What a [`ClientCommand`] says.
pub enum ClientCommandModel {
    Enqueue(PacketModel),
    Deliver { local_peer: SocketAddress, payload: Seq<u8> },
    Count(Counter),
}

impl View for ClientCommand {
    type V = ClientCommandModel;

    open spec fn view(&self) -> ClientCommandModel {
        match *self {
            ClientCommand::Enqueue(packet) => ClientCommandModel::Enqueue(packet@),
            ClientCommand::Deliver { local_peer, payload } => ClientCommandModel::Deliver {
                local_peer,
                payload: payload@,
            },
            ClientCommand::Count(counter) => ClientCommandModel::Count(counter),
        }
    }
}

/// What an action asks of a client's host.
pub open spec fn client_command_of(action: ActionModel) -> Option<ClientCommandModel> {
    match action {
        ActionModel::SendTunnelFrame { peer_id, bytes } => Some(
            ClientCommandModel::Enqueue(PacketModel { peer_id, frame: bytes }),
        ),
        ActionModel::DeliverToClient { local_peer, payload } => Some(
            ClientCommandModel::Deliver { local_peer, payload },
        ),
        ActionModel::ClientDatagramDropped { local_peer, reason } => Some(
            ClientCommandModel::Count(Counter::ClientDatagramsDropped),
        ),
        _ => None,
    }
}

/// What actions ask of a client's host, in their order.
pub open spec fn client_commands_of(actions: Seq<ActionModel>) -> Seq<ClientCommandModel>
    decreases actions.len(),
{
    if actions.len() == 0 {
        Seq::empty()
    } else {
        let earlier = client_commands_of(actions.drop_last());
        match client_command_of(actions.last()) {
            Some(command) => earlier.push(command),
            None => earlier,
        }
    }
}

/// What a list of commands says.
pub open spec fn client_command_models(commands: Seq<ClientCommand>) -> Seq<ClientCommandModel> {
    commands.map_values(|command: ClientCommand| command@)
}

fn client_command(action: TunnelAction) -> (r: Option<ClientCommand>)
    ensures
        match r {
            Some(command) => client_command_of(action@) == Some(command@),
            None => client_command_of(action@) is None,
        },
{
    match action {
        TunnelAction::SendTunnelFrame { peer_id, bytes } => Some(
            ClientCommand::Enqueue(OutboundPacket { peer_id, frame: bytes }),
        ),
        TunnelAction::DeliverToClient { local_peer, payload } => Some(
            ClientCommand::Deliver { local_peer, payload },
        ),
        TunnelAction::ClientDatagramDropped { local_peer: _, reason: _ } => Some(
            ClientCommand::Count(Counter::ClientDatagramsDropped),
        ),
        _ => None,
    }
}

/// What actions ask of a client's host.
pub fn client_commands(actions: Vec<TunnelAction>) -> (r: Vec<ClientCommand>)
    ensures
        client_command_models(r@) == client_commands_of(action::models(actions@)),
{
    let ghost all = action::models(actions@);
    let mut commands: Vec<ClientCommand> = Vec::new();
    assert(all.take(0) =~= Seq::empty());
    assert(client_command_models(commands@) =~= Seq::empty());
    for action in taken: actions.into_iter()
        invariant
            all == action::models(taken.seq()),
            client_command_models(commands@) == client_commands_of(all.take(taken.index())),
    {
        assert(all.take(taken.index() + 1).drop_last() =~= all.take(taken.index()));
        let ghost earlier = client_command_models(commands@);
        assert(action@ == all[taken.index()]);
        match client_command(action) {
            Some(command) => {
                commands.push(command);
                assert(client_command_models(commands@) =~= earlier.push(command@));
            },
            None => {},
        }
    }
    assert(all.take(all.len() as int) =~= all);
    commands
}

impl<T> ClientService<T> {
    /// Hands an event to the engine, and says what the host has to do.
    pub fn handle(&mut self, event: TunnelEvent, now: Instant) -> (r: Result<
        Vec<ClientCommand>,
        ServiceError,
    >)
        requires
            client_model::client_valid(old(self).engine@),
        ensures
            client_model::client_valid(final(self).engine@),
            final(self).config == old(self).config,
            final(self).transport == old(self).transport,
            final(self).listen == old(self).listen,
            final(self).metrics == old(self).metrics,
            exists|draws: ClientDraws|
                {
                    &&& client_model::drawn_for(old(self).engine@, event@, now, draws)
                    &&& #[trigger] handled_by_client(
                        client_model::client_step(old(self).engine@, event@, now, draws),
                        final(self).engine@,
                        r,
                    )
                },
    {
        let ghost start = self.engine@;
        let answer = self.engine.handle(event, now);
        let ghost draws = choose|draws: ClientDraws|
            {
                &&& client_model::drawn_for(start, event@, now, draws)
                &&& #[trigger] client_model::client_step(start, event@, now, draws) == (
                    self.engine@,
                    action::outcome(answer),
                )
            };
        let ghost step = client_model::client_step(start, event@, now, draws);
        let r = match answer {
            Ok(actions) => Ok(client_commands(actions)),
            Err(error) => Err(ServiceError::from(error)),
        };
        assert(handled_by_client(step, self.engine@, r));
        r
    }
}

/// What a client service makes of what its engine did.
pub open spec fn handled_by_client(
    step: (ClientModel, Result<Seq<ActionModel>, EngineError>),
    engine: ClientModel,
    answer: Result<Vec<ClientCommand>, ServiceError>,
) -> bool {
    &&& engine == step.0
    &&& match step.1 {
        Ok(actions) => answer matches Ok(commands) && client_command_models(commands@)
            == client_commands_of(actions),
        Err(error) => answer matches Err(fault) && fault == ServiceError::Engine(error),
    }
}

/// The event of a datagram that a local peer sent. One that is too long for a
/// record is dropped.
pub fn local_datagram(local_peer: SocketAddress, buffer: &[u8], length: usize) -> (r: Option<
    TunnelEvent,
>)
    requires
        length <= buffer@.len(),
    ensures
        match r {
            Some(event) => length <= MAX_FRAME_PAYLOAD && event@
                == (action::EventModel::ClientDatagram {
                local_peer,
                payload: buffer@.take(length as int),
            }),
            None => length > MAX_FRAME_PAYLOAD,
        },
{
    if length > MAX_FRAME_PAYLOAD {
        return None;
    }
    Some(TunnelEvent::ClientDatagram { local_peer, payload: piece(buffer, 0, length) })
}

/// What a server's host has to do.
#[derive(Debug, Eq, PartialEq)]
#[allow(inconsistent_fields)]
pub enum ServerCommand {
    /// Put a packet into the queue of the transport.
    Enqueue(OutboundPacket),
    /// Send a datagram over the route, which is opened first where it is not.
    SendUpstream { key: RouteKey, payload: Vec<u8> },
    /// Move the routes of one session to another.
    MigrateRoutes { old_session_id: SessionId, new_session_id: SessionId },
    /// Close the routes of a session.
    RemoveSession { session_id: SessionId },
    /// Close one route.
    RemoveRoute { key: RouteKey },
}

/// What a [`ServerCommand`] says.
#[allow(inconsistent_fields)]
pub enum ServerCommandModel {
    Enqueue(PacketModel),
    SendUpstream { key: RouteKey, payload: Seq<u8> },
    MigrateRoutes { old_session_id: SessionId, new_session_id: SessionId },
    RemoveSession { session_id: SessionId },
    RemoveRoute { key: RouteKey },
}

impl View for ServerCommand {
    type V = ServerCommandModel;

    open spec fn view(&self) -> ServerCommandModel {
        match *self {
            ServerCommand::Enqueue(packet) => ServerCommandModel::Enqueue(packet@),
            ServerCommand::SendUpstream { key, payload } => ServerCommandModel::SendUpstream {
                key,
                payload: payload@,
            },
            ServerCommand::MigrateRoutes { old_session_id, new_session_id } =>
                ServerCommandModel::MigrateRoutes { old_session_id, new_session_id },
            ServerCommand::RemoveSession { session_id } => ServerCommandModel::RemoveSession {
                session_id,
            },
            ServerCommand::RemoveRoute { key } => ServerCommandModel::RemoveRoute { key },
        }
    }
}

/// An upstream route belongs to one conversation of one session.
#[derive(Clone, Copy, Debug, Eq, Hash, PartialEq, Structural)]
pub struct RouteKey {
    pub session_id: SessionId,
    pub conversation_id: ConversationId,
}

impl Key for RouteKey {
    fn same(&self, other: &Self) -> (r: bool) {
        *self == *other
    }
}

/// What an action asks of a server's host.
pub open spec fn server_command_of(action: ActionModel) -> Option<ServerCommandModel> {
    match action {
        ActionModel::SendTunnelFrame { peer_id, bytes } => Some(
            ServerCommandModel::Enqueue(PacketModel { peer_id, frame: bytes }),
        ),
        ActionModel::DeliverToUpstream { session_id, conversation_id, payload } => Some(
            ServerCommandModel::SendUpstream {
                key: RouteKey { session_id, conversation_id },
                payload,
            },
        ),
        ActionModel::SessionResumed { peer_id, old_session_id, new_session_id } => Some(
            ServerCommandModel::MigrateRoutes { old_session_id, new_session_id },
        ),
        ActionModel::SessionRecoveryExpired { session_id } => Some(
            ServerCommandModel::RemoveSession { session_id },
        ),
        ActionModel::ConversationClosed { session_id: Some(session_id), conversation_id } => Some(
            ServerCommandModel::RemoveRoute { key: RouteKey { session_id, conversation_id } },
        ),
        _ => None,
    }
}

/// What actions ask of a server's host, in their order.
pub open spec fn server_commands_of(actions: Seq<ActionModel>) -> Seq<ServerCommandModel>
    decreases actions.len(),
{
    if actions.len() == 0 {
        Seq::empty()
    } else {
        let earlier = server_commands_of(actions.drop_last());
        match server_command_of(actions.last()) {
            Some(command) => earlier.push(command),
            None => earlier,
        }
    }
}

/// What a list of commands says.
pub open spec fn server_command_models(commands: Seq<ServerCommand>) -> Seq<ServerCommandModel> {
    commands.map_values(|command: ServerCommand| command@)
}

fn server_command(action: TunnelAction) -> (r: Option<ServerCommand>)
    ensures
        match r {
            Some(command) => server_command_of(action@) == Some(command@),
            None => server_command_of(action@) is None,
        },
{
    match action {
        TunnelAction::SendTunnelFrame { peer_id, bytes } => Some(
            ServerCommand::Enqueue(OutboundPacket { peer_id, frame: bytes }),
        ),
        TunnelAction::DeliverToUpstream { session_id, conversation_id, payload } => Some(
            ServerCommand::SendUpstream {
                key: RouteKey { session_id, conversation_id },
                payload,
            },
        ),
        TunnelAction::SessionResumed { peer_id: _, old_session_id, new_session_id } => Some(
            ServerCommand::MigrateRoutes { old_session_id, new_session_id },
        ),
        TunnelAction::SessionRecoveryExpired { session_id } => Some(
            ServerCommand::RemoveSession { session_id },
        ),
        TunnelAction::ConversationClosed { session_id: Some(session_id), conversation_id } => Some(
            ServerCommand::RemoveRoute { key: RouteKey { session_id, conversation_id } },
        ),
        _ => None,
    }
}

/// What actions ask of a server's host.
pub fn server_commands(actions: Vec<TunnelAction>) -> (r: Vec<ServerCommand>)
    ensures
        server_command_models(r@) == server_commands_of(action::models(actions@)),
{
    let ghost all = action::models(actions@);
    let mut commands: Vec<ServerCommand> = Vec::new();
    assert(all.take(0) =~= Seq::empty());
    assert(server_command_models(commands@) =~= Seq::empty());
    for action in taken: actions.into_iter()
        invariant
            all == action::models(taken.seq()),
            server_command_models(commands@) == server_commands_of(all.take(taken.index())),
    {
        assert(all.take(taken.index() + 1).drop_last() =~= all.take(taken.index()));
        let ghost earlier = server_command_models(commands@);
        assert(action@ == all[taken.index()]);
        match server_command(action) {
            Some(command) => {
                commands.push(command);
                assert(server_command_models(commands@) =~= earlier.push(command@));
            },
            None => {},
        }
    }
    assert(all.take(all.len() as int) =~= all);
    commands
}

impl<T> ServerService<T> {
    /// Hands an event to the engine, and says what the host has to do.
    pub fn handle(&mut self, event: TunnelEvent, now: Instant) -> (r: Result<
        Vec<ServerCommand>,
        ServiceError,
    >)
        requires
            server_model::server_valid(old(self).engine@),
        ensures
            server_model::server_valid(final(self).engine@),
            final(self).config == old(self).config,
            final(self).transport == old(self).transport,
            final(self).listen == old(self).listen,
            final(self).upstream == old(self).upstream,
            final(self).metrics == old(self).metrics,
            exists|draws: ServerDraws|
                {
                    &&& server_model::drawn_for(old(self).engine@, event@, now, draws)
                    &&& #[trigger] handled_by_server(
                        server_model::server_step(old(self).engine@, event@, now, draws),
                        final(self).engine@,
                        r,
                    )
                },
    {
        let ghost start = self.engine@;
        let answer = self.engine.handle(event, now);
        let ghost draws = choose|draws: ServerDraws|
            {
                &&& server_model::drawn_for(start, event@, now, draws)
                &&& #[trigger] server_model::server_step(start, event@, now, draws) == (
                    self.engine@,
                    action::outcome(answer),
                )
            };
        let ghost step = server_model::server_step(start, event@, now, draws);
        let r = match answer {
            Ok(actions) => Ok(server_commands(actions)),
            Err(error) => Err(ServiceError::from(error)),
        };
        assert(handled_by_server(step, self.engine@, r));
        r
    }
}

/// What a server service makes of what its engine did.
pub open spec fn handled_by_server(
    step: (ServerModel, Result<Seq<ActionModel>, EngineError>),
    engine: ServerModel,
    answer: Result<Vec<ServerCommand>, ServiceError>,
) -> bool {
    &&& engine == step.0
    &&& match step.1 {
        Ok(actions) => answer matches Ok(commands) && server_command_models(commands@)
            == server_commands_of(actions),
        Err(error) => answer matches Err(fault) && fault == ServiceError::Engine(error),
    }
}

/// What actions ask of a host is asked action by action and in their order.
pub proof fn law_commands_come_in_order(a: Seq<ActionModel>, b: Seq<ActionModel>)
    ensures
        client_commands_of(a + b) == client_commands_of(a) + client_commands_of(b),
        server_commands_of(a + b) == server_commands_of(a) + server_commands_of(b),
    decreases b.len(),
{
    if b.len() == 0 {
        assert(a + b =~= a);
        assert(client_commands_of(a) + client_commands_of(b) =~= client_commands_of(a));
        assert(server_commands_of(a) + server_commands_of(b) =~= server_commands_of(a));
    } else {
        law_commands_come_in_order(a, b.drop_last());
        assert((a + b).drop_last() =~= a + b.drop_last());
        assert(client_commands_of(a + b) =~= client_commands_of(a) + client_commands_of(b));
        assert(server_commands_of(a + b) =~= server_commands_of(a) + server_commands_of(b));
    }
}

/// What one action asks of a client's host: a frame is queued for its route, a payload is
/// sent to its local peer, the loss of a datagram is counted; anything else is for the
/// host's information.
pub proof fn law_client_actions_are_carried_out(action: ActionModel)
    ensures
        ({
            let commands = client_commands_of(seq![action]);
            match action {
                ActionModel::SendTunnelFrame { peer_id, bytes } => commands.len() == 1
                    && commands[0] == ClientCommandModel::Enqueue(
                    PacketModel { peer_id, frame: bytes },
                ),
                ActionModel::DeliverToClient { local_peer, payload } => commands.len() == 1
                    && commands[0] == (ClientCommandModel::Deliver { local_peer, payload }),
                ActionModel::ClientDatagramDropped { local_peer, reason } => commands.len() == 1
                    && commands[0] == ClientCommandModel::Count(Counter::ClientDatagramsDropped),
                _ => commands.len() == 0,
            }
        }),
{
    assert(seq![action].drop_last() =~= Seq::empty());
    reveal_with_fuel(client_commands_of, 2);
}

/// What one action asks of a server's host: a frame is queued for its route, a payload is
/// sent over the route of its conversation, the routes of a resumed session move, those
/// of one that can be resumed no longer are closed, and that of a closed conversation is;
/// anything else is for the host's information. The end of a session in particular closes
/// no route.
pub proof fn law_server_actions_are_carried_out(action: ActionModel)
    ensures
        ({
            let commands = server_commands_of(seq![action]);
            match action {
                ActionModel::SendTunnelFrame { peer_id, bytes } => commands.len() == 1
                    && commands[0] == ServerCommandModel::Enqueue(
                    PacketModel { peer_id, frame: bytes },
                ),
                ActionModel::DeliverToUpstream { session_id, conversation_id, payload } =>
                    commands.len() == 1 && commands[0] == (ServerCommandModel::SendUpstream {
                    key: RouteKey { session_id, conversation_id },
                    payload,
                }),
                ActionModel::SessionResumed { peer_id, old_session_id, new_session_id } =>
                    commands.len() == 1 && commands[0] == (ServerCommandModel::MigrateRoutes {
                    old_session_id,
                    new_session_id,
                }),
                ActionModel::SessionRecoveryExpired { session_id } => commands.len() == 1
                    && commands[0] == (ServerCommandModel::RemoveSession { session_id }),
                ActionModel::ConversationClosed { session_id, conversation_id } =>
                    match session_id {
                    Some(session_id) => commands.len() == 1 && commands[0] == (
                    ServerCommandModel::RemoveRoute {
                        key: RouteKey { session_id, conversation_id },
                    }),
                    None => commands.len() == 0,
                },
                _ => commands.len() == 0,
            }
        }),
{
    assert(seq![action].drop_last() =~= Seq::empty());
    reveal_with_fuel(server_commands_of, 2);
}

/// A service configuration is valid exactly where that of its engine is, its queues hold
/// something, and one packet worker is asked for.
pub proof fn law_valid_service_configurations(config: ServiceConfig)
    ensures
        service_fault(config) is None <==> config::config_fault(config.engine) is None
            && config.queue_capacity > 0 && config.packet_workers == 1,
{
}

} // verus!
