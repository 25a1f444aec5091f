//! `udp2raw-ng`: authenticated UDP datagram tunnelling over a FakeTCP path.
//!
//! The crate holds the protocol engines, the record layer, the handshake, the
//! FakeTCP state machine and the decisions of the managed services. It performs
//! no network I/O of its own: a host feeds events and instants in and carries
//! out the actions that come back.

pub mod action;
pub mod activity_laws;
pub mod address;
pub mod attempt_laws;
pub mod bytes;
pub mod cipher;
pub mod cli;
pub mod client;
pub mod client_laws;
pub mod client_model;
pub mod config;
pub mod conversation_laws;
pub mod crypto;
pub mod entropy;
pub mod error;
pub mod faketcp;
pub mod faketcp_laws;
pub mod handshake;
pub mod handshake_laws;
pub mod id;
pub mod liveness_laws;
pub mod messages;
pub mod packet;
pub mod path_laws;
pub mod protocol;
pub mod rate_laws;
pub mod record;
pub mod replay;
pub mod routes;
pub mod secret;
pub mod server;
pub mod server_laws;
pub mod server_model;
pub mod service;
pub mod session_laws;
pub mod table;
pub mod text;
pub mod time;
pub mod transport;
pub mod tunnel_laws;

pub use action::{ClientDatagramDropReason, SessionState, TunnelAction, TunnelEvent};
pub use address::{SocketAddress, SocketAddressV4, SocketAddressV6};
pub use client::ClientEngine;
pub use config::{CipherSuite, EngineConfig, Role};
pub use error::{
    ConfigError, CryptoError, EngineError, FrameError, HandshakeError, RecordError, ReplayError,
};
pub use faketcp::{FakeTcpRole, LinuxFakeTcpConfig, LinuxTransportError};
pub use id::{ConversationHandle, ConversationId, PeerId, SessionId};
pub use protocol::{FrameType, MAX_FRAME_PAYLOAD, PROTOCOL_VERSION, WireFrame};
pub use replay::ReplayWindow;
pub use secret::Psk;
pub use server::ServerEngine;
pub use service::{
    ClientService, ServerService, ServiceBuilder, ServiceConfig, ServiceError, ServiceMetrics,
};
pub use time::{Duration, Instant};
pub use transport::{
    InboundPacket, MemoryTransport, MemoryTransportError, OutboundPacket, PacketTransport,
    memory_transport_pair,
};
