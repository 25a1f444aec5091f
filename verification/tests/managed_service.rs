use udp2raw_ng::address::{SocketAddressV4, SocketAddressV6};
use udp2raw_ng::routes::{
    PollOutcome, Routes, UpstreamStep, after_poll, bind_address_for, reply_packets,
    upstream_datagram,
};
use udp2raw_ng::service::{
    ClientCommand, Counter, RouteKey, ServerCommand, client_commands, local_datagram,
    server_commands,
};
use udp2raw_ng::{
    ClientDatagramDropReason, ConfigError, ConversationId, Duration, EngineConfig, EngineError,
    Instant, OutboundPacket, PeerId, Psk, ServiceBuilder, ServiceConfig, ServiceError,
    ServiceMetrics, SessionId, SocketAddress, TunnelAction, TunnelEvent, memory_transport_pair,
};

fn psk() -> Psk {
    Psk::new(vec![9; 32]).expect("valid psk")
}

fn config(engine: EngineConfig) -> ServiceConfig {
    ServiceConfig {
        engine,
        queue_capacity: 64,
        packet_workers: 1,
    }
}

fn address(port: u16) -> SocketAddress {
    SocketAddress::V4(SocketAddressV4 {
        ip: 0x7f00_0001,
        port,
    })
}

fn key(session: u64, conversation: u32) -> RouteKey {
    RouteKey {
        session_id: SessionId::from_u64(session),
        conversation_id: ConversationId::new(conversation).expect("non-zero"),
    }
}

#[test]
fn managed_udp_harness_requires_one_engine_owner() {
    let mut config = ServiceConfig {
        engine: EngineConfig::client(),
        queue_capacity: 1,
        packet_workers: 2,
    };
    assert!(config.validate().is_err());
    config.packet_workers = 1;
    assert!(config.validate().is_ok());
}

#[test]
fn service_configurations_are_refused_for_what_is_wrong_with_them() {
    let mut broken = config(EngineConfig::client());
    broken.packet_workers = 3;
    assert!(matches!(
        broken.validate(),
        Err(ServiceError::UnsupportedPacketWorkerCount(3))
    ));
    broken.queue_capacity = 0;
    assert!(matches!(
        broken.validate(),
        Err(ServiceError::ZeroQueueCapacity)
    ));
    broken.engine.max_sessions = 0;
    assert!(matches!(
        broken.validate(),
        Err(ServiceError::CoreConfig(ConfigError::ZeroSessionLimit))
    ));
}

#[test]
fn builders_need_the_role_of_their_service() {
    let (transport, _other) = memory_transport_pair(1).expect("pair");
    assert!(matches!(
        ServiceBuilder::new(config(EngineConfig::server()), transport).build_client(
            psk(),
            PeerId::new(2),
            address(1)
        ),
        Err(ServiceError::InvalidEngineRole)
    ));
    let (transport, _other) = memory_transport_pair(1).expect("pair");
    assert!(matches!(
        ServiceBuilder::new(config(EngineConfig::client()), transport).build_server(
            psk(),
            address(1),
            address(2)
        ),
        Err(ServiceError::InvalidEngineRole)
    ));
}

#[test]
fn services_tunnel_a_datagram_and_its_reply() {
    let now = Instant::from_nanos(1_000_000_000);
    let (near, far) = memory_transport_pair(64).expect("pair");
    let client_peer = near.local_peer();
    let server_peer = far.local_peer();
    let mut client = ServiceBuilder::new(config(EngineConfig::client()), near)
        .build_client(psk(), server_peer, address(1))
        .expect("client");
    let mut server = ServiceBuilder::new(config(EngineConfig::server()), far)
        .build_server(psk(), address(2), address(3))
        .expect("server");
    assert_eq!(client.metrics, ServiceMetrics::default());
    assert_eq!(server.upstream, address(3));

    let mut to_server = client.handle(TunnelEvent::Start, now).expect("start");
    to_server.extend(
        client
            .handle(
                TunnelEvent::ClientDatagram {
                    local_peer: address(7),
                    payload: b"managed".to_vec(),
                },
                now,
            )
            .expect("queued"),
    );
    let mut upstream = None;
    for _ in 0..8 {
        let mut to_client = Vec::new();
        for command in to_server.drain(..) {
            if let ClientCommand::Enqueue(packet) = command {
                assert_eq!(packet.peer_id, server_peer);
                let event = TunnelEvent::TunnelFrame {
                    peer_id: client_peer,
                    bytes: packet.frame,
                };
                to_client.extend(server.handle(event, now).expect("server"));
            }
        }
        for command in to_client {
            match command {
                ServerCommand::Enqueue(packet) => {
                    let event = TunnelEvent::TunnelFrame {
                        peer_id: server_peer,
                        bytes: packet.frame,
                    };
                    to_server.extend(client.handle(event, now).expect("client"));
                }
                ServerCommand::SendUpstream { key, payload } => {
                    assert_eq!(payload, b"managed");
                    upstream = Some(key);
                }
                other => panic!("unexpected {other:?}"),
            }
        }
    }
    let key = upstream.expect("delivered");
    let mut routes = Routes::new();
    routes.install(key, 1);
    let step = upstream_datagram(&routes, key, b"reply and more", 5);
    let UpstreamStep::Hand(event) = step else {
        panic!("the route is open");
    };
    let reply = server.engine.handle(event, now).expect("reply");
    let packets = reply_packets(reply);
    assert_eq!(packets.len(), 1);
    let delivered = client
        .handle(
            TunnelEvent::TunnelFrame {
                peer_id: server_peer,
                bytes: packets[0].frame.clone(),
            },
            now,
        )
        .expect("delivered");
    assert_eq!(
        delivered,
        vec![ClientCommand::Deliver {
            local_peer: address(7),
            payload: b"reply".to_vec(),
        }]
    );
}

#[test]
fn an_engine_error_ends_the_service() {
    let (transport, _other) = memory_transport_pair(1).expect("pair");
    let mut client = ServiceBuilder::new(config(EngineConfig::client()), transport)
        .build_client(psk(), PeerId::new(2), address(1))
        .expect("client");
    let now = Instant::from_nanos(1);
    assert!(matches!(
        client.handle(TunnelEvent::Reconnect, now),
        Err(ServiceError::Engine(EngineError::SessionNotReady))
    ));
}

fn every_action() -> Vec<TunnelAction> {
    let peer_id = PeerId::new(4);
    let session_id = SessionId::from_u64(5);
    let conversation_id = ConversationId::new(6).expect("non-zero");
    vec![
        TunnelAction::SendTunnelFrame {
            peer_id,
            bytes: vec![1],
        },
        TunnelAction::DeliverToClient {
            local_peer: address(7),
            payload: vec![2],
        },
        TunnelAction::DeliverToUpstream {
            session_id,
            conversation_id,
            payload: vec![3],
        },
        TunnelAction::SessionEstablished {
            peer_id,
            session_id,
            cipher_suite: udp2raw_ng::CipherSuite::Aes128Gcm,
            resumed: false,
        },
        TunnelAction::SessionResumed {
            peer_id,
            old_session_id: session_id,
            new_session_id: SessionId::from_u64(8),
        },
        TunnelAction::SessionClosed {
            peer_id,
            session_id,
        },
        TunnelAction::SessionRecoveryExpired { session_id },
        TunnelAction::ConversationOpened {
            session_id: Some(session_id),
            conversation_id,
        },
        TunnelAction::ConversationClosed {
            session_id: Some(session_id),
            conversation_id,
        },
        TunnelAction::ConversationClosed {
            session_id: None,
            conversation_id,
        },
        TunnelAction::ClientDatagramDropped {
            local_peer: address(7),
            reason: ClientDatagramDropReason::SessionClosed,
        },
        TunnelAction::ScheduleTimer(Duration::from_secs(1)),
    ]
}

#[test]
fn actions_become_commands_of_their_host() {
    let packet = || OutboundPacket {
        peer_id: PeerId::new(4),
        frame: vec![1],
    };
    assert_eq!(
        client_commands(every_action()),
        vec![
            ClientCommand::Enqueue(packet()),
            ClientCommand::Deliver {
                local_peer: address(7),
                payload: vec![2],
            },
            ClientCommand::Count(Counter::ClientDatagramsDropped),
        ]
    );
    assert_eq!(
        server_commands(every_action()),
        vec![
            ServerCommand::Enqueue(packet()),
            ServerCommand::SendUpstream {
                key: key(5, 6),
                payload: vec![3],
            },
            ServerCommand::MigrateRoutes {
                old_session_id: SessionId::from_u64(5),
                new_session_id: SessionId::from_u64(8),
            },
            ServerCommand::RemoveSession {
                session_id: SessionId::from_u64(5),
            },
            ServerCommand::RemoveRoute { key: key(5, 6) },
        ]
    );
    assert_eq!(reply_packets(every_action()), vec![packet()]);
}

#[test]
fn counters_count_alone() {
    let mut metrics = ServiceMetrics::default();
    let counters = [
        Counter::TransportQueueDropped,
        Counter::ClientDatagramsDropped,
        Counter::UpstreamDatagramsDropped,
        Counter::TransportErrors,
        Counter::EngineErrors,
    ];
    for (times, counter) in counters.into_iter().enumerate() {
        for _ in 0..=times {
            metrics.count(counter);
        }
    }
    assert_eq!(
        metrics,
        ServiceMetrics {
            transport_queue_dropped: 1,
            client_datagrams_dropped: 2,
            upstream_datagrams_dropped: 3,
            transport_errors: 4,
            engine_errors: 5,
        }
    );
    assert_eq!(metrics.read(Counter::TransportErrors), 4);
}

#[test]
fn resumed_routes_move_with_their_sockets() {
    let mut routes = Routes::new();
    routes.install(key(1, 1), 11);
    routes.install(key(1, 2), 12);
    routes.install(key(2, 1), 21);
    routes.install(key(3, 2), 32);
    let moved = routes.migrate_session_routes(SessionId::from_u64(1), SessionId::from_u64(3));
    assert_eq!(moved, vec![(key(1, 1), 11), (key(1, 2), 12)]);
    assert_eq!(routes.socket_of(key(3, 1)), Some(11));
    assert_eq!(routes.socket_of(key(3, 2)), Some(12));
    assert_eq!(routes.socket_of(key(2, 1)), Some(21));
    assert!(!routes.is_open(key(1, 1)));
    assert!(!routes.is_open(key(1, 2)));
}

#[test]
fn routes_close_one_by_one_and_by_session() {
    let mut routes = Routes::new();
    routes.install(key(1, 1), 11);
    routes.install(key(1, 2), 12);
    routes.install(key(2, 1), 21);
    assert_eq!(routes.remove_route(key(1, 1)), Some(11));
    assert_eq!(routes.remove_route(key(1, 1)), None);
    assert_eq!(
        routes.remove_session_routes(SessionId::from_u64(1)),
        vec![(key(1, 2), 12)]
    );
    assert!(routes.is_open(key(2, 1)));
}

#[test]
fn datagrams_too_long_for_a_record_are_dropped() {
    let buffer = [1; 1151];
    assert!(local_datagram(address(7), &buffer, 1151).is_none());
    assert!(matches!(
        local_datagram(address(7), &buffer, 1150),
        Some(TunnelEvent::ClientDatagram { payload, .. }) if payload.len() == 1150
    ));
    let mut routes = Routes::new();
    assert!(matches!(
        upstream_datagram(&routes, key(1, 1), &buffer, 1151),
        UpstreamStep::Stop
    ));
    routes.install(key(1, 1), 1);
    assert!(matches!(
        upstream_datagram(&routes, key(1, 1), &buffer, 1151),
        UpstreamStep::Drop
    ));
}

#[test]
fn upstream_sockets_are_of_the_family_of_the_upstream() {
    assert_eq!(
        bind_address_for(address(53)),
        SocketAddress::V4(SocketAddressV4 { ip: 0, port: 0 })
    );
    let six = SocketAddressV6 {
        ip: 1,
        port: 53,
        flow_info: 2,
        scope_id: 3,
    };
    assert_eq!(
        bind_address_for(SocketAddress::V6(six)),
        SocketAddress::V6(SocketAddressV6 {
            ip: 0,
            port: 0,
            flow_info: 0,
            scope_id: 0,
        })
    );
}

#[test]
fn the_poller_counts_and_stops() {
    assert_eq!(after_poll(PollOutcome::Passed), (None, false));
    assert_eq!(
        after_poll(PollOutcome::QueueFull),
        (Some(Counter::TransportQueueDropped), false)
    );
    assert_eq!(after_poll(PollOutcome::QueueClosed), (None, true));
    assert_eq!(
        after_poll(PollOutcome::TransportFailed),
        (Some(Counter::TransportErrors), true)
    );
}
