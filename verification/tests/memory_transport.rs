use std::sync::Arc;
use std::sync::atomic::{AtomicUsize, Ordering};
use std::task::{Context, Poll, Wake, Waker};

use udp2raw_ng::transport::QueueState;
use udp2raw_ng::{
    InboundPacket, MemoryTransportError, OutboundPacket, PacketTransport, PeerId,
    memory_transport_pair,
};

fn context() -> Context<'static> {
    Context::from_waker(Waker::noop())
}

fn ready_packet(poll: Poll<Result<InboundPacket, MemoryTransportError>>) -> InboundPacket {
    match poll {
        Poll::Ready(result) => result.expect("packet"),
        Poll::Pending => panic!("packet should be ready"),
    }
}

#[test]
fn pair_is_bidirectional_fifo_and_preserves_sender_peer() {
    let (mut a, mut b) = memory_transport_pair(2).expect("pair");
    let a_peer = a.local_peer();
    let b_peer = b.local_peer();
    a.send(OutboundPacket {
        peer_id: b_peer,
        frame: vec![1],
    })
    .expect("first");
    a.send(OutboundPacket {
        peer_id: b_peer,
        frame: vec![2],
    })
    .expect("second");
    assert_eq!(
        a.send(OutboundPacket {
            peer_id: b_peer,
            frame: vec![3],
        }),
        Err(MemoryTransportError::QueueFull)
    );

    let mut cx = context();
    let first = ready_packet(b.poll_receive(&mut cx));
    let second = ready_packet(b.poll_receive(&mut cx));
    assert_eq!(first.peer_id, a_peer);
    assert_eq!(first.frame, vec![1]);
    assert_eq!(second.frame, vec![2]);

    b.send(OutboundPacket {
        peer_id: a_peer,
        frame: vec![9],
    })
    .expect("reply");
    let reply = ready_packet(a.poll_receive(&mut cx));
    assert_eq!(reply.peer_id, b_peer);
    assert_eq!(reply.frame, vec![9]);
}

#[test]
fn dropping_peer_closes_both_directions() {
    let (a, mut b) = memory_transport_pair(1).expect("pair");
    let a_peer = a.local_peer();
    drop(a);
    assert_eq!(
        b.send(OutboundPacket {
            peer_id: a_peer,
            frame: vec![1],
        }),
        Err(MemoryTransportError::PeerClosed)
    );
    let mut cx = context();
    assert_eq!(
        b.poll_receive(&mut cx),
        Poll::Ready(Err(MemoryTransportError::PeerClosed))
    );
}

#[test]
fn a_pair_needs_capacity_and_has_fixed_routes() {
    assert!(matches!(
        memory_transport_pair(0),
        Err(MemoryTransportError::ZeroCapacity)
    ));
    let (a, b) = memory_transport_pair(1).expect("pair");
    assert_eq!(a.local_peer().get(), 1);
    assert_eq!(a.remote_peer().get(), 2);
    assert_eq!(b.local_peer().get(), 2);
    assert_eq!(b.remote_peer().get(), 1);
}

#[test]
fn other_routes_are_closed() {
    let (mut a, _b) = memory_transport_pair(1).expect("pair");
    assert_eq!(
        a.send(OutboundPacket {
            peer_id: PeerId::new(7),
            frame: vec![1],
        }),
        Err(MemoryTransportError::PeerClosed)
    );
}

#[test]
fn an_empty_queue_is_pending_and_what_was_sent_before_closing_is_read() {
    let (mut a, mut b) = memory_transport_pair(4).expect("pair");
    let mut cx = context();
    assert_eq!(b.poll_receive(&mut cx), Poll::Pending);
    let b_peer = b.local_peer();
    a.send(OutboundPacket {
        peer_id: b_peer,
        frame: vec![5],
    })
    .expect("send wakes the receiver");
    drop(a);
    assert_eq!(ready_packet(b.poll_receive(&mut cx)).frame, vec![5]);
    assert_eq!(
        b.poll_receive(&mut cx),
        Poll::Ready(Err(MemoryTransportError::PeerClosed))
    );
}

fn outbound(octet: u8) -> OutboundPacket {
    OutboundPacket {
        peer_id: PeerId::new(2),
        frame: vec![octet],
    }
}

fn inbound(octet: u8) -> InboundPacket {
    InboundPacket {
        peer_id: PeerId::new(1),
        frame: vec![octet],
    }
}

struct Calls(AtomicUsize);

impl Wake for Calls {
    fn wake(self: Arc<Self>) {
        self.0.fetch_add(1, Ordering::SeqCst);
    }
}

#[test]
fn a_queue_calls_the_receiver_that_waits() {
    let sender = PeerId::new(1);
    let mut queue = QueueState::new();
    assert!(matches!(queue.offer(2, true, sender, outbound(1)), Ok(None)));
    assert_eq!(
        queue.poll(true, Waker::noop().clone()),
        Poll::Ready(Ok(inbound(1)))
    );
    assert_eq!(queue.poll(true, Waker::noop().clone()), Poll::Pending);
    assert!(matches!(
        queue.offer(2, true, sender, outbound(2)),
        Ok(Some(_))
    ));
    assert!(matches!(queue.offer(2, true, sender, outbound(3)), Ok(None)));
    assert!(matches!(
        queue.offer(2, true, sender, outbound(4)),
        Err(MemoryTransportError::QueueFull)
    ));
    assert!(matches!(
        queue.offer(2, false, sender, outbound(4)),
        Err(MemoryTransportError::PeerClosed)
    ));
}

#[test]
fn a_closed_queue_is_emptied_first() {
    let sender = PeerId::new(1);
    let mut queue = QueueState::new();
    assert!(matches!(queue.offer(2, true, sender, outbound(1)), Ok(None)));
    assert!(queue.close_sender().is_none());
    assert_eq!(
        queue.poll(true, Waker::noop().clone()),
        Poll::Ready(Ok(inbound(1)))
    );
    assert_eq!(
        queue.poll(true, Waker::noop().clone()),
        Poll::Ready(Err(MemoryTransportError::PeerClosed))
    );
    let mut queue = QueueState::new();
    assert_eq!(queue.poll(true, Waker::noop().clone()), Poll::Pending);
    assert!(queue.close_sender().is_some());
    let mut queue = QueueState::new();
    assert!(queue.close_receiver().is_none());
    assert!(matches!(
        queue.offer(2, true, sender, outbound(1)),
        Err(MemoryTransportError::PeerClosed)
    ));
}

#[test]
fn sends_and_receives_may_interleave() {
    let (mut a, mut b) = memory_transport_pair(2).expect("pair");
    let mut cx = context();
    let mut received = Vec::new();
    for octet in 0..6 {
        assert_eq!(a.send(outbound(octet)), Ok(()));
        if octet % 2 == 1 {
            assert_eq!(
                a.send(outbound(99)),
                Err(MemoryTransportError::QueueFull)
            );
            received.push(ready_packet(b.poll_receive(&mut cx)));
            received.push(ready_packet(b.poll_receive(&mut cx)));
        }
    }
    assert_eq!(a.send(outbound(6)), Ok(()));
    a.close();
    received.push(ready_packet(b.poll_receive(&mut cx)));
    assert_eq!(received, (0..7).map(inbound).collect::<Vec<_>>());
    assert_eq!(
        b.poll_receive(&mut cx),
        Poll::Ready(Err(MemoryTransportError::PeerClosed))
    );
}

#[test]
fn closing_an_end_wakes_the_other() {
    let (a, mut b) = memory_transport_pair(1).expect("pair");
    let calls = Arc::new(Calls(AtomicUsize::new(0)));
    let waker = Waker::from(calls.clone());
    let mut cx = Context::from_waker(&waker);
    let a_peer = a.local_peer();
    assert_eq!(b.poll_receive(&mut cx), Poll::Pending);
    assert_eq!(calls.0.load(Ordering::SeqCst), 0);
    a.close();
    assert_eq!(calls.0.load(Ordering::SeqCst), 1);
    assert_eq!(
        b.poll_receive(&mut cx),
        Poll::Ready(Err(MemoryTransportError::PeerClosed))
    );
    assert_eq!(
        b.send(OutboundPacket {
            peer_id: a_peer,
            frame: vec![1],
        }),
        Err(MemoryTransportError::PeerClosed)
    );
}

#[test]
fn sending_wakes_the_receiver_that_waits() {
    let (mut a, mut b) = memory_transport_pair(2).expect("pair");
    let calls = Arc::new(Calls(AtomicUsize::new(0)));
    let waker = Waker::from(calls.clone());
    let mut cx = Context::from_waker(&waker);
    assert_eq!(b.poll_receive(&mut cx), Poll::Pending);
    assert_eq!(a.send(outbound(1)), Ok(()));
    assert_eq!(a.send(outbound(2)), Ok(()));
    assert_eq!(calls.0.load(Ordering::SeqCst), 1);
}
