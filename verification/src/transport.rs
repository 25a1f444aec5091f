//! Packet transports, and a bounded in-memory pair of them.

use vstd::prelude::*;

use std::collections::VecDeque;
use std::sync::Arc;
use std::task::{Context, Poll, Waker};

use vstd::rwlock::{RwLock, RwLockPredicate};

use crate::id::PeerId;

verus! {

/// A poll's answer.
#[verifier::external_type_specification]
#[verifier::reject_recursive_types(T)]
pub struct ExPoll<T>(Poll<T>);

/// What a poll is made in.
#[verifier::external_type_specification]
#[verifier::external_body]
pub struct ExContext<'a>(Context<'a>);

/// Whom to call when there is something to poll for.
#[verifier::external_type_specification]
#[verifier::external_body]
pub struct ExWaker(Waker);

/// `Context::waker`, cloned: the waker of the polling task. Nothing is said of
/// which task that is.
#[verifier::external_body]
pub(crate) fn waker_of(context: &mut Context<'_>) -> (r: Waker) {
    context.waker().clone()
}

/// `Waker::wake`: calls the task that waits. Nothing is said of what it does.
#[verifier::external_body]
fn wake(waker: Waker) {
    waker.wake()
}

/// `Arc::strong_count`: how many hold a queue. Another end may let go at any time,
/// so nothing is said of the number.
#[verifier::external_body]
fn holders(queue: &Arc<SharedQueue>) -> (r: usize) {
    Arc::strong_count(queue)
}

/// A frame on its way out.
#[derive(Clone, Debug, Eq, PartialEq)]
pub struct OutboundPacket {
    /// Host-assigned route for the remote endpoint.
    pub peer_id: PeerId,
    /// Authenticated tunnel frame to place in a FakeTCP payload.
    pub frame: Vec<u8>,
}

/// A frame that came in.
#[derive(Clone, Debug, Eq, PartialEq)]
pub struct InboundPacket {
    /// Host-assigned route identifying the transport sender.
    pub peer_id: PeerId,
    /// Tunnel frame extracted from a validated outer packet.
    pub frame: Vec<u8>,
}

/// What a packet of either kind says.
#[verifier::ext_equal]
pub struct PacketModel {
    pub peer_id: PeerId,
    pub frame: Seq<u8>,
}

impl View for OutboundPacket {
    type V = PacketModel;

    open spec fn view(&self) -> PacketModel {
        PacketModel { peer_id: self.peer_id, frame: self.frame@ }
    }
}

impl View for InboundPacket {
    type V = PacketModel;

    open spec fn view(&self) -> PacketModel {
        PacketModel { peer_id: self.peer_id, frame: self.frame@ }
    }
}

/// What a list of packets says.
pub open spec fn packet_models(packets: Seq<InboundPacket>) -> Seq<PacketModel> {
    packets.map_values(|packet: InboundPacket| packet@)
}

/// Replaceable host transport. The protocol does not depend on this trait.
pub trait PacketTransport {
    type Error;

    fn send(&mut self, packet: OutboundPacket) -> Result<(), Self::Error>;

    fn poll_receive(&mut self, context: &mut Context<'_>) -> Poll<
        Result<InboundPacket, Self::Error>,
    >;
}

/// A memory transport operation that is refused.
#[derive(Debug, Eq, PartialEq)]
pub enum MemoryTransportError {
    ZeroCapacity,
    QueueFull,
    PeerClosed,
}

/// One direction of a pair: the packets on their way, who waits for them, and which
/// ends have not been closed.
pub struct QueueState {
    packets: VecDeque<InboundPacket>,
    receiver_waker: Option<Waker>,
    sender_open: bool,
    receiver_open: bool,
}

/// What a [`QueueState`] holds.
#[verifier::ext_equal]
pub struct QueueModel {
    pub packets: Seq<PacketModel>,
    pub receiver_waker: Option<Waker>,
    pub sender_open: bool,
    pub receiver_open: bool,
}

impl View for QueueState {
    type V = QueueModel;

    closed spec fn view(&self) -> QueueModel {
        QueueModel {
            packets: packet_models(self.packets@),
            receiver_waker: self.receiver_waker,
            sender_open: self.sender_open,
            receiver_open: self.receiver_open,
        }
    }
}

/// A queue with open ends that nothing was put into.
pub open spec fn new_queue() -> QueueModel {
    QueueModel {
        packets: Seq::empty(),
        receiver_waker: None,
        sender_open: true,
        receiver_open: true,
    }
}

/// A queue that is handed a packet, and what is answered: a receiver that is closed
/// or let go of and a full queue refuse it, else it goes behind the others and the
/// waiting receiver is called.
pub open spec fn offered(
    queue: QueueModel,
    capacity: usize,
    receiver_held: bool,
    packet: PacketModel,
) -> (QueueModel, Result<Option<Waker>, MemoryTransportError>) {
    if !(queue.receiver_open && receiver_held) {
        (queue, Err(MemoryTransportError::PeerClosed))
    } else if queue.packets.len() >= capacity {
        (queue, Err(MemoryTransportError::QueueFull))
    } else {
        (
            QueueModel { packets: queue.packets.push(packet), receiver_waker: None, ..queue },
            Ok(queue.receiver_waker),
        )
    }
}

/// A queue that is asked for a packet, and what is answered: the first packet, else
/// that the sender is closed or let go of, else nothing yet.
pub open spec fn polled(queue: QueueModel, sender_held: bool, waker: Waker) -> (
    QueueModel,
    Poll<Result<PacketModel, MemoryTransportError>>,
) {
    if queue.packets.len() > 0 {
        (
            QueueModel { packets: queue.packets.drop_first(), ..queue },
            Poll::Ready(Ok(queue.packets[0])),
        )
    } else if !(queue.sender_open && sender_held) {
        (queue, Poll::Ready(Err(MemoryTransportError::PeerClosed)))
    } else {
        (QueueModel { receiver_waker: Some(waker), ..queue }, Poll::Pending)
    }
}

/// A queue whose sender is closed, and the receiver that waited.
pub open spec fn without_sender(queue: QueueModel) -> (QueueModel, Option<Waker>) {
    (QueueModel { sender_open: false, receiver_waker: None, ..queue }, queue.receiver_waker)
}

/// A queue whose receiver is closed, and the receiver if it waited.
pub open spec fn without_receiver(queue: QueueModel) -> (QueueModel, Option<Waker>) {
    (QueueModel { receiver_open: false, receiver_waker: None, ..queue }, queue.receiver_waker)
}

/// What a poll's answer says.
pub open spec fn poll_model<E>(answer: Poll<Result<InboundPacket, E>>) -> Poll<
    Result<PacketModel, E>,
> {
    match answer {
        Poll::Ready(Ok(packet)) => Poll::Ready(Ok(packet@)),
        Poll::Ready(Err(error)) => Poll::Ready(Err(error)),
        Poll::Pending => Poll::Pending,
    }
}

impl QueueState {
    /// An empty queue that nobody waits for.
    pub fn new() -> (r: Self)
        ensures
            r@ == new_queue(),
    {
        let r = QueueState {
            packets: VecDeque::new(),
            receiver_waker: None,
            sender_open: true,
            receiver_open: true,
        };
        assert(r@.packets =~= Seq::empty());
        r
    }

    /// Hands the frame of an outgoing packet to the queue, marked with its sender; a
    /// waker that comes back is to be called.
    pub fn offer(
        &mut self,
        capacity: usize,
        receiver_held: bool,
        sender: PeerId,
        packet: OutboundPacket,
    ) -> (r: Result<Option<Waker>, MemoryTransportError>)
        ensures
            (final(self)@, r) == offered(
                old(self)@,
                capacity,
                receiver_held,
                PacketModel { peer_id: sender, frame: packet.frame@ },
            ),
    {
        if !(self.receiver_open && receiver_held) {
            return Err(MemoryTransportError::PeerClosed);
        }
        if self.packets.len() >= capacity {
            return Err(MemoryTransportError::QueueFull);
        }
        let ghost before = self@.packets;
        let inbound = InboundPacket { peer_id: sender, frame: packet.frame };
        self.packets.push_back(inbound);
        assert(packet_models(self.packets@) =~= before.push(inbound@));
        Ok(self.receiver_waker.take())
    }

    /// Asks the queue for a packet.
    pub fn poll(&mut self, sender_held: bool, waker: Waker) -> (r: Poll<
        Result<InboundPacket, MemoryTransportError>,
    >)
        ensures
            (final(self)@, poll_model(r)) == polled(old(self)@, sender_held, waker),
    {
        let ghost before = self@.packets;
        match self.packets.pop_front() {
            Some(packet) => {
                assert(packet_models(self.packets@) =~= before.drop_first());
                Poll::Ready(Ok(packet))
            },
            None => {
                if !(self.sender_open && sender_held) {
                    return Poll::Ready(Err(MemoryTransportError::PeerClosed));
                }
                self.receiver_waker = Some(waker);
                assert(self@.packets =~= before);
                Poll::Pending
            },
        }
    }

    /// Closes the sender; a waker that comes back is to be called.
    pub fn close_sender(&mut self) -> (r: Option<Waker>)
        ensures
            (final(self)@, r) == without_sender(old(self)@),
    {
        self.sender_open = false;
        self.receiver_waker.take()
    }

    /// Closes the receiver; a waker that comes back is to be called.
    pub fn close_receiver(&mut self) -> (r: Option<Waker>)
        ensures
            (final(self)@, r) == without_receiver(old(self)@),
    {
        self.receiver_open = false;
        self.receiver_waker.take()
    }
}

/// What every queue of a pair keeps: its bound, and that all packets come from one
/// end.
pub struct QueueInvariant {
    capacity: usize,
    sender: PeerId,
}

impl RwLockPredicate<QueueState> for QueueInvariant {
    closed spec fn inv(self, state: QueueState) -> bool {
        &&& state@.packets.len() <= self.capacity
        &&& forall|i: int|
            0 <= i < state@.packets.len() ==> (#[trigger] state@.packets[i]).peer_id == self.sender
    }
}

/// One direction of a pair, shared by both ends.
pub struct SharedQueue {
    capacity: usize,
    sender: PeerId,
    state: RwLock<QueueState, QueueInvariant>,
}

impl SharedQueue {
    #[verifier::type_invariant]
    spec fn bounded(self) -> bool {
        self.state.pred() == (QueueInvariant { capacity: self.capacity, sender: self.sender })
    }

    /// The most packets that the queue holds.
    pub closed spec fn bound(self) -> usize {
        self.capacity
    }

    /// The end that puts packets in.
    pub closed spec fn filled_by(self) -> PeerId {
        self.sender
    }

    fn new(capacity: usize, sender: PeerId) -> (r: Self)
        ensures
            r.bound() == capacity,
            r.filled_by() == sender,
    {
        let state = QueueState::new();
        SharedQueue {
            capacity,
            sender,
            state: RwLock::new(state, Ghost(QueueInvariant { capacity, sender })),
        }
    }
}

/// One end of an in-memory pair. The other end is open as long as it holds its
/// share of the queues.
pub struct MemoryTransport {
    local_peer: PeerId,
    remote_peer: PeerId,
    incoming: Arc<SharedQueue>,
    outgoing: Arc<SharedQueue>,
}

impl MemoryTransport {
    #[verifier::type_invariant]
    spec fn ends_agree(self) -> bool {
        &&& self.incoming.filled_by() == self.remote_peer
        &&& self.outgoing.filled_by() == self.local_peer
    }

    /// The route of this end.
    pub closed spec fn local(self) -> PeerId {
        self.local_peer
    }

    /// The route of the other end.
    pub closed spec fn remote(self) -> PeerId {
        self.remote_peer
    }

    /// The queue that this end reads.
    pub closed spec fn reads(self) -> SharedQueue {
        *self.incoming
    }

    /// The queue that this end fills.
    pub closed spec fn fills(self) -> SharedQueue {
        *self.outgoing
    }

    pub fn local_peer(&self) -> (r: PeerId)
        ensures
            r == self.local(),
    {
        self.local_peer
    }

    pub fn remote_peer(&self) -> (r: PeerId)
        ensures
            r == self.remote(),
    {
        self.remote_peer
    }

    /// Closes this end: the other end is refused from now on, reads what was sent
    /// before, and is woken if it waits. What becomes of each queue is what
    /// [`QueueState::close_sender`] and [`QueueState::close_receiver`] say of the
    /// state that it is in.
    pub fn close(self) {
        proof {
            use_type_invariant(&self);
            use_type_invariant(&*self.outgoing);
            use_type_invariant(&*self.incoming);
        }
        let (mut state, handle) = self.outgoing.state.acquire_write();
        let waiting = state.close_sender();
        handle.release_write(state);
        wake_if_any(waiting);
        let (mut state, handle) = self.incoming.state.acquire_write();
        let waiting = state.close_receiver();
        handle.release_write(state);
        wake_if_any(waiting);
    }
}

/// Calls the task that waits, if one does.
fn wake_if_any(waiting: Option<Waker>) {
    match waiting {
        Some(waker) => {
            wake(waker);
        },
        None => {},
    }
}

/// Two ends that are joined by two queues of the same capacity.
pub fn memory_transport_pair(capacity: usize) -> (r: Result<
    (MemoryTransport, MemoryTransport),
    MemoryTransportError,
>)
    ensures
        match r {
            Ok((a, b)) => {
                &&& capacity > 0
                &&& a.local().number() == 1
                &&& b.local().number() == 2
                &&& a.remote() == b.local()
                &&& b.remote() == a.local()
                &&& a.fills() == b.reads()
                &&& b.fills() == a.reads()
                &&& a.fills().bound() == capacity
                &&& b.fills().bound() == capacity
            },
            Err(error) => capacity == 0 && error == MemoryTransportError::ZeroCapacity,
        },
{
    if capacity == 0 {
        return Err(MemoryTransportError::ZeroCapacity);
    }
    let a_peer = PeerId::new(1);
    let b_peer = PeerId::new(2);
    let a_to_b = Arc::new(SharedQueue::new(capacity, a_peer));
    let b_to_a = Arc::new(SharedQueue::new(capacity, b_peer));
    Ok(
        (
            MemoryTransport {
                local_peer: a_peer,
                remote_peer: b_peer,
                incoming: b_to_a.clone(),
                outgoing: a_to_b.clone(),
            },
            MemoryTransport {
                local_peer: b_peer,
                remote_peer: a_peer,
                incoming: a_to_b,
                outgoing: b_to_a,
            },
        ),
    )
}

impl PacketTransport for MemoryTransport {
    type Error = MemoryTransportError;

    /// Hands a frame to the other end. What the queue does with it is what
    /// [`QueueState::offer`] says of the state that it is in.
    fn send(&mut self, packet: OutboundPacket) -> (r: Result<(), MemoryTransportError>)
        ensures
            *final(self) == *old(self),
            packet.peer_id != old(self).remote() ==> r == Err::<(), MemoryTransportError>(
                MemoryTransportError::PeerClosed,
            ),
            r matches Err(error) ==> error == MemoryTransportError::PeerClosed || error
                == MemoryTransportError::QueueFull,
    {
        if packet.peer_id != self.remote_peer {
            return Err(MemoryTransportError::PeerClosed);
        }
        proof {
            use_type_invariant(&*self);
            use_type_invariant(&*self.outgoing);
        }
        let receiver_held = holders(&self.outgoing) > 1;
        let (mut state, handle) = self.outgoing.state.acquire_write();
        let answer = state.offer(self.outgoing.capacity, receiver_held, self.local_peer, packet);
        handle.release_write(state);
        match answer {
            Ok(waiting) => {
                wake_if_any(waiting);
                Ok(())
            },
            Err(error) => Err(error),
        }
    }

    /// Asks for a frame of the other end. What the queue answers is what
    /// [`QueueState::poll`] says of the state that it is in.
    fn poll_receive(&mut self, context: &mut Context<'_>) -> (r: Poll<
        Result<InboundPacket, MemoryTransportError>,
    >)
        ensures
            *final(self) == *old(self),
            r matches Poll::Ready(Ok(packet)) ==> packet.peer_id == old(self).remote(),
            r matches Poll::Ready(Err(error)) ==> error == MemoryTransportError::PeerClosed,
    {
        proof {
            use_type_invariant(&*self);
            use_type_invariant(&*self.incoming);
        }
        let sender_held = holders(&self.incoming) > 1;
        let (mut state, handle) = self.incoming.state.acquire_write();
        let answer = state.poll(sender_held, waker_of(context));
        handle.release_write(state);
        answer
    }
}

/// One thing that happens to a queue.
pub enum QueueEvent {
    Offer { packet: PacketModel, receiver_held: bool },
    Poll { sender_held: bool, waker: Waker },
    CloseSender,
    CloseReceiver,
}

/// A queue after one event.
pub open spec fn queue_step(queue: QueueModel, capacity: usize, event: QueueEvent) -> QueueModel {
    match event {
        QueueEvent::Offer { packet, receiver_held } => offered(
            queue,
            capacity,
            receiver_held,
            packet,
        ).0,
        QueueEvent::Poll { sender_held, waker } => polled(queue, sender_held, waker).0,
        QueueEvent::CloseSender => without_sender(queue).0,
        QueueEvent::CloseReceiver => without_receiver(queue).0,
    }
}

/// A queue that nothing was put into after a history of events.
pub open spec fn queue_after(capacity: usize, history: Seq<QueueEvent>) -> QueueModel
    decreases history.len(),
{
    if history.len() == 0 {
        new_queue()
    } else {
        queue_step(queue_after(capacity, history.drop_last()), capacity, history.last())
    }
}

/// The packets that the queue took in a history, in the order in which it took them.
pub open spec fn taken(capacity: usize, history: Seq<QueueEvent>) -> Seq<PacketModel>
    decreases history.len(),
{
    if history.len() == 0 {
        Seq::empty()
    } else {
        let earlier = taken(capacity, history.drop_last());
        match history.last() {
            QueueEvent::Offer { packet, receiver_held } => if offered(
                queue_after(capacity, history.drop_last()),
                capacity,
                receiver_held,
                packet,
            ).1 is Ok {
                earlier.push(packet)
            } else {
                earlier
            },
            _ => earlier,
        }
    }
}

/// The packets that polls gave out in a history, in the order in which they came.
pub open spec fn given(capacity: usize, history: Seq<QueueEvent>) -> Seq<PacketModel>
    decreases history.len(),
{
    if history.len() == 0 {
        Seq::empty()
    } else {
        let earlier = given(capacity, history.drop_last());
        match history.last() {
            QueueEvent::Poll { sender_held, waker } => match polled(
                queue_after(capacity, history.drop_last()),
                sender_held,
                waker,
            ).1 {
                Poll::Ready(Ok(packet)) => earlier.push(packet),
                _ => earlier,
            },
            _ => earlier,
        }
    }
}

/// Whatever is sent, polled and closed in whatever order: what comes out is what was
/// taken in, in that order, each packet once and unchanged; what has not come out yet
/// is in the queue, which never holds more than its capacity.
pub proof fn law_queue_is_first_in_first_out(capacity: usize, history: Seq<QueueEvent>)
    ensures
        given(capacity, history) + queue_after(capacity, history).packets == taken(
            capacity,
            history,
        ),
        queue_after(capacity, history).packets.len() <= capacity,
    decreases history.len(),
{
    let out = given(capacity, history);
    let queue = queue_after(capacity, history);
    if history.len() > 0 {
        let earlier = history.drop_last();
        let before = queue_after(capacity, earlier);
        law_queue_is_first_in_first_out(capacity, earlier);
        assert(out + queue.packets =~= taken(capacity, history));
    } else {
        assert(out + queue.packets =~= taken(capacity, history));
    }
}

/// What the next poll answers after any history: the first packet that was taken and
/// not given out yet; where there is none, that the sender is closed if it was closed
/// or let go of; and else that there is nothing yet.
pub proof fn law_polls_give_what_was_sent(
    capacity: usize,
    history: Seq<QueueEvent>,
    sender_held: bool,
    waker: Waker,
)
    ensures
        ({
            let sent = taken(capacity, history);
            let out = given(capacity, history).len();
            polled(queue_after(capacity, history), sender_held, waker).1 == if out < sent.len() {
                Poll::Ready(Ok::<PacketModel, MemoryTransportError>(sent[out as int]))
            } else if !sender_held || history.contains(QueueEvent::CloseSender) {
                Poll::Ready(Err(MemoryTransportError::PeerClosed))
            } else {
                Poll::Pending
            }
        }),
{
    law_queue_is_first_in_first_out(capacity, history);
    lemma_open_ends(capacity, history);
    let queue = queue_after(capacity, history);
    let out = given(capacity, history);
    if queue.packets.len() > 0 {
        assert((out + queue.packets)[out.len() as int] == queue.packets[0]);
    }
}

/// What the next offer is answered after any history: that the receiver is closed, if
/// it was closed or let go of; that the queue is full, if as many packets are in it as
/// it may hold; and else it is taken.
pub proof fn law_offers_are_bounded(
    capacity: usize,
    history: Seq<QueueEvent>,
    receiver_held: bool,
    packet: PacketModel,
)
    ensures
        ({
            let waiting = taken(capacity, history).len() - given(capacity, history).len();
            let answer = offered(
                queue_after(capacity, history),
                capacity,
                receiver_held,
                packet,
            ).1;
            if !receiver_held || history.contains(QueueEvent::CloseReceiver) {
                answer == Err::<Option<Waker>, MemoryTransportError>(
                    MemoryTransportError::PeerClosed,
                )
            } else if waiting >= capacity {
                answer == Err::<Option<Waker>, MemoryTransportError>(
                    MemoryTransportError::QueueFull,
                )
            } else {
                answer is Ok
            }
        }),
{
    law_queue_is_first_in_first_out(capacity, history);
    lemma_open_ends(capacity, history);
    let queue = queue_after(capacity, history);
    assert((given(capacity, history) + queue.packets).len() == taken(capacity, history).len());
}

/// An end is open until it is closed.
proof fn lemma_open_ends(capacity: usize, history: Seq<QueueEvent>)
    ensures
        queue_after(capacity, history).sender_open == !history.contains(QueueEvent::CloseSender),
        queue_after(capacity, history).receiver_open == !history.contains(
            QueueEvent::CloseReceiver,
        ),
    decreases history.len(),
{
    if history.len() > 0 {
        let earlier = history.drop_last();
        lemma_open_ends(capacity, earlier);
        let last = history.last();
        assert(history[history.len() - 1] == last);
        assert forall|event: QueueEvent| history.contains(event) == (earlier.contains(event)
            || event == last) by {
            if earlier.contains(event) {
                let i = choose|i: int| 0 <= i < earlier.len() && earlier[i] == event;
                assert(history[i] == event);
            }
            if history.contains(event) {
                let i = choose|i: int| 0 <= i < history.len() && history[i] == event;
                if i < earlier.len() {
                    assert(earlier[i] == event);
                }
            }
        }
    }
}

/// Packets that are sent to an open end one after the other.
pub open spec fn sends(packets: Seq<PacketModel>) -> Seq<QueueEvent> {
    packets.map_values(
        |packet: PacketModel| QueueEvent::Offer { packet, receiver_held: true },
    )
}

/// Without receives, exactly the first sends succeed, as many as the queue holds, and
/// the next one is told that the queue is full.
pub proof fn law_first_sends_fill_the_queue(
    capacity: usize,
    packets: Seq<PacketModel>,
    next: PacketModel,
)
    ensures
        taken(capacity, sends(packets)) == packets.take(
            if packets.len() <= capacity {
                packets.len() as int
            } else {
                capacity as int
            },
        ),
        packets.len() < capacity ==> offered(
            queue_after(capacity, sends(packets)),
            capacity,
            true,
            next,
        ).1 is Ok,
        packets.len() >= capacity ==> offered(
            queue_after(capacity, sends(packets)),
            capacity,
            true,
            next,
        ).1 == Err::<Option<Waker>, MemoryTransportError>(MemoryTransportError::QueueFull),
    decreases packets.len(),
{
    let history = sends(packets);
    lemma_only_sends(capacity, packets);
    law_offers_are_bounded(capacity, history, true, next);
    assert(!history.contains(QueueEvent::CloseReceiver)) by {
        assert forall|i: int| 0 <= i < history.len() implies history[i]
            != QueueEvent::CloseReceiver by {
            assert(history[i] is Offer);
        }
    }
    if packets.len() > 0 {
        let earlier = packets.drop_last();
        assert(history.drop_last() =~= sends(earlier));
        law_first_sends_fill_the_queue(capacity, earlier, packets.last());
        assert(history.last() == (QueueEvent::Offer {
            packet: packets.last(),
            receiver_held: true,
        }));
        if packets.len() <= capacity {
            assert(earlier.take(earlier.len() as int).push(packets.last()) =~= packets.take(
                packets.len() as int,
            ));
        } else {
            assert(earlier.take(capacity as int) =~= packets.take(capacity as int));
        }
    } else {
        assert(taken(capacity, history) =~= packets.take(0));
    }
}

/// Sends give nothing out.
proof fn lemma_only_sends(capacity: usize, packets: Seq<PacketModel>)
    ensures
        given(capacity, sends(packets)).len() == 0,
    decreases packets.len(),
{
    if packets.len() > 0 {
        assert(sends(packets).drop_last() =~= sends(packets.drop_last()));
        lemma_only_sends(capacity, packets.drop_last());
    }
}

/// Closing an end calls the receiver that waits.
pub proof fn law_closing_wakes_the_receiver(queue: QueueModel)
    ensures
        without_sender(queue).1 == queue.receiver_waker,
        without_receiver(queue).1 == queue.receiver_waker,
        without_sender(queue).0.packets == queue.packets,
{
}

} // verus!
