//! The upstream routes of a server: which socket serves which conversation.

use vstd::prelude::*;

use crate::action;
use crate::action::{ActionModel, EventModel, TunnelAction, TunnelEvent};
use crate::address::{SocketAddress, SocketAddressV4, SocketAddressV6};
use crate::bytes::piece;
use crate::id::SessionId;
use crate::protocol::MAX_FRAME_PAYLOAD;
use crate::service::{Counter, RouteKey};
use crate::table;
use crate::table::{Keep, Table};
use crate::transport::{OutboundPacket, PacketModel};

verus! {

/// The open routes. A socket is told by a number that the host gives it.
pub struct Routes {
    open: Table<RouteKey, u64>,
}

impl View for Routes {
    type V = Seq<(RouteKey, u64)>;

    closed spec fn view(&self) -> Seq<(RouteKey, u64)> {
        self.open@
    }
}

/// Whether a route does not belong to a session.
pub open spec fn outside_session(session_id: SessionId) -> spec_fn(RouteKey, u64) -> bool {
    |key: RouteKey, socket: u64| key.session_id != session_id
}

/// A route's key in another session.
pub open spec fn rekeyed(key: RouteKey, session_id: SessionId) -> RouteKey {
    RouteKey { session_id, conversation_id: key.conversation_id }
}

/// Routes with others put in under another session, in their order.
pub open spec fn with_moved(
    entries: Seq<(RouteKey, u64)>,
    moved: Seq<(RouteKey, u64)>,
    session_id: SessionId,
) -> Seq<(RouteKey, u64)>
    decreases moved.len(),
{
    if moved.len() == 0 {
        entries
    } else {
        table::put(
            with_moved(entries, moved.drop_last(), session_id),
            rekeyed(moved.last().0, session_id),
            moved.last().1,
        )
    }
}

/// The routes after those of one session have moved to another.
pub open spec fn migrated(
    entries: Seq<(RouteKey, u64)>,
    old_session_id: SessionId,
    new_session_id: SessionId,
) -> Seq<(RouteKey, u64)> {
    with_moved(
        table::retained(entries, outside_session(old_session_id)),
        table::discarded(entries, outside_session(old_session_id)),
        new_session_id,
    )
}

/// Tells the routes of one session from the others.
pub struct OtherSessions {
    pub session_id: SessionId,
}

impl Keep<RouteKey, u64> for OtherSessions {
    open spec fn test(&self) -> spec_fn(RouteKey, u64) -> bool {
        outside_session(self.session_id)
    }

    fn keeps(&self, key: RouteKey, value: &u64) -> (r: bool) {
        key.session_id != self.session_id
    }
}

impl Routes {
    /// No routes.
    pub fn new() -> (r: Self)
        ensures
            r@ == Seq::<(RouteKey, u64)>::empty(),
    {
        Routes { open: Table::new() }
    }

    /// Whether a route is open.
    pub fn is_open(&self, key: RouteKey) -> (r: bool)
        ensures
            r == table::holds(self@, key),
    {
        self.open.contains_key(key)
    }

    /// The socket of a route.
    pub fn socket_of(&self, key: RouteKey) -> (r: Option<u64>)
        ensures
            r == table::lookup(self@, key),
    {
        match self.open.get(key) {
            Some(socket) => Some(*socket),
            None => None,
        }
    }

    /// Opens a route with a socket.
    pub fn install(&mut self, key: RouteKey, socket: u64)
        ensures
            final(self)@ == table::put(old(self)@, key, socket),
    {
        self.open.insert(key, socket);
    }

    /// Closes a route and gives its socket back.
    pub fn remove_route(&mut self, key: RouteKey) -> (r: Option<u64>)
        ensures
            r == table::lookup(old(self)@, key),
            final(self)@ == table::without(old(self)@, key),
    {
        self.open.remove(key)
    }

    /// Closes the routes of a session and gives them back.
    pub fn remove_session_routes(&mut self, session_id: SessionId) -> (r: Vec<(RouteKey, u64)>)
        ensures
            r@ == table::discarded(old(self)@, outside_session(session_id)),
            final(self)@ == table::retained(old(self)@, outside_session(session_id)),
    {
        let r = self.open.extract(&OtherSessions { session_id });
        assert(table::entries_model(r@) =~= r@);
        r
    }

    /// Moves the routes of one session to another, and gives back what moved, under
    /// the keys that it had.
    pub fn migrate_session_routes(
        &mut self,
        old_session_id: SessionId,
        new_session_id: SessionId,
    ) -> (r: Vec<(RouteKey, u64)>)
        ensures
            r@ == table::discarded(old(self)@, outside_session(old_session_id)),
            final(self)@ == migrated(old(self)@, old_session_id, new_session_id),
    {
        let ghost start = self@;
        let moved = self.remove_session_routes(old_session_id);
        let ghost kept = self@;
        let mut i: usize = 0;
        assert(moved@.take(0) =~= Seq::empty());
        while i < moved.len()
            invariant
                i <= moved@.len(),
                self@ == with_moved(kept, moved@.take(i as int), new_session_id),
            decreases moved@.len() - i,
        {
            assert(moved@.take(i + 1).drop_last() =~= moved@.take(i as int));
            let entry = moved[i];
            self.install(
                RouteKey {
                    session_id: new_session_id,
                    conversation_id: entry.0.conversation_id,
                },
                entry.1,
            );
            i += 1;
        }
        assert(moved@.take(i as int) =~= moved@);
        moved
    }
}

/// The local address of a socket that talks to an upstream: any, of the same
/// family.
pub fn bind_address_for(upstream: SocketAddress) -> (r: SocketAddress)
    ensures
        r == match upstream {
            SocketAddress::V4(_) => SocketAddress::V4(SocketAddressV4 { ip: 0, port: 0 }),
            SocketAddress::V6(_) => SocketAddress::V6(
                SocketAddressV6 { ip: 0, port: 0, flow_info: 0, scope_id: 0 },
            ),
        },
{
    match upstream {
        SocketAddress::V4(_) => SocketAddress::V4(SocketAddressV4 { ip: 0, port: 0 }),
        SocketAddress::V6(_) => SocketAddress::V6(
            SocketAddressV6 { ip: 0, port: 0, flow_info: 0, scope_id: 0 },
        ),
    }
}

/// What becomes of a datagram that an upstream sent.
#[derive(Debug)]
pub enum UpstreamStep {
    /// The route is gone: stop reading its socket.
    Stop,
    /// The datagram is too long for a record: drop and count it.
    Drop,
    /// The engine gets the event.
    Hand(TunnelEvent),
}

/// What becomes of a datagram that came in on the socket of a route.
pub fn upstream_datagram(routes: &Routes, key: RouteKey, buffer: &[u8], length: usize) -> (r:
    UpstreamStep)
    requires
        length <= buffer@.len(),
    ensures
        match r {
            UpstreamStep::Stop => !table::holds(routes@, key),
            UpstreamStep::Drop => table::holds(routes@, key) && length > MAX_FRAME_PAYLOAD,
            UpstreamStep::Hand(event) => {
                &&& table::holds(routes@, key)
                &&& length <= MAX_FRAME_PAYLOAD
                &&& event@ == (EventModel::ServerDatagram {
                    session_id: key.session_id,
                    conversation_id: key.conversation_id,
                    payload: buffer@.take(length as int),
                })
            },
        },
{
    if !routes.is_open(key) {
        return UpstreamStep::Stop;
    }
    if length > MAX_FRAME_PAYLOAD {
        return UpstreamStep::Drop;
    }
    UpstreamStep::Hand(
        TunnelEvent::ServerDatagram {
            session_id: key.session_id,
            conversation_id: key.conversation_id,
            payload: piece(buffer, 0, length),
        },
    )
}

/// The packets among actions, in their order.
pub open spec fn packets_of(actions: Seq<ActionModel>) -> Seq<PacketModel>
    decreases actions.len(),
{
    if actions.len() == 0 {
        Seq::empty()
    } else {
        let earlier = packets_of(actions.drop_last());
        match actions.last() {
            ActionModel::SendTunnelFrame { peer_id, bytes } => earlier.push(
                PacketModel { peer_id, frame: bytes },
            ),
            _ => earlier,
        }
    }
}

/// What a list of packets says.
pub open spec fn outbound_models(packets: Seq<OutboundPacket>) -> Seq<PacketModel> {
    packets.map_values(|packet: OutboundPacket| packet@)
}

/// The packets among actions; nothing else is asked of the reader of a route.
pub fn reply_packets(actions: Vec<TunnelAction>) -> (r: Vec<OutboundPacket>)
    ensures
        outbound_models(r@) == packets_of(action::models(actions@)),
{
    let ghost all = action::models(actions@);
    let mut packets: Vec<OutboundPacket> = Vec::new();
    assert(all.take(0) =~= Seq::empty());
    assert(outbound_models(packets@) =~= Seq::empty());
    for action in taken: actions.into_iter()
        invariant
            all == action::models(taken.seq()),
            outbound_models(packets@) == packets_of(all.take(taken.index())),
    {
        assert(all.take(taken.index() + 1).drop_last() =~= all.take(taken.index()));
        let ghost earlier = outbound_models(packets@);
        assert(action@ == all[taken.index()]);
        match action {
            TunnelAction::SendTunnelFrame { peer_id, bytes } => {
                let packet = OutboundPacket { peer_id, frame: bytes };
                packets.push(packet);
                assert(outbound_models(packets@) =~= earlier.push(packet@));
            },
            _ => {},
        }
    }
    assert(all.take(all.len() as int) =~= all);
    packets
}

/// What came of polling the transport and of passing a packet on.
#[derive(Clone, Copy, Debug, Eq, PartialEq, Structural)]
pub enum PollOutcome {
    Passed,
    QueueFull,
    QueueClosed,
    TransportFailed,
}

/// What the poller counts, and whether it stops.
pub fn after_poll(outcome: PollOutcome) -> (r: (Option<Counter>, bool))
    ensures
        r == match outcome {
            PollOutcome::Passed => (None::<Counter>, false),
            PollOutcome::QueueFull => (Some(Counter::TransportQueueDropped), false),
            PollOutcome::QueueClosed => (None, true),
            PollOutcome::TransportFailed => (Some(Counter::TransportErrors), true),
        },
{
    match outcome {
        PollOutcome::Passed => (None, false),
        PollOutcome::QueueFull => (Some(Counter::TransportQueueDropped), false),
        PollOutcome::QueueClosed => (None, true),
        PollOutcome::TransportFailed => (Some(Counter::TransportErrors), true),
    }
}

proof fn lemma_with_moved(
    entries: Seq<(RouteKey, u64)>,
    moved: Seq<(RouteKey, u64)>,
    old_session_id: SessionId,
    new_session_id: SessionId,
    key: RouteKey,
)
    requires
        table::unique_keys(moved),
        forall|i: int|
            0 <= i < moved.len() ==> (#[trigger] moved[i]).0.session_id == old_session_id,
    ensures
        table::lookup(with_moved(entries, moved, new_session_id), key) == if key.session_id
            == new_session_id && table::holds(moved, rekeyed(key, old_session_id)) {
            table::lookup(moved, rekeyed(key, old_session_id))
        } else {
            table::lookup(entries, key)
        },
    decreases moved.len(),
{
    if moved.len() > 0 {
        let before = moved.drop_last();
        let last = moved.last();
        assert(table::unique_keys(before)) by {
            assert forall|i: int, j: int|
                #![trigger before[i], before[j]]
                0 <= i < j < before.len() implies before[i].0 != before[j].0 by {
                assert(moved[i].0 != moved[j].0);
            }
        }
        assert forall|i: int| 0 <= i < before.len() implies (#[trigger] before[i]).0.session_id
            == old_session_id by {
            assert(before[i] == moved[i]);
        }
        lemma_with_moved(entries, before, old_session_id, new_session_id, key);
        table::lemma_position(before, last.0);
        assert(!table::holds(before, last.0)) by {
            if table::holds(before, last.0) {
                let at = table::position(before, last.0);
                assert(moved[at].0 != moved[moved.len() - 1].0);
            }
        }
        assert(moved =~= table::put(before, last.0, last.1));
        assert(moved[moved.len() - 1].0.session_id == old_session_id);
        table::lemma_put(before, last.0, last.1, rekeyed(key, old_session_id));
        table::lemma_put(
            with_moved(entries, before, new_session_id),
            rekeyed(last.0, new_session_id),
            last.1,
            key,
        );
    } else {
        table::lemma_position(moved, rekeyed(key, old_session_id));
    }
}

/// Every route of a resumed session serves its conversation under the new session
/// with the same socket, the old session has none left, and no other route notices.
pub proof fn law_migration_moves_every_route(
    entries: Seq<(RouteKey, u64)>,
    old_session_id: SessionId,
    new_session_id: SessionId,
    key: RouteKey,
)
    requires
        table::unique_keys(entries),
        old_session_id != new_session_id,
    ensures
        ({
            let after = migrated(entries, old_session_id, new_session_id);
            &&& key.session_id == old_session_id ==> !table::holds(after, key)
            &&& key.session_id == new_session_id ==> table::lookup(after, key) == if table::holds(
                entries,
                rekeyed(key, old_session_id),
            ) {
                table::lookup(entries, rekeyed(key, old_session_id))
            } else {
                table::lookup(entries, key)
            }
            &&& key.session_id != old_session_id && key.session_id != new_session_id
                ==> table::lookup(after, key) == table::lookup(entries, key)
        }),
{
    let test = outside_session(old_session_id);
    let kept = table::retained(entries, test);
    let moved = table::discarded(entries, test);
    table::lemma_discarded(entries, test);
    lemma_with_moved(kept, moved, old_session_id, new_session_id, key);
    table::lemma_retained_lookup(entries, test, key);
    table::lemma_retained_lookup(entries, test, rekeyed(key, old_session_id));
}

proof fn lemma_with_moved_unique(
    entries: Seq<(RouteKey, u64)>,
    moved: Seq<(RouteKey, u64)>,
    session_id: SessionId,
)
    requires
        table::unique_keys(entries),
    ensures
        table::unique_keys(with_moved(entries, moved, session_id)),
    decreases moved.len(),
{
    if moved.len() > 0 {
        lemma_with_moved_unique(entries, moved.drop_last(), session_id);
        let key = rekeyed(moved.last().0, session_id);
        table::lemma_put(
            with_moved(entries, moved.drop_last(), session_id),
            key,
            moved.last().1,
            key,
        );
    }
}

/// Whatever is opened, closed or moved, a conversation of a session has one socket.
pub proof fn law_each_route_has_one_socket(
    entries: Seq<(RouteKey, u64)>,
    key: RouteKey,
    socket: u64,
    old_session_id: SessionId,
    new_session_id: SessionId,
)
    requires
        table::unique_keys(entries),
    ensures
        table::unique_keys(Seq::<(RouteKey, u64)>::empty()),
        table::unique_keys(table::put(entries, key, socket)),
        table::unique_keys(table::without(entries, key)),
        table::unique_keys(table::retained(entries, outside_session(old_session_id))),
        table::unique_keys(migrated(entries, old_session_id, new_session_id)),
{
    let test = outside_session(old_session_id);
    table::lemma_put(entries, key, socket, key);
    table::lemma_without(entries, key, key);
    table::lemma_retained(entries, test);
    lemma_with_moved_unique(
        table::retained(entries, test),
        table::discarded(entries, test),
        new_session_id,
    );
}

/// Closing the routes of a session leaves none of them and touches no other.
pub proof fn law_closed_sessions_have_no_routes(
    entries: Seq<(RouteKey, u64)>,
    session_id: SessionId,
    key: RouteKey,
)
    requires
        table::unique_keys(entries),
    ensures
        ({
            let after = table::retained(entries, outside_session(session_id));
            &&& key.session_id == session_id ==> !table::holds(after, key)
            &&& key.session_id != session_id ==> table::lookup(after, key) == table::lookup(
                entries,
                key,
            )
        }),
{
    table::lemma_retained_lookup(entries, outside_session(session_id), key);
}

} // verus!
