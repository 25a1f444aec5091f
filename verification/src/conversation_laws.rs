//! What keeps a client's conversations apart: the maps from local peers and back to
//! them, and the identifiers under which conversations are opened.

use vstd::prelude::*;

use crate::action::{ActionModel, EventModel};
use crate::address::SocketAddress;
use crate::client_laws;
use crate::client_model;
use crate::client_model::{
    ById, ByPeer, ClientDraws, ClientModel, ClientSessionModel, ConversationModel,
};
use crate::id::{ConversationId, PeerId, SessionId};
use crate::record;
use crate::table;
use crate::time::Instant;

verus! {

/// Activity of a conversation.
pub proof fn lemma_activity_keeps(
    by_peer: ByPeer,
    by_id: ById,
    peer: SocketAddress,
    changed: ConversationModel,
)
    requires
        client_model::agree(by_peer, by_id),
        table::lookup(by_peer, peer) matches Some(conversation) && conversation.id == changed.id,
    ensures
        client_model::agree(table::put(by_peer, peer, changed), by_id),
{
    let next = table::put(by_peer, peer, changed);
    table::lemma_put(by_peer, peer, changed, peer);
    assert forall|other: SocketAddress| #[trigger]
        table::lookup(next, other) matches Some(_) implies table::lookup(
        by_id,
        table::lookup(next, other)->Some_0.id,
    ) == Some(other) by {
        table::lemma_put(by_peer, peer, changed, other);
        assert(table::lookup(by_peer, other) is Some);
    }
    assert forall|id: ConversationId| #[trigger]
        table::lookup(by_id, id) matches Some(_) implies table::lookup(
        next,
        table::lookup(by_id, id)->Some_0,
    ) matches Some(conversation) && conversation.id == id by {
        let other = table::lookup(by_id, id)->Some_0;
        table::lemma_put(by_peer, peer, changed, other);
    }
}

/// A new conversation of a new local peer.
pub proof fn lemma_opening_keeps(
    by_peer: ByPeer,
    by_id: ById,
    peer: SocketAddress,
    opened: ConversationModel,
)
    requires
        client_model::agree(by_peer, by_id),
        !table::holds(by_peer, peer),
        !table::holds(by_id, opened.id),
    ensures
        client_model::agree(table::put(by_peer, peer, opened), table::put(by_id, opened.id, peer)),
{
    let next = table::put(by_peer, peer, opened);
    let back = table::put(by_id, opened.id, peer);
    table::lemma_put(by_peer, peer, opened, peer);
    table::lemma_put(by_id, opened.id, peer, opened.id);
    assert forall|other: SocketAddress| #[trigger]
        table::lookup(next, other) matches Some(_) implies table::lookup(
        back,
        table::lookup(next, other)->Some_0.id,
    ) == Some(other) by {
        table::lemma_put(by_peer, peer, opened, other);
        if other != peer {
            let id = table::lookup(by_peer, other)->Some_0.id;
            table::lemma_put(by_id, opened.id, peer, id);
        }
    }
    assert forall|id: ConversationId| #[trigger]
        table::lookup(back, id) matches Some(_) implies table::lookup(
        next,
        table::lookup(back, id)->Some_0,
    ) matches Some(conversation) && conversation.id == id by {
        table::lemma_put(by_id, opened.id, peer, id);
        if id != opened.id {
            let other = table::lookup(by_id, id)->Some_0;
            table::lemma_put(by_peer, peer, opened, other);
        }
    }
}

/// A conversation is closed.
pub proof fn lemma_closing_keeps(by_peer: ByPeer, by_id: ById, id: ConversationId)
    requires
        client_model::agree(by_peer, by_id),
        table::unique_keys(by_peer),
        table::unique_keys(by_id),
        table::holds(by_id, id),
    ensures
        client_model::agree(
            table::without(by_peer, table::lookup(by_id, id)->Some_0),
            table::without(by_id, id),
        ),
{
    let peer = table::lookup(by_id, id)->Some_0;
    let next = table::without(by_peer, peer);
    let back = table::without(by_id, id);
    table::lemma_without(by_peer, peer, peer);
    table::lemma_without(by_id, id, id);
    assert forall|other: SocketAddress| #[trigger]
        table::lookup(next, other) matches Some(_) implies table::lookup(
        back,
        table::lookup(next, other)->Some_0.id,
    ) == Some(other) by {
        table::lemma_without(by_peer, peer, other);
        let theirs = table::lookup(by_peer, other)->Some_0.id;
        table::lemma_without(by_id, id, theirs);
    }
    assert forall|other: ConversationId| #[trigger]
        table::lookup(back, other) matches Some(_) implies table::lookup(
        next,
        table::lookup(back, other)->Some_0,
    ) matches Some(conversation) && conversation.id == other by {
        table::lemma_without(by_id, id, other);
        let theirs = table::lookup(by_id, other)->Some_0;
        table::lemma_without(by_peer, peer, theirs);
    }
}

/// Whether a conversation is among those that are gone.
spec fn among(gone: ByPeer, id: ConversationId) -> bool {
    exists|i: int| 0 <= i < gone.len() && (#[trigger] gone[i]).1.id == id
}

proof fn lemma_forgotten_lookup(by_id: ById, gone: ByPeer, id: ConversationId)
    requires
        table::unique_keys(by_id),
    ensures
        table::unique_keys(client_model::forgotten(by_id, gone)),
        table::lookup(client_model::forgotten(by_id, gone), id) == if among(gone, id) {
            None
        } else {
            table::lookup(by_id, id)
        },
    decreases gone.len(),
{
    if gone.len() > 0 {
        let before = gone.drop_last();
        let last = gone.last();
        lemma_forgotten_lookup(by_id, before, id);
        let earlier = client_model::forgotten(by_id, before);
        table::lemma_without(earlier, last.1.id, id);
        if last.1.id == id {
            assert(gone[gone.len() - 1].1.id == id);
        } else if among(before, id) {
            let i = choose|i: int| 0 <= i < before.len() && (#[trigger] before[i]).1.id == id;
            assert(gone[i].1.id == id);
        } else {
            assert forall|i: int| 0 <= i < gone.len() implies (#[trigger] gone[i]).1.id != id by {
                if i < before.len() {
                    assert(before[i].1.id != id);
                }
            }
        }
    }
}

/// Idle conversations are forgotten.
pub proof fn lemma_expiry_keeps(
    by_peer: ByPeer,
    by_id: ById,
    test: spec_fn(SocketAddress, ConversationModel) -> bool,
)
    requires
        client_model::agree(by_peer, by_id),
        table::unique_keys(by_peer),
        table::unique_keys(by_id),
    ensures
        client_model::agree(
            table::retained(by_peer, test),
            client_model::forgotten(by_id, table::discarded(by_peer, test)),
        ),
{
    let kept = table::retained(by_peer, test);
    let gone = table::discarded(by_peer, test);
    let back = client_model::forgotten(by_id, gone);
    table::lemma_discarded(by_peer, test);
    assert forall|peer: SocketAddress| #[trigger]
        table::lookup(kept, peer) matches Some(_) implies table::lookup(
        back,
        table::lookup(kept, peer)->Some_0.id,
    ) == Some(peer) by {
        let conversation = table::lookup(kept, peer)->Some_0;
        table::lemma_retained_lookup(by_peer, test, peer);
        lemma_forgotten_lookup(by_id, gone, conversation.id);
        if among(gone, conversation.id) {
            let i = choose|i: int|
                0 <= i < gone.len() && (#[trigger] gone[i]).1.id == conversation.id;
            let other = gone[i].0;
            assert(table::lookup(gone, other) == Some(gone[i].1)) by {
                table::lemma_unique_lookup(gone, i);
            }
            table::lemma_retained_lookup(by_peer, test, other);
            assert(table::lookup(by_peer, other) == Some(gone[i].1));
        }
    }
    assert forall|id: ConversationId| #[trigger]
        table::lookup(back, id) matches Some(_) implies table::lookup(
        kept,
        table::lookup(back, id)->Some_0,
    ) matches Some(conversation) && conversation.id == id by {
        lemma_forgotten_lookup(by_id, gone, id);
        let peer = table::lookup(by_id, id)->Some_0;
        table::lemma_retained_lookup(by_peer, test, peer);
        let conversation = table::lookup(by_peer, peer)->Some_0;
        if !test(peer, conversation) {
            table::lemma_position(gone, peer);
            assert(gone[table::position(gone, peer)].1 == conversation);
        }
    }
}

/// A conversation under an unused identifier is told from those that were closed.
pub proof fn lemma_opening_stays_apart(
    by_id: ById,
    retired: Seq<ConversationId>,
    id: ConversationId,
    peer: SocketAddress,
)
    requires
        client_model::apart(by_id, retired),
        !retired.contains(id),
    ensures
        client_model::apart(table::put(by_id, id, peer), retired),
{
    assert forall|other: ConversationId| #[trigger] retired.contains(other) implies !table::holds(
        table::put(by_id, id, peer),
        other,
    ) by {
        table::lemma_put(by_id, id, peer, other);
    }
}

/// A conversation that is closed is told from those that are open.
pub proof fn lemma_closing_stays_apart(
    by_id: ById,
    retired: Seq<ConversationId>,
    id: ConversationId,
)
    requires
        client_model::apart(by_id, retired),
        table::unique_keys(by_id),
    ensures
        client_model::apart(table::without(by_id, id), retired.push(id)),
{
    let closed = retired.push(id);
    assert forall|other: ConversationId| #[trigger] closed.contains(other) implies !table::holds(
        table::without(by_id, id),
        other,
    ) by {
        table::lemma_without(by_id, id, other);
        if other != id {
            let i = choose|i: int| 0 <= i < closed.len() && closed[i] == other;
            assert(retired[i] == other);
            assert(retired.contains(other));
        }
    }
}

/// So are several.
pub proof fn lemma_expiry_stays_apart(
    by_id: ById,
    retired: Seq<ConversationId>,
    gone: ByPeer,
)
    requires
        client_model::apart(by_id, retired),
        table::unique_keys(by_id),
    ensures
        client_model::apart(
            client_model::forgotten(by_id, gone),
            retired + client_model::ids_of(gone),
        ),
{
    let ids = client_model::ids_of(gone);
    let closed = retired + ids;
    assert forall|other: ConversationId| #[trigger] closed.contains(other) implies !table::holds(
        client_model::forgotten(by_id, gone),
        other,
    ) by {
        lemma_forgotten_lookup(by_id, gone, other);
        let i = choose|i: int| 0 <= i < closed.len() && closed[i] == other;
        if i < retired.len() {
            assert(retired[i] == other);
            assert(retired.contains(other));
        } else {
            assert(gone[i - retired.len()].1.id == other);
        }
    }
}

/// The maps of conversations and of local peers stay each other's inverse, whatever
/// happens and whatever is drawn.
pub proof fn law_conversation_maps_agree(
    m: ClientModel,
    event: EventModel,
    now: Instant,
    draws: ClientDraws,
)
    requires
        client_model::client_valid(m),
        client_model::draws_valid(draws),
    ensures
        ({
            let next = client_model::client_step(m, event, now, draws).0;
            client_model::agree(next.by_peer, next.by_id)
        }),
{
    client_laws::law_client_stays_valid(m, event, now, draws);
}

/// No two local peers share a conversation.
pub proof fn law_local_peers_share_no_conversation(
    m: ClientModel,
    a: SocketAddress,
    b: SocketAddress,
)
    requires
        client_model::client_valid(m),
        a != b,
        table::holds(m.by_peer, a),
        table::holds(m.by_peer, b),
    ensures
        table::lookup(m.by_peer, a)->Some_0.id != table::lookup(m.by_peer, b)->Some_0.id,
{
}

/// What comes for a conversation is handed to the local peer that has it, and to no
/// other.
pub proof fn law_payloads_go_to_the_peer_of_the_conversation(
    m: ClientModel,
    event: EventModel,
    now: Instant,
    draws: ClientDraws,
    at: int,
)
    requires
        client_model::client_valid(m),
        client_model::client_step(m, event, now, draws).1 matches Ok(actions) && 0 <= at
            < actions.len() && actions[at] is DeliverToClient,
    ensures
        ({
            let session = m.session->Some_0;
            let bytes = event->TunnelFrame_bytes;
            let local_peer = client_model::client_step(
                m,
                event,
                now,
                draws,
            ).1->Ok_0[at]->DeliverToClient_local_peer;
            &&& event is TunnelFrame
            &&& m.session is Some
            &&& record::opened(session.opener, bytes) matches Ok(record) && (
            record.conversation_id matches Some(id) && forall|peer: SocketAddress|
                (#[trigger] table::lookup(m.by_peer, peer) matches Some(conversation)
                    && conversation.id == id) == (peer == local_peer))
        }),
{
    client_laws::law_only_authentic_payloads_are_delivered(m, event, now, draws, at);
}

/// One event with the instant at which it comes and what is drawn for it.
pub type ClientInput = (EventModel, Instant, ClientDraws);

/// A client after one event.
#[verifier::opaque]
pub open spec fn next_of(m: ClientModel, input: ClientInput) -> ClientModel {
    client_model::client_step(m, input.0, input.1, input.2).0
}

/// Whether an event opens a conversation.
#[verifier::opaque]
pub open spec fn opens(m: ClientModel, input: ClientInput, id: ConversationId) -> bool {
    exists|session_id: Option<SessionId>|
        client_model::client_step(m, input.0, input.1, input.2).1 matches Ok(actions)
            && actions.contains(
            #[trigger] opened_notice(session_id, id),
        )
}

pub open spec fn opened_notice(session_id: Option<SessionId>, id: ConversationId) -> ActionModel {
    ActionModel::ConversationOpened { session_id, conversation_id: id }
}

/// A client after several events.
pub open spec fn after_all(m: ClientModel, inputs: Seq<ClientInput>) -> ClientModel
    decreases inputs.len(),
{
    if inputs.len() == 0 {
        m
    } else {
        next_of(after_all(m, inputs.drop_last()), inputs.last())
    }
}

/// Whether an event confirms a session whose server knows of no earlier conversation.
pub open spec fn starts_over(m: ClientModel, event: EventModel) -> bool {
    client_laws::confirms(m, event) && !m.session->Some_0.resumed
}

/// Whether each of several events comes with what is drawn for it, and none starts over.
pub open spec fn continues(m: ClientModel, inputs: Seq<ClientInput>) -> bool {
    forall|k: int|
        #![trigger inputs[k]]
        0 <= k < inputs.len() ==> {
            let before = after_all(m, inputs.take(k));
            &&& client_model::drawn_for(before, inputs[k].0, inputs[k].1, inputs[k].2)
            &&& !starts_over(before, inputs[k].0)
        }
}

/// Sending the queue forgets no identifier and opens conversations under drawn ones
/// only.
proof fn lemma_flush_uses_draws(
    m: ClientModel,
    now: Instant,
    draws: Seq<Option<ConversationId>>,
    from: int,
    count: nat,
    id: ConversationId,
)
    ensures
        ({
            let step = client_model::flush_queue(m, now, draws, from, count);
            &&& step.0.retired == m.retired
            &&& !client_model::conversation_unused(m, id) ==> !client_model::conversation_unused(
                step.0,
                id,
            )
            &&& forall|i: int|
                0 <= i < step.1.len() ==> ((
                #[trigger] step.1[i]) matches ActionModel::ConversationOpened {
                    session_id,
                    conversation_id,
                } ==> draws.contains(Some(conversation_id)))
        }),
    decreases count,
{
    if count > 0 {
        let draw = client_model::drawn(draws, from);
        let first = client_model::flush_one(m, now, draw);
        let peer = m.queue[0].local_peer;
        if draw is Some {
            assert(draws[from] == draw);
            table::lemma_put(m.by_id, draw->Some_0, peer, id);
        }
        lemma_flush_uses_draws(first.0, now, draws, from + 1, (count - 1) as nat, id);
    }
}

/// Whether a list of actions opens conversations under drawn identifiers only.
spec fn opens_drawn(actions: Seq<ActionModel>, draws: Seq<Option<ConversationId>>) -> bool {
    forall|i: int|
        0 <= i < actions.len() ==> ((#[trigger] actions[i]) matches ActionModel::ConversationOpened {
            session_id,
            conversation_id,
        } ==> draws.contains(Some(conversation_id)))
}

/// Whether a client has forgotten none of the identifiers that are in use.
spec fn remembers(m: ClientModel, next: ClientModel, id: ConversationId) -> bool {
    &&& !client_model::conversation_unused(m, id) ==> !client_model::conversation_unused(next, id)
    &&& m.retired.contains(id) ==> next.retired.contains(id)
}

/// A local datagram opens a conversation under the drawn identifier only.
proof fn lemma_local_uses_draws(
    m: ClientModel,
    local_peer: SocketAddress,
    payload: Seq<u8>,
    now: Instant,
    draws: ClientDraws,
    id: ConversationId,
)
    ensures
        ({
            let step = client_model::handle_local(
                m,
                local_peer,
                payload,
                now,
                draws.hello,
                client_model::drawn(draws.conversations, 0),
            );
            &&& remembers(m, step.0, id)
            &&& step.1 matches Ok(actions) ==> opens_drawn(actions, draws.conversations)
        }),
{
    let draw = client_model::drawn(draws.conversations, 0);
    if draw is Some {
        assert(draws.conversations[0] == draw);
        table::lemma_put(m.by_id, draw->Some_0, local_peer, id);
    }
}

/// A confirmation opens conversations under drawn identifiers only.
proof fn lemma_establish_uses_draws(
    m: ClientModel,
    session: ClientSessionModel,
    now: Instant,
    draws: Seq<Option<ConversationId>>,
    id: ConversationId,
)
    ensures
        ({
            let step = client_model::establish(m, session, now, draws);
            &&& session.resumed ==> remembers(m, step.0, id)
            &&& opens_drawn(step.1->Ok_0, draws)
        }),
{
    let ready = client_model::confirmed(m, session, now);
    lemma_flush_uses_draws(ready, now, draws, 0, m.queue.len(), id);
    let flushed = client_model::flush_queue(ready, now, draws, 0, m.queue.len());
    assert(opens_drawn(flushed.1, draws));
}

/// A frame opens conversations under drawn identifiers only.
proof fn lemma_frame_uses_draws(
    m: ClientModel,
    peer_id: PeerId,
    bytes: Seq<u8>,
    now: Instant,
    draws: Seq<Option<ConversationId>>,
    id: ConversationId,
)
    ensures
        ({
            let event = EventModel::TunnelFrame { peer_id, bytes };
            let step = client_model::handle_tunnel(m, peer_id, bytes, now, draws);
            &&& !starts_over(m, event) ==> remembers(m, step.0, id)
            &&& step.1 matches Ok(actions) ==> opens_drawn(actions, draws)
        }),
{
    if m.session is Some {
        let session = m.session->Some_0;
        let seen = ClientSessionModel {
            opener: record::after_opening(session.opener, bytes),
            ..session
        };
        lemma_establish_uses_draws(m, seen, now, draws, id);
    }
}

/// Time closes conversations and remembers them.
proof fn lemma_time_remembers(m: ClientModel, now: Instant, id: ConversationId)
    requires
        table::unique_keys(m.by_id),
    ensures
        remembers(m, client_model::expire(m, now).0, id),
        opens_drawn(client_model::expire(m, now).1, Seq::empty()),
{
    let next = client_model::expire(m, now).0;
    let first = if client_model::in_handshake(m.state) {
        client_model::expire_handshake(m, now)
    } else {
        (m, Seq::empty())
    };
    let second = client_model::expire_queue(first.0, now);
    let third = client_model::expire_conversations(second.0, now);
    assert(opens_drawn(first.1, Seq::empty()));
    assert(opens_drawn(second.1, Seq::empty()));
    assert(opens_drawn(third.1, Seq::empty()));
    assert(second.0.by_peer == m.by_peer && second.0.by_id == m.by_id && second.0.retired
        == m.retired && second.0.config == m.config);
    let busy = client_model::still_busy(now, m.config.conversation_idle_timeout);
    let gone = table::discarded(m.by_peer, busy);
    let ids = client_model::ids_of(gone);
    lemma_forgotten_lookup(m.by_id, gone, id);
    assert(next.retired == m.retired + ids);
    if m.retired.contains(id) {
        let i = choose|i: int| 0 <= i < m.retired.len() && m.retired[i] == id;
        assert(next.retired[i] == id);
    }
    if among(gone, id) {
        let i = choose|i: int| 0 <= i < gone.len() && (#[trigger] gone[i]).1.id == id;
        assert(ids[i] == id);
        assert(next.retired[m.retired.len() + i] == id);
    }
}

/// A conversation that is closed is remembered.
proof fn lemma_close_remembers(m: ClientModel, closed: ConversationId, id: ConversationId)
    requires
        table::unique_keys(m.by_id),
    ensures
        remembers(m, client_model::close(m, closed).0, id),
{
    let next = client_model::close(m, closed).0;
    if table::holds(m.by_id, closed) {
        table::lemma_without(m.by_id, closed, id);
        assert(next.retired == m.retired.push(closed));
        if m.retired.contains(id) {
            let i = choose|i: int| 0 <= i < m.retired.len() && m.retired[i] == id;
            assert(next.retired[i] == id);
        }
        if id == closed {
            assert(next.retired[m.retired.len() as int] == id);
        }
    }
}

/// No event forgets an identifier that is in use, unless it starts over, and none opens
/// a conversation but under an identifier that is drawn for it.
proof fn lemma_step_uses_draws(m: ClientModel, input: ClientInput, id: ConversationId)
    requires
        table::unique_keys(m.by_id),
    ensures
        !starts_over(m, input.0) ==> remembers(m, next_of(m, input), id),
        opens(m, input, id) ==> input.2.conversations.contains(Some(id)),
{
    reveal(next_of);
    reveal(opens);
    let draws = input.2.conversations;
    let step = client_model::client_step(m, input.0, input.1, input.2);
    match input.0 {
        EventModel::ClientDatagram { local_peer, payload } => {
            lemma_local_uses_draws(m, local_peer, payload, input.1, input.2, id);
        },
        EventModel::TunnelFrame { peer_id, bytes } => {
            lemma_frame_uses_draws(m, peer_id, bytes, input.1, draws, id);
        },
        EventModel::TimeAdvanced(at) => {
            lemma_time_remembers(m, at, id);
        },
        EventModel::CloseConversation { session_id, conversation_id } => {
            lemma_close_remembers(m, conversation_id, id);
        },
        _ => {},
    }
    if opens(m, input, id) {
        let actions = step.1->Ok_0;
        let session_id = choose|session_id: Option<SessionId>|
            step.1 matches Ok(actions) && actions.contains(
                #[trigger] opened_notice(session_id, id),
            );
        let at = choose|i: int|
            0 <= i < actions.len() && actions[i] == opened_notice(session_id, id);
        assert(actions[at] is ConversationOpened);
    }
}

/// An identifier that is in use stays in use, and a conversation that is closed stays
/// closed, as long as the server of the session may know of it.
pub proof fn law_identifiers_stay_used(m: ClientModel, input: ClientInput, id: ConversationId)
    requires
        client_model::client_valid(m),
        client_model::draws_valid(input.2),
        !starts_over(m, input.0),
        !client_model::conversation_unused(m, id),
    ensures
        client_model::client_valid(next_of(m, input)),
        !client_model::conversation_unused(next_of(m, input), id),
        m.retired.contains(id) ==> next_of(m, input).retired.contains(id) && !table::holds(
            next_of(m, input).by_id,
            id,
        ),
{
    lemma_step_uses_draws(m, input, id);
    assert(client_model::client_valid(next_of(m, input))) by {
        reveal(next_of);
        client_laws::law_client_stays_valid(m, input.0, input.1, input.2);
    }
}

proof fn lemma_stays_used(m: ClientModel, inputs: Seq<ClientInput>, id: ConversationId)
    requires
        client_model::client_valid(m),
        continues(m, inputs),
        !client_model::conversation_unused(m, id),
    ensures
        client_model::client_valid(after_all(m, inputs)),
        !client_model::conversation_unused(after_all(m, inputs), id),
        m.retired.contains(id) ==> after_all(m, inputs).retired.contains(id),
    decreases inputs.len(),
{
    if inputs.len() > 0 {
        let earlier = inputs.drop_last();
        assert forall|k: int| #![trigger earlier[k]] 0 <= k < earlier.len() implies {
            let before = after_all(m, earlier.take(k));
            &&& client_model::drawn_for(before, earlier[k].0, earlier[k].1, earlier[k].2)
            &&& !starts_over(before, earlier[k].0)
        } by {
            assert(earlier.take(k) =~= inputs.take(k));
            assert(earlier[k] == inputs[k]);
        }
        lemma_stays_used(m, earlier, id);
        assert(inputs.take(inputs.len() - 1) =~= earlier);
        assert(inputs[inputs.len() - 1] == inputs.last());
        law_identifiers_stay_used(after_all(m, earlier), inputs.last(), id);
    }
}

/// A conversation is opened once: as long as the server may know of it, whether it is
/// open or was closed, no later event opens another one under its identifier.
pub proof fn law_conversations_are_opened_once(
    m: ClientModel,
    between: Seq<ClientInput>,
    last: ClientInput,
    id: ConversationId,
)
    requires
        client_model::client_valid(m),
        continues(m, between),
        client_model::drawn_for(after_all(m, between), last.0, last.1, last.2),
        !client_model::conversation_unused(m, id),
    ensures
        !opens(after_all(m, between), last, id),
{
    lemma_stays_used(m, between, id);
    let before = after_all(m, between);
    if opens(before, last, id) {
        lemma_step_uses_draws(before, last, id);
        let draws = last.2.conversations;
        let i = choose|i: int| 0 <= i < draws.len() && draws[i] == Some(id);
        assert(client_model::conversation_unused(before, draws[i]->Some_0));
    }
}

/// A closed conversation stays closed: nothing that the server says of it reaches a
/// local peer again as long as the server may know of it.
pub proof fn law_closed_conversations_stay_closed(
    m: ClientModel,
    between: Seq<ClientInput>,
    id: ConversationId,
)
    requires
        client_model::client_valid(m),
        continues(m, between),
        m.retired.contains(id),
    ensures
        !table::holds(after_all(m, between).by_id, id),
{
    lemma_stays_used(m, between, id);
}

} // verus!
