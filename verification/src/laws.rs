//! What holds of the hub in every state, and across operations.

use vstd::prelude::*;
use crate::hub::{
    audience, distinct_ids, eligible, ids, lemma_position, lemma_removed, lemma_room_occupied,
    lemma_unchanged_room, participants, position, room_of, rooms, roster, set_room, without,
    ClientModel,
};
use crate::router::{outcome, CommandModel};
use crate::wire::{chat_json, delivers_to, recipients, Delivery};

verus! {

/// A client's record names a room exactly if that room exists and holds the
/// client.
pub proof fn lemma_room_membership(clients: Seq<ClientModel>, id: u64, room: Seq<char>)
    requires
        distinct_ids(clients),
    ensures
        (roster(clients).contains(id) && room_of(clients, id) == Some(room)) <==> (rooms(
            clients,
        ).dom().contains(room) && rooms(clients)[room].contains(id)),
{
    if roster(clients).contains(id) && room_of(clients, id) == Some(room) {
        let i = position(clients, id);
        let k = choose|k: int| 0 <= k < ids(clients).len() && ids(clients)[k] == id;
        assert(clients[k].id == id);
        assert(clients[i].room == Some(room));
        assert(eligible(clients[i], Some(room), None));
        assert(participants(clients, room).contains(id));
    }
    if rooms(clients).dom().contains(room) && rooms(clients)[room].contains(id) {
        let i = choose|i: int|
            0 <= i < clients.len() && (#[trigger] clients[i]).id == id && eligible(
                clients[i],
                Some(room),
                None,
            );
        lemma_position(clients, i);
    }
}

/// A room exists exactly if somebody is in it, and then it holds exactly the
/// clients whose record names it.
pub proof fn lemma_room_exists_while_occupied(clients: Seq<ClientModel>, room: Seq<char>)
    ensures
        rooms(clients).dom().contains(room) <==> exists|id: u64|
            participants(clients, room).contains(id),
        rooms(clients).dom().contains(room) ==> rooms(clients)[room] == participants(clients, room),
{
    lemma_room_occupied(clients, room);
}

/// The roster that is sent after a client registered or left lists exactly
/// the registered clients, each once.
pub proof fn lemma_roster_lists_registered(clients: Seq<ClientModel>)
    requires
        distinct_ids(clients),
    ensures
        ids(clients).no_duplicates(),
        ids(clients).to_set() == roster(clients),
        ids(clients).len() == clients.len(),
{
}

/// Joining a room in which nobody else is and leaving it again leaves no
/// trace of the room: it does not exist afterwards, neither step addresses
/// an event to anybody, and a client that was in no room before is back in
/// the state it started from.
pub proof fn lemma_join_then_leave(clients: Seq<ClientModel>, id: u64, room: Seq<char>)
    requires
        distinct_ids(clients),
        forall|other: u64| participants(clients, room).contains(other) ==> other == id,
    ensures
        audience(set_room(clients, id, Some(room)), Some(room), Some(id)) == Set::<u64>::empty(),
        participants(set_room(set_room(clients, id, Some(room)), id, None), room) == Set::<
            u64,
        >::empty(),
        !rooms(set_room(set_room(clients, id, Some(room)), id, None)).dom().contains(room),
        set_room(set_room(clients, id, Some(room)), id, None) == set_room(clients, id, None),
        room_of(clients, id) is None ==> set_room(set_room(clients, id, Some(room)), id, None)
            == clients,
{
    let joined = set_room(clients, id, Some(room));
    let left = set_room(joined, id, None);
    assert(left =~= set_room(clients, id, None));
    assert forall|other: u64| !audience(joined, Some(room), Some(id)).contains(other) by {
        if audience(joined, Some(room), Some(id)).contains(other) {
            let i = choose|i: int|
                0 <= i < joined.len() && (#[trigger] joined[i]).id == other && eligible(
                    joined[i],
                    Some(room),
                    Some(id),
                );
            assert(joined[i] == clients[i]);
            assert(eligible(clients[i], Some(room), None));
            assert(participants(clients, room).contains(other));
        }
    }
    assert(audience(joined, Some(room), Some(id)) =~= Set::<u64>::empty());
    assert forall|i: int| 0 <= i < left.len() implies (#[trigger] left[i]).room != Some(room) by {
        if clients[i].id != id {
            assert(left[i] == clients[i]);
            if clients[i].room == Some(room) {
                assert(eligible(clients[i], Some(room), None));
                assert(participants(clients, room).contains(clients[i].id));
            }
        }
    }
    assert(participants(left, room) =~= Set::<u64>::empty());
    if room_of(clients, id) is None {
        lemma_unchanged_room(clients, id);
    }
}

/// Deliveries that go to a set of clients reach each of them exactly once,
/// and nobody outside the set.
pub proof fn lemma_exactly_once(
    deliveries: Seq<Delivery>,
    targets: Set<u64>,
    text: Seq<char>,
    id: u64,
)
    requires
        delivers_to(deliveries, targets, text),
    ensures
        targets.contains(id) ==> exists|i: int|
            0 <= i < deliveries.len() && (#[trigger] deliveries[i]).to == id && deliveries[i].text@
                == text && forall|j: int|
                0 <= j < deliveries.len() && (#[trigger] deliveries[j]).to == id ==> j == i,
        !targets.contains(id) ==> forall|j: int|
            0 <= j < deliveries.len() ==> (#[trigger] deliveries[j]).to != id,
{
    let to = recipients(deliveries);
    if targets.contains(id) {
        assert(to.to_set().contains(id));
        let i = choose|i: int| 0 <= i < to.len() && to[i] == id;
        assert(deliveries[i].to == id);
        assert forall|j: int| 0 <= j < deliveries.len() && (#[trigger] deliveries[j]).to
            == id implies j == i by {
            assert(to[j] == id);
        }
    } else {
        assert forall|j: int| 0 <= j < deliveries.len() implies (#[trigger] deliveries[j]).to
            != id by {
            assert(to[j] == deliveries[j].to);
            assert(to.to_set().contains(to[j]));
        }
    }
}

/// A chat message reaches every registered client but its sender exactly
/// once, and never its sender.
pub proof fn lemma_chat_reaches_others(
    before: Seq<ClientModel>,
    sender: u64,
    message: Seq<char>,
    raw: Seq<char>,
    after: Seq<ClientModel>,
    deliveries: Seq<Delivery>,
    id: u64,
)
    requires
        outcome(before, sender, CommandModel::Chat { message }, raw, after, deliveries),
    ensures
        after == before,
        roster(before).contains(id) && id != sender ==> exists|i: int|
            0 <= i < deliveries.len() && (#[trigger] deliveries[i]).to == id && deliveries[i].text@
                == chat_json(sender, message) && forall|j: int|
                0 <= j < deliveries.len() && (#[trigger] deliveries[j]).to == id ==> j == i,
        forall|j: int| 0 <= j < deliveries.len() ==> (#[trigger] deliveries[j]).to != sender,
{
    let everybody_else = audience(before, None, Some(sender));
    lemma_exactly_once(deliveries, everybody_else, chat_json(sender, message), id);
    lemma_exactly_once(deliveries, everybody_else, chat_json(sender, message), sender);
    if roster(before).contains(id) && id != sender {
        let k = choose|k: int| 0 <= k < ids(before).len() && ids(before)[k] == id;
        assert(before[k].id == id && eligible(before[k], None, Some(sender)));
        assert(everybody_else.contains(id));
    }
}

/// A relayed envelope reaches its target, and nobody else, as the very text
/// that the sender sent.
pub proof fn lemma_relay_is_exact(
    before: Seq<ClientModel>,
    sender: u64,
    target: u64,
    raw: Seq<char>,
    after: Seq<ClientModel>,
    deliveries: Seq<Delivery>,
)
    requires
        outcome(before, sender, CommandModel::Relay { target }, raw, after, deliveries),
        roster(before).contains(target),
    ensures
        after == before,
        deliveries.len() == 1,
        deliveries[0].to == target,
        deliveries[0].text@ == raw,
{
}

/// A relay or an invitation for a client that is not registered changes
/// nothing and is sent to nobody.
pub proof fn lemma_unicast_miss(
    before: Seq<ClientModel>,
    sender: u64,
    target: u64,
    room_id: Seq<char>,
    raw: Seq<char>,
    after: Seq<ClientModel>,
    deliveries: Seq<Delivery>,
)
    requires
        !roster(before).contains(target),
        outcome(before, sender, CommandModel::Relay { target }, raw, after, deliveries) || outcome(
            before,
            sender,
            CommandModel::VoiceInvite { target, room_id },
            raw,
            after,
            deliveries,
        ),
    ensures
        after == before,
        deliveries.len() == 0,
{
}

/// When a client that shares a room with one other client is removed, it is
/// gone from the roster and from the room, the room stays with the other
/// client alone, and the leave event, which goes to the room's participants
/// afterwards, does not go to the removed client.
pub proof fn lemma_disconnect_from_shared_room(
    clients: Seq<ClientModel>,
    id: u64,
    other: u64,
    room: Seq<char>,
)
    requires
        distinct_ids(clients),
        id != other,
        participants(clients, room) == set![id, other],
    ensures
        room_of(clients, id) == Some(room),
        !roster(without(clients, id)).contains(id),
        rooms(without(clients, id)).dom().contains(room),
        rooms(without(clients, id))[room] == set![other],
        !participants(without(clients, id), room).contains(id),
{
    assert(participants(clients, room).contains(id));
    assert(participants(clients, room).contains(other));
    let i = choose|i: int|
        0 <= i < clients.len() && (#[trigger] clients[i]).id == id && eligible(
            clients[i],
            Some(room),
            None,
        );
    let j = choose|j: int|
        0 <= j < clients.len() && (#[trigger] clients[j]).id == other && eligible(
            clients[j],
            Some(room),
            None,
        );
    lemma_position(clients, i);
    lemma_removed(clients, i);
    let rest = clients.remove(i);
    assert(without(clients, id) == rest);
    let j1 = if j < i { j } else { j - 1 };
    assert(rest[j1] == clients[j]);
    assert(rest[j1].room == Some(room));
    assert(eligible(rest[j1], Some(room), None));
    assert(participants(rest, room).contains(other));
    assert forall|x: u64| participants(rest, room).contains(x) implies x == other by {
        let k = choose|k: int|
            0 <= k < rest.len() && (#[trigger] rest[k]).id == x && eligible(
                rest[k],
                Some(room),
                None,
            );
        let k0 = if k < i { k } else { k + 1 };
        assert(rest[k] == clients[k0]);
        assert(eligible(clients[k0], Some(room), None));
        assert(participants(clients, room).contains(x));
        assert(ids(rest)[k] == x);
        assert(roster(rest).contains(x));
    }
    assert(participants(rest, room) =~= set![other]);
}

/// Setting the room of a registered client puts it among the participants of
/// that room and takes it from those of every other room; nobody else's room
/// changes, and the roster stays as it is. With no room given, the client is
/// a participant of no room afterwards.
pub proof fn lemma_room_change(
    clients: Seq<ClientModel>,
    id: u64,
    room: Option<Seq<char>>,
    other_room: Seq<char>,
    other: u64,
)
    requires
        distinct_ids(clients),
    ensures
        distinct_ids(set_room(clients, id, room)),
        ids(set_room(clients, id, room)) == ids(clients),
        roster(clients).contains(id) ==> room_of(set_room(clients, id, room), id) == room,
        other != id ==> room_of(set_room(clients, id, room), other) == room_of(clients, other),
        roster(clients).contains(id) && room == Some(other_room) ==> participants(
            set_room(clients, id, room),
            other_room,
        ) == participants(clients, other_room).insert(id),
        room != Some(other_room) ==> participants(set_room(clients, id, room), other_room)
            == participants(clients, other_room).remove(id),
{
    let after = set_room(clients, id, room);
    assert(ids(after) =~= ids(clients));
    assert(distinct_ids(after)) by {
        assert forall|i: int, j: int|
            0 <= i < after.len() && 0 <= j < after.len() && i != j implies (#[trigger] after[i]).id
            != (#[trigger] after[j]).id by {
            assert(after[i].id == clients[i].id);
            assert(after[j].id == clients[j].id);
        }
    }
    if roster(clients).contains(id) {
        let k = choose|k: int| 0 <= k < ids(clients).len() && ids(clients)[k] == id;
        assert(clients[k].id == id);
        assert(after[k] == ClientModel { id, room });
        lemma_position(after, k);
        if room == Some(other_room) {
            assert(eligible(after[k], Some(other_room), None));
            assert(participants(after, other_room).contains(id));
        }
    }
    if other != id && roster(clients).contains(other) {
        let k = choose|k: int| 0 <= k < ids(clients).len() && ids(clients)[k] == other;
        assert(clients[k].id == other);
        assert(after[k] == clients[k]);
        lemma_position(clients, k);
        lemma_position(after, k);
    }
    assert forall|x: u64| #[trigger]
        participants(after, other_room).contains(x) <==> (if x == id {
            roster(clients).contains(id) && room == Some(other_room)
        } else {
            participants(clients, other_room).contains(x)
        }) by {
        if participants(after, other_room).contains(x) {
            let i = choose|i: int|
                0 <= i < after.len() && (#[trigger] after[i]).id == x && eligible(
                    after[i],
                    Some(other_room),
                    None,
                );
            assert(after[i].id == clients[i].id);
            assert(ids(clients)[i] == x);
            if x != id {
                assert(after[i] == clients[i]);
                assert(eligible(clients[i], Some(other_room), None));
            }
        }
        if x != id && participants(clients, other_room).contains(x) {
            let i = choose|i: int|
                0 <= i < clients.len() && (#[trigger] clients[i]).id == x && eligible(
                    clients[i],
                    Some(other_room),
                    None,
                );
            assert(after[i] == clients[i]);
            assert(eligible(after[i], Some(other_room), None));
        }
    }
    if roster(clients).contains(id) && room == Some(other_room) {
        assert(participants(after, other_room) =~= participants(clients, other_room).insert(id));
    }
    if room != Some(other_room) {
        assert(participants(after, other_room) =~= participants(clients, other_room).remove(id));
    }
}

/// Removing a client takes it from the roster and from the participants of
/// every room, and nothing else changes: nobody else's room, and the ids stay
/// distinct.
pub proof fn lemma_removal(clients: Seq<ClientModel>, id: u64, room: Seq<char>, other: u64)
    requires
        distinct_ids(clients),
    ensures
        distinct_ids(without(clients, id)),
        roster(without(clients, id)) == roster(clients).remove(id),
        participants(without(clients, id), room) == participants(clients, room).remove(id),
        other != id ==> room_of(without(clients, id), other) == room_of(clients, other),
        room_of(without(clients, id), id) is None,
{
    if roster(clients).contains(id) {
        let i = choose|k: int| 0 <= k < ids(clients).len() && ids(clients)[k] == id;
        assert(clients[i].id == id);
        lemma_position(clients, i);
        lemma_removed(clients, i);
        let rest = clients.remove(i);
        assert(without(clients, id) == rest);
        assert forall|x: u64| #[trigger]
            roster(rest).contains(x) <==> (x != id && roster(clients).contains(x)) by {
            if roster(rest).contains(x) {
                let k = choose|k: int| 0 <= k < ids(rest).len() && ids(rest)[k] == x;
                let k0 = if k < i { k } else { k + 1 };
                assert(rest[k] == clients[k0]);
                assert(ids(clients)[k0] == x);
            }
            if x != id && roster(clients).contains(x) {
                let k = choose|k: int| 0 <= k < ids(clients).len() && ids(clients)[k] == x;
                assert(clients[k].id == x);
                let k1 = if k < i { k } else { k - 1 };
                assert(rest[k1] == clients[k]);
                assert(ids(rest)[k1] == x);
            }
        }
        assert(roster(rest) =~= roster(clients).remove(id));
        assert forall|x: u64| #[trigger]
            participants(rest, room).contains(x) <==> (x != id && participants(
                clients,
                room,
            ).contains(x)) by {
            if participants(rest, room).contains(x) {
                let k = choose|k: int|
                    0 <= k < rest.len() && (#[trigger] rest[k]).id == x && eligible(
                        rest[k],
                        Some(room),
                        None,
                    );
                let k0 = if k < i { k } else { k + 1 };
                assert(rest[k] == clients[k0]);
                assert(eligible(clients[k0], Some(room), None));
                assert(ids(rest)[k] == x);
                assert(roster(rest).contains(x));
            }
            if x != id && participants(clients, room).contains(x) {
                let k = choose|k: int|
                    0 <= k < clients.len() && (#[trigger] clients[k]).id == x && eligible(
                        clients[k],
                        Some(room),
                        None,
                    );
                let k1 = if k < i { k } else { k - 1 };
                assert(rest[k1] == clients[k]);
                assert(eligible(rest[k1], Some(room), None));
            }
        }
        assert(participants(rest, room) =~= participants(clients, room).remove(id));
        if other != id && roster(clients).contains(other) {
            let k = choose|k: int| 0 <= k < ids(clients).len() && ids(clients)[k] == other;
            assert(clients[k].id == other);
            let k1 = if k < i { k } else { k - 1 };
            assert(rest[k1] == clients[k]);
            lemma_position(clients, k);
            lemma_position(rest, k1);
        }
    } else {
        assert(roster(clients).remove(id) =~= roster(clients));
        assert forall|x: u64| participants(clients, room).contains(x) implies x != id by {
            let k = choose|k: int|
                0 <= k < clients.len() && (#[trigger] clients[k]).id == x && eligible(
                    clients[k],
                    Some(room),
                    None,
                );
            assert(ids(clients)[k] == x);
        }
        assert(participants(clients, room).remove(id) =~= participants(clients, room));
    }
}

/// No command takes a client from the roster or adds one: a client leaves
/// only when it is unregistered.
pub proof fn lemma_commands_keep_roster(
    before: Seq<ClientModel>,
    sender: u64,
    command: CommandModel,
    raw: Seq<char>,
    after: Seq<ClientModel>,
    deliveries: Seq<Delivery>,
)
    requires
        outcome(before, sender, command, raw, after, deliveries),
    ensures
        ids(after) == ids(before),
        roster(after) == roster(before),
{
    assert(ids(after) =~= ids(before));
}

} // verus!
