//! The registry of connected clients and of the voice rooms they are in.
//!
//! The hub is seen as the sequence of its clients in the order in which they
//! registered, each with its id and its room. The roster, the rooms and their
//! participants are read off that sequence.

use vstd::prelude::*;
use crate::wire::{
    deliver_each, delivers_to, join_json, join_text, leave_json, leave_text,
    text_model, user_list_json, user_list_text, Delivery,
};

verus! {

/// A connected client: its id and the voice room it is in, if any.
pub struct Client {
    pub id: u64,
    pub voice_room: Option<String>,
}

/// A client as mathematical values.
pub struct ClientModel {
    pub id: u64,
    pub room: Option<Seq<char>>,
}

impl View for Client {
    type V = ClientModel;

    open spec fn view(&self) -> ClientModel {
        ClientModel { id: self.id, room: text_model(self.voice_room) }
    }
}

/// No two clients of `clients` have the same id.
pub open spec fn distinct_ids(clients: Seq<ClientModel>) -> bool {
    forall|i: int, j: int|
        0 <= i < clients.len() && 0 <= j < clients.len() && i != j ==> (#[trigger] clients[i]).id
            != (#[trigger] clients[j]).id
}

/// The ids of the clients, in the order in which they registered.
pub open spec fn ids(clients: Seq<ClientModel>) -> Seq<u64> {
    clients.map_values(|c: ClientModel| c.id)
}

/// The ids of the registered clients.
pub open spec fn roster(clients: Seq<ClientModel>) -> Set<u64> {
    ids(clients).to_set()
}

/// Where the client `id` stands in `clients`.
pub open spec fn position(clients: Seq<ClientModel>, id: u64) -> int {
    choose|i: int| 0 <= i < clients.len() && (#[trigger] clients[i]).id == id
}

/// The room that the client `id` is in: `None` also where no such client is
/// registered.
pub open spec fn room_of(clients: Seq<ClientModel>, id: u64) -> Option<Seq<char>> {
    if roster(clients).contains(id) {
        clients[position(clients, id)].room
    } else {
        None
    }
}

/// A message for the room `room` (for everybody where `room` is `None`) that
/// leaves out `exclude` may go to `client`.
pub open spec fn eligible(client: ClientModel, room: Option<Seq<char>>, exclude: Option<u64>) -> bool {
    &&& exclude != Some(client.id)
    &&& room is Some ==> client.room == room
}

/// The registered clients that a message for `room` that leaves out `exclude`
/// goes to.
pub open spec fn audience(
    clients: Seq<ClientModel>,
    room: Option<Seq<char>>,
    exclude: Option<u64>,
) -> Set<u64> {
    Set::new(
        |id: u64|
            exists|i: int|
                0 <= i < clients.len() && (#[trigger] clients[i]).id == id && eligible(
                    clients[i],
                    room,
                    exclude,
                ),
    )
}

/// The participants of the room `room`.
pub open spec fn participants(clients: Seq<ClientModel>, room: Seq<char>) -> Set<u64> {
    audience(clients, Some(room), None)
}

/// The voice rooms: a room exists while some client is in it, and holds the
/// clients that are in it.
pub open spec fn rooms(clients: Seq<ClientModel>) -> Map<Seq<char>, Set<u64>> {
    Map::new(
        |room: Seq<char>|
            exists|i: int| 0 <= i < clients.len() && (#[trigger] clients[i]).room == Some(room),
        |room: Seq<char>| participants(clients, room),
    )
}

/// `clients` with the room of the client `id` set to `room`; unchanged where
/// no such client is registered.
pub open spec fn set_room(clients: Seq<ClientModel>, id: u64, room: Option<Seq<char>>) -> Seq<
    ClientModel,
> {
    clients.map_values(
        |c: ClientModel|
            if c.id == id {
                ClientModel { id, room }
            } else {
                c
            },
    )
}

/// `clients` without the client `id`; unchanged where no such client is
/// registered.
pub open spec fn without(clients: Seq<ClientModel>, id: u64) -> Seq<ClientModel> {
    if roster(clients).contains(id) {
        clients.remove(position(clients, id))
    } else {
        clients
    }
}

/// The ids among the first `n` clients that a message for `room` that leaves
/// out `exclude` goes to, in registration order.
spec fn picked(
    clients: Seq<ClientModel>,
    n: nat,
    room: Option<Seq<char>>,
    exclude: Option<u64>,
) -> Seq<u64>
    decreases n,
{
    if n == 0 {
        Seq::empty()
    } else {
        let rest = picked(clients, (n - 1) as nat, room, exclude);
        if eligible(clients[n - 1], room, exclude) {
            rest.push(clients[n - 1].id)
        } else {
            rest
        }
    }
}

/// `picked` lists each eligible client among the first `n` once.
proof fn lemma_picked(
    clients: Seq<ClientModel>,
    n: nat,
    room: Option<Seq<char>>,
    exclude: Option<u64>,
)
    requires
        distinct_ids(clients),
        n <= clients.len(),
    ensures
        picked(clients, n, room, exclude).no_duplicates(),
        forall|id: u64|
            picked(clients, n, room, exclude).contains(id) <==> exists|i: int|
                0 <= i < n && (#[trigger] clients[i]).id == id && eligible(clients[i], room, exclude),
    decreases n,
{
    if n > 0 {
        let m = (n - 1) as nat;
        lemma_picked(clients, m, room, exclude);
        let rest = picked(clients, m, room, exclude);
        let all = picked(clients, n, room, exclude);
        let last = clients[n - 1];
        if eligible(last, room, exclude) {
            assert(all == rest.push(last.id));
            assert(!rest.contains(last.id));
            assert forall|id: u64| all.contains(id) implies exists|i: int|
                0 <= i < n && (#[trigger] clients[i]).id == id && eligible(
                    clients[i],
                    room,
                    exclude,
                ) by {
                let k = choose|k: int| 0 <= k < all.len() && all[k] == id;
                if k < rest.len() {
                    assert(rest[k] == id);
                    assert(rest.contains(id));
                } else {
                    assert(clients[n - 1].id == id);
                }
            }
            assert forall|id: u64|
                (exists|i: int|
                    0 <= i < n && (#[trigger] clients[i]).id == id && eligible(
                        clients[i],
                        room,
                        exclude,
                    )) implies all.contains(id) by {
                let i = choose|i: int|
                    0 <= i < n && (#[trigger] clients[i]).id == id && eligible(
                        clients[i],
                        room,
                        exclude,
                    );
                if i < m {
                    assert(rest.contains(id));
                    let k = choose|k: int| 0 <= k < rest.len() && rest[k] == id;
                    assert(all[k] == id);
                } else {
                    assert(all[rest.len() as int] == id);
                }
            }
        } else {
            assert(all == rest);
        }
    }
}

/// Whoever is in `picked` over all clients is the audience.
proof fn lemma_picked_audience(
    clients: Seq<ClientModel>,
    room: Option<Seq<char>>,
    exclude: Option<u64>,
)
    requires
        distinct_ids(clients),
    ensures
        picked(clients, clients.len(), room, exclude).no_duplicates(),
        picked(clients, clients.len(), room, exclude).to_set() == audience(clients, room, exclude),
{
    lemma_picked(clients, clients.len(), room, exclude);
    assert(picked(clients, clients.len(), room, exclude).to_set() =~= audience(
        clients,
        room,
        exclude,
    ));
}

/// With neither a room nor an exclusion, the audience is the roster.
proof fn lemma_audience_of_all(clients: Seq<ClientModel>)
    ensures
        audience(clients, None, None) == roster(clients),
{
    assert forall|id: u64| audience(clients, None, None).contains(id) implies roster(
        clients,
    ).contains(id) by {
        let i = choose|i: int|
            0 <= i < clients.len() && (#[trigger] clients[i]).id == id && eligible(
                clients[i],
                None,
                None,
            );
        assert(ids(clients)[i] == id);
    }
    assert forall|id: u64| roster(clients).contains(id) implies audience(
        clients,
        None,
        None,
    ).contains(id) by {
        let i = choose|i: int| 0 <= i < ids(clients).len() && ids(clients)[i] == id;
        assert(clients[i].id == id);
    }
    assert(audience(clients, None, None) =~= roster(clients));
}

/// In a list of distinct ids, a client stands where its id is found.
pub proof fn lemma_position(clients: Seq<ClientModel>, i: int)
    requires
        distinct_ids(clients),
        0 <= i < clients.len(),
    ensures
        roster(clients).contains(clients[i].id),
        position(clients, clients[i].id) == i,
        room_of(clients, clients[i].id) == clients[i].room,
{
    assert(ids(clients)[i] == clients[i].id);
}

/// An id outside the roster is the id of no client.
proof fn lemma_absent(clients: Seq<ClientModel>, id: u64)
    requires
        !roster(clients).contains(id),
    ensures
        forall|i: int| 0 <= i < clients.len() ==> (#[trigger] clients[i]).id != id,
        set_room(clients, id, None) == clients,
{
    assert forall|i: int| 0 <= i < clients.len() implies (#[trigger] clients[i]).id != id by {
        assert(ids(clients)[i] == clients[i].id);
    }
    assert(set_room(clients, id, None) =~= clients);
}

/// A room exists exactly if somebody is in it.
pub proof fn lemma_room_occupied(clients: Seq<ClientModel>, room: Seq<char>)
    ensures
        rooms(clients).dom().contains(room) <==> exists|id: u64|
            participants(clients, room).contains(id),
{
    if rooms(clients).dom().contains(room) {
        let i = choose|i: int| 0 <= i < clients.len() && (#[trigger] clients[i]).room == Some(room);
        assert(eligible(clients[i], Some(room), None));
        assert(participants(clients, room).contains(clients[i].id));
    }
    if exists|id: u64| participants(clients, room).contains(id) {
        let id = choose|id: u64| participants(clients, room).contains(id);
        let i = choose|i: int|
            0 <= i < clients.len() && (#[trigger] clients[i]).id == id && eligible(
                clients[i],
                Some(room),
                None,
            );
        assert(clients[i].room == Some(room));
    }
}

/// The shared state of the relay: the connected clients, each with the voice
/// room it is in, and the id that the next client gets.
///
/// A client's record is the only place that says which room it is in. A room
/// is the set of the clients whose record names it, so it exists exactly while
/// somebody is in it, and a client is in at most one room.
pub struct Hub {
    clients: Vec<Client>,
    next_id: u64,
}

impl View for Hub {
    type V = Seq<ClientModel>;

    closed spec fn view(&self) -> Seq<ClientModel> {
        self.clients@.map_values(|c: Client| c@)
    }
}

fn same_room(held: &Option<String>, room: &String) -> (same: bool)
    ensures
        same == (text_model(*held) == Some(room@)),
{
    match held {
        Some(r) => *r == *room,
        None => false,
    }
}

fn may_go_to(client: &Client, room: &Option<String>, exclude: Option<u64>) -> (may: bool)
    ensures
        may == eligible(client@, text_model(*room), exclude),
{
    let kept = match exclude {
        Some(x) => x != client.id,
        None => true,
    };
    let inside = match room {
        Some(r) => same_room(&client.voice_room, r),
        None => true,
    };
    kept && inside
}

impl Hub {
    /// The id that the next client to register gets.
    pub closed spec fn next_id(&self) -> u64 {
        self.next_id
    }

    /// No id is held twice, and every id in use is below the next one.
    pub open spec fn wf(&self) -> bool {
        &&& distinct_ids(self@)
        &&& forall|i: int| 0 <= i < self@.len() ==> (#[trigger] self@[i]).id < self.next_id()
    }

    /// A hub without clients.
    pub fn new() -> (hub: Hub)
        ensures
            hub.wf(),
            hub@ == Seq::<ClientModel>::empty(),
            hub.next_id() == 0,
    {
        let hub = Hub { clients: Vec::new(), next_id: 0 };
        assert(hub@ =~= Seq::<ClientModel>::empty());
        hub
    }

    fn find(&self, id: u64) -> (found: Option<usize>)
        ensures
            match found {
                Some(i) => i < self@.len() && self@[i as int].id == id && i < self.clients@.len(),
                None => !roster(self@).contains(id),
            },
    {
        let mut i: usize = 0;
        while i < self.clients.len()
            invariant
                i <= self.clients@.len(),
                forall|k: int| 0 <= k < i ==> (#[trigger] self@[k]).id != id,
            decreases self.clients@.len() - i,
        {
            if self.clients[i].id == id {
                return Some(i);
            }
            i += 1;
        }
        proof {
            if roster(self@).contains(id) {
                let k = choose|k: int| 0 <= k < ids(self@).len() && ids(self@)[k] == id;
                assert(self@[k].id == id);
            }
        }
        None
    }

    /// Whether a client with this id is registered.
    pub fn is_registered(&self, id: u64) -> (registered: bool)
        ensures
            registered == roster(self@).contains(id),
    {
        let found = self.find(id);
        proof {
            if let Some(i) = found {
                assert(ids(self@)[i as int] == id);
            }
        }
        found.is_some()
    }

    /// The voice room that the client `id` is in.
    pub fn current_room(&self, id: u64) -> (room: Option<String>)
        requires
            self.wf(),
        ensures
            text_model(room) == room_of(self@, id),
    {
        match self.find(id) {
            Some(i) => {
                proof {
                    lemma_position(self@, i as int);
                }
                self.clients[i].voice_room.clone()
            },
            None => None,
        }
    }

    /// The ids of the registered clients, in the order in which they registered.
    pub fn roster_snapshot(&self) -> (users: Vec<u64>)
        ensures
            users@ == ids(self@),
    {
        let mut users: Vec<u64> = Vec::new();
        let mut i: usize = 0;
        while i < self.clients.len()
            invariant
                i <= self.clients@.len(),
                users@ == ids(self@).subrange(0, i as int),
            decreases self.clients@.len() - i,
        {
            users.push(self.clients[i].id);
            proof {
                assert(ids(self@).subrange(0, i as int + 1) =~= ids(self@).subrange(0, i as int).push(
                    self@[i as int].id,
                ));
            }
            i += 1;
        }
        proof {
            assert(ids(self@).subrange(0, self@.len() as int) =~= ids(self@));
        }
        users
    }

    fn select(&self, room: &Option<String>, exclude: Option<u64>) -> (chosen: Vec<u64>)
        requires
            self.wf(),
        ensures
            chosen@.no_duplicates(),
            chosen@.to_set() == audience(self@, text_model(*room), exclude),
    {
        let mut chosen: Vec<u64> = Vec::new();
        let mut i: usize = 0;
        while i < self.clients.len()
            invariant
                i <= self.clients@.len(),
                chosen@ == picked(self@, i as nat, text_model(*room), exclude),
            decreases self.clients@.len() - i,
        {
            if may_go_to(&self.clients[i], room, exclude) {
                chosen.push(self.clients[i].id);
            }
            i += 1;
        }
        proof {
            lemma_picked_audience(self@, text_model(*room), exclude);
        }
        chosen
    }

    fn fan_out(&self, room: &Option<String>, text: &str, exclude: Option<u64>) -> (deliveries: Vec<
        Delivery,
    >)
        requires
            self.wf(),
        ensures
            delivers_to(deliveries@, audience(self@, text_model(*room), exclude), text@),
    {
        let chosen = self.select(room, exclude);
        deliver_each(&chosen, text)
    }

    /// Addresses `text` to every registered client but `exclude`.
    pub fn broadcast_message_to_all(&self, text: &str, exclude: Option<u64>) -> (deliveries: Vec<Delivery>)
        requires
            self.wf(),
        ensures
            delivers_to(deliveries@, audience(self@, None, exclude), text@),
    {
        self.fan_out(&None, text, exclude)
    }

    /// Addresses `text` to every client that is in the room `room_id`, but
    /// `exclude`.
    pub fn broadcast_to_room(&self, room_id: &str, text: &str, exclude: Option<u64>) -> (deliveries:
        Vec<Delivery>)
        requires
            self.wf(),
        ensures
            delivers_to(deliveries@, audience(self@, Some(room_id@), exclude), text@),
    {
        self.fan_out(&Some(room_id.to_owned()), text, exclude)
    }

    /// Addresses the roster to every registered client.
    pub fn broadcast_user_list(&self) -> (deliveries: Vec<Delivery>)
        requires
            self.wf(),
        ensures
            delivers_to(deliveries@, roster(self@), user_list_json(ids(self@))),
    {
        let users = self.roster_snapshot();
        let text = user_list_text(&users);
        proof {
            lemma_audience_of_all(self@);
        }
        self.fan_out(&None, text.as_str(), None)
    }

    /// The clients that are in the room `room_id`, in the order in which they
    /// registered.
    pub fn room_participants(&self, room_id: &str) -> (members: Vec<u64>)
        requires
            self.wf(),
        ensures
            members@.no_duplicates(),
            members@.to_set() == participants(self@, room_id@),
    {
        self.select(&Some(room_id.to_owned()), None)
    }

    /// Whether the room `room_id` exists: whether somebody is in it.
    pub fn room_exists(&self, room_id: &str) -> (present: bool)
        requires
            self.wf(),
        ensures
            present == rooms(self@).dom().contains(room_id@),
    {
        let members = self.room_participants(room_id);
        proof {
            lemma_room_occupied(self@, room_id@);
            if members@.len() > 0 {
                assert(members@.to_set().contains(members@[0]));
            } else if rooms(self@).dom().contains(room_id@) {
                let id = choose|id: u64| participants(self@, room_id@).contains(id);
                assert(members@.to_set().contains(id));
            }
        }
        members.len() > 0
    }

    /// Addresses `text` to the client `target` alone: to nobody where no such
    /// client is registered.
    pub fn unicast(&self, target: u64, text: &str) -> (deliveries: Vec<Delivery>)
        ensures
            roster(self@).contains(target) ==> deliveries@.len() == 1 && deliveries@[0].to == target
                && deliveries@[0].text@ == text@,
            !roster(self@).contains(target) ==> deliveries@.len() == 0,
    {
        let mut deliveries: Vec<Delivery> = Vec::new();
        if self.is_registered(target) {
            deliveries.push(Delivery { to: target, text: text.to_owned() });
        }
        deliveries
    }

    /// Registers a new client under the next id and addresses the new roster
    /// to every client, the new one too. Where the ids are used up, nothing
    /// changes and the result is `None`.
    pub fn register(&mut self) -> (registered: Option<(u64, Vec<Delivery>)>)
        requires
            old(self).wf(),
        ensures
            final(self).wf(),
            match registered {
                Some((id, deliveries)) => {
                    &&& old(self).next_id() < u64::MAX
                    &&& id == old(self).next_id()
                    &&& final(self).next_id() == id + 1
                    &&& final(self)@ == old(self)@.push(ClientModel { id, room: None })
                    &&& delivers_to(
                        deliveries@,
                        roster(final(self)@),
                        user_list_json(ids(final(self)@)),
                    )
                },
                None => {
                    &&& old(self).next_id() == u64::MAX
                    &&& final(self)@ == old(self)@
                    &&& final(self).next_id() == old(self).next_id()
                },
            },
    {
        if self.next_id == u64::MAX {
            return None;
        }
        let id = self.next_id;
        self.clients.push(Client { id, voice_room: None });
        self.next_id = id + 1;
        proof {
            assert(self@ =~= old(self)@.push(ClientModel { id, room: None }));
        }
        let deliveries = self.broadcast_user_list();
        Some((id, deliveries))
    }

    fn assign_room(&mut self, id: u64, room: Option<String>)
        requires
            old(self).wf(),
        ensures
            final(self).wf(),
            final(self).next_id() == old(self).next_id(),
            final(self)@ == set_room(old(self)@, id, text_model(room)),
    {
        match self.find(id) {
            Some(i) => {
                let ghost target = text_model(room);
                self.clients.set(i, Client { id, voice_room: room });
                proof {
                    assert(self@ =~= old(self)@.update(i as int, ClientModel { id, room: target }));
                    assert(self@ =~= set_room(old(self)@, id, target));
                }
            },
            None => {
                proof {
                    lemma_absent(old(self)@, id);
                    assert(set_room(old(self)@, id, text_model(room)) =~= old(self)@);
                }
            },
        }
    }

    /// Puts the client `id` into the room `room_id`, out of any other room it
    /// was in, and addresses a join event to every other client in that room.
    /// Where no client `id` is registered, only the event is made.
    pub fn join(&mut self, id: u64, room_id: &str) -> (deliveries: Vec<Delivery>)
        requires
            old(self).wf(),
        ensures
            final(self).wf(),
            final(self).next_id() == old(self).next_id(),
            final(self)@ == set_room(old(self)@, id, Some(room_id@)),
            delivers_to(
                deliveries@,
                audience(final(self)@, Some(room_id@), Some(id)),
                join_json(id, room_id@),
            ),
    {
        self.assign_room(id, Some(room_id.to_owned()));
        let text = join_text(id, room_id);
        self.broadcast_to_room(room_id, text.as_str(), Some(id))
    }

    /// Takes the client `id` out of its room and addresses a leave event to
    /// the clients that are in the room `room_id` afterwards: never to the
    /// client itself. Where no client `id` is registered, only the event is
    /// made.
    pub fn leave(&mut self, id: u64, room_id: &str) -> (deliveries: Vec<Delivery>)
        requires
            old(self).wf(),
        ensures
            final(self).wf(),
            final(self).next_id() == old(self).next_id(),
            final(self)@ == set_room(old(self)@, id, None),
            delivers_to(
                deliveries@,
                participants(final(self)@, room_id@),
                leave_json(id, room_id@),
            ),
    {
        self.assign_room(id, None);
        let text = leave_text(id, room_id);
        self.broadcast_to_room(room_id, text.as_str(), None)
    }

    /// Where the client `id` is in a room, takes it out as `leave` does, with
    /// the room read from the client's own record. Otherwise nothing happens.
    pub fn cleanup_on_disconnect(&mut self, id: u64) -> (deliveries: Vec<Delivery>)
        requires
            old(self).wf(),
        ensures
            final(self).wf(),
            final(self).next_id() == old(self).next_id(),
            final(self)@ == set_room(old(self)@, id, None),
            match room_of(old(self)@, id) {
                Some(room) => delivers_to(
                    deliveries@,
                    participants(final(self)@, room),
                    leave_json(id, room),
                ),
                None => deliveries@.len() == 0,
            },
    {
        match self.current_room(id) {
            Some(room) => self.leave(id, room.as_str()),
            None => {
                proof {
                    lemma_unchanged_room(self@, id);
                }
                Vec::new()
            },
        }
    }

    /// Removes the client `id`: first out of its room, as
    /// `cleanup_on_disconnect` does, then out of the roster. The first part of
    /// the result holds the leave events, the second the new roster for every
    /// client that is left. Where no such client is registered, nothing
    /// happens.
    pub fn unregister(&mut self, id: u64) -> (deliveries: (Vec<Delivery>, Vec<Delivery>))
        requires
            old(self).wf(),
        ensures
            final(self).wf(),
            final(self).next_id() == old(self).next_id(),
            final(self)@ == without(old(self)@, id),
            !roster(final(self)@).contains(id),
            match room_of(old(self)@, id) {
                Some(room) => delivers_to(
                    deliveries.0@,
                    participants(final(self)@, room),
                    leave_json(id, room),
                ),
                None => deliveries.0@.len() == 0,
            },
            roster(old(self)@).contains(id) ==> delivers_to(
                deliveries.1@,
                roster(final(self)@),
                user_list_json(ids(final(self)@)),
            ),
            !roster(old(self)@).contains(id) ==> deliveries.1@.len() == 0,
    {
        match self.find(id) {
            Some(i) => {
                let room = self.clients[i].voice_room.clone();
                proof {
                    lemma_position(self@, i as int);
                }
                self.clients.remove(i);
                proof {
                    assert(self@ =~= old(self)@.remove(i as int));
                    lemma_removed(old(self)@, i as int);
                }
                let events = match room {
                    Some(r) => {
                        let text = leave_text(id, r.as_str());
                        self.broadcast_to_room(r.as_str(), text.as_str(), None)
                    },
                    None => Vec::new(),
                };
                let updates = self.broadcast_user_list();
                (events, updates)
            },
            None => (Vec::new(), Vec::new()),
        }
    }
}

/// Clearing the room of a client that is in none changes nothing.
pub proof fn lemma_unchanged_room(clients: Seq<ClientModel>, id: u64)
    requires
        distinct_ids(clients),
        room_of(clients, id) is None,
    ensures
        set_room(clients, id, None) == clients,
{
    if roster(clients).contains(id) {
        assert forall|i: int| 0 <= i < clients.len() implies set_room(clients, id, None)[i]
            == clients[i] by {
            if clients[i].id == id {
                lemma_position(clients, i);
            }
        }
        assert(set_room(clients, id, None) =~= clients);
    } else {
        lemma_absent(clients, id);
    }
}

/// Without the client at `i`, the ids are still distinct and the id of that
/// client is gone.
pub proof fn lemma_removed(clients: Seq<ClientModel>, i: int)
    requires
        distinct_ids(clients),
        0 <= i < clients.len(),
    ensures
        distinct_ids(clients.remove(i)),
        !roster(clients.remove(i)).contains(clients[i].id),
        without(clients, clients[i].id) == clients.remove(i),
        forall|k: int|
            0 <= k < clients.remove(i).len() ==> exists|j: int|
                0 <= j < clients.len() && clients[j] == #[trigger] clients.remove(i)[k],
{
    let rest = clients.remove(i);
    lemma_position(clients, i);
    assert forall|a: int, b: int| 0 <= a < rest.len() && 0 <= b < rest.len() && a != b implies (
    #[trigger] rest[a]).id != (#[trigger] rest[b]).id by {
        let a0 = if a < i { a } else { a + 1 };
        let b0 = if b < i { b } else { b + 1 };
        assert(rest[a] == clients[a0]);
        assert(rest[b] == clients[b0]);
    }
    if roster(rest).contains(clients[i].id) {
        let k = choose|k: int| 0 <= k < ids(rest).len() && ids(rest)[k] == clients[i].id;
        let k0 = if k < i { k } else { k + 1 };
        assert(rest[k] == clients[k0]);
    }
    assert forall|k: int| 0 <= k < rest.len() implies exists|j: int|
        0 <= j < clients.len() && clients[j] == #[trigger] rest[k] by {
        let k0 = if k < i { k } else { k + 1 };
        assert(clients[k0] == rest[k]);
    }
}


} // verus!
