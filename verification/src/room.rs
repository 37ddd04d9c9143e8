//! The room registry: the rooms, the index from each client to its room, and
//! the operations that keep the two in step.
//!
//! Every operation that changes the registry takes it by exclusive
//! reference and happens as a whole: a join puts the client into the room
//! and into the index or does neither, and a leave that empties a room
//! removes the room in the same step, so that no one ever finds an empty room
//! that a leave has left behind. Sessions that share a registry take turns.

use crate::connection::ConnectionManager;
use crate::outside::random_id;
use crate::registry::{lemma_padded_count, lemma_padded_injective, pad_char, padded, RegistryView};
use crate::tables::{
    index_contains, index_entries, index_get, index_insert, index_new, index_remove, room_entries,
    rooms_contains, rooms_get, rooms_insert, rooms_len, rooms_new, rooms_remove,
};
use crate::types::{
    effective_capacity, opt_str, views, JoinError, Player, Room, RoomType, RoomView, ServerMessage,
};
use dashmap::DashMap;
use vstd::prelude::*;
use vstd::string::StringExecFns;

verus! {

/// The rooms of the relay and the room of each client.
pub struct RoomManager {
    rooms: DashMap<String, Room>,
    client_rooms: DashMap<String, String>,
}

impl View for RoomManager {
    type V = RegistryView;

    closed spec fn view(&self) -> RegistryView {
        RegistryView {
            rooms: room_entries(self.rooms),
            index: index_entries(self.client_rooms),
        }
    }
}

impl Default for RoomManager {
    fn default() -> (manager: Self)
        ensures
            manager@ == RegistryView::empty(),
            manager@.wf(),
    {
        RoomManager::new()
    }
}

impl RoomManager {
    /// A registry without rooms.
    pub fn new() -> (manager: Self)
        ensures
            manager@ == RegistryView::empty(),
            manager@.wf(),
    {
        let manager = RoomManager { rooms: rooms_new(), client_rooms: index_new() };
        assert(manager@.rooms =~= Map::empty());
        assert(manager@.index =~= Map::empty());
        manager
    }

    /// The first of `candidate`, `candidate-`, `candidate--`, ... that no
    /// room has.
    fn unused_id(&self, candidate: String) -> (id: String)
        requires
            self@.wf(),
        ensures
            self@.first_free(candidate@, id@),
    {
        let n = rooms_len(&self.rooms);
        let mut id = candidate;
        let mut k: usize = 0;
        proof {
            lemma_padded_injective(candidate@, 0, 0);
        }
        while rooms_contains(&self.rooms, id.as_str())
            invariant
                self@.rooms.dom().finite(),
                n == self@.rooms.dom().len(),
                k <= n,
                id@ == padded(candidate@, k as nat),
                forall|j: nat| j < k ==> self@.rooms.contains_key(#[trigger] padded(candidate@, j)),
            decreases n - k,
        {
            proof {
                reveal_strlit("-");
                assert("-"@ =~= seq![pad_char()]);
                lemma_padded_injective(candidate@, k as nat, k as nat);
                assert(id@ + seq![pad_char()] =~= id@.push(pad_char()));
                assert forall|j: nat| j < k + 1 implies self@.rooms.dom().contains(
                    #[trigger] padded(candidate@, j),
                ) by {
                    if j == k {
                    } else {
                        assert(self@.rooms.contains_key(padded(candidate@, j)));
                    }
                }
                lemma_padded_count(self@.rooms.dom(), candidate@, (k + 1) as nat);
            }
            id.append("-");
            k += 1;
        }
        id
    }

    /// Creates an empty room under the first free id that `candidate` gives
    /// (see [`RegistryView::first_free`]) and returns that id. The capacity
    /// is the one asked for, else the default of the room's kind.
    pub fn create_room_as(
        &mut self,
        candidate: String,
        room_type: RoomType,
        max_players: Option<usize>,
    ) -> (room_id: String)
        requires
            old(self)@.wf(),
        ensures
            old(self)@.first_free(candidate@, room_id@),
            final(self)@ == old(self)@.create(
                room_id@,
                room_type,
                effective_capacity(room_type, max_players),
            ),
            final(self)@.wf(),
    {
        let room_id = self.unused_id(candidate);
        let capacity = match max_players {
            Some(n) => n,
            None => room_type.default_capacity(),
        };
        let room = Room::new(room_id.clone(), room_type, capacity);
        rooms_insert(&mut self.rooms, room_id.clone(), room);
        proof {
            RegistryView::lemma_create_keeps_wf(
                old(self)@,
                room_id@,
                room_type,
                effective_capacity(room_type, max_players),
            );
        }
        room_id
    }

    /// Creates an empty room under a fresh random id and returns the id,
    /// which no room had before. The capacity is the one asked for, else the
    /// default of the room's kind.
    pub fn create_room(&mut self, room_type: RoomType, max_players: Option<usize>) -> (room_id:
        String)
        requires
            old(self)@.wf(),
        ensures
            !old(self)@.rooms.contains_key(room_id@),
            final(self)@ == old(self)@.create(
                room_id@,
                room_type,
                effective_capacity(room_type, max_players),
            ),
            final(self)@.wf(),
    {
        self.create_room_as(random_id(), room_type, max_players)
    }

    /// Makes sure that there is a room under `room_id`: an existing one stays
    /// as it is, else an empty one of the given kind and capacity is created.
    pub fn ensure_room(&mut self, room_id: &str, room_type: RoomType, max_players: usize)
        requires
            old(self)@.wf(),
        ensures
            final(self)@ == old(self)@.open(room_id@, room_type, max_players),
            final(self)@.wf(),
    {
        if !rooms_contains(&self.rooms, room_id) {
            let room = Room::new(room_id.to_owned(), room_type, max_players);
            rooms_insert(&mut self.rooms, room_id.to_owned(), room);
            proof {
                RegistryView::lemma_create_keeps_wf(old(self)@, room_id@, room_type, max_players);
            }
        }
    }

    /// Takes the room under `room_id` out if it has no members. Says whether
    /// it did.
    pub fn discard_room(&mut self, room_id: &str) -> (discarded: bool)
        requires
            old(self)@.wf(),
        ensures
            discarded == (old(self)@.rooms.contains_key(room_id@)
                && old(self)@.rooms[room_id@].players.len() == 0),
            final(self)@ == old(self)@.discard(room_id@),
            final(self)@.wf(),
    {
        match rooms_remove(&mut self.rooms, room_id) {
            None => {
                assert(self@.rooms =~= old(self)@.rooms);
                false
            },
            Some(room) => {
                if room.is_empty() {
                    proof {
                        RegistryView::lemma_discard_keeps_wf(old(self)@, room_id@);
                    }
                    true
                } else {
                    rooms_insert(&mut self.rooms, room_id.to_owned(), room);
                    assert(self@.rooms =~= old(self)@.rooms);
                    false
                }
            },
        }
    }

    /// Puts the player into the room. A client that is in a room already is
    /// refused first, then a room that does not exist, then a room that is
    /// full; a refusal changes nothing.
    pub fn join_room(&mut self, room_id: &str, player: Player) -> (r: Result<(), JoinError>)
        requires
            old(self)@.wf(),
        ensures
            r == old(self)@.join_result(room_id@, player@),
            final(self)@ == old(self)@.after_join(room_id@, player@),
            final(self)@.wf(),
    {
        if index_contains(&self.client_rooms, player.id.as_str()) {
            return Err(JoinError::AlreadyInRoom);
        }
        match rooms_remove(&mut self.rooms, room_id) {
            None => {
                assert(self@.rooms =~= old(self)@.rooms);
                Err(JoinError::RoomNotFound)
            },
            Some(mut room) => {
                let client_id = player.id.clone();
                let ghost p = player@;
                let ghost before = old(self)@;
                if room.add_player(player) {
                    rooms_insert(&mut self.rooms, room_id.to_owned(), room);
                    index_insert(&mut self.client_rooms, client_id, room_id.to_owned());
                    proof {
                        RegistryView::lemma_join_keeps_wf(before, room_id@, p);
                        assert(self@.rooms =~= before.after_join(room_id@, p).rooms);
                    }
                    Ok(())
                } else {
                    rooms_insert(&mut self.rooms, room_id.to_owned(), room);
                    assert(self@.rooms =~= before.rooms);
                    Err(JoinError::RoomFull)
                }
            },
        }
    }

    /// Takes the client out of its room and returns that room's id; `None`,
    /// and nothing changed, if the client is in no room. A room that loses
    /// its last member is removed.
    pub fn leave_room(&mut self, client_id: &str) -> (room_id: Option<String>)
        requires
            old(self)@.wf(),
        ensures
            opt_text_of(room_id) == old(self)@.leave_result(client_id@),
            final(self)@ == old(self)@.after_leave(client_id@),
            final(self)@.wf(),
    {
        let ghost before = old(self)@;
        proof {
            RegistryView::lemma_leave_keeps_wf(before, client_id@);
        }
        match index_remove(&mut self.client_rooms, client_id) {
            None => {
                assert(self@.index =~= before.index);
                None
            },
            Some(room_id) => {
                assert(before.rooms.contains_key(room_id@));
                match rooms_remove(&mut self.rooms, room_id.as_str()) {
                    None => {},
                    Some(mut room) => {
                        room.remove_player(client_id);
                        if !room.is_empty() {
                            rooms_insert(&mut self.rooms, room_id.clone(), room);
                        }
                    },
                }
                assert(self@.rooms =~= before.after_leave(client_id@).rooms);
                assert(self@.index =~= before.after_leave(client_id@).index);
                Some(room_id)
            },
        }
    }

    /// A copy of the room under `room_id`, if there is one.
    pub fn get_room(&self, room_id: &str) -> (room: Option<Room>)
        ensures
            room_view_of(room) == self@.room(room_id@),
    {
        rooms_get(&self.rooms, room_id)
    }

    /// The id of the room that the client is in, if it is in one.
    pub fn get_client_room(&self, client_id: &str) -> (room_id: Option<String>)
        ensures
            opt_text_of(room_id) == self@.room_of(client_id@),
    {
        index_get(&self.client_rooms, client_id)
    }

    /// The clients that a broadcast into the room reaches: its members in
    /// the order in which they joined, leaving out `exclude_client`; nobody
    /// if there is no such room.
    pub fn room_recipients(&self, room_id: &str, exclude_client: Option<&str>) -> (ids: Vec<
        String,
    >)
        ensures
            views(ids@) == self@.recipients(room_id@, opt_str(exclude_client)),
    {
        match rooms_get(&self.rooms, room_id) {
            Some(room) => room.recipients(exclude_client),
            None => {
                let ids: Vec<String> = Vec::new();
                assert(views(ids@) =~= Seq::empty());
                ids
            },
        }
    }

    /// Hands a copy of the envelope to the delivery channel of every member
    /// of the room but `exclude_client`, and returns the clients it was
    /// meant for, each once, in the order in which they joined. Whether an
    /// envelope arrives is up to the channel.
    pub fn broadcast_to_room(
        &self,
        connections: &ConnectionManager,
        room_id: &str,
        exclude_client: Option<&str>,
        message: &ServerMessage,
    ) -> (ids: Vec<String>)
        ensures
            views(ids@) == self@.recipients(room_id@, opt_str(exclude_client)),
    {
        let ids = self.room_recipients(room_id, exclude_client);
        connections.send_to_many(&ids, message);
        ids
    }
}

/// The characters of an optional string.
pub open spec fn opt_text_of(s: Option<String>) -> Option<Seq<char>> {
    crate::types::opt_text(s)
}

/// The view of an optional room.
pub open spec fn room_view_of(room: Option<Room>) -> Option<RoomView> {
    match room {
        Some(r) => Some(r@),
        None => None,
    }
}

} // verus!
