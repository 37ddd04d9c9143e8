//! The relay as all its sessions share it: the room registry and the
//! connection registry behind one lock.
//!
//! The lock lets in one session at a time and holds, whenever it is free, a
//! room registry that is well formed and has no room without members. So
//! the registry's invariant holds at every instant at which a session can
//! look at it, however many sessions there are.

use crate::connection::ConnectionManager;
use crate::registry::RegistryView;
use crate::room::{opt_text_of, room_view_of, RoomManager};
use crate::session::{not_sends, Session, SessionAction, SessionEvent, World};
use crate::types::{views, Room};
use vstd::prelude::*;
use vstd::rwlock::{RwLock, RwLockPredicate};

verus! {

/// The two registries that the sessions share.
pub struct Relay {
    pub rooms: RoomManager,
    pub connections: ConnectionManager,
}

/// What holds of the relay whenever no session is at work on it.
pub struct Sound;

impl RwLockPredicate<Relay> for Sound {
    open spec fn inv(self, relay: Relay) -> bool {
        relay.rooms@.wf() && relay.rooms@.settled()
    }
}

/// What holds of the room registry whenever no session is at work on it:
/// it is well formed, and no room is without members.
pub open spec fn sound(registry: RegistryView) -> bool {
    registry.wf() && registry.settled()
}

/// The relay behind its lock. It is made once and handed to every session.
pub struct Hub {
    relay: RwLock<Relay, Sound>,
}

impl Hub {
    /// A relay without rooms and without connections.
    pub fn new() -> (hub: Hub) {
        let relay = Relay { rooms: RoomManager::new(), connections: ConnectionManager::new() };
        Hub { relay: RwLock::new(relay, Ghost(Sound)) }
    }

    /// Hands an event to a session, with the relay to itself for as long as
    /// that takes: the session handles the event, the envelopes that it has
    /// to send are sent, and what else has to be done is returned, in
    /// order. The session finds the room registry sound and leaves it so.
    pub fn handle(&self, session: &mut Session, event: SessionEvent) -> (rest: Vec<SessionAction>)
        ensures
            exists|before: World, rid: Seq<char>, now: Option<i64>|
                {
                    &&& before.session == old(session)@
                    &&& sound(before.registry)
                    &&& !before.registry.rooms.contains_key(rid)
                    &&& sound((#[trigger] before.next(event, rid, now)).world.registry)
                    &&& before.next(event, rid, now).world.session == final(session)@
                    &&& not_sends(before.next(event, rid, now).actions) == views(rest@)
                },
    {
        let (mut relay, guard) = self.relay.acquire_write();
        let ghost before = session.world(&relay.rooms, &relay.connections);
        let actions = session.step(&mut relay.rooms, &mut relay.connections, event);
        let rest = session.dispatch(&relay.connections, actions);
        guard.release_write(relay);
        rest
    }

    /// A copy of the room under `room_id`, if there is one, as it stands at
    /// some instant at which the registry is sound.
    pub fn get_room(&self, room_id: &str) -> (room: Option<Room>)
        ensures
            exists|registry: RegistryView|
                sound(registry) && room_view_of(room) == #[trigger] registry.room(room_id@),
    {
        let guard = self.relay.acquire_read();
        let room = guard.borrow().rooms.get_room(room_id);
        proof {
            assert(sound(guard.view().rooms@));
        }
        guard.release_read();
        room
    }

    /// The id of the room that the client is in, if it is in one, as it
    /// stands at some instant at which the registry is sound.
    pub fn get_client_room(&self, client_id: &str) -> (room_id: Option<String>)
        ensures
            exists|registry: RegistryView|
                sound(registry) && opt_text_of(room_id) == #[trigger] registry.room_of(
                    client_id@,
                ),
    {
        let guard = self.relay.acquire_read();
        let room_id = guard.borrow().rooms.get_client_room(client_id);
        proof {
            assert(sound(guard.view().rooms@));
        }
        guard.release_read();
        room_id
    }
}

} // verus!
