//! The connection registry: the delivery handle of each connected client.

use crate::outside::channel_send;
use crate::tables::{link_entries, links_get, links_insert, links_new, links_remove};
use crate::types::ServerMessage;
use dashmap::DashMap;
use tokio::sync::mpsc::UnboundedSender;
use vstd::prelude::*;

verus! {

/// The delivery handles of the connected clients, by client id.
pub struct ConnectionManager {
    connections: DashMap<String, UnboundedSender<ServerMessage>>,
}

impl View for ConnectionManager {
    type V = Map<Seq<char>, UnboundedSender<ServerMessage>>;

    closed spec fn view(&self) -> Map<Seq<char>, UnboundedSender<ServerMessage>> {
        link_entries(self.connections)
    }
}

impl Default for ConnectionManager {
    fn default() -> (manager: Self)
        ensures
            manager@ == Map::<Seq<char>, UnboundedSender<ServerMessage>>::empty(),
    {
        ConnectionManager::new()
    }
}

impl ConnectionManager {
    /// A registry without connections.
    pub fn new() -> (manager: Self)
        ensures
            manager@ == Map::<Seq<char>, UnboundedSender<ServerMessage>>::empty(),
    {
        let manager = ConnectionManager { connections: links_new() };
        assert(manager@ =~= Map::empty());
        manager
    }

    /// Installs the handle for the client, in place of any it had.
    pub fn add(&mut self, id: String, tx: UnboundedSender<ServerMessage>)
        ensures
            final(self)@ == old(self)@.insert(id@, tx),
    {
        links_insert(&mut self.connections, id, tx);
    }

    /// Removes the client's handle, if it has one.
    pub fn remove(&mut self, id: &str)
        ensures
            final(self)@ == old(self)@.remove(id@),
    {
        links_remove(&mut self.connections, id);
    }

    /// The client's handle, if it has one.
    pub fn handle_of(&self, id: &str) -> (handle: Option<UnboundedSender<ServerMessage>>)
        ensures
            handle == if self@.contains_key(id@) {
                Some(self@[id@])
            } else {
                None
            },
    {
        links_get(&self.connections, id)
    }

    /// Whether the client has a handle.
    pub fn is_connected(&self, id: &str) -> (r: bool)
        ensures
            r == self@.contains_key(id@),
    {
        self.handle_of(id).is_some()
    }

    /// Hands the envelope to the client's channel, if the client has a
    /// handle. An envelope for an unknown client, or for a channel whose
    /// receiver is gone, is dropped.
    pub fn send_to(&self, id: &str, msg: ServerMessage) {
        match self.handle_of(id) {
            Some(tx) => {
                let _ = channel_send(&tx, msg);
            },
            None => {},
        }
    }

    /// Hands a copy of the envelope to the channel of each of the clients,
    /// in order. A client without a handle is passed over.
    pub fn send_to_many(&self, ids: &Vec<String>, msg: &ServerMessage) {
        let mut i: usize = 0;
        while i < ids.len()
            invariant
                i <= ids.len(),
            decreases ids.len() - i,
        {
            self.send_to(ids[i].as_str(), msg.clone());
            i += 1;
        }
    }
}

} // verus!
