//! The three tables of the relay, each a `dashmap::DashMap` keyed by a string:
//! rooms by room id, room ids by client id, delivery handles by client id.
//!
//! Nothing in this file is proved. Each table's contents have a name, and
//! each function states over that name what the map's method does. The
//! functions that change a table take it by `&mut`: the caller is then the
//! only one that holds the map, so what a call finds is what the last call
//! left.

use crate::types::{Room, RoomView, ServerMessage};
use dashmap::DashMap;
use tokio::sync::mpsc::UnboundedSender;
use vstd::prelude::*;

verus! {

/// The rooms that the table holds, by room id.
pub uninterp spec fn room_entries(table: DashMap<String, Room>) -> Map<Seq<char>, RoomView>;

/// The room ids that the table holds, by client id.
pub uninterp spec fn index_entries(table: DashMap<String, String>) -> Map<Seq<char>, Seq<char>>;

/// The delivery handles that the table holds, by client id.
pub uninterp spec fn link_entries(table: DashMap<String, UnboundedSender<ServerMessage>>) -> Map<
    Seq<char>,
    UnboundedSender<ServerMessage>,
>;

/// `DashMap::new`: a map without entries.
#[verifier::external_body]
pub(crate) fn rooms_new() -> (table: DashMap<String, Room>)
    ensures
        forall|key: Seq<char>| !(#[trigger] room_entries(table).contains_key(key)),
{
    DashMap::new()
}

/// `DashMap::len`: the number of entries.
#[verifier::external_body]
pub(crate) fn rooms_len(table: &DashMap<String, Room>) -> (n: usize)
    ensures
        n == room_entries(*table).dom().len(),
{
    table.len()
}

/// `DashMap::contains_key`: whether the key has an entry.
#[verifier::external_body]
pub(crate) fn rooms_contains(table: &DashMap<String, Room>, room_id: &str) -> (found: bool)
    ensures
        found == room_entries(*table).contains_key(room_id@),
{
    table.contains_key(room_id)
}

/// `DashMap::view`, with a closure that copies the value: a copy of the room
/// under the key, if there is one.
#[verifier::external_body]
pub(crate) fn rooms_get(table: &DashMap<String, Room>, room_id: &str) -> (room: Option<Room>)
    ensures
        room.is_some() == room_entries(*table).contains_key(room_id@),
        room matches Some(r) ==> r@ == room_entries(*table)[room_id@],
{
    table.view(room_id, |_, room| room.clone())
}

/// `DashMap::insert`: afterwards the key holds the given room, and every
/// other key holds what it held.
#[verifier::external_body]
pub(crate) fn rooms_insert(table: &mut DashMap<String, Room>, room_id: String, room: Room)
    ensures
        room_entries(*final(table)) == room_entries(*old(table)).insert(room_id@, room@),
{
    table.insert(room_id, room);
}

/// `DashMap::remove`: takes the key's entry out and returns its room, if
/// there was one; every other key holds what it held.
#[verifier::external_body]
pub(crate) fn rooms_remove(table: &mut DashMap<String, Room>, room_id: &str) -> (room: Option<
    Room,
>)
    ensures
        room_entries(*final(table)) == room_entries(*old(table)).remove(room_id@),
        room.is_some() == room_entries(*old(table)).contains_key(room_id@),
        room matches Some(r) ==> r@ == room_entries(*old(table))[room_id@],
{
    table.remove(room_id).map(|entry| entry.1)
}

/// `DashMap::new`: a map without entries.
#[verifier::external_body]
pub(crate) fn index_new() -> (table: DashMap<String, String>)
    ensures
        forall|key: Seq<char>| !(#[trigger] index_entries(table).contains_key(key)),
{
    DashMap::new()
}

/// `DashMap::contains_key`: whether the key has an entry.
#[verifier::external_body]
pub(crate) fn index_contains(table: &DashMap<String, String>, client_id: &str) -> (found: bool)
    ensures
        found == index_entries(*table).contains_key(client_id@),
{
    table.contains_key(client_id)
}

/// `DashMap::view`, with a closure that copies the value: the room id under
/// the key, if there is one.
#[verifier::external_body]
pub(crate) fn index_get(table: &DashMap<String, String>, client_id: &str) -> (room_id: Option<
    String,
>)
    ensures
        room_id.is_some() == index_entries(*table).contains_key(client_id@),
        room_id matches Some(r) ==> r@ == index_entries(*table)[client_id@],
{
    table.view(client_id, |_, value| value.clone())
}

/// `DashMap::insert`: afterwards the key holds the given room id, and every
/// other key holds what it held.
#[verifier::external_body]
pub(crate) fn index_insert(table: &mut DashMap<String, String>, client_id: String, room_id: String)
    ensures
        index_entries(*final(table)) == index_entries(*old(table)).insert(client_id@, room_id@),
{
    table.insert(client_id, room_id);
}

/// `DashMap::remove`: takes the key's entry out and returns its room id, if
/// there was one; every other key holds what it held.
#[verifier::external_body]
pub(crate) fn index_remove(table: &mut DashMap<String, String>, client_id: &str) -> (room_id:
    Option<String>)
    ensures
        index_entries(*final(table)) == index_entries(*old(table)).remove(client_id@),
        room_id.is_some() == index_entries(*old(table)).contains_key(client_id@),
        room_id matches Some(r) ==> r@ == index_entries(*old(table))[client_id@],
{
    table.remove(client_id).map(|entry| entry.1)
}

/// `DashMap::new`: a map without entries.
#[verifier::external_body]
pub(crate) fn links_new() -> (table: DashMap<String, UnboundedSender<ServerMessage>>)
    ensures
        forall|key: Seq<char>| !(#[trigger] link_entries(table).contains_key(key)),
{
    DashMap::new()
}

/// `DashMap::view`, with a closure that copies the value: a handle to the
/// channel under the key, if there is one.
#[verifier::external_body]
pub(crate) fn links_get(
    table: &DashMap<String, UnboundedSender<ServerMessage>>,
    client_id: &str,
) -> (handle: Option<UnboundedSender<ServerMessage>>)
    ensures
        handle.is_some() == link_entries(*table).contains_key(client_id@),
        handle matches Some(h) ==> h == link_entries(*table)[client_id@],
{
    table.view(client_id, |_, value| value.clone())
}

/// `DashMap::insert`: afterwards the key holds the given handle, and every
/// other key holds what it held.
#[verifier::external_body]
pub(crate) fn links_insert(
    table: &mut DashMap<String, UnboundedSender<ServerMessage>>,
    client_id: String,
    handle: UnboundedSender<ServerMessage>,
)
    ensures
        link_entries(*final(table)) == link_entries(*old(table)).insert(client_id@, handle),
{
    table.insert(client_id, handle);
}

/// `DashMap::remove`: takes the key's entry out; every other key holds what
/// it held.
#[verifier::external_body]
pub(crate) fn links_remove(
    table: &mut DashMap<String, UnboundedSender<ServerMessage>>,
    client_id: &str,
)
    ensures
        link_entries(*final(table)) == link_entries(*old(table)).remove(client_id@),
{
    table.remove(client_id);
}

} // verus!
