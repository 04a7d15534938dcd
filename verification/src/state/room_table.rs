//! The registry of rooms by name, a `dashmap::DashMap`, and the operations
//! on it that the server state uses.

use dashmap::DashMap;
use vstd::prelude::*;

use crate::state::room::{Room, RoomView};

verus! {

/// The concurrent map of `dashmap`; opaque to the proofs.
#[verifier::external_type_specification]
#[verifier::external_body]
#[verifier::reject_recursive_types(K)]
#[verifier::reject_recursive_types(V)]
#[verifier::reject_recursive_types(S)]
pub struct ExDashMap<K, V, S>(DashMap<K, V, S>);

/// What a room table holds: each room's name, by its characters, mapped to
/// the model of the room stored under it.
pub uninterp spec fn room_table(m: DashMap<String, Room>) -> Map<Seq<char>, RoomView>;

/// The names of a sequence of strings, each by its characters.
pub open spec fn names_view(names: Seq<String>) -> Seq<Seq<char>> {
    names.map_values(|s: String| s@)
}

/// The table that holds no room.
pub open spec fn no_rooms() -> Map<Seq<char>, RoomView> {
    Map::empty()
}

/// `DashMap::new`: a map with no entry.
#[verifier::external_body]
pub(crate) fn table_new() -> (table: DashMap<String, Room>)
    ensures
        room_table(table) == no_rooms(),
{
    DashMap::new()
}

/// `DashMap::contains_key`: whether a room of that name is in the table.
#[verifier::external_body]
pub(crate) fn table_contains(m: &DashMap<String, Room>, name: &str) -> (b: bool)
    ensures
        b == room_table(*m).contains_key(name@),
{
    m.contains_key(name)
}

/// `DashMap::insert`: the table afterwards maps `name` to `room` and every
/// other name as before. The value it replaced, if any, is dropped.
#[verifier::external_body]
pub(crate) fn table_insert(m: &mut DashMap<String, Room>, name: String, room: Room)
    ensures
        room_table(*final(m)) == room_table(*old(m)).insert(name@, room@),
{
    m.insert(name, room);
}

/// `DashMap::remove`: takes the room stored under `name` out of the table,
/// which afterwards lacks `name` and maps every other name as before.
#[verifier::external_body]
pub(crate) fn table_take(m: &mut DashMap<String, Room>, name: &str) -> (taken: Option<Room>)
    ensures
        room_table(*final(m)) == room_table(*old(m)).remove(name@),
        taken is Some <==> room_table(*old(m)).contains_key(name@),
        taken matches Some(room) ==> room@ == room_table(*old(m))[name@],
{
    m.remove(name).map(|(_name, room)| room)
}

/// `DashMap::iter`, each entry taken by a copy of its key: every name in the
/// table once. The order is that of the map's hashing, which each process
/// seeds anew, so no order is claimed.
#[verifier::external_body]
pub(crate) fn table_names(m: &DashMap<String, Room>) -> (names: Vec<String>)
    ensures
        names_view(names@).no_duplicates(),
        names_view(names@).to_set() == room_table(*m).dom(),
{
    m.iter().map(|entry| entry.key().clone()).collect()
}

/// `DashMap::view`: applies `f` to the key and the room stored under `name`
/// and returns its result, or `None` when there is no such room.
#[verifier::external_body]
pub(crate) fn table_view<R, F: FnOnce(&String, &Room) -> R>(m: &DashMap<String, Room>, name: &str, f: F) -> (r: Option<R>)
    requires
        forall|k: &String, v: &Room| f.requires((k, v)),
    ensures
        r is Some <==> room_table(*m).contains_key(name@),
        r matches Some(x) ==> exists|k: &String, v: &Room|
            k@ == name@ && v@ == room_table(*m)[name@] && #[trigger] f.ensures((k, v), x),
{
    m.view(name, f)
}

} // verus!
