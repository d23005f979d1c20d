//! The world graph engine: the complete game state and the operations the
//! parsed actions drive.  The room graph is an owning table of rooms keyed
//! by identifier; exits name their destination by identifier, so cycles in
//! the graph are plain data.  Every operation is all-or-nothing: on failure
//! the world is left exactly as it was.

use vstd::prelude::*;

use crate::entities::feature::Feature;
use crate::entities::player::{Player, PlayerV};
use crate::entities::room::{
    exits_unique, has_exit_key, lemma_exit_index, lookup_exit, Room, RoomV,
};
use crate::entities::{
    contains_name, contains_name_ci, first_match, first_match_ci, lemma_first_match_ci,
};
use crate::snapshot::{
    dec_world, dec_world_exec, enc_list_push, enc_nat_push, enc_rooms, enc_str_push, enc_world,
    lemma_dec_world_enc, lemma_enc_rooms_push, world_bounded,
};
use crate::text::{lower_seq, lower_string, push_char, string_views};

verus! {

/// The complete game state: the room table, the identifier of the room the
/// player occupies, and the player.
#[derive(Debug)]
pub struct World {
    /// The owning table of all rooms.
    pub rooms: Vec<Room>,
    /// The identifier of the room the player currently occupies.
    pub player_location: String,
    /// The player.
    pub player: Player,
}

/// What a world is, observationally.
pub struct WorldV {
    /// The rooms, in table order.
    pub rooms: Seq<RoomV>,
    /// The identifier of the room the player currently occupies.
    pub player_location: Seq<char>,
    /// The player.
    pub player: PlayerV,
}

/// The views of a sequence of rooms, in order.
pub open spec fn room_views(rooms: Seq<Room>) -> Seq<RoomV> {
    rooms.map_values(|r: Room| r@)
}

impl View for World {
    type V = WorldV;

    open spec fn view(&self) -> WorldV {
        WorldV {
            rooms: room_views(self.rooms@),
            player_location: self.player_location@,
            player: self.player@,
        }
    }
}

/// Whether some room carries exactly this identifier.
pub open spec fn has_room(rooms: Seq<RoomV>, id: Seq<char>) -> bool {
    exists|i: int| 0 <= i < rooms.len() && rooms[i].id == id
}

/// The least index of a room with this identifier
/// (meaningful only when `has_room` holds).
pub open spec fn room_index(rooms: Seq<RoomV>, id: Seq<char>) -> int
    decreases rooms.len(),
{
    if rooms.len() == 0 {
        0
    } else if rooms.first().id == id {
        0
    } else {
        1 + room_index(rooms.drop_first(), id)
    }
}

/// When a room with the identifier exists, `room_index` names the least
/// index carrying it.
pub proof fn lemma_room_index(rooms: Seq<RoomV>, id: Seq<char>)
    requires
        has_room(rooms, id),
    ensures
        0 <= room_index(rooms, id) < rooms.len(),
        rooms[room_index(rooms, id)].id == id,
        forall|j: int| 0 <= j < room_index(rooms, id) ==> rooms[j].id != id,
    decreases rooms.len(),
{
    if rooms.len() > 0 && rooms.first().id != id {
        let rest = rooms.drop_first();
        assert(has_room(rest, id)) by {
            let i = choose|i: int| 0 <= i < rooms.len() && rooms[i].id == id;
            assert(rest[i - 1] == rooms[i]);
        }
        lemma_room_index(rest, id);
        assert(forall|j: int| 1 <= j < rooms.len() ==> rooms[j] == rest[j - 1]);
    }
}

/// Every room identifier is ASCII lowercase (identifiers are
/// case-normalized at construction).
pub open spec fn ids_lowercase(rooms: Seq<RoomV>) -> bool {
    forall|i: int| 0 <= i < rooms.len() ==> lower_seq(#[trigger] rooms[i].id) == rooms[i].id
}

/// No two rooms share an identifier.
pub open spec fn ids_unique(rooms: Seq<RoomV>) -> bool {
    forall|i: int, j: int| 0 <= i < j < rooms.len() ==> rooms[i].id != rooms[j].id
}

/// Every exit direction is ASCII lowercase (directions are case-normalized
/// at construction).
pub open spec fn exit_keys_lowercase(rooms: Seq<RoomV>) -> bool {
    forall|i: int, j: int|
        0 <= i < rooms.len() && 0 <= j < rooms[i].exits.len() ==> lower_seq(
            #[trigger] rooms[i].exits[j].0,
        ) == rooms[i].exits[j].0
}

/// Within each room, one destination per direction.
pub open spec fn rooms_exits_unique(rooms: Seq<RoomV>) -> bool {
    forall|i: int| 0 <= i < rooms.len() ==> exits_unique(#[trigger] rooms[i].exits)
}

/// Every exit destination names a room that exists in the table.
pub open spec fn exits_resolve(rooms: Seq<RoomV>) -> bool {
    forall|i: int, j: int|
        0 <= i < rooms.len() && 0 <= j < rooms[i].exits.len() ==> has_room(
            rooms,
            #[trigger] rooms[i].exits[j].1,
        )
}

/// A well-formed world: identifiers lowercase and unique, exit directions
/// lowercase and unique per room, every exit destination present in the
/// table, and the player standing in a room of the table.
pub open spec fn wf(w: WorldV) -> bool {
    &&& ids_lowercase(w.rooms)
    &&& ids_unique(w.rooms)
    &&& exit_keys_lowercase(w.rooms)
    &&& rooms_exits_unique(w.rooms)
    &&& exits_resolve(w.rooms)
    &&& has_room(w.rooms, w.player_location)
}

/// The message naming the first well-formedness check that the given world
/// fails, in the fixed order the construction checks them.
pub open spec fn build_error(w: WorldV) -> Seq<char> {
    if !ids_lowercase(w.rooms) {
        "a room id is not lowercase"@
    } else if !ids_unique(w.rooms) {
        "two rooms share an id"@
    } else if !exit_keys_lowercase(w.rooms) {
        "an exit direction is not lowercase"@
    } else if !rooms_exits_unique(w.rooms) {
        "a room has two exits with one direction"@
    } else if !exits_resolve(w.rooms) {
        "an exit leads to no room"@
    } else {
        "the starting location is no room"@
    }
}

/// The index of the first room carrying the identifier, if any.
fn find_room_index(rooms: &Vec<Room>, id: &str) -> (r: Option<usize>)
    ensures
        has_room(room_views(rooms@), id@) ==> (r matches Some(i) && i as int == room_index(
            room_views(rooms@),
            id@,
        ) && i < rooms.len()),
        !has_room(room_views(rooms@), id@) ==> r is None,
{
    let ghost views = room_views(rooms@);
    let mut i: usize = 0;
    while i < rooms.len()
        invariant
            views == room_views(rooms@),
            i <= rooms.len(),
            forall|j: int| 0 <= j < i ==> views[j].id != id@,
        decreases rooms.len() - i,
    {
        if crate::text::str_eq(rooms[i].id.as_str(), id) {
            proof {
                assert(views[i as int].id == id@);
                lemma_room_index(views, id@);
            }
            return Some(i);
        }
        i = i + 1;
    }
    None
}

/// Whether every room identifier is ASCII lowercase.
fn check_ids_lowercase(rooms: &Vec<Room>) -> (r: bool)
    ensures
        r == ids_lowercase(room_views(rooms@)),
{
    let ghost views = room_views(rooms@);
    let mut i: usize = 0;
    while i < rooms.len()
        invariant
            views == room_views(rooms@),
            i <= rooms.len(),
            forall|j: int| 0 <= j < i ==> lower_seq(#[trigger] views[j].id) == views[j].id,
        decreases rooms.len() - i,
    {
        let lowered = lower_string(rooms[i].id.as_str());
        if !(rooms[i].id == lowered) {
            proof {
                assert(lower_seq(views[i as int].id) != views[i as int].id);
            }
            return false;
        }
        i = i + 1;
    }
    true
}

/// Whether no two rooms share an identifier.
fn check_ids_unique(rooms: &Vec<Room>) -> (r: bool)
    ensures
        r == ids_unique(room_views(rooms@)),
{
    let ghost views = room_views(rooms@);
    let mut i: usize = 0;
    while i < rooms.len()
        invariant
            views == room_views(rooms@),
            i <= rooms.len(),
            forall|a: int, b: int| 0 <= a < b < rooms.len() && a < i ==> views[a].id != views[b].id,
        decreases rooms.len() - i,
    {
        let mut j: usize = i + 1;
        while j < rooms.len()
            invariant
                views == room_views(rooms@),
                i < j || j == i + 1,
                i < rooms.len(),
                j <= rooms.len(),
                i + 1 <= j,
                forall|b: int| i < b < j ==> views[i as int].id != views[b].id,
            decreases rooms.len() - j,
        {
            if rooms[i].id == rooms[j].id {
                proof {
                    assert(views[i as int].id == views[j as int].id);
                }
                return false;
            }
            j = j + 1;
        }
        i = i + 1;
    }
    true
}

/// Whether every exit direction of this room is ASCII lowercase.
fn check_room_exit_keys_lowercase(room: &Room) -> (r: bool)
    ensures
        r == forall|j: int|
            0 <= j < room@.exits.len() ==> lower_seq(#[trigger] room@.exits[j].0)
                == room@.exits[j].0,
{
    let mut j: usize = 0;
    while j < room.exits.len()
        invariant
            j <= room.exits.len(),
            forall|b: int| 0 <= b < j ==> lower_seq(#[trigger] room@.exits[b].0) == room@.exits[b].0,
        decreases room.exits.len() - j,
    {
        let lowered = lower_string(room.exits[j].0.as_str());
        if !(room.exits[j].0 == lowered) {
            proof {
                assert(lower_seq(room@.exits[j as int].0) != room@.exits[j as int].0);
            }
            return false;
        }
        j = j + 1;
    }
    true
}

/// Whether every exit direction of every room is ASCII lowercase.
fn check_exit_keys_lowercase(rooms: &Vec<Room>) -> (r: bool)
    ensures
        r == exit_keys_lowercase(room_views(rooms@)),
{
    let ghost views = room_views(rooms@);
    let mut i: usize = 0;
    while i < rooms.len()
        invariant
            views == room_views(rooms@),
            i <= rooms.len(),
            forall|a: int, b: int|
                0 <= a < i && 0 <= b < views[a].exits.len() ==> lower_seq(
                    #[trigger] views[a].exits[b].0,
                ) == views[a].exits[b].0,
        decreases rooms.len() - i,
    {
        if !check_room_exit_keys_lowercase(&rooms[i]) {
            proof {
                assert(views[i as int] == rooms@[i as int]@);
                let b = choose|b: int|
                    0 <= b < views[i as int].exits.len() && lower_seq(
                        #[trigger] views[i as int].exits[b].0,
                    ) != views[i as int].exits[b].0;
                assert(!exit_keys_lowercase(views));
            }
            return false;
        }
        i = i + 1;
    }
    true
}

/// Whether this room binds each direction at most once.
fn check_room_exits_unique(room: &Room) -> (r: bool)
    ensures
        r == exits_unique(room@.exits),
{
    let mut a: usize = 0;
    while a < room.exits.len()
        invariant
            a <= room.exits.len(),
            forall|x: int, y: int|
                0 <= x < y < room@.exits.len() && x < a ==> room@.exits[x].0 != room@.exits[y].0,
        decreases room.exits.len() - a,
    {
        let mut b: usize = a + 1;
        while b < room.exits.len()
            invariant
                a < room.exits.len(),
                b <= room.exits.len(),
                a + 1 <= b,
                forall|y: int| a < y < b ==> room@.exits[a as int].0 != room@.exits[y].0,
            decreases room.exits.len() - b,
        {
            if room.exits[a].0 == room.exits[b].0 {
                proof {
                    assert(room@.exits[a as int].0 == room@.exits[b as int].0);
                }
                return false;
            }
            b = b + 1;
        }
        a = a + 1;
    }
    true
}

/// Whether every room binds each direction at most once.
fn check_rooms_exits_unique(rooms: &Vec<Room>) -> (r: bool)
    ensures
        r == rooms_exits_unique(room_views(rooms@)),
{
    let ghost views = room_views(rooms@);
    let mut i: usize = 0;
    while i < rooms.len()
        invariant
            views == room_views(rooms@),
            i <= rooms.len(),
            forall|a: int| 0 <= a < i ==> exits_unique(#[trigger] views[a].exits),
        decreases rooms.len() - i,
    {
        if !check_room_exits_unique(&rooms[i]) {
            proof {
                assert(views[i as int] == rooms@[i as int]@);
                assert(!exits_unique(views[i as int].exits));
            }
            return false;
        }
        i = i + 1;
    }
    true
}

/// Whether every exit destination of every room names a room of the table.
fn check_exits_resolve(rooms: &Vec<Room>) -> (r: bool)
    ensures
        r == exits_resolve(room_views(rooms@)),
{
    let ghost views = room_views(rooms@);
    let mut i: usize = 0;
    while i < rooms.len()
        invariant
            views == room_views(rooms@),
            i <= rooms.len(),
            forall|a: int, b: int|
                0 <= a < i && 0 <= b < views[a].exits.len() ==> has_room(
                    views,
                    #[trigger] views[a].exits[b].1,
                ),
        decreases rooms.len() - i,
    {
        let mut j: usize = 0;
        while j < rooms[i].exits.len()
            invariant
                views == room_views(rooms@),
                i < rooms.len(),
                j <= rooms@[i as int].exits.len(),
                forall|b: int| 0 <= b < j ==> has_room(views, #[trigger] views[i as int].exits[b].1),
            decreases rooms@[i as int].exits.len() - j,
        {
            let dest = &rooms[i].exits[j].1;
            if find_room_index(rooms, dest.as_str()).is_none() {
                proof {
                    assert(!has_room(views, views[i as int].exits[j as int].1));
                }
                return false;
            }
            j = j + 1;
        }
        i = i + 1;
    }
    true
}

/// The index of the first feature of the room whose name matches the
/// query up to ASCII case.
fn first_feature_ci(room: &Room, query: &str) -> (i: usize)
    requires
        contains_name_ci(room@.features, query@),
    ensures
        i as int == first_match_ci(room@.features, query@),
        i < room.features.len(),
{
    proof {
        lemma_first_match_ci(room@.features, query@);
    }
    let mut i: usize = 0;
    while i < room.features.len()
        invariant
            contains_name_ci(room@.features, query@),
            i <= room.features.len(),
            forall|b: int| 0 <= b < i ==> lower_seq(#[trigger] room@.features[b]) != lower_seq(
                query@,
            ),
        decreases room.features.len() - i,
    {
        if crate::text::eq_ignore_case(room.features[i].name.as_str(), query) {
            proof {
                assert(lower_seq(room@.features[i as int]) == lower_seq(query@));
                lemma_first_match_ci(room@.features, query@);
            }
            return i;
        }
        i = i + 1;
    }
    proof {
        lemma_first_match_ci(room@.features, query@);
        assert(false);
    }
    0
}

/// The index of the first inventory item of the player whose name matches
/// the query up to ASCII case.
fn first_inventory_ci(player: &Player, query: &str) -> (i: usize)
    requires
        contains_name_ci(player@.inventory, query@),
    ensures
        i as int == first_match_ci(player@.inventory, query@),
        i < player.inventory.len(),
{
    proof {
        lemma_first_match_ci(player@.inventory, query@);
    }
    let mut i: usize = 0;
    while i < player.inventory.len()
        invariant
            contains_name_ci(player@.inventory, query@),
            i <= player.inventory.len(),
            forall|b: int| 0 <= b < i ==> lower_seq(#[trigger] player@.inventory[b]) != lower_seq(
                query@,
            ),
        decreases player.inventory.len() - i,
    {
        if crate::text::eq_ignore_case(player.inventory[i].name.as_str(), query) {
            proof {
                assert(lower_seq(player@.inventory[i as int]) == lower_seq(query@));
                lemma_first_match_ci(player@.inventory, query@);
            }
            return i;
        }
        i = i + 1;
    }
    proof {
        lemma_first_match_ci(player@.inventory, query@);
        assert(false);
    }
    0
}

/// Assemble a world from a flat list of rooms, a starting location and a
/// player, after checking every world invariant: identifiers lowercase and
/// unique, directions lowercase and unique per room, no dangling exit, and
/// the starting location present.  A list that fails a check is rejected
/// with a message naming the first failed check.
pub fn from_rooms(rooms: Vec<Room>, player_location: String, player: Player) -> (r: Result<
    World,
    String,
>)
    ensures
        ({
            let w = WorldV {
                rooms: room_views(rooms@),
                player_location: player_location@,
                player: player@,
            };
            &&& wf(w) ==> (r matches Ok(world) && world@ == w)
            &&& !wf(w) ==> (r matches Err(m) && m@ == build_error(w))
        }),
{
    if !check_ids_lowercase(&rooms) {
        let mut m = String::new();
        m.append("a room id is not lowercase");
        return Err(m);
    }
    if !check_ids_unique(&rooms) {
        let mut m = String::new();
        m.append("two rooms share an id");
        return Err(m);
    }
    if !check_exit_keys_lowercase(&rooms) {
        let mut m = String::new();
        m.append("an exit direction is not lowercase");
        return Err(m);
    }
    if !check_rooms_exits_unique(&rooms) {
        let mut m = String::new();
        m.append("a room has two exits with one direction");
        return Err(m);
    }
    if !check_exits_resolve(&rooms) {
        let mut m = String::new();
        m.append("an exit leads to no room");
        return Err(m);
    }
    if find_room_index(&rooms, player_location.as_str()).is_none() {
        let mut m = String::new();
        m.append("the starting location is no room");
        return Err(m);
    }
    Ok(World { rooms, player_location, player })
}

impl World {
    /// The room the player currently occupies.
    pub fn current_room(&self) -> (room: &Room)
        requires
            wf(self@),
        ensures
            room@ == self@.rooms[room_index(self@.rooms, self@.player_location)],
    {
        proof {
            lemma_room_index(self@.rooms, self@.player_location);
        }
        let index = match find_room_index(&self.rooms, self.player_location.as_str()) {
            Some(i) => i,
            None => 0,  // unreachable: a well-formed world has the location in its table
        };
        &self.rooms[index]
    }

    /// Move the player to a new location: fold the direction to lowercase
    /// and follow the matching exit of the current room.  On a hit the
    /// location pointer is the only change; on a miss nothing changes and
    /// the direction is named in the error.
    pub fn move_player(&mut self, direction: &String) -> (r: Result<String, String>)
        requires
            wf(old(self)@),
        ensures
            wf(final(self)@),
            final(self)@.rooms == old(self)@.rooms,
            final(self)@.player == old(self)@.player,
            ({
                let cur = old(self)@.rooms[room_index(old(self)@.rooms, old(self)@.player_location)];
                &&& (lookup_exit(cur.exits, lower_seq(direction@)) matches Some(dest) ==> (
                r matches Ok(m) && m@ == "You have moved "@ + direction@
                    && final(self)@.player_location == dest))
                &&& (lookup_exit(cur.exits, lower_seq(direction@)) is None ==> (r matches Err(m)
                    && m@ == direction@ + " is not a valid direction"@
                    && final(self)@ == old(self)@))
            }),
    {
        proof {
            lemma_room_index(self@.rooms, self@.player_location);
        }
        let ghost cur = self@.rooms[room_index(self@.rooms, self@.player_location)];
        let index = match find_room_index(&self.rooms, self.player_location.as_str()) {
            Some(i) => i,
            None => 0,  // unreachable: a well-formed world has the location in its table
        };
        let lowered = lower_string(direction.as_str());
        let room = &self.rooms[index];
        let mut j: usize = 0;
        while j < room.exits.len()
            invariant
                self == old(self),
                wf(old(self)@),
                index < self.rooms.len(),
                index as int == room_index(self@.rooms, self@.player_location),
                cur == room@,
                cur == self@.rooms[index as int],
                lowered@ == lower_seq(direction@),
                j <= room.exits.len(),
                forall|b: int| 0 <= b < j ==> cur.exits[b].0 != lower_seq(direction@),
            decreases room.exits.len() - j,
        {
            if room.exits[j].0 == lowered {
                proof {
                    assert(cur.exits[j as int].0 == lower_seq(direction@));
                    lemma_exit_index(cur.exits, lower_seq(direction@));
                }
                let destination = room.exits[j].1.clone();
                self.player_location = destination;
                let mut m = String::new();
                m.append("You have moved ");
                m.append(direction.as_str());
                proof {
                    assert(cur.exits[j as int].1 == old(self)@.rooms[index as int].exits[
                        j as int
                    ].1);
                    assert(has_room(
                        old(self)@.rooms,
                        old(self)@.rooms[index as int].exits[j as int].1,
                    ));
                    assert(has_room(self@.rooms, self@.player_location));
                }
                return Ok(m);
            }
            j = j + 1;
        }
        assert(!has_exit_key(cur.exits, lower_seq(direction@)));
        let mut m = String::new();
        m.append(direction.as_str());
        m.append(" is not a valid direction");
        Err(m)
    }

    /// Take the first item of the current room whose name matches, up to
    /// ASCII case, and append it to the player's inventory.  At most one
    /// item moves; when none matches, nothing changes and the item name is
    /// named in the error.
    pub fn take_item(&mut self, item_name: &str) -> (r: Result<String, String>)
        requires
            wf(old(self)@),
        ensures
            wf(final(self)@),
            final(self)@.player_location == old(self)@.player_location,
            final(self)@.player.name == old(self)@.player.name,
            ({
                let k = room_index(old(self)@.rooms, old(self)@.player_location);
                let cur = old(self)@.rooms[k];
                &&& contains_name_ci(cur.items, item_name@) ==> (r matches Ok(m) && m@
                    == "Picked up "@ + item_name@ && final(self)@.rooms == old(self)@.rooms.update(
                    k,
                    (RoomV {
                        items: cur.items.remove(first_match_ci(cur.items, item_name@)),
                        ..cur
                    }),
                ) && final(self)@.player.inventory == old(self)@.player.inventory.push(
                    cur.items[first_match_ci(cur.items, item_name@)],
                ))
                &&& !contains_name_ci(cur.items, item_name@) ==> (r matches Err(m) && m@
                    == "No item of type "@ + item_name@ + " is present"@
                    && final(self)@ == old(self)@)
            }),
    {
        proof {
            lemma_room_index(self@.rooms, self@.player_location);
        }
        let ghost rooms0 = self@.rooms;
        let ghost k = room_index(self@.rooms, self@.player_location);
        let ghost cur = self@.rooms[k];
        let index = match find_room_index(&self.rooms, self.player_location.as_str()) {
            Some(i) => i,
            None => 0,  // unreachable: a well-formed world has the location in its table
        };
        let mut room = self.rooms.remove(index);
        let owned_name = item_name.to_owned();
        let result = room.take_item(&mut self.player, owned_name);
        self.rooms.insert(index, room);
        proof {
            if contains_name_ci(cur.items, item_name@) {
                assert(self@.rooms =~= rooms0.update(
                    k,
                    (RoomV {
                        items: cur.items.remove(first_match_ci(cur.items, item_name@)),
                        ..cur
                    }),
                ));
                assert(wf(self@)) by {
                    assert(forall|i: int|
                        0 <= i < self@.rooms.len() && i != k ==> self@.rooms[i] == rooms0[i]);
                    assert(self@.rooms[k].id == rooms0[k].id);
                    assert(self@.rooms[k].exits == rooms0[k].exits);
                    assert forall|i: int, j: int|
                        0 <= i < self@.rooms.len() && 0 <= j
                            < self@.rooms[i].exits.len() implies has_room(
                        self@.rooms,
                        #[trigger] self@.rooms[i].exits[j].1,
                    ) by {
                        assert(self@.rooms[i].exits == rooms0[i].exits);
                        assert(has_room(rooms0, rooms0[i].exits[j].1));
                        let w = choose|w: int|
                            0 <= w < rooms0.len() && rooms0[w].id == rooms0[i].exits[j].1;
                        assert(self@.rooms[w].id == rooms0[w].id);
                    }
                }
            } else {
                assert(self@.rooms =~= rooms0);
                assert(self@ == old(self)@);
            }
        }
        result
    }

    /// Use an inventory item on a feature of the current room.  Both must
    /// be present, up to ASCII case; otherwise nothing changes and the
    /// refusal is reported.  When both are present the interaction handler
    /// runs: it removes the matched feature from the room.
    pub fn use_item(&mut self, subject: &str, target: &str) -> (r: Result<String, String>)
        requires
            wf(old(self)@),
        ensures
            wf(final(self)@),
            final(self)@.player_location == old(self)@.player_location,
            final(self)@.player == old(self)@.player,
            ({
                let k = room_index(old(self)@.rooms, old(self)@.player_location);
                let cur = old(self)@.rooms[k];
                let can = contains_name_ci(cur.features, target@) && contains_name_ci(
                    old(self)@.player.inventory,
                    subject@,
                );
                &&& can ==> (r matches Ok(m) && m@ == "created door"@
                    && final(self)@.rooms == old(self)@.rooms.update(
                    k,
                    (RoomV {
                        features: cur.features.remove(first_match_ci(cur.features, target@)),
                        ..cur
                    }),
                ))
                &&& !can ==> (r matches Err(m) && m@ == "You cannot do that here"@ && final(self)@
                    == old(self)@)
            }),
    {
        proof {
            lemma_room_index(self@.rooms, self@.player_location);
        }
        let ghost rooms0 = self@.rooms;
        let ghost k = room_index(self@.rooms, self@.player_location);
        let ghost cur = self@.rooms[k];
        let index = match find_room_index(&self.rooms, self.player_location.as_str()) {
            Some(i) => i,
            None => 0,  // unreachable: a well-formed world has the location in its table
        };
        let feature_present = self.rooms[index].has_feature(target);
        let item_present = self.player.has_item(subject);
        if !feature_present || !item_present {
            let mut m = String::new();
            m.append("You cannot do that here");
            return Err(m);
        }
        // The first feature matching the target up to case; the handler
        // removes it by its exact name.
        let ghost fm = first_match_ci(cur.features, target@);
        proof {
            lemma_first_match_ci(cur.features, target@);
        }
        let feature_index = first_feature_ci(&self.rooms[index], target);
        let item_index = first_inventory_ci(&self.player, subject);
        let mut room = self.rooms.remove(index);
        let mut feature = Feature::new(room.features[feature_index].name.clone());
        let result = crate::entities::interactive::use_item(
            &self.player.inventory[item_index],
            &mut feature,
            &mut room,
        );
        proof {
            // The handler removes the first feature whose name equals the
            // matched feature's name exactly; that is the matched feature
            // itself, since an earlier exact duplicate would have matched
            // up to case earlier.
            assert(contains_name(cur.features, cur.features[fm]));
            crate::entities::lemma_first_match(cur.features, cur.features[fm]);
            assert(first_match(cur.features, cur.features[fm]) == fm) by {
                let e = first_match(cur.features, cur.features[fm]);
                if e < fm {
                    assert(lower_seq(cur.features[e]) != lower_seq(target@));
                }
            }
        }
        self.rooms.insert(index, room);
        proof {
            assert(self@.rooms =~= rooms0.update(
                k,
                (RoomV { features: cur.features.remove(fm), ..cur }),
            ));
            assert(wf(self@)) by {
                assert(forall|i: int|
                    0 <= i < self@.rooms.len() && i != k ==> self@.rooms[i] == rooms0[i]);
                assert(self@.rooms[k].id == rooms0[k].id);
                assert(self@.rooms[k].exits == rooms0[k].exits);
                assert forall|i: int, j: int|
                    0 <= i < self@.rooms.len() && 0 <= j < self@.rooms[i].exits.len() implies has_room(
                    self@.rooms,
                    #[trigger] self@.rooms[i].exits[j].1,
                ) by {
                    assert(self@.rooms[i].exits == rooms0[i].exits);
                    assert(has_room(rooms0, rooms0[i].exits[j].1));
                    let w = choose|w: int|
                        0 <= w < rooms0.len() && rooms0[w].id == rooms0[i].exits[j].1;
                    assert(self@.rooms[w].id == rooms0[w].id);
                }
            }
        }
        result
    }
}

/// What loading a snapshot text restores: the decoded world, provided it
/// decodes at all and is well formed; nothing otherwise.
pub open spec fn load_spec(s: Seq<char>) -> Option<WorldV> {
    match dec_world(s) {
        Some(w) => if wf(w) {
            Some(w)
        } else {
            None
        },
        None => None,
    }
}

/// The error a failed load reports: a malformed snapshot is named as such;
/// a snapshot that decodes but breaks a world invariant is named by the
/// first failed construction check.
pub open spec fn load_error(s: Seq<char>) -> Seq<char> {
    match dec_world(s) {
        Some(w) => build_error(w),
        None => "the snapshot is malformed"@,
    }
}

/// Saving and then loading restores the world exactly: for every
/// well-formed world the machine can hold — cyclic exits included — the
/// snapshot decodes back to that same world, and loading accepts it.
pub proof fn lemma_save_load_round_trip(w: WorldV)
    requires
        wf(w),
        world_bounded(w),
    ensures
        load_spec(enc_world(w)) == Some(w),
{
    lemma_dec_world_enc(w);
}

impl World {
    /// Serialize the whole world into one self-contained snapshot text.
    /// Serialization never fails and changes nothing; writing the snapshot
    /// to a durable place is the caller's part.
    pub fn save_state(&self) -> (snapshot: String)
        ensures
            snapshot@ == enc_world(self@),
    {
        let mut out = String::new();
        out.append("adventure snapshot\n");
        push_char(&mut out, 'L');
        enc_str_push(&mut out, self.player_location.as_str());
        push_char(&mut out, 'P');
        enc_str_push(&mut out, self.player.name.as_str());
        push_char(&mut out, 'I');
        let inventory_names = inventory_name_strings(&self.player);
        enc_list_push(&mut out, &inventory_names);
        push_char(&mut out, 'R');
        enc_nat_push(&mut out, self.rooms.len());
        push_char(&mut out, ';');
        let ghost base = out@;
        let ghost views = self@.rooms;
        let mut i: usize = 0;
        while i < self.rooms.len()
            invariant
                views == self@.rooms,
                views.len() == self.rooms.len(),
                i <= self.rooms.len(),
                out@ == base + enc_rooms(views.take(i as int)),
            decreases self.rooms.len() - i,
        {
            crate::snapshot::enc_room_push(&mut out, &self.rooms[i]);
            proof {
                lemma_enc_rooms_push(views.take(i as int), views[i as int]);
                assert(views.take(i + 1) =~= views.take(i as int).push(views[i as int]));
                assert(out@ =~= base + enc_rooms(views.take(i + 1)));
            }
            i = i + 1;
        }
        proof {
            assert(views.take(self.rooms.len() as int) =~= views);
            assert(out@ =~= enc_world(self@));
        }
        out
    }

    /// Replace the whole world with the one a snapshot text holds.  The
    /// snapshot is decoded fully and checked against every world invariant
    /// before anything is touched; on any failure — malformed text, or a
    /// decoded world breaking an invariant, a dangling exit included — the
    /// live world stays exactly as it was and the error says why.
    pub fn load_state(&mut self, contents: &str) -> (r: Result<String, String>)
        ensures
            load_spec(contents@) matches Some(w) ==> (r matches Ok(m) && m@ == "game loaded"@
                && final(self)@ == w && wf(final(self)@)),
            load_spec(contents@) is None ==> (r matches Err(m) && m@ == load_error(contents@)
                && final(self)@ == old(self)@),
    {
        match dec_world_exec(contents) {
            None => {
                let mut m = String::new();
                m.append("the snapshot is malformed");
                Err(m)
            },
            Some(parts) => {
                let (rooms, location, player) = parts;
                match from_rooms(rooms, location, player) {
                    Ok(world) => {
                        *self = world;
                        let mut m = String::new();
                        m.append("game loaded");
                        Ok(m)
                    },
                    Err(m) => Err(m),
                }
            },
        }
    }
}

/// The names of the items the player carries, in order.
fn inventory_name_strings(player: &Player) -> (names: Vec<String>)
    ensures
        string_views(names@) == player@.inventory,
{
    let mut names: Vec<String> = Vec::new();
    let mut i: usize = 0;
    while i < player.inventory.len()
        invariant
            i <= player.inventory.len(),
            names@.len() == i,
            string_views(names@) =~= player@.inventory.take(i as int),
        decreases player.inventory.len() - i,
    {
        names.push(player.inventory[i].name.clone());
        proof {
            assert(names@[i as int]@ == player.inventory@[i as int].name@);
            assert(player@.inventory[i as int] == player.inventory@[i as int]@);
            assert(string_views(names@) =~= player@.inventory.take(i + 1));
        }
        i = i + 1;
    }
    proof {
        assert(player@.inventory.take(player.inventory.len() as int) =~= player@.inventory);
    }
    names
}

} // verus!
