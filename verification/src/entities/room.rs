//! A location node: description, exits keyed by direction, items and
//! features.  Exits store the destination room's identifier, never the room
//! itself, so the room graph may contain cycles without ownership cycles.

use vstd::prelude::*;

use crate::entities::feature::Feature;
use crate::entities::item::Item;
use crate::entities::player::Player;
use crate::entities::{
    contains_name, contains_name_ci, feature_names, first_match, first_match_ci, item_names,
    lemma_first_match, lemma_first_match_ci, string_views,
};
use crate::text::{join, join_strings, lemma_join_push, lower_seq, lower_string};

verus! {

/// Describes a location and its contents.
#[derive(Debug)]
pub struct Room {
    /// Unique identifier of the room.
    pub id: String,
    /// The description of the room the player will see.
    pub description: String,
    /// The exits: direction name to destination room identifier,
    /// one destination per direction.
    pub exits: Vec<(String, String)>,
    /// The items lying in the room, in insertion order.
    pub items: Vec<Item>,
    /// The features of the room, in insertion order.
    pub features: Vec<Feature>,
}

/// What a room is, observationally.
pub struct RoomV {
    /// The room identifier.
    pub id: Seq<char>,
    /// The description text.
    pub description: Seq<char>,
    /// Direction name to destination identifier, in insertion order.
    pub exits: Seq<(Seq<char>, Seq<char>)>,
    /// The item names, in insertion order.
    pub items: Seq<Seq<char>>,
    /// The feature names, in insertion order.
    pub features: Seq<Seq<char>>,
}

impl View for Room {
    type V = RoomV;

    open spec fn view(&self) -> RoomV {
        RoomV {
            id: self.id@,
            description: self.description@,
            exits: self.exits@.map_values(|p: (String, String)| (p.0@, p.1@)),
            items: item_names(self.items@),
            features: feature_names(self.features@),
        }
    }
}

/// The direction names of the exits, in order.
pub open spec fn exit_keys(exits: Seq<(Seq<char>, Seq<char>)>) -> Seq<Seq<char>> {
    exits.map_values(|p: (Seq<char>, Seq<char>)| p.0)
}

/// Whether some exit is keyed by exactly this direction.
pub open spec fn has_exit_key(exits: Seq<(Seq<char>, Seq<char>)>, key: Seq<char>) -> bool {
    exists|i: int| 0 <= i < exits.len() && exits[i].0 == key
}

/// The least index of an exit keyed by this direction
/// (meaningful only when `has_exit_key` holds).
pub open spec fn exit_index(exits: Seq<(Seq<char>, Seq<char>)>, key: Seq<char>) -> int
    decreases exits.len(),
{
    if exits.len() == 0 {
        0
    } else if exits.first().0 == key {
        0
    } else {
        1 + exit_index(exits.drop_first(), key)
    }
}

/// The destination behind this direction, if any.
pub open spec fn lookup_exit(exits: Seq<(Seq<char>, Seq<char>)>, key: Seq<char>) -> Option<
    Seq<char>,
> {
    if has_exit_key(exits, key) {
        Some(exits[exit_index(exits, key)].1)
    } else {
        None
    }
}

/// The exits after binding `key` to `dest`: the first exit with that key is
/// replaced, or a new exit is appended when the key is new.
pub open spec fn insert_exit(
    exits: Seq<(Seq<char>, Seq<char>)>,
    key: Seq<char>,
    dest: Seq<char>,
) -> Seq<(Seq<char>, Seq<char>)> {
    if has_exit_key(exits, key) {
        exits.update(exit_index(exits, key), (key, dest))
    } else {
        exits.push((key, dest))
    }
}

/// One destination per direction: no two exits share a key.
pub open spec fn exits_unique(exits: Seq<(Seq<char>, Seq<char>)>) -> bool {
    forall|i: int, j: int| 0 <= i < j < exits.len() ==> exits[i].0 != exits[j].0
}

/// When a key is present, `exit_index` names the least exit with that key.
pub proof fn lemma_exit_index(exits: Seq<(Seq<char>, Seq<char>)>, key: Seq<char>)
    requires
        has_exit_key(exits, key),
    ensures
        0 <= exit_index(exits, key) < exits.len(),
        exits[exit_index(exits, key)].0 == key,
        forall|j: int| 0 <= j < exit_index(exits, key) ==> exits[j].0 != key,
    decreases exits.len(),
{
    if exits.len() > 0 && exits.first().0 != key {
        let rest = exits.drop_first();
        assert(has_exit_key(rest, key)) by {
            let i = choose|i: int| 0 <= i < exits.len() && exits[i].0 == key;
            assert(rest[i - 1] == exits[i]);
        }
        lemma_exit_index(rest, key);
        assert(forall|j: int| 1 <= j < exits.len() ==> exits[j] == rest[j - 1]);
    }
}

/// The complete description of a room: its description text, then the exit
/// directions, then the features when there are any, then the items when
/// there are any, each part on its own line with the collections joined by
/// commas.
pub open spec fn full_description(r: RoomV) -> Seq<char> {
    let base = "\n"@ + r.description + "\nExits are "@ + join(exit_keys(r.exits), ", "@);
    let with_features = if r.features.len() > 0 {
        base + "\nThere is "@ + join(r.features, ", "@)
    } else {
        base
    };
    if r.items.len() > 0 {
        with_features + "\nItems are "@ + join(r.items, ", "@)
    } else {
        with_features
    }
}

impl Room {
    /// One destination per direction.
    pub open spec fn wf(&self) -> bool {
        exits_unique(self@.exits)
    }

    /// Create a room with the given identifier and description and no
    /// exits, items or features yet.
    pub fn new(id: String, description: String) -> (room: Room)
        ensures
            room@.id == id@,
            room@.description == description@,
            room@.exits =~= Seq::<(Seq<char>, Seq<char>)>::empty(),
            room@.items =~= Seq::<Seq<char>>::empty(),
            room@.features =~= Seq::<Seq<char>>::empty(),
            room.wf(),
    {
        Room {
            id,
            description,
            exits: Vec::new(),
            items: Vec::new(),
            features: Vec::new(),
        }
    }

    /// Bind a direction to a destination room identifier.  A direction that
    /// was already bound is re-bound; otherwise the exit is appended.
    pub fn add_exit(&mut self, direction: String, destination: String)
        requires
            old(self).wf(),
        ensures
            final(self).wf(),
            final(self)@.exits == insert_exit(old(self)@.exits, direction@, destination@),
            final(self)@.id == old(self)@.id,
            final(self)@.description == old(self)@.description,
            final(self)@.items == old(self)@.items,
            final(self)@.features == old(self)@.features,
    {
        let ghost exits0 = self@.exits;
        let mut i: usize = 0;
        while i < self.exits.len()
            invariant
                self == old(self),
                exits0 == self@.exits,
                exits_unique(exits0),
                i <= self.exits.len(),
                forall|j: int| 0 <= j < i ==> self@.exits[j].0 != direction@,
            decreases self.exits.len() - i,
        {
            if self.exits[i].0 == direction {
                proof {
                    assert(exits0[i as int].0 == direction@);
                    lemma_exit_index(exits0, direction@);
                    assert(exit_index(exits0, direction@) == i);
                }
                self.exits.set(i, (direction, destination));
                proof {
                    assert(self@.exits =~= insert_exit(exits0, direction@, destination@));
                    assert forall|a: int, b: int|
                        0 <= a < b < self@.exits.len() implies self@.exits[a].0
                        != self@.exits[b].0 by {
                        assert(self@.exits[a].0 == exits0[a].0);
                        assert(self@.exits[b].0 == exits0[b].0);
                    }
                    assert(exits_unique(self@.exits));
                }
                return ;
            }
            i = i + 1;
        }
        assert(!has_exit_key(exits0, direction@));
        self.exits.push((direction, destination));
        proof {
            assert(self@.exits =~= insert_exit(exits0, direction@, destination@));
            assert(exits_unique(self@.exits));
        }
    }

    /// The direction names of all the exits, in insertion order.
    pub fn get_exits(&self) -> (directions: Vec<String>)
        ensures
            string_views(directions@) == exit_keys(self@.exits),
    {
        let mut directions: Vec<String> = Vec::new();
        let mut i: usize = 0;
        while i < self.exits.len()
            invariant
                i <= self.exits.len(),
                directions@.len() == i,
                string_views(directions@) =~= exit_keys(self@.exits).take(i as int),
            decreases self.exits.len() - i,
        {
            directions.push(self.exits[i].0.clone());
            proof {
                assert(directions@[i as int]@ == self.exits@[i as int].0@);
                assert(exit_keys(self@.exits)[i as int] == self@.exits[i as int].0);
                assert(string_views(directions@) =~= exit_keys(self@.exits).take(i + 1));
            }
            i = i + 1;
        }
        proof {
            assert(string_views(directions@) =~= exit_keys(self@.exits));
        }
        directions
    }

    /// Whether the direction, folded to ASCII lowercase, is the key of an
    /// exit of this room.
    pub fn has_exit(&self, direction: &str) -> (present: bool)
        ensures
            present == has_exit_key(self@.exits, lower_seq(direction@)),
    {
        let lower = lower_string(direction);
        let mut i: usize = 0;
        while i < self.exits.len()
            invariant
                lower@ == lower_seq(direction@),
                i <= self.exits.len(),
                forall|j: int| 0 <= j < i ==> self@.exits[j].0 != lower_seq(direction@),
            decreases self.exits.len() - i,
        {
            if self.exits[i].0 == lower {
                proof {
                    assert(self@.exits[i as int].0 == lower_seq(direction@));
                }
                return true;
            }
            i = i + 1;
        }
        false
    }

    /// Whether the room has a feature of that name, up to ASCII case.
    pub fn has_feature(&self, feature_name: &str) -> (present: bool)
        ensures
            present == contains_name_ci(self@.features, feature_name@),
    {
        let mut i: usize = 0;
        while i < self.features.len()
            invariant
                i <= self.features.len(),
                forall|j: int|
                    0 <= j < i ==> lower_seq(self@.features[j]) != lower_seq(feature_name@),
            decreases self.features.len() - i,
        {
            if crate::text::eq_ignore_case(self.features[i].name.as_str(), feature_name) {
                proof {
                    assert(lower_seq(self@.features[i as int]) == lower_seq(feature_name@));
                }
                return true;
            }
            i = i + 1;
        }
        false
    }

    /// The names of the items lying in the room, in insertion order.
    pub fn get_item_names(&self) -> (names: Vec<String>)
        ensures
            string_views(names@) == self@.items,
    {
        let mut names: Vec<String> = Vec::new();
        let mut i: usize = 0;
        while i < self.items.len()
            invariant
                i <= self.items.len(),
                names@.len() == i,
                string_views(names@) =~= self@.items.take(i as int),
            decreases self.items.len() - i,
        {
            names.push(self.items[i].name.clone());
            proof {
                assert(names@[i as int]@ == self.items@[i as int].name@);
                assert(self@.items[i as int] == self.items@[i as int]@);
                assert(string_views(names@) =~= self@.items.take(i + 1));
            }
            i = i + 1;
        }
        proof {
            assert(string_views(names@) =~= self@.items);
        }
        names
    }

    /// The names of the features of the room, in insertion order.
    pub fn get_feature_names(&self) -> (names: Vec<String>)
        ensures
            string_views(names@) == self@.features,
    {
        let mut names: Vec<String> = Vec::new();
        let mut i: usize = 0;
        while i < self.features.len()
            invariant
                i <= self.features.len(),
                names@.len() == i,
                string_views(names@) =~= self@.features.take(i as int),
            decreases self.features.len() - i,
        {
            names.push(self.features[i].name.clone());
            proof {
                assert(names@[i as int]@ == self.features@[i as int].name@);
                assert(self@.features[i as int] == self.features@[i as int]@);
                assert(string_views(names@) =~= self@.features.take(i + 1));
            }
            i = i + 1;
        }
        proof {
            assert(string_views(names@) =~= self@.features);
        }
        names
    }

    /// Put an item into the room.
    pub fn add_item(&mut self, item: Item)
        ensures
            final(self)@.items == old(self)@.items.push(item@),
            final(self)@.id == old(self)@.id,
            final(self)@.description == old(self)@.description,
            final(self)@.exits == old(self)@.exits,
            final(self)@.features == old(self)@.features,
    {
        self.items.push(item);
        proof {
            assert(final(self)@.items =~= old(self)@.items.push(item@));
        }
    }

    /// Whether any item lies in the room.
    pub fn has_items(&self) -> (present: bool)
        ensures
            present == (self@.items.len() > 0),
    {
        self.items.len() > 0
    }

    /// The complete description of the location, including exits, features
    /// and items.  Does not change any state.
    pub fn get_full_description(&self) -> (text: String)
        ensures
            text@ == full_description(self@),
    {
        let mut text = String::new();
        text.append("\n");
        text.append(self.description.as_str());
        text.append("\nExits are ");
        let exits = self.get_exits();
        let joined_exits = join_strings(&exits, ", ");
        text.append(joined_exits.as_str());
        if self.features.len() > 0 {
            text.append("\nThere is ");
            let features = self.get_feature_names();
            let joined_features = join_strings(&features, ", ");
            text.append(joined_features.as_str());
        }
        if self.items.len() > 0 {
            text.append("\nItems are ");
            let items = self.get_item_names();
            let joined_items = join_strings(&items, ", ");
            text.append(joined_items.as_str());
        }
        text
    }

    /// Move the first item whose name matches, up to ASCII case, from the
    /// room to the player's inventory.  At most one item moves even when
    /// duplicates by name exist; when no item matches, nothing changes.
    pub fn take_item(&mut self, player: &mut Player, item_name: String) -> (r: Result<
        String,
        String,
    >)
        ensures
            final(self)@.id == old(self)@.id,
            final(self)@.description == old(self)@.description,
            final(self)@.exits == old(self)@.exits,
            final(self)@.features == old(self)@.features,
            final(player)@.name == old(player)@.name,
            contains_name_ci(old(self)@.items, item_name@) ==> {
                let k = first_match_ci(old(self)@.items, item_name@);
                &&& r matches Ok(m) && m@ == "Picked up "@ + item_name@
                &&& final(self)@.items == old(self)@.items.remove(k)
                &&& final(player)@.inventory == old(player)@.inventory.push(old(self)@.items[k])
            },
            !contains_name_ci(old(self)@.items, item_name@) ==> {
                &&& r matches Err(m) && m@ == "No item of type "@ + item_name@ + " is present"@
                &&& final(self)@.items == old(self)@.items
                &&& final(player)@.inventory == old(player)@.inventory
            },
    {
        let ghost items0 = self@.items;
        let mut i: usize = 0;
        while i < self.items.len()
            invariant
                self == old(self),
                player == old(player),
                items0 == self@.items,
                i <= self.items.len(),
                forall|j: int| 0 <= j < i ==> lower_seq(self@.items[j]) != lower_seq(item_name@),
            decreases self.items.len() - i,
        {
            if crate::text::eq_ignore_case(self.items[i].name.as_str(), item_name.as_str()) {
                proof {
                    assert(lower_seq(items0[i as int]) == lower_seq(item_name@));
                    lemma_first_match_ci(items0, item_name@);
                    assert(first_match_ci(items0, item_name@) == i);
                }
                let item = self.items.remove(i);
                player.inventory.push(item);
                let mut m = String::new();
                m.append("Picked up ");
                m.append(item_name.as_str());
                proof {
                    assert(final(self)@.items =~= items0.remove(i as int));
                    assert(final(player)@.inventory =~= old(player)@.inventory.push(
                        items0[i as int],
                    ));
                }
                return Ok(m);
            }
            i = i + 1;
        }
        let mut m = String::new();
        m.append("No item of type ");
        m.append(item_name.as_str());
        m.append(" is present");
        Err(m)
    }

    /// Add a feature to the room.
    pub fn add_feature(&mut self, feature: Feature)
        ensures
            final(self)@.features == old(self)@.features.push(feature@),
            final(self)@.id == old(self)@.id,
            final(self)@.description == old(self)@.description,
            final(self)@.exits == old(self)@.exits,
            final(self)@.items == old(self)@.items,
    {
        self.features.push(feature);
        proof {
            assert(final(self)@.features =~= old(self)@.features.push(feature@));
        }
    }

    /// Remove the first feature with exactly that name; when none has it,
    /// nothing changes.
    pub fn remove_feature(&mut self, feature_name: String) -> (r: Result<String, String>)
        ensures
            final(self)@.id == old(self)@.id,
            final(self)@.description == old(self)@.description,
            final(self)@.exits == old(self)@.exits,
            final(self)@.items == old(self)@.items,
            contains_name(old(self)@.features, feature_name@) ==> {
                &&& r matches Ok(m) && m@ == feature_name@
                &&& final(self)@.features == old(self)@.features.remove(
                    first_match(old(self)@.features, feature_name@),
                )
            },
            !contains_name(old(self)@.features, feature_name@) ==> {
                &&& r matches Err(m) && m@ == "No feature of type "@ + feature_name@
                    + " is present"@
                &&& final(self)@.features == old(self)@.features
            },
    {
        let ghost features0 = self@.features;
        let mut i: usize = 0;
        while i < self.features.len()
            invariant
                self == old(self),
                features0 == self@.features,
                i <= self.features.len(),
                forall|j: int| 0 <= j < i ==> self@.features[j] != feature_name@,
            decreases self.features.len() - i,
        {
            if self.features[i].name == feature_name {
                proof {
                    assert(features0[i as int] == feature_name@);
                    lemma_first_match(features0, feature_name@);
                    assert(first_match(features0, feature_name@) == i);
                }
                self.features.remove(i);
                proof {
                    assert(final(self)@.features =~= features0.remove(i as int));
                }
                return Ok(feature_name);
            }
            i = i + 1;
        }
        let mut m = String::new();
        m.append("No feature of type ");
        m.append(feature_name.as_str());
        m.append(" is present");
        Err(m)
    }
}

} // verus!
