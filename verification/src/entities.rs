//! Plain data of the game world: items, features, the player and rooms,
//! together with the spec-level vocabulary shared by their contracts.

use vstd::prelude::*;

pub mod feature;
pub mod interactive;
pub mod item;
pub mod player;
pub mod room;

pub use feature::Feature;
pub use item::Item;
pub use player::Player;
pub use room::Room;

pub use crate::text::string_views;

use crate::text::lower_seq;

verus! {

/// The names of a sequence of items, in order.
pub open spec fn item_names(items: Seq<Item>) -> Seq<Seq<char>> {
    items.map_values(|i: Item| i@)
}

/// The names of a sequence of features, in order.
pub open spec fn feature_names(features: Seq<Feature>) -> Seq<Seq<char>> {
    features.map_values(|f: Feature| f@)
}

/// Whether some name in the collection equals `query` exactly.
pub open spec fn contains_name(names: Seq<Seq<char>>, query: Seq<char>) -> bool {
    exists|i: int| 0 <= i < names.len() && names[i] == query
}

/// The least index whose name equals `query` exactly
/// (meaningful only when `contains_name` holds).
pub open spec fn first_match(names: Seq<Seq<char>>, query: Seq<char>) -> int
    decreases names.len(),
{
    if names.len() == 0 {
        0
    } else if names.first() == query {
        0
    } else {
        1 + first_match(names.drop_first(), query)
    }
}

/// When an exact match exists, `first_match` names the least matching index.
pub proof fn lemma_first_match(names: Seq<Seq<char>>, query: Seq<char>)
    requires
        contains_name(names, query),
    ensures
        0 <= first_match(names, query) < names.len(),
        names[first_match(names, query)] == query,
        forall|j: int| 0 <= j < first_match(names, query) ==> names[j] != query,
    decreases names.len(),
{
    if names.len() > 0 && names.first() != query {
        let rest = names.drop_first();
        assert(contains_name(rest, query)) by {
            let i = choose|i: int| 0 <= i < names.len() && names[i] == query;
            assert(rest[i - 1] == names[i]);
        }
        lemma_first_match(rest, query);
        assert(forall|j: int| 1 <= j < names.len() ==> names[j] == rest[j - 1]);
    }
}

/// Whether some name in the collection matches `query` up to ASCII case.
pub open spec fn contains_name_ci(names: Seq<Seq<char>>, query: Seq<char>) -> bool {
    exists|i: int| 0 <= i < names.len() && lower_seq(names[i]) == lower_seq(query)
}

/// The least index whose name matches `query` up to ASCII case
/// (meaningful only when `contains_name_ci` holds).
pub open spec fn first_match_ci(names: Seq<Seq<char>>, query: Seq<char>) -> int
    decreases names.len(),
{
    if names.len() == 0 {
        0
    } else if lower_seq(names.first()) == lower_seq(query) {
        0
    } else {
        1 + first_match_ci(names.drop_first(), query)
    }
}

/// When a match exists, `first_match_ci` names the least matching index.
pub proof fn lemma_first_match_ci(names: Seq<Seq<char>>, query: Seq<char>)
    requires
        contains_name_ci(names, query),
    ensures
        0 <= first_match_ci(names, query) < names.len(),
        lower_seq(names[first_match_ci(names, query)]) == lower_seq(query),
        forall|j: int|
            0 <= j < first_match_ci(names, query) ==> lower_seq(names[j]) != lower_seq(query),
    decreases names.len(),
{
    if names.len() > 0 && lower_seq(names.first()) != lower_seq(query) {
        let rest = names.drop_first();
        assert(contains_name_ci(rest, query)) by {
            let i = choose|i: int|
                0 <= i < names.len() && lower_seq(names[i]) == lower_seq(query);
            assert(rest[i - 1] == names[i]);
        }
        lemma_first_match_ci(rest, query);
        assert(forall|j: int| 1 <= j < names.len() ==> names[j] == rest[j - 1]);
    }
}

} // verus!
