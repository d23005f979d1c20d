//! The feature-interaction handler: the pluggable effect behind
//! "use item on feature".  The concrete effect set is an open extension
//! point; the one handler here removes the feature from the room.  A handler
//! must never partially mutate the room when it fails.

use vstd::prelude::*;

use crate::entities::feature::Feature;
use crate::entities::item::Item;
use crate::entities::room::Room;
use crate::entities::{contains_name, first_match};

verus! {

/// Apply the item to the feature in the given room.  When the room holds a
/// feature with exactly the given feature's name, the first such feature is
/// removed and the interaction succeeds; otherwise the room is untouched and
/// the interaction fails.
pub fn use_item(item: &Item, feature: &mut Feature, room: &mut Room) -> (r: Result<String, String>)
    ensures
        final(feature)@ == old(feature)@,
        final(room)@.id == old(room)@.id,
        final(room)@.description == old(room)@.description,
        final(room)@.exits == old(room)@.exits,
        final(room)@.items == old(room)@.items,
        contains_name(old(room)@.features, old(feature)@) ==> {
            &&& r matches Ok(m) && m@ == "created door"@
            &&& final(room)@.features == old(room)@.features.remove(
                first_match(old(room)@.features, old(feature)@),
            )
        },
        !contains_name(old(room)@.features, old(feature)@) ==> {
            &&& r is Err
            &&& final(room)@.features == old(room)@.features
        },
{
    let name = feature.get_name();
    match room.remove_feature(name) {
        Ok(_removed) => {
            let mut m = String::new();
            m.append("created door");
            Ok(m)
        },
        Err(e) => Err(e),
    }
}

} // verus!
