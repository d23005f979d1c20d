//! A portable object that can move between a room and the player's inventory.

use vstd::prelude::*;

verus! {

/// An item, identified by its name.  Items are value types: duplicates by
/// name are permitted and treated as interchangeable.  The original case of
/// the name is preserved for display; lookups fold ASCII case.
#[derive(Debug)]
pub struct Item {
    /// The item name.
    pub name: String,
}

impl View for Item {
    type V = Seq<char>;

    open spec fn view(&self) -> Seq<char> {
        self.name@
    }
}

impl Item {
    /// Create an item with the given name.
    pub fn new(name: String) -> (item: Item)
        ensures
            item@ == name@,
    {
        Item { name }
    }
}

} // verus!
