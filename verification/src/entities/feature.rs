//! A non-portable, interactive attribute of a room (a door, a lever).

use vstd::prelude::*;

verus! {

/// A feature, identified by its name.  Same normalization rules as an item:
/// original case is preserved, lookups fold ASCII case.
#[derive(Debug)]
pub struct Feature {
    /// The feature name.
    pub name: String,
}

impl View for Feature {
    type V = Seq<char>;

    open spec fn view(&self) -> Seq<char> {
        self.name@
    }
}

impl Feature {
    /// Create a feature with the given name.
    pub fn new(name: String) -> (feature: Feature)
        ensures
            feature@ == name@,
    {
        Feature { name }
    }

    /// The feature's name.
    pub fn get_name(&self) -> (name: String)
        ensures
            name@ == self@,
    {
        self.name.clone()
    }
}

} // verus!
