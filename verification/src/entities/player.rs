//! The player: a name and an ordered inventory of items.

use vstd::prelude::*;

use crate::entities::item::Item;
use crate::entities::{contains_name_ci, item_names};
use crate::text::{lower_seq, push_char};

verus! {

/// The one player of a session.
#[derive(Debug)]
pub struct Player {
    /// The player name.
    pub name: String,
    /// The items the player is carrying, oldest-acquired first.
    pub inventory: Vec<Item>,
}

/// What a player is, observationally: a name and the ordered item names
/// of the inventory.
pub struct PlayerV {
    /// The player name.
    pub name: Seq<char>,
    /// The inventory's item names, oldest-acquired first.
    pub inventory: Seq<Seq<char>>,
}

impl View for Player {
    type V = PlayerV;

    open spec fn view(&self) -> PlayerV {
        PlayerV { name: self.name@, inventory: item_names(self.inventory@) }
    }
}

/// The inventory rendered as text: one item name per line, oldest first,
/// each line closed by a newline; an empty inventory renders as empty text.
pub open spec fn inventory_text(names: Seq<Seq<char>>) -> Seq<char>
    decreases names.len(),
{
    if names.len() == 0 {
        Seq::empty()
    } else {
        names.first() + seq!['\n'] + inventory_text(names.drop_first())
    }
}

/// Appending one name extends the rendering by one line.
pub proof fn lemma_inventory_text_push(names: Seq<Seq<char>>, name: Seq<char>)
    ensures
        inventory_text(names.push(name)) == inventory_text(names) + name + seq!['\n'],
    decreases names.len(),
{
    if names.len() == 0 {
        assert(names.push(name).drop_first() =~= Seq::<Seq<char>>::empty());
        assert(inventory_text(Seq::<Seq<char>>::empty()) =~= Seq::<char>::empty());
        assert(inventory_text(names.push(name)) =~= inventory_text(names) + name + seq![
            '\n',
        ]);
    } else {
        assert(names.push(name).drop_first() =~= names.drop_first().push(name));
        lemma_inventory_text_push(names.drop_first(), name);
        assert(inventory_text(names.push(name)) =~= inventory_text(names) + name + seq![
            '\n',
        ]);
    }
}

impl Player {
    /// Create a player with the given name and an empty inventory.
    pub fn new(name: String) -> (player: Player)
        ensures
            player@.name == name@,
            player@.inventory =~= Seq::<Seq<char>>::empty(),
    {
        Player { name, inventory: Vec::new() }
    }

    /// List the items carried by the player, one name per line, in the
    /// order they were acquired.  Does not change any state.
    pub fn list_inventory(&self) -> (text: String)
        ensures
            text@ == inventory_text(self@.inventory),
    {
        let mut text = String::new();
        let mut i: usize = 0;
        while i < self.inventory.len()
            invariant
                i <= self.inventory.len(),
                text@ == inventory_text(self@.inventory.take(i as int)),
            decreases self.inventory.len() - i,
        {
            text.append(self.inventory[i].name.as_str());
            push_char(&mut text, '\n');
            proof {
                lemma_inventory_text_push(self@.inventory.take(i as int), self@.inventory[i as int]);
                assert(self@.inventory.take(i + 1) =~= self@.inventory.take(i as int).push(
                    self@.inventory[i as int],
                ));
            }
            i = i + 1;
        }
        proof {
            assert(self@.inventory.take(self.inventory.len() as int) =~= self@.inventory);
        }
        text
    }

    /// Whether the player carries an item of that name, up to ASCII case.
    pub fn has_item(&self, item_name: &str) -> (present: bool)
        ensures
            present == contains_name_ci(self@.inventory, item_name@),
    {
        let mut i: usize = 0;
        while i < self.inventory.len()
            invariant
                i <= self.inventory.len(),
                forall|j: int|
                    0 <= j < i ==> lower_seq(self@.inventory[j]) != lower_seq(item_name@),
            decreases self.inventory.len() - i,
        {
            if crate::text::eq_ignore_case(self.inventory[i].name.as_str(), item_name) {
                proof {
                    assert(lower_seq(self@.inventory[i as int]) == lower_seq(item_name@));
                }
                return true;
            }
            i = i + 1;
        }
        false
    }
}

impl Default for Player {
    /// A nameless player with an empty inventory.
    fn default() -> (player: Player)
        ensures
            player@.name == Seq::<char>::empty(),
            player@.inventory =~= Seq::<Seq<char>>::empty(),
    {
        Player { name: String::new(), inventory: Vec::new() }
    }
}

} // verus!
