//! Core of a single-player, turn-based text-adventure engine.
//!
//! The library turns free-text player commands into structured
//! [`parser::Action`] values and applies them to a mutable world graph of
//! rooms, exits, items and features ([`world_building::World`]).  A snapshot
//! codec ([`snapshot`]) gives the world a save/load round trip.  All reading
//! and printing is left to the surrounding program; every function here is
//! pure computation over plain values.
//!
//! [`perform_action`] is one full turn: it parses one line of input and
//! applies the action to the world.  What needs the outside — writing a
//! snapshot to disk, reading one back, ending the session — is returned as
//! an [`Effect`] for the caller to carry out.

use vstd::prelude::*;

pub mod arena;
pub mod entities;
pub mod parser;
pub mod snapshot;
pub mod text;
pub mod world_building;

use crate::entities::player::inventory_text;
use crate::entities::room::{lookup_exit, RoomV};
use crate::entities::{contains_name_ci, first_match_ci};
use crate::parser::{parse_input, parse_spec, Action, ActionV};
use crate::snapshot::enc_world;
use crate::text::lower_seq;
use crate::world_building::{room_index, wf, World};

verus! {

/// What one turn asks of the session loop: print a reply and continue,
/// print a farewell and stop, write a snapshot to the durable store, or
/// read the stored snapshot back and hand it to
/// [`world_building::World::load_state`].
pub enum Effect {
    /// Print this and read the next command.
    Reply(String),
    /// Print this and end the session.
    End(String),
    /// Persist this snapshot text, then report the outcome.
    Save(String),
    /// Fetch the stored snapshot text and load it, then report the outcome.
    Load,
}

/// Fold a recoverable failure into an ordinary reply: the message is shown
/// to the player either way and the session continues.
pub fn acceptable_error(outcome: Result<String, String>) -> (r: Result<String, String>)
    ensures
        outcome matches Ok(m0) ==> (r matches Ok(m) && m == m0),
        outcome matches Err(m0) ==> (r matches Ok(m) && m == m0),
{
    match outcome {
        Ok(msg) => Ok(msg),
        Err(msg) => Ok(msg),
    }
}

/// Parse one line of input and apply the resulting action to the world:
/// one full turn.  Navigation, taking and using mutate the world exactly as
/// the engine operations say and fold their failures into replies; saving
/// and loading need the outside world and come back as effects; `exit` ends
/// the session; anything unrecognized is a reply and changes nothing.
pub fn perform_action(world: &mut World, user_input: &str) -> (r: Effect)
    requires
        wf(old(world)@),
    ensures
        wf(final(world)@),
        parse_spec(user_input@) is Exit ==> (r matches Effect::End(m) && m@ == "Exiting"@ && final(world)@ == old(world)@),
        parse_spec(user_input@) is Save ==> (r matches Effect::Save(snapshot) && snapshot@
            == enc_world(old(world)@) && final(world)@ == old(world)@),
        parse_spec(user_input@) is Load ==> (r matches Effect::Load && final(world)@ == old(world)@),
        parse_spec(user_input@) is Inventory ==> (r matches Effect::Reply(m) && m@
            == inventory_text(old(world)@.player.inventory) && final(world)@ == old(world)@),
        (parse_spec(user_input@) matches ActionV::Move(d) ==> ({
            let cur = old(world)@.rooms[room_index(old(world)@.rooms, old(world)@.player_location)];
            &&& (lookup_exit(cur.exits, lower_seq(d)) matches Some(dest) ==> (
            r matches Effect::Reply(m) && m@ == "You have moved "@ + d
                && final(world)@.player_location == dest && final(world)@.rooms == old(world)@.rooms
                && final(world)@.player == old(world)@.player))
            &&& (lookup_exit(cur.exits, lower_seq(d)) is None ==> (r matches Effect::Reply(m) && m@
                == d + " is not a valid direction"@ && final(world)@ == old(world)@))
        })),
        (parse_spec(user_input@) matches ActionV::Take(name) ==> ({
            let k = room_index(old(world)@.rooms, old(world)@.player_location);
            let cur = old(world)@.rooms[k];
            &&& (contains_name_ci(cur.items, name) ==> (r matches Effect::Reply(m) && m@
                == "Picked up "@ + name && final(world)@.rooms == old(world)@.rooms.update(
                k,
                (RoomV { items: cur.items.remove(first_match_ci(cur.items, name)), ..cur }),
            ) && final(world)@.player.inventory == old(world)@.player.inventory.push(
                cur.items[first_match_ci(cur.items, name)],
            ) && final(world)@.player_location == old(world)@.player_location))
            &&& (!contains_name_ci(cur.items, name) ==> (r matches Effect::Reply(m) && m@
                == "No item of type "@ + name + " is present"@ && final(world)@ == old(world)@))
        })),
        (parse_spec(user_input@) matches ActionV::Use(subject, target) ==> ({
            let k = room_index(old(world)@.rooms, old(world)@.player_location);
            let cur = old(world)@.rooms[k];
            let can = contains_name_ci(cur.features, target) && contains_name_ci(
                old(world)@.player.inventory,
                subject,
            );
            &&& (can ==> (r matches Effect::Reply(m) && m@ == "created door"@ && final(world)@.rooms == old(world)@.rooms.update(
                k,
                (RoomV {
                    features: cur.features.remove(first_match_ci(cur.features, target)),
                    ..cur
                }),
            ) && final(world)@.player == old(world)@.player))
            &&& (!can ==> (r matches Effect::Reply(m) && m@ == "You cannot do that here"@ && final(world)@ == old(world)@))
        })),
        parse_spec(user_input@) is Unknown ==> (r matches Effect::Reply(m) && m@
            == "You cannot do that"@ && final(world)@ == old(world)@),
        parse_spec(user_input@) matches ActionV::Put(_) ==> (r matches Effect::Reply(m) && m@
            == "You cannot do that"@ && final(world)@ == old(world)@),
{
    let action = parse_input(user_input);
    match action {
        Action::Exit => {
            let mut m = String::new();
            m.append("Exiting");
            Effect::End(m)
        },
        Action::Save => Effect::Save(world.save_state()),
        Action::Load => Effect::Load,
        Action::Inventory => Effect::Reply(world.player.list_inventory()),
        Action::Move(direction) => {
            match acceptable_error(world.move_player(&direction)) {
                Ok(m) => Effect::Reply(m),
                Err(m) => Effect::Reply(m),
            }
        },
        Action::Take(item_name) => {
            match acceptable_error(world.take_item(item_name.as_str())) {
                Ok(m) => Effect::Reply(m),
                Err(m) => Effect::Reply(m),
            }
        },
        Action::Use(subject, target) => {
            match acceptable_error(world.use_item(subject.as_str(), target.as_str())) {
                Ok(m) => Effect::Reply(m),
                Err(m) => Effect::Reply(m),
            }
        },
        Action::Unknown => {
            let mut m = String::new();
            m.append("You cannot do that");
            Effect::Reply(m)
        },
        Action::Put(_) => {
            let mut m = String::new();
            m.append("You cannot do that");
            Effect::Reply(m)
        },
    }
}

} // verus!
