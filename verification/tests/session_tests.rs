use text_adventure::entities::{Item, Player, Room};
use text_adventure::world_building::{from_rooms, World};
use text_adventure::{acceptable_error, perform_action, Effect};

fn small_world() -> World {
    let mut entrance = Room::new("entrance".to_string(), "The dungeon entrance".to_string());
    entrance.add_exit("north".to_string(), "corridor".to_string());
    entrance.add_item(Item::new("torch".to_string()));
    let mut corridor = Room::new("corridor".to_string(), "A long corridor".to_string());
    corridor.add_exit("south".to_string(), "entrance".to_string());
    from_rooms(vec![entrance, corridor], "entrance".to_string(), Player::new("Bob".to_string()))
        .expect("the world is well formed")
}

fn assert_untouched(world: &World) {
    let fresh = small_world();
    assert_eq!(world.player_location, fresh.player_location);
    assert_eq!(world.player.name, fresh.player.name);
    assert_eq!(world.player.inventory.len(), fresh.player.inventory.len());
    assert_eq!(world.rooms.len(), fresh.rooms.len());
    for (a, b) in world.rooms.iter().zip(fresh.rooms.iter()) {
        assert_eq!(a.id, b.id);
        assert_eq!(a.exits, b.exits);
        assert_eq!(a.get_item_names(), b.get_item_names());
    }
}

#[test]
fn exit_ends_the_session_and_touches_nothing() {
    let mut world = small_world();
    match perform_action(&mut world, "exit") {
        Effect::End(message) => assert_eq!(message, "Exiting"),
        _ => panic!("exit should end the session"),
    }
    assert_untouched(&world);
}

#[test]
fn a_turn_moves_the_player() {
    let mut world = small_world();
    match perform_action(&mut world, "go north") {
        Effect::Reply(message) => assert_eq!(message, "You have moved north"),
        _ => panic!("go north should reply"),
    }
    assert_eq!(world.player_location, "corridor");
}

#[test]
fn a_failed_move_is_a_reply_not_an_end() {
    let mut world = small_world();
    match perform_action(&mut world, "go up") {
        Effect::Reply(message) => assert_eq!(message, "up is not a valid direction"),
        _ => panic!("a bad direction is reported and the session continues"),
    }
    assert_untouched(&world);
}

#[test]
fn a_turn_takes_an_item() {
    let mut world = small_world();
    match perform_action(&mut world, "take torch") {
        Effect::Reply(message) => assert_eq!(message, "Picked up torch"),
        _ => panic!("take torch should reply"),
    }
    assert_eq!(world.player.list_inventory(), "torch\n");
}

#[test]
fn inventory_turn_lists_without_mutating() {
    let mut world = small_world();
    match perform_action(&mut world, "inv") {
        Effect::Reply(message) => assert_eq!(message, ""),
        _ => panic!("inv should reply"),
    }
    assert_untouched(&world);
}

#[test]
fn unknown_input_is_a_reply_and_a_no_op() {
    let mut world = small_world();
    match perform_action(&mut world, "sing loudly") {
        Effect::Reply(message) => assert_eq!(message, "You cannot do that"),
        _ => panic!("unknown input should reply"),
    }
    assert_untouched(&world);
}

#[test]
fn save_turn_hands_back_a_loadable_snapshot() {
    let mut world = small_world();
    let snapshot = match perform_action(&mut world, "save") {
        Effect::Save(snapshot) => snapshot,
        _ => panic!("save should ask the caller to persist"),
    };
    assert_untouched(&world);

    // A later load of that snapshot restores the saved state.
    perform_action(&mut world, "go north");
    match perform_action(&mut world, "load") {
        Effect::Load => {},
        _ => panic!("load should ask the caller for the stored snapshot"),
    }
    world.load_state(snapshot.as_str()).expect("the snapshot is intact");
    assert_untouched(&world);
}

#[test]
fn acceptable_error_folds_both_sides_to_ok() {
    assert_eq!(acceptable_error(Ok("fine".to_string())), Ok("fine".to_string()));
    assert_eq!(acceptable_error(Err("still fine".to_string())), Ok("still fine".to_string()));
}
