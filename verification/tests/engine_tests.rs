use text_adventure::entities::{Feature, Item, Player, Room};
use text_adventure::world_building::{from_rooms, World};

fn room(id: &str, description: &str) -> Room {
    Room::new(id.to_string(), description.to_string())
}

fn demo_world() -> World {
    let mut entrance = room("entrance", "The dungeon entrance");
    entrance.add_exit("north".to_string(), "corridor".to_string());

    let mut corridor = room("corridor", "A long corridor");
    corridor.add_exit("south".to_string(), "entrance".to_string());
    corridor.add_exit("west".to_string(), "storeroom".to_string());
    corridor.add_feature(Feature::new("north door".to_string()));

    let mut storeroom = room("storeroom", "An old dusty storeroom");
    storeroom.add_exit("east".to_string(), "corridor".to_string());
    storeroom.add_item(Item::new("key".to_string()));
    storeroom.add_item(Item::new("tinderbox".to_string()));

    let rooms = vec![entrance, corridor, storeroom];
    let player = Player::new("Bob".to_string());
    from_rooms(rooms, "entrance".to_string(), player).expect("the demo world is well formed")
}

fn room_items(world: &World, id: &str) -> Vec<String> {
    for r in &world.rooms {
        if r.id == id {
            return r.get_item_names();
        }
    }
    panic!("no room named {}", id);
}

#[test]
fn move_player_follows_an_exit() {
    let mut world = demo_world();
    let message = world.move_player(&"north".to_string()).expect("north is an exit");
    assert!(message.contains("north"));
    assert_eq!(world.player_location, "corridor");
}

#[test]
fn move_player_failure_changes_nothing() {
    let mut world = demo_world();
    let result = world.move_player(&"south".to_string());
    assert!(result.is_err());
    assert_eq!(result.unwrap_err(), "south is not a valid direction");
    assert_eq!(world.player_location, "entrance");
    // No other field of the world changed either.
    assert_eq!(world.player.name, "Bob");
    assert!(world.player.inventory.is_empty());
    assert_eq!(room_items(&world, "storeroom"), vec!["key", "tinderbox"]);
}

#[test]
fn move_player_folds_direction_case() {
    let mut world = demo_world();
    world.move_player(&"NORTH".to_string()).expect("case is folded before lookup");
    assert_eq!(world.player_location, "corridor");
}

#[test]
fn take_item_moves_exactly_one_unit() {
    let mut world = demo_world();
    world.move_player(&"north".to_string()).unwrap();
    world.move_player(&"west".to_string()).unwrap();
    assert_eq!(world.player_location, "storeroom");

    let message = world.take_item("key").expect("the key is here");
    assert_eq!(message, "Picked up key");
    assert_eq!(room_items(&world, "storeroom"), vec!["tinderbox"]);
    assert!(world.player.list_inventory().contains("key"));

    let again = world.take_item("key");
    assert!(again.is_err());
    assert_eq!(again.unwrap_err(), "No item of type key is present");
    assert_eq!(room_items(&world, "storeroom"), vec!["tinderbox"]);
    assert_eq!(world.player.list_inventory(), "key\n");
}

#[test]
fn take_item_folds_case_and_keeps_original_spelling() {
    let mut world = demo_world();
    world.move_player(&"north".to_string()).unwrap();
    world.move_player(&"west".to_string()).unwrap();
    world.take_item("KEY").expect("lookup folds case");
    assert_eq!(world.player.inventory[0].name, "key");
}

#[test]
fn list_inventory_renders_one_name_per_line_in_order() {
    let mut world = demo_world();
    assert_eq!(world.player.list_inventory(), "");
    world.move_player(&"north".to_string()).unwrap();
    world.move_player(&"west".to_string()).unwrap();
    world.take_item("key").unwrap();
    world.take_item("tinderbox").unwrap();
    assert_eq!(world.player.list_inventory(), "key\ntinderbox\n");
}

#[test]
fn use_item_removes_the_feature() {
    let mut world = demo_world();
    world.move_player(&"north".to_string()).unwrap();
    world.move_player(&"west".to_string()).unwrap();
    world.take_item("key").unwrap();
    world.move_player(&"east".to_string()).unwrap();

    let message = world.use_item("key", "north door").expect("item and feature are present");
    assert_eq!(message, "created door");
    for r in &world.rooms {
        if r.id == "corridor" {
            assert!(r.get_feature_names().is_empty());
        }
    }
}

#[test]
fn use_item_refuses_when_item_or_feature_is_absent() {
    let mut world = demo_world();
    world.move_player(&"north".to_string()).unwrap();
    // The feature is here, but the player holds no key.
    let refused = world.use_item("key", "north door");
    assert_eq!(refused.unwrap_err(), "You cannot do that here");
    for r in &world.rooms {
        if r.id == "corridor" {
            assert_eq!(r.get_feature_names(), vec!["north door"]);
        }
    }
}

#[test]
fn room_lookups_fold_case() {
    let world = demo_world();
    for r in &world.rooms {
        if r.id == "corridor" {
            assert!(r.has_feature("North Door"));
            assert!(r.has_exit("SOUTH"));
            assert!(!r.has_exit("up"));
        }
        if r.id == "storeroom" {
            assert!(r.has_items());
        }
    }
    assert!(!world.player.has_item("key"));
}

#[test]
fn full_description_names_description_exits_and_items() {
    let mut storeroom = room("storeroom", "An old dusty storeroom");
    storeroom.add_exit("east".to_string(), "corridor".to_string());
    storeroom.add_item(Item::new("key".to_string()));
    storeroom.add_item(Item::new("tinderbox".to_string()));
    assert_eq!(
        storeroom.get_full_description(),
        "\nAn old dusty storeroom\nExits are east\nItems are key, tinderbox"
    );
}

#[test]
fn full_description_names_features_when_present() {
    let mut corridor = room("corridor", "A long corridor");
    corridor.add_exit("south".to_string(), "entrance".to_string());
    corridor.add_exit("west".to_string(), "storeroom".to_string());
    corridor.add_feature(Feature::new("north door".to_string()));
    assert_eq!(
        corridor.get_full_description(),
        "\nA long corridor\nExits are south, west\nThere is north door"
    );
}

#[test]
fn add_exit_rebinds_an_existing_direction() {
    let mut r = room("hall", "a hall");
    r.add_exit("north".to_string(), "alpha".to_string());
    r.add_exit("north".to_string(), "beta".to_string());
    assert_eq!(r.exits.len(), 1);
    assert_eq!(r.exits[0].1, "beta");
}

#[test]
fn remove_feature_takes_the_first_exact_match() {
    let mut r = room("hall", "a hall");
    r.add_feature(Feature::new("lever".to_string()));
    r.add_feature(Feature::new("lever".to_string()));
    let removed = r.remove_feature("lever".to_string()).expect("a lever is present");
    assert_eq!(removed, "lever");
    assert_eq!(r.get_feature_names(), vec!["lever"]);
    let missing = r.remove_feature("wheel".to_string());
    assert_eq!(missing.unwrap_err(), "No feature of type wheel is present");
}

#[test]
fn feature_reports_its_name() {
    let feature = Feature::new("north door".to_string());
    assert_eq!(feature.get_name(), "north door");
}

#[test]
fn from_rooms_rejects_each_broken_invariant() {
    // A dangling exit.
    let mut a = room("a", "first");
    a.add_exit("north".to_string(), "nowhere".to_string());
    let err = from_rooms(vec![a], "a".to_string(), Player::new(String::new()));
    assert_eq!(err.unwrap_err(), "an exit leads to no room");

    // A duplicate identifier.
    let err = from_rooms(
        vec![room("a", "first"), room("a", "second")],
        "a".to_string(),
        Player::new(String::new()),
    );
    assert_eq!(err.unwrap_err(), "two rooms share an id");

    // An unknown starting location.
    let err = from_rooms(vec![room("a", "first")], "b".to_string(), Player::new(String::new()));
    assert_eq!(err.unwrap_err(), "the starting location is no room");

    // An identifier that is not lowercase.
    let err = from_rooms(vec![room("Attic", "upstairs")], "attic".to_string(), Player::new(String::new()));
    assert_eq!(err.unwrap_err(), "a room id is not lowercase");

    // A direction that is not lowercase.
    let mut a = room("a", "first");
    a.add_exit("North".to_string(), "a".to_string());
    let err = from_rooms(vec![a], "a".to_string(), Player::new(String::new()));
    assert_eq!(err.unwrap_err(), "an exit direction is not lowercase");

    // One direction bound twice.  `add_exit` rebinds instead, so such a
    // room can only be written out directly.
    let twice = Room {
        id: "a".to_string(),
        description: "first".to_string(),
        exits: vec![
            ("north".to_string(), "a".to_string()),
            ("north".to_string(), "a".to_string()),
        ],
        items: vec![],
        features: vec![],
    };
    let err = from_rooms(vec![twice], "a".to_string(), Player::new(String::new()));
    assert_eq!(err.unwrap_err(), "a room has two exits with one direction");
}

#[test]
fn arena_stores_nodes_by_index() {
    let mut arena = text_adventure::arena::Arena::new(4);
    let first = arena.allocate("alpha".to_string());
    let second = arena.allocate("beta".to_string());
    assert_eq!(arena.len(), 2);
    assert_eq!(arena.get(first), "alpha");
    assert_eq!(arena.get(second), "beta");
}
