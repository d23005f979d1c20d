use text_adventure::entities::{Item, Player, Room};
use text_adventure::world_building::{from_rooms, World};

fn cyclic_world() -> World {
    // Two rooms whose exits form a cycle: alpha -> beta -> alpha.
    let mut alpha = Room::new("alpha".to_string(), "the first room".to_string());
    alpha.add_exit("east".to_string(), "beta".to_string());
    alpha.add_item(Item::new("lamp".to_string()));

    let mut beta = Room::new("beta".to_string(), "the second room".to_string());
    beta.add_exit("west".to_string(), "alpha".to_string());
    beta.add_feature(text_adventure::entities::Feature::new("gate".to_string()));

    let mut player = Player::new("Ada".to_string());
    player.inventory.push(Item::new("coin".to_string()));
    player.inventory.push(Item::new("map".to_string()));

    from_rooms(vec![alpha, beta], "beta".to_string(), player).expect("the world is well formed")
}

fn assert_same_observables(a: &World, b: &World) {
    assert_eq!(a.player_location, b.player_location);
    assert_eq!(a.player.name, b.player.name);
    let inv_a: Vec<&String> = a.player.inventory.iter().map(|i| &i.name).collect();
    let inv_b: Vec<&String> = b.player.inventory.iter().map(|i| &i.name).collect();
    assert_eq!(inv_a, inv_b);
    assert_eq!(a.rooms.len(), b.rooms.len());
    for (ra, rb) in a.rooms.iter().zip(b.rooms.iter()) {
        assert_eq!(ra.id, rb.id);
        assert_eq!(ra.description, rb.description);
        assert_eq!(ra.exits, rb.exits);
        assert_eq!(ra.get_item_names(), rb.get_item_names());
        assert_eq!(ra.get_feature_names(), rb.get_feature_names());
    }
}

#[test]
fn save_then_load_restores_the_world() {
    let original = cyclic_world();
    let snapshot = original.save_state();

    // Load into an unrelated world: it is replaced wholesale.
    let mut restored =
        from_rooms(vec![Room::new("void".to_string(), "empty".to_string())], "void".to_string(), Player::new(String::new()))
            .unwrap();
    let message = restored.load_state(snapshot.as_str()).expect("the snapshot is intact");
    assert_eq!(message, "game loaded");
    assert_same_observables(&original, &restored);
}

#[test]
fn snapshot_begins_with_the_header_line() {
    let world = cyclic_world();
    let snapshot = world.save_state();
    assert!(snapshot.starts_with("adventure snapshot\n"));
}

#[test]
fn malformed_load_is_non_destructive() {
    let mut world = cyclic_world();
    let snapshot = world.save_state();

    // Truncated snapshot.
    let truncated = &snapshot[0..snapshot.len() - 3];
    let err = world.load_state(truncated);
    assert_eq!(err.unwrap_err(), "the snapshot is malformed");
    assert_same_observables(&world, &cyclic_world());

    // Arbitrary garbage.
    let err = world.load_state("not a snapshot at all");
    assert_eq!(err.unwrap_err(), "the snapshot is malformed");
    assert_same_observables(&world, &cyclic_world());

    // The empty text.
    let err = world.load_state("");
    assert_eq!(err.unwrap_err(), "the snapshot is malformed");
    assert_same_observables(&world, &cyclic_world());
}

#[test]
fn load_rejects_a_snapshot_with_a_dangling_exit() {
    // A structurally sound snapshot whose one exit names a missing room:
    // it must be rejected and reported, never silently dropped.
    let mut stray = Room::new("alpha".to_string(), "the first room".to_string());
    stray.add_exit("east".to_string(), "beta".to_string());
    let broken = World {
        rooms: vec![stray],
        player_location: "alpha".to_string(),
        player: Player::new("Ada".to_string()),
    };
    let snapshot = broken.save_state();

    let mut world = cyclic_world();
    let err = world.load_state(snapshot.as_str());
    assert_eq!(err.unwrap_err(), "an exit leads to no room");
    assert_same_observables(&world, &cyclic_world());
}

#[test]
fn snapshot_lengths_cover_awkward_names() {
    // Names with separators, digits and a length beyond one digit survive
    // the round trip: the codec is length-prefixed, not delimiter-based.
    let mut den = Room::new("den: a 12;34 'room'\n".to_string(), String::new());
    den.add_item(Item::new("thing one thing two thing three, etc.".to_string()));
    let original = from_rooms(vec![den], "den: a 12;34 'room'\n".to_string(), Player::new("N. N.".to_string()))
        .expect("odd characters in names are fine");
    let snapshot = original.save_state();
    let mut restored = cyclic_world();
    restored.load_state(snapshot.as_str()).expect("the snapshot is intact");
    assert_same_observables(&original, &restored);
}
