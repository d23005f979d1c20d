use text_adventure::parser::{parse_input, Action};

#[test]
fn parse_is_deterministic_on_equal_text() {
    let first = parse_input("go north");
    let second = parse_input("go north");
    match (first, second) {
        (Action::Move(a), Action::Move(b)) => assert_eq!(a, b),
        _ => panic!("both parses should be Move"),
    }
}

#[test]
fn parse_move_is_case_insensitive_with_lowercase_payload() {
    for text in ["GO north", "go North", "Go NORTH"] {
        match parse_input(text) {
            Action::Move(direction) => assert_eq!(direction, "north"),
            _ => panic!("{:?} should parse as Move", text),
        }
    }
}

#[test]
fn parse_exit_and_quit() {
    assert!(matches!(parse_input("exit"), Action::Exit));
    assert!(matches!(parse_input("QUIT"), Action::Exit));
    assert!(matches!(parse_input("  exit  "), Action::Exit));
}

#[test]
fn parse_exit_wins_over_later_matchers() {
    // "quit now" begins with an exit keyword, and "now" could be the word
    // of a later matcher; the earlier matcher decides.
    assert!(matches!(parse_input("quit now"), Action::Exit));
}

#[test]
fn parse_load_save_inventory() {
    assert!(matches!(parse_input("load"), Action::Load));
    assert!(matches!(parse_input("Save"), Action::Save));
    assert!(matches!(parse_input("inventory"), Action::Inventory));
    assert!(matches!(parse_input("inv"), Action::Inventory));
    assert!(matches!(parse_input("  save  "), Action::Save));
}

#[test]
fn parse_take_and_get() {
    match parse_input("take Key") {
        Action::Take(name) => assert_eq!(name, "key"),
        _ => panic!("take Key should parse as Take"),
    }
    match parse_input("get tinderbox") {
        Action::Take(name) => assert_eq!(name, "tinderbox"),
        _ => panic!("get tinderbox should parse as Take"),
    }
}

#[test]
fn parse_use_on() {
    match parse_input("use Key on Door") {
        Action::Use(subject, target) => {
            assert_eq!(subject, "key");
            assert_eq!(target, "door");
        },
        _ => panic!("use Key on Door should parse as Use"),
    }
}

#[test]
fn parse_unknown_inputs() {
    assert!(matches!(parse_input(""), Action::Unknown));
    assert!(matches!(parse_input("dance"), Action::Unknown));
    // A keyword with no following word matches no word matcher.
    assert!(matches!(parse_input("go"), Action::Unknown));
    // A keyword fused to its word has no separating space.
    assert!(matches!(parse_input("government"), Action::Unknown));
    assert!(matches!(parse_input("use key door"), Action::Unknown));
}

#[test]
fn parse_keyword_matches_as_prefix() {
    // The keyword matchers read a prefix of the trimmed input, as the
    // grammar says: what follows the first match is not examined.
    assert!(matches!(parse_input("exit stage left"), Action::Exit));
    assert!(matches!(parse_input("loading"), Action::Load));
}
