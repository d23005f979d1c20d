use text_adventure::entities::Room;

#[test]
fn world_building_tests_test_add_exit() {
    // Arrange
    let mut victim = Room::new("id".to_string(), "description".to_string());
    let destination = Room::new("dest".to_string(), "another description".to_string());

    // Act
    victim.add_exit("direction".to_string(), destination.id.clone());
    let result = victim.get_exits().into_iter().any(|s| s == "direction");

    // Assert
    assert_eq!(result, true);
}
