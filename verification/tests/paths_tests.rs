use alfred::paths::join_path;

#[test]
fn joining_a_relative_path_adds_one_separator() {
    assert_eq!(join_path("/ws", "a/b"), "/ws/a/b");
    assert_eq!(join_path("/ws/", "a"), "/ws/a");
    assert_eq!(join_path("", "a"), "a");
}

#[test]
fn joining_an_absolute_path_replaces_the_base() {
    assert_eq!(join_path("/ws", "/var/index"), "/var/index");
}
