use labyrintuine::map::MazeMap;

#[test]
fn test_map_default() {
    let map = MazeMap::default();

    assert_eq!(map.key, "Default");
    assert_eq!(map.data.len(), 21);
    assert!(map
        .data
        .first()
        .expect("Map should have at least one row")
        .starts_with("222"));
    assert!(map
        .data
        .get(19)
        .expect("Map should have at least 20 rows")
        .ends_with('4'));
}

#[test]
fn test_map_new_valid_input() {
    let filename = "test.labmap";
    let data = "111\n222\n333";

    let map = MazeMap::new(filename, data).expect("Failed to create map");

    assert_eq!(map.key, "test");
    assert_eq!(map.data, vec!["111", "222", "333"]);
}

#[test]
fn test_map_new_single_line() {
    let filename = "single.labmap";
    let data = "123456789";

    let map = MazeMap::new(filename, data).expect("Failed to create map");

    assert_eq!(map.key, "single");
    assert_eq!(map.data, vec!["123456789"]);
}

#[test]
fn test_map_new_empty_data() {
    let filename = "empty.labmap";
    let data = "";

    let map = MazeMap::new(filename, data).expect("Failed to create map");

    assert_eq!(map.key, "empty");
    assert_eq!(map.data.len(), 0);
}

#[test]
fn test_map_new_missing_extension() {
    let filename = "noextension";
    let data = "test";

    let result = MazeMap::new(filename, data);
    assert!(result.is_err());
}

#[test]
fn test_map_new_wrong_extension() {
    let filename = "test.txt";
    let data = "test";

    let result = MazeMap::new(filename, data);
    assert!(result.is_err());
}

#[test]
fn test_map_new_multiple_extensions() {
    let filename = "test.backup.labmap";
    let data = "line1\nline2";

    let map = MazeMap::new(filename, data).expect("Failed to create map");

    assert_eq!(map.key, "test.backup");
    assert_eq!(map.data, vec!["line1", "line2"]);
}

#[test]
fn test_map_equality_by_content() {
    let a = MazeMap::new("same.labmap", "222\n212\n222").expect("Failed to create map");
    let b = MazeMap::new("same.labmap", "222\n212\n222").expect("Failed to create map");
    let c = MazeMap::new("other.labmap", "222\n212\n222").expect("Failed to create map");
    let d = MazeMap::new("same.labmap", "222\n232\n222").expect("Failed to create map");

    assert!(a == b);
    assert!(a != c);
    assert!(a != d);
    assert!(a == a.clone());
}

#[test]
fn test_map_new_crlf_lines() {
    let map = MazeMap::new("dos.labmap", "222\r\n212\r\n222").expect("Failed to create map");

    assert_eq!(map.data, vec!["222", "212", "222"]);
}
