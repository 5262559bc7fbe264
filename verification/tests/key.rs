use json_api::value::Key;
use json_api::value::Path;

#[test]
fn key_rejects_invalid_names() {
    let rejected = ["", ".", "a.b", "-a", "a-", "a_b ", "a@b"];
    for name in rejected.iter() {
        assert!(Key::from_str(name).is_err(), "{:?} should be rejected", name);
    }
}

#[test]
fn key_normalizes_to_kebab_case() {
    let cases = [
        ("someFieldName", "some-field-name"),
        ("shoppingCarts", "shopping-carts"),
        ("notification_settings", "notification-settings"),
    ];
    for (raw, expected) in cases.iter() {
        let key = Key::from_str(raw).unwrap();
        assert_eq!(key.as_str(), *expected);
    }
}

#[test]
fn key_parse_is_idempotent() {
    let inputs = ["someFieldName", "shoppingCarts", "notification_settings", "a", "created-at"];
    for raw in inputs.iter() {
        let once = Key::from_str(raw).unwrap();
        let twice = Key::from_str(once.as_str()).unwrap();
        assert_eq!(once, twice);
    }
}

#[test]
fn path_round_trips_through_text() {
    let path = Path::from_str("authors.name").unwrap();
    assert_eq!(path.len(), 2);
    assert_eq!(path.char_count(), 12);
    assert_eq!(path.to_string(), "authors.name");
    let again = Path::from_str(&path.to_string()).unwrap();
    assert_eq!(path, again);
}

#[test]
fn path_push_and_pop() {
    let mut path = Path::new();
    path.push(Key::from_str("authors").unwrap());
    path.push(Key::from_str("name").unwrap());
    assert_eq!(path.to_string(), "authors.name");
    assert_eq!(path.pop(), Some(Key::from_str("name").unwrap()));
    assert_eq!(path.pop(), Some(Key::from_str("authors").unwrap()));
    assert_eq!(path.pop(), None);
}

#[test]
fn path_to_bytes_is_dot_joined() {
    let path = Path::from_str("a.b.c").unwrap();
    assert_eq!(path.to_bytes(), vec![97, 46, 98, 46, 99]);
}

#[test]
fn path_char_count_counts_bytes() {
    // A two-byte character counts as two: the count is the byte length of
    // the dot-joined text.
    let path = Path::from_str("caf\u{e9}.name").unwrap();
    assert_eq!(path.to_string().chars().count(), 9);
    assert_eq!(path.char_count(), 10);
    assert_eq!(path.char_count(), path.to_bytes().len());
}

#[test]
fn path_rejects_empty_segments() {
    assert!(Path::from_str("").is_err());
    assert!(Path::from_str("a..b").is_err());
    assert!(Path::from_str("a.").is_err());
}
