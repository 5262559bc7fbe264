use json_api::doc::{Link, Object};
use json_api::value::{Key, OrderedMap, OrderedSet, Value};

#[test]
fn map_keeps_first_insertion_order() {
    let mut map: OrderedMap<Key, Value> = OrderedMap::new();
    let a = Key::from_str("a").unwrap();
    let b = Key::from_str("b").unwrap();
    let c = Key::from_str("c").unwrap();
    map.insert(a.clone(), Value::Bool(true));
    map.insert(b.clone(), Value::Bool(true));
    map.insert(c.clone(), Value::Bool(true));
    // Replacing a value keeps the key's position.
    let old = map.insert(b.clone(), Value::Bool(false));
    assert_eq!(old, Some(Value::Bool(true)));
    assert_eq!(map.len(), 3);
    assert_eq!(map.key_at(0).as_str(), "a");
    assert_eq!(map.key_at(1).as_str(), "b");
    assert_eq!(map.key_at(2).as_str(), "c");
    assert_eq!(map.get(&b), Some(&Value::Bool(false)));
    // Removing closes the gap; re-insertion goes to the end.
    assert_eq!(map.remove(&b), Some(Value::Bool(false)));
    assert_eq!(map.len(), 2);
    assert_eq!(map.key_at(1).as_str(), "c");
    map.insert(b.clone(), Value::Null);
    assert_eq!(map.key_at(2).as_str(), "b");
    assert!(!map.contains_key(&Key::from_str("d").unwrap()));
}

#[test]
fn set_coalesces_objects_with_equal_identity() {
    let person = Key::from_str("person").unwrap();
    let hero = Key::from_str("hero").unwrap();

    let mut included: OrderedSet<Object> = OrderedSet::new();

    let mut diana = Object::new(person.clone(), String::from("77"));
    let mut wonder = Object::new(person.clone(), String::from("77"));
    diana
        .attributes
        .insert(Key::from_str("name").unwrap(), Value::String(String::from("Diana Prince")));
    wonder
        .attributes
        .insert(Key::from_str("name").unwrap(), Value::String(String::from("Wonder Woman")));

    assert!(included.insert(diana));
    assert_eq!(included.len(), 1);

    // Same (id, type): silently coalesced, the first object is kept.
    assert!(!included.insert(wonder));
    assert_eq!(included.len(), 1);
    assert_eq!(
        included.item_at(0).attributes.get(&Key::from_str("name").unwrap()),
        Some(&Value::String(String::from("Diana Prince")))
    );

    // A different type is a different resource.
    let batman = Object::new(hero, String::from("77"));
    assert!(included.insert(batman));
    assert_eq!(included.len(), 2);
}

#[test]
fn objects_compare_by_identity_alone() {
    let person = Key::from_str("person").unwrap();
    let hero = Key::from_str("hero").unwrap();

    let mut bruce = Object::new(person.clone(), String::from("77"));
    let mut batman = Object::new(person.clone(), String::from("77"));
    bruce
        .attributes
        .insert(Key::from_str("name").unwrap(), Value::String(String::from("Bruce Wayne")));
    batman
        .attributes
        .insert(Key::from_str("name").unwrap(), Value::String(String::from("Batman")));

    // Same (id, type): equal despite different attributes.
    assert!(bruce == batman);

    // A different type makes a different resource.
    batman.kind = hero;
    assert!(bruce != batman);
}

#[test]
fn link_parses_and_normalizes_uris() {
    let link = Link::from_str("https://rust-lang.org").unwrap();
    assert_eq!(link.as_str(), "https://rust-lang.org/");
    assert!(Link::from_str("not a uri\n").is_err());
}

#[test]
fn value_accessors_match_variants() {
    let n = Value::Number(json_api::value::Number::from_i64(-3));
    assert_eq!(n.as_i64(), Some(-3));
    assert_eq!(n.as_u64(), None);
    assert!(n.is_number());
    assert!(!n.is_u64());

    let s = Value::String(String::from("hi"));
    assert_eq!(s.as_str(), Some("hi"));
    assert!(s.is_string());
    assert!(Value::Null.is_null());
    assert_eq!(Value::default(), Value::Null);

    let pos = Value::Number(json_api::value::Number::from_u64(10));
    assert_eq!(pos.as_u64(), Some(10));
    assert_eq!(pos.as_i64(), Some(10));
}
