use vm_telegram::expiring_map::ExpiringMap;

fn get_test_map() -> ExpiringMap<String> {
    let time_to_live: u64 = 60;

    ExpiringMap::new(time_to_live)
}

fn now() -> u64 {
    1_000
}

#[test]
fn insert_and_get() {
    let mut map = get_test_map();

    map.insert("keyA".to_owned(), "valA".to_owned(), now());

    assert_eq!(Some(&mut "valA".to_owned()), map.get_mut(&"keyA".to_owned(), now()));
    assert_eq!(Some(&"valA".to_owned()), map.get(&"keyA".to_owned(), now()));
}

#[test]
fn entry_expires_after_time_to_live() {
    let mut map: ExpiringMap<String> = get_test_map();

    map.insert("keyA".to_owned(), "valA".to_owned(), now());

    let read_time = now() + 30;
    assert_eq!(Some(&mut "valA".to_owned()), map.get_mut(&"keyA".to_owned(), read_time));
    assert_eq!(Some(&"valA".to_owned()), map.get(&"keyA".to_owned(), read_time));

    let read_time_2 = now() + 65;
    assert_eq!(None, map.get_mut(&"keyA".to_owned(), read_time_2));
    assert_eq!(None, map.get(&"keyA".to_owned(), read_time_2));
}

#[test]
fn remove_expired_entries() {
    let mut map: ExpiringMap<String> = get_test_map();

    map.insert("keyA".to_owned(), "valA".to_owned(), now());

    assert_eq!(1, map.len());

    map.remove_expired_entries(now() + 65);

    assert_eq!(0, map.len());
}

#[test]
fn insert_returns_previous_live_value() {
    let mut map = get_test_map();

    assert_eq!(None, map.insert("keyA".to_owned(), "valA".to_owned(), now()));
    assert_eq!(
        Some("valA".to_owned()),
        map.insert("keyA".to_owned(), "valB".to_owned(), now() + 30)
    );
    assert_eq!(1, map.len());
    // the entry written at now() + 30 expires at now() + 90
    assert_eq!(None, map.insert("keyA".to_owned(), "valC".to_owned(), now() + 95));
}

#[test]
fn entry_lives_until_exactly_time_to_live() {
    let mut map = get_test_map();

    map.insert("keyA".to_owned(), "valA".to_owned(), now());

    assert_eq!(Some(&"valA".to_owned()), map.get(&"keyA".to_owned(), now() + 60));
    assert_eq!(None, map.get(&"keyA".to_owned(), now() + 61));
}

#[test]
fn get_mut_edits_the_stored_value() {
    let mut map = get_test_map();

    map.insert("keyA".to_owned(), "valA".to_owned(), now());

    if let Some(v) = map.get_mut(&"keyA".to_owned(), now()) {
        v.push('!');
    }
    assert_eq!(Some(&"valA!".to_owned()), map.get(&"keyA".to_owned(), now()));
}

#[test]
fn remove_expired_entries_keeps_live_ones() {
    let mut map = get_test_map();

    map.insert("keyA".to_owned(), "valA".to_owned(), now());
    map.insert("keyB".to_owned(), "valB".to_owned(), now() + 30);

    map.remove_expired_entries(now() + 65);

    assert_eq!(1, map.len());
    assert_eq!(None, map.get(&"keyA".to_owned(), now() + 65));
    assert_eq!(Some(&"valB".to_owned()), map.get(&"keyB".to_owned(), now() + 65));
}
