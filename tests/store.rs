use redis_core::database::{
    delete_value, get_config, get_value, remove_expired, set_config, set_value, set_value_expiry, Database,
};

#[test]
fn set_without_px_clears_a_deadline() {
    let mut db = Database::new();
    set_value_expiry(&mut db, b"k", b"v1", 10, 100);
    set_value(&mut db, b"k", b"v2");
    assert_eq!(get_value(&mut db, b"k", 1_000_000), Some(b"v2".to_vec()));
}

#[test]
fn set_with_px_replaces_a_deadline() {
    let mut db = Database::new();
    set_value_expiry(&mut db, b"k", b"v1", 10, 100);
    set_value_expiry(&mut db, b"k", b"v2", 1000, 100);
    assert_eq!(get_value(&mut db, b"k", 500), Some(b"v2".to_vec()));
    assert_eq!(get_value(&mut db, b"k", 1100), None);
}

#[test]
fn a_key_is_gone_from_its_deadline_on() {
    let mut db = Database::new();
    set_value_expiry(&mut db, b"k", b"v", 100, 1000);
    assert_eq!(get_value(&mut db, b"k", 1099), Some(b"v".to_vec()));
    assert_eq!(get_value(&mut db, b"k", 1100), None);
    assert_eq!(get_value(&mut db, b"k", 0), None);
}

#[test]
fn a_deadline_past_the_clock_saturates() {
    let mut db = Database::new();
    set_value_expiry(&mut db, b"k", b"v", 100, u64::MAX - 5);
    assert_eq!(get_value(&mut db, b"k", u64::MAX - 1), Some(b"v".to_vec()));
}

#[test]
fn delete_removes_a_key() {
    let mut db = Database::new();
    set_value(&mut db, b"a", b"1");
    set_value(&mut db, b"b", b"2");
    delete_value(&mut db, b"a");
    assert_eq!(get_value(&mut db, b"a", 0), None);
    assert_eq!(get_value(&mut db, b"b", 0), Some(b"2".to_vec()));
}

#[test]
fn config_is_separate_from_the_keyspace() {
    let mut db = Database::new();
    set_config(&mut db, b"role", b"master");
    assert_eq!(get_config(&db, b"role"), Some(b"master".to_vec()));
    assert_eq!(get_value(&mut db, b"role", 0), None);
    assert_eq!(get_config(&db, b"dir"), None);
}

#[test]
fn sweep_drops_only_expired_keys() {
    let mut db = Database::new();
    set_value_expiry(&mut db, b"short", b"1", 10, 100);
    set_value_expiry(&mut db, b"long", b"2", 1000, 100);
    set_value(&mut db, b"forever", b"3");
    remove_expired(&mut db, 500);
    assert_eq!(get_value(&mut db, b"short", 0), None);
    assert_eq!(get_value(&mut db, b"long", 0), Some(b"2".to_vec()));
    assert_eq!(get_value(&mut db, b"forever", 0), Some(b"3".to_vec()));
}
