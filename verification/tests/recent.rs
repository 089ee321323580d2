use cosmic_toplevel::recent::{key_of, RecentUseStorage};

#[test]
fn new_record_knows_nothing() {
    let s = RecentUseStorage::new();
    assert_eq!(s.get_freq(&"firefox"), 0);
    assert_eq!(s.get_recent(&"firefox"), 0);
    assert_eq!(s.freq_of(7), 0);
    assert_eq!(s.recent_of(7), 0);
}

#[test]
fn add_counts_uses_and_numbers_them() {
    let mut s = RecentUseStorage::new();
    s.add(&"firefox");
    s.add(&"terminal");
    s.add(&"firefox");
    assert_eq!(s.get_freq(&"firefox"), 2);
    assert_eq!(s.get_freq(&"terminal"), 1);
    assert_eq!(s.get_recent(&"firefox"), 3);
    assert_eq!(s.get_recent(&"terminal"), 2);
    assert_eq!(s.get_freq(&"gedit"), 0);
    assert_eq!(s.get_recent(&"gedit"), 0);
}

#[test]
fn add_key_counts_uses_and_numbers_them() {
    let mut s = RecentUseStorage::new();
    s.add_key(10);
    s.add_key(20);
    s.add_key(10);
    s.add_key(10);
    assert_eq!(s.freq_of(10), 3);
    assert_eq!(s.freq_of(20), 1);
    assert_eq!(s.recent_of(10), 4);
    assert_eq!(s.recent_of(20), 2);
    assert_eq!(s.freq_of(30), 0);
    assert_eq!(s.recent_of(30), 0);
}

#[test]
fn keys_are_recorded_under_their_hash() {
    let mut s = RecentUseStorage::new();
    s.add(&42u64);
    assert_eq!(s.freq_of(key_of(&42u64)), 1);
    assert_eq!(s.recent_of(key_of(&42u64)), 1);
    assert_eq!(key_of(&"a"), key_of(&"a"));
    assert_ne!(key_of(&"a"), key_of(&"b"));
}
