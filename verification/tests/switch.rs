use clkmonoff::bitmap::{bitmap, bitmap_eq, bitmap_set, bm_setup, EqMode};
use clkmonoff::switch::{Change, Killswitch};

#[test]
fn bitmap_has_room_rounded_to_words() {
    let empty = bitmap(0);
    let a = bitmap(1);
    let b = bitmap(32);
    let c = bitmap(33);
    assert!(bitmap_eq(&a, &b, EqMode::Eq));
    assert!(!bitmap_eq(&b, &c, EqMode::Eq));
    assert!(!bitmap_eq(&empty, &a, EqMode::Eq));
}

#[test]
fn bitmap_set_and_clear() {
    let mut m = bitmap(256);
    let mut n = bitmap(256);
    bitmap_set(&mut m, 5, true);
    bitmap_set(&mut m, 200, true);
    assert!(!bitmap_eq(&m, &n, EqMode::Eq));
    bitmap_set(&mut n, 200, true);
    bitmap_set(&mut n, 5, true);
    assert!(bitmap_eq(&m, &n, EqMode::Eq));
    bitmap_set(&mut m, 5, false);
    bitmap_set(&mut m, 5, false);
    assert!(!bitmap_eq(&m, &n, EqMode::Eq));
    assert!(bitmap_eq(&m, &n, EqMode::Has));
    assert!(!bitmap_eq(&n, &m, EqMode::Has));
}

#[test]
fn bitmap_has_compares_common_words_only() {
    let mut small = bitmap(32);
    let mut big = bitmap(64);
    bitmap_set(&mut big, 40, true);
    assert!(bitmap_eq(&big, &small, EqMode::Has));
    bitmap_set(&mut small, 3, true);
    assert!(!bitmap_eq(&small, &big, EqMode::Has));
    bitmap_set(&mut big, 3, true);
    assert!(bitmap_eq(&small, &big, EqMode::Has));
}

#[test]
fn bm_setup_sets_listed_keys() {
    let mut m = bitmap(256);
    bm_setup(&mut m, vec![1, 31, 32, 255, 31]);
    let mut n = bitmap(256);
    for k in [255usize, 32, 1, 31] {
        bitmap_set(&mut n, k, true);
    }
    assert!(bitmap_eq(&m, &n, EqMode::Eq));
}

#[test]
fn switch_turns_on_with_start_and_off_with_exact_end() {
    // start: ctrl + a; end: ctrl + b (Windows codes)
    let mut s = Killswitch::new(vec![0xA2, 0x41], vec![0xA2, 0x42]);
    assert!(!s.is_active());
    assert_eq!(s.key_event(0xA2, true), None);
    assert_eq!(s.key_event(0x41, true), Some(Change::Activated));
    assert!(s.is_active());
    assert_eq!(s.key_event(0x41, false), None);
    // an extra key held: not exactly the end hotkey
    assert_eq!(s.key_event(0x10, true), None);
    assert_eq!(s.key_event(0x42, true), None);
    assert_eq!(s.key_event(0x10, false), Some(Change::Deactivated));
    assert!(!s.is_active());
}

#[test]
fn switch_start_allows_extra_keys() {
    let mut s = Killswitch::new(vec![0x41], vec![0x42]);
    assert_eq!(s.key_event(0x20, true), None);
    assert_eq!(s.key_event(0x41, true), Some(Change::Activated));
}

#[test]
fn switch_releases_never_unlock_without_end() {
    let mut s = Killswitch::new(vec![0x41], vec![0x42]);
    assert_eq!(s.key_event(0x41, true), Some(Change::Activated));
    for k in [0x41usize, 0x43, 0x44] {
        assert_eq!(s.key_event(k, true), None);
        assert_eq!(s.key_event(k, false), None);
    }
    assert!(s.is_active());
    assert_eq!(s.key_event(0x42, true), Some(Change::Deactivated));
}

#[test]
fn switch_with_same_hotkeys_toggles_on_each_full_press() {
    let mut s = Killswitch::new(vec![0x41], vec![0x41]);
    assert_eq!(s.key_event(0x41, true), Some(Change::Activated));
    // key repeat while held: exactly the end hotkey is held
    assert_eq!(s.key_event(0x41, true), Some(Change::Deactivated));
    assert_eq!(s.key_event(0x41, false), None);
}
