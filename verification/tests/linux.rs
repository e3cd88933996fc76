use clkmonoff::linux::{
    app_path, clear_outcome, hex_string, is_media_player, join_path, load_accepted, media_players,
    module_params, module_paths, source_hash, str_codes, switch_engaged, ClearOutcome,
};
use clkmonoff::text::split_by;

#[test]
fn str_codes_joins_decimal_codes() {
    assert_eq!(str_codes(vec![1, 28, 53]), "1,28,53");
    assert_eq!(str_codes(vec![]), "");
    assert_eq!(str_codes(vec![0]), "0");
    assert_eq!(str_codes(vec![65535, 10, 100]), "65535,10,100");
}

#[test]
fn str_codes_splits_back_into_codes() {
    let v: Vec<u16> = vec![7, 0, 1234, 90];
    let parts = split_by(&str_codes(v.clone()), ',');
    let expect: Vec<String> = v.iter().map(|c| c.to_string()).collect();
    assert_eq!(parts, expect);
}

#[test]
fn module_params_line() {
    assert_eq!(module_params(vec![29, 30], vec![29, 48]), "keys_on=\"29,30\" keys_off=\"29,48\"");
}

#[test]
fn join_path_like_pathbuf() {
    assert_eq!(join_path("/home/u", ".config"), "/home/u/.config");
    assert_eq!(join_path("/home/u/", ".config"), "/home/u/.config");
    assert_eq!(join_path("", ".config"), ".config");
    assert_eq!(join_path("/a", "/b"), "/b");
    for (b, p) in [("/x/y", "z"), ("rel", "q"), ("/", "k"), ("a//", "b")] {
        let expect = std::path::PathBuf::from(b).join(p);
        assert_eq!(join_path(b, p), expect.to_str().unwrap());
    }
}

#[test]
fn app_path_choices() {
    assert_eq!(app_path(Some("bob".into()), Some("/root".into()), None), "/home/bob/.config/clkmonoff");
    assert_eq!(app_path(None, Some("/home/al".into()), None), "/home/al/.config/clkmonoff");
    assert_eq!(app_path(None, None, None), "/root/.config/clkmonoff");
    assert_eq!(app_path(Some("bob".into()), None, Some("/cfg".into())), "/cfg/clkmonoff");
    assert_eq!(app_path(None, None, Some("/cfg/".into())), "/cfg/clkmonoff");
}

#[test]
fn module_paths_layout() {
    let p = module_paths("/home/u/.config/clkmonoff", "6.8.0-45-generic\n", "abc123");
    assert_eq!(p.dir, "/home/u/.config/clkmonoff/kmod/6.8.0-45-generic-abc123");
    assert_eq!(p.module_file, "/home/u/.config/clkmonoff/kmod/6.8.0-45-generic-abc123/clk_linux_km.ko");
    assert_eq!(p.build_dir, "/home/u/.config/clkmonoff/kmod/6.8.0-45-generic-abc123/build");
}

#[test]
fn load_and_clear_outcomes() {
    assert!(load_accepted(true, false, false));
    assert!(load_accepted(false, true, true));
    assert!(!load_accepted(false, true, false));
    assert!(!load_accepted(false, false, true));
    assert_eq!(clear_outcome(true, false), ClearOutcome::Cleared);
    assert_eq!(clear_outcome(false, true), ClearOutcome::AlreadyClean);
    assert_eq!(clear_outcome(false, false), ClearOutcome::Failed);
}

#[test]
fn device_byte_engages() {
    assert!(switch_engaged(1));
    assert!(switch_engaged(255));
    assert!(!switch_engaged(0));
}

#[test]
fn media_players_are_mpris_names() {
    assert!(is_media_player("org.mpris.MediaPlayer2.vlc"));
    assert!(is_media_player("org.mpris.MediaPlayer2."));
    assert!(!is_media_player("org.mpris.MediaPlayer2"));
    assert!(!is_media_player("org.freedesktop.DBus"));
    let names = vec![
        "org.freedesktop.DBus".to_string(),
        "org.mpris.MediaPlayer2.spotify".to_string(),
        ":1.42".to_string(),
        "org.mpris.MediaPlayer2.firefox.instance_1_2".to_string(),
    ];
    assert_eq!(
        media_players(names),
        vec!["org.mpris.MediaPlayer2.spotify".to_string(), "org.mpris.MediaPlayer2.firefox.instance_1_2".to_string()]
    );
}

#[test]
fn hex_and_source_hash() {
    assert_eq!(hex_string(&[0x00, 0x0f, 0xa0, 0xff]), "000fa0ff");
    assert_eq!(hex_string(&[]), "");
    assert_eq!(source_hash(b"abc"), "ba7816bf8f01cfea414140de5dae2223b00361a396177a9cb410ff61f20015ad");
    assert_eq!(source_hash(b""), "e3b0c44298fc1c149afbf4c8996fb92427ae41e4649b934ca495991b7852b855");
}
