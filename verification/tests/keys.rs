use clkmonoff::cli::{plan, Command};
use clkmonoff::keys::{kcodes, keymap, unknown_key, Platform};
use clkmonoff::text::{split_by, trim};

#[test]
fn keymap_gives_platform_codes() {
    let win = keymap(Platform::Windows);
    let linux = keymap(Platform::Linux);
    let mac = keymap(Platform::MacOs);
    assert_eq!(win.get("esc"), Some(0x1B));
    assert_eq!(linux.get("esc"), Some(1));
    assert_eq!(mac.get("esc"), Some(53));
    assert_eq!(win.get("escape"), Some(0x1B));
    assert_eq!(win.get("a"), Some(0x41));
    assert_eq!(linux.get("a"), Some(30));
    assert_eq!(mac.get("a"), Some(0));
    assert_eq!(win.get("prsc"), Some(0x2C));
    assert_eq!(linux.get("f24"), Some(194));
    assert_eq!(mac.get("n."), Some(65));
}

#[test]
fn keymap_misses_unknown_and_uppercase_names() {
    let win = keymap(Platform::Windows);
    assert_eq!(win.get("Esc"), None);
    assert_eq!(win.get("foo"), None);
    assert_eq!(win.get(""), None);
}

#[test]
fn keymap_codes_fit_key_space() {
    let names = [
        "escape", "enter", "tab", "backspace", "space", "insert", "delete", "home", "end", "pageup",
        "pagedown", "arrowleft", "arrowup", "arrowright", "arrowdown", "num*", "f13", "f24", "capslock",
        "numlock", "scrolllock", "pausebreak", "apps", "sleep", "mediaplaystop", "volumemute",
        "browserhome", "lalt", "rctrl", "shift", "rwin", "printscreen",
    ];
    for p in [Platform::Windows, Platform::Linux, Platform::MacOs] {
        let m = keymap(p);
        for n in names {
            let c = m.get(n).unwrap();
            assert!(c < 256, "{} on {:?}", n, p);
        }
    }
}

#[test]
fn kcodes_parses_comma_list() {
    let win = keymap(Platform::Windows);
    assert_eq!(unknown_key(&win, "Esc,Enter,0,w"), None);
    assert_eq!(kcodes(&win, "Esc,Enter,0,w"), vec![0x1B, 0x0D, 0x30, 0x57]);
    let linux = keymap(Platform::Linux);
    assert_eq!(kcodes(&linux, "Esc,Enter,0,w"), vec![1, 28, 11, 17]);
}

#[test]
fn kcodes_is_case_insensitive() {
    let win = keymap(Platform::Windows);
    let a = kcodes(&win, "esc");
    assert_eq!(a, vec![0x1B]);
    assert_eq!(kcodes(&win, "Esc"), a);
    assert_eq!(kcodes(&win, "ESC"), a);
    assert_eq!(kcodes(&win, "LeftCtrl,PgUp"), kcodes(&win, "leftctrl,pgup"));
    for s in ["Esc,Enter,0,w", "LeftCtrl,PgUp,F13", "n+,NUM*,VolUp"] {
        let up = s.to_ascii_uppercase();
        let lo = s.to_ascii_lowercase();
        assert_eq!(unknown_key(&win, &up), None);
        assert_eq!(unknown_key(&win, &lo), None);
        assert_eq!(kcodes(&win, &up), kcodes(&win, s));
        assert_eq!(kcodes(&win, &lo), kcodes(&win, s));
    }
    assert!(unknown_key(&win, "FOO").is_some());
    assert!(unknown_key(&win, "foo").is_some());
}

#[test]
fn kcodes_trims_each_piece() {
    let win = keymap(Platform::Windows);
    assert_eq!(kcodes(&win, " esc , enter\t"), vec![0x1B, 0x0D]);
    assert_eq!(kcodes(&win, "\u{00A0}esc\u{3000}"), vec![0x1B]);
}

#[test]
fn kcodes_lowercases_by_unicode() {
    let win = keymap(Platform::Windows);
    // KELVIN SIGN lower-cases to an ASCII 'k'.
    assert_eq!(unknown_key(&win, "\u{212A}"), None);
    assert_eq!(kcodes(&win, "\u{212A}"), vec![0x4B]);
}

#[test]
fn kcodes_reports_first_unknown_piece() {
    let win = keymap(Platform::Windows);
    assert_eq!(unknown_key(&win, "foo"), Some("foo".to_string()));
    assert_eq!(unknown_key(&win, "esc,Foo,bar"), Some("Foo".to_string()));
    assert_eq!(unknown_key(&win, "esc,,enter"), Some("".to_string()));
    assert_eq!(unknown_key(&win, ""), Some("".to_string()));
    assert_eq!(unknown_key(&win, "esc,"), Some("".to_string()));
    assert_eq!(unknown_key(&win, "esc;enter"), Some("esc;enter".to_string()));
    assert_eq!(unknown_key(&win, "esc enter"), Some("esc enter".to_string()));
}

#[test]
fn split_by_keeps_empty_pieces() {
    assert_eq!(split_by("a,b", ','), vec!["a".to_string(), "b".to_string()]);
    assert_eq!(split_by("", ','), vec!["".to_string()]);
    assert_eq!(split_by(",", ','), vec!["".to_string(), "".to_string()]);
    assert_eq!(split_by("a,,b,", ','), vec!["a".to_string(), "".to_string(), "b".to_string(), "".to_string()]);
}

#[test]
fn split_then_join_gives_text_back() {
    for s in ["", ",", "a,b", "esc,,enter,", "x"] {
        assert_eq!(split_by(s, ',').join(","), s);
    }
}

#[test]
fn trim_removes_unicode_white_space() {
    assert_eq!(trim("  a b \n"), "a b");
    assert_eq!(trim("\u{2003}x\u{00A0}"), "x");
    assert_eq!(trim("   "), "");
    assert_eq!(trim(""), "");
    assert_eq!(trim("a"), "a");
}

#[test]
fn plan_follows_command_line() {
    assert!(matches!(plan(Platform::Windows, true, None, None), Command::Clear));
    assert!(matches!(plan(Platform::Windows, true, Some("esc".into()), Some("foo".into())), Command::Clear));
    assert!(matches!(plan(Platform::Windows, false, Some("esc".into()), None), Command::Invalid));
    assert!(matches!(plan(Platform::Windows, false, None, None), Command::Invalid));
    match plan(Platform::Linux, false, Some("ctrl,a".into()), Some("ctrl,b".into())) {
        Command::Run { start, end } => {
            assert_eq!(start, vec![29, 30]);
            assert_eq!(end, vec![29, 48]);
        }
        _ => panic!("expected a run"),
    }
    match plan(Platform::Windows, false, Some("nope".into()), Some("zap".into())) {
        Command::UnknownKey(k) => assert_eq!(k, "nope"),
        _ => panic!("expected the start hotkey's piece"),
    }
    match plan(Platform::Windows, false, Some("esc".into()), Some("esc,zap".into())) {
        Command::UnknownKey(k) => assert_eq!(k, "zap"),
        _ => panic!("expected the end hotkey's piece"),
    }
}
