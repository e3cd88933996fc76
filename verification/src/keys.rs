//! Key names, the key codes they stand for on each platform, and the parsing of
//! a hotkey given as comma-separated key names.
use vstd::prelude::*;
use crate::text::{
    ascii_lower, ascii_upper, lemma_ascii_case_char, lemma_ascii_case_comma, lemma_split_ascii,
    lemma_split_map, lowercase, split_by, split_on, string_views, trim, trimmed,
};
use vstd::utf8::is_ascii_chars;

verus! {

broadcast use vstd::string::group_string_axioms;

/// Every key code of the table fits in a bitmap of this many keys.
pub const KEY_SPACE: usize = 256;

/// The operating system whose key codes a key map holds.
#[derive(Clone, Copy, Debug, PartialEq, Eq, Structural)]
pub enum Platform {
    Windows,
    MacOs,
    Linux,
}

/// The code of a key on a platform, given its Windows virtual-key code, its Linux
/// input-event code and its macOS key code.
pub open spec fn code_for(p: Platform, win: u16, linux: u16, mac: u16) -> u16 {
    match p {
        Platform::Windows => win,
        Platform::MacOs => mac,
        Platform::Linux => linux,
    }
}

/// One row of the key table: every name in `names` stands for the same key.
pub open spec fn row(p: Platform, win: u16, linux: u16, mac: u16, names: &[&str]) -> Seq<(Seq<char>, u16)> {
    named(code_for(p, win, linux, mac), names@)
}

/// Each of `names` paired with `code`.
pub open spec fn named(code: u16, names: Seq<&str>) -> Seq<(Seq<char>, u16)> {
    names.map_values(|n: &str| (n@, code))
}

/// The key table, row by row, as (name, code) entries for platform `p`.
pub open spec fn key_entries(p: Platform) -> Seq<(Seq<char>, u16)> {
    Seq::empty()
        + row(p, 0x1B, 1, 53, &["escape", "esc"])
        + row(p, 0x0D, 28, 36, &["enter"])
        + row(p, 0x09, 15, 48, &["tab"])
        + row(p, 0x08, 14, 51, &["backspace"])
        + row(p, 0x20, 57, 49, &["space"])
        + row(p, 0x2D, 110, 114, &["insert", "ins"])
        + row(p, 0x2E, 111, 117, &["delete", "del"])
        + row(p, 0x24, 102, 115, &["home", "hm", "hom"])
        + row(p, 0x23, 107, 119, &["end"])
        + row(p, 0x21, 104, 116, &["pageup", "pgup", "pgu"])
        + row(p, 0x22, 109, 121, &["pagedown", "pgdw", "pgd", "pgdwnn"])
        + row(p, 0x25, 105, 123, &["arrowleft", "leftarrow", "larrow"])
        + row(p, 0x26, 103, 126, &["arrowup", "uparrow", "uarrow"])
        + row(p, 0x27, 106, 124, &["arrowright", "rightarrow", "rarrow"])
        + row(p, 0x28, 108, 125, &["arrowdown", "downarrow", "darrow"])
        + row(p, 0x41, 30, 0, &["a"])
        + row(p, 0x42, 48, 11, &["b"])
        + row(p, 0x43, 46, 8, &["c"])
        + row(p, 0x44, 32, 2, &["d"])
        + row(p, 0x45, 18, 14, &["e"])
        + row(p, 0x46, 33, 3, &["f"])
        + row(p, 0x47, 34, 5, &["g"])
        + row(p, 0x48, 35, 4, &["h"])
        + row(p, 0x49, 23, 34, &["i"])
        + row(p, 0x4A, 36, 38, &["j"])
        + row(p, 0x4B, 37, 40, &["k"])
        + row(p, 0x4C, 38, 37, &["l"])
        + row(p, 0x4D, 50, 46, &["m"])
        + row(p, 0x4E, 49, 45, &["n"])
        + row(p, 0x4F, 24, 31, &["o"])
        + row(p, 0x50, 25, 35, &["p"])
        + row(p, 0x51, 16, 12, &["q"])
        + row(p, 0x52, 19, 15, &["r"])
        + row(p, 0x53, 31, 1, &["s"])
        + row(p, 0x54, 20, 17, &["t"])
        + row(p, 0x55, 22, 32, &["u"])
        + row(p, 0x56, 47, 9, &["v"])
        + row(p, 0x57, 17, 13, &["w"])
        + row(p, 0x58, 45, 7, &["x"])
        + row(p, 0x59, 21, 16, &["y"])
        + row(p, 0x5A, 44, 6, &["z"])
        + row(p, 0x30, 11, 29, &["d0", "0"])
        + row(p, 0x31, 2, 18, &["d1", "1"])
        + row(p, 0x32, 3, 19, &["d2", "2"])
        + row(p, 0x33, 4, 20, &["d3", "3"])
        + row(p, 0x34, 5, 21, &["d4", "4"])
        + row(p, 0x35, 6, 23, &["d5", "5"])
        + row(p, 0x36, 7, 22, &["d6", "6"])
        + row(p, 0x37, 8, 26, &["d7", "7"])
        + row(p, 0x38, 9, 28, &["d8", "8"])
        + row(p, 0x39, 10, 25, &["d9", "9"])
        + row(p, 0x60, 82, 82, &["num0", "n0"])
        + row(p, 0x61, 79, 83, &["num1", "n1"])
        + row(p, 0x62, 80, 84, &["num2", "n2"])
        + row(p, 0x63, 81, 85, &["num3", "n3"])
        + row(p, 0x64, 75, 86, &["num4", "n4"])
        + row(p, 0x65, 76, 87, &["num5", "n5"])
        + row(p, 0x66, 77, 88, &["num6", "n6"])
        + row(p, 0x67, 71, 89, &["num7", "n7"])
        + row(p, 0x68, 72, 91, &["num8", "n8"])
        + row(p, 0x69, 73, 92, &["num9", "n9"])
        + row(p, 0x6A, 55, 67, &["nummultiply", "nmultiply", "nummul", "nmul", "num*", "n*"])
        + row(p, 0x6B, 78, 69, &["numadd", "nadd", "num+", "n+"])
        + row(p, 0x6D, 74, 78, &["numsubtract", "nsubtract", "numsub", "nsub", "num-", "n-"])
        + row(p, 0x6F, 53, 75, &["numdivide", "ndivide", "numdiv", "ndiv", "num/", "n/"])
        + row(p, 0x6E, 83, 65, &["numdecimal", "ndecimal", "numdec", "ndec", "numdelete", "ndelete", "numdel", "ndel", "numdot", "ndot", "num.", "n."])
        + row(p, 0x70, 59, 122, &["f1"])
        + row(p, 0x71, 60, 120, &["f2"])
        + row(p, 0x72, 61, 99, &["f3"])
        + row(p, 0x73, 62, 118, &["f4"])
        + row(p, 0x74, 63, 96, &["f5"])
        + row(p, 0x75, 64, 97, &["f6"])
        + row(p, 0x76, 65, 98, &["f7"])
        + row(p, 0x77, 66, 100, &["f8"])
        + row(p, 0x78, 67, 101, &["f9"])
        + row(p, 0x79, 68, 109, &["f10"])
        + row(p, 0x7A, 87, 103, &["f11"])
        + row(p, 0x7B, 88, 111, &["f12"])
        + row(p, 0x7C, 183, 104, &["f13"])
        + row(p, 0x7D, 184, 105, &["f14"])
        + row(p, 0x7E, 185, 106, &["f15"])
        + row(p, 0x7F, 186, 107, &["f16"])
        + row(p, 0x80, 187, 108, &["f17"])
        + row(p, 0x81, 188, 110, &["f18"])
        + row(p, 0x82, 189, 112, &["f19"])
        + row(p, 0x83, 190, 113, &["f20"])
        + row(p, 0x84, 191, 102, &["f21"])
        + row(p, 0x85, 192, 121, &["f22"])
        + row(p, 0x86, 193, 122, &["f23"])
        + row(p, 0x87, 194, 123, &["f24"])
        + row(p, 0x14, 58, 57, &["capslock", "caps", "cl"])
        + row(p, 0x90, 69, 71, &["numlock", "num", "nl"])
        + row(p, 0x91, 70, 72, &["scrolllock", "scroll", "scrl", "sl"])
        + row(p, 0x13, 119, 117, &["pausebreak", "pause", "pb", "pauseb", "pbreak", "break"])
        + row(p, 0x5D, 135, 110, &["apps"])
        + row(p, 0x5F, 142, 142, &["sleep"])
        + row(p, 0xB3, 164, 163, &["mediaplaystop"])
        + row(p, 0xB2, 165, 165, &["mediastop"])
        + row(p, 0xB0, 163, 171, &["medianext"])
        + row(p, 0xB1, 166, 172, &["mediaprevious", "mediaprev"])
        + row(p, 0xAF, 123, 126, &["volumeup", "volup", "vup"])
        + row(p, 0xAE, 122, 125, &["volumedown", "voldown", "vdown", "volumed", "vold", "vd", "volumedw", "voldw", "vdw"])
        + row(p, 0xAD, 121, 127, &["volumemute", "volmute", "vmute"])
        + row(p, 0xA6, 166, 178, &["browserback"])
        + row(p, 0xA7, 167, 179, &["browserforward"])
        + row(p, 0xA8, 168, 177, &["browserrefresh"])
        + row(p, 0xAC, 178, 174, &["browserhome"])
        + row(p, 0xA4, 56, 61, &["leftalt", "lalt", "alt"])
        + row(p, 0xA5, 100, 61, &["rightalt", "ralt"])
        + row(p, 0xA2, 29, 59, &["leftcontrol", "lcontrol", "control", "leftctrl", "lctrl", "ctrl"])
        + row(p, 0xA3, 97, 59, &["rightcontrol", "rcontrol", "rightctrl", "rctrl"])
        + row(p, 0xA0, 42, 60, &["leftshift", "lshift", "shift"])
        + row(p, 0xA1, 54, 60, &["rightshift", "rshift"])
        + row(p, 0x5B, 125, 55, &["leftmeta", "lmeta", "meta", "leftwin", "lwin", "win"])
        + row(p, 0x5C, 126, 55, &["rightmeta", "rmeta", "rightwin", "rwin"])
        + row(p, 0x2C, 107, 105, &["printscreen", "prtsc", "prscrn", "prtscr", "prsc"])
}

/// The map that inserting the entries in order builds: a later entry replaces an
/// earlier one of the same name.
pub open spec fn entries_map(es: Seq<(Seq<char>, u16)>) -> Map<Seq<char>, u16>
    decreases es.len(),
{
    if es.len() == 0 {
        Map::empty()
    } else {
        entries_map(es.drop_last()).insert(es.last().0, es.last().1)
    }
}

/// What a map holds for `k`, if anything.
pub open spec fn lookup(m: Map<Seq<char>, u16>, k: Seq<char>) -> Option<u16> {
    if m.dom().contains(k) {
        Some(m[k])
    } else {
        None
    }
}

/// Key names and their codes on one platform.
pub struct KeyMap {
    entries: Vec<(String, u16)>,
}

impl KeyMap {
    /// The entries as (name, code) pairs, in insertion order.
    pub closed spec fn entries_view(&self) -> Seq<(Seq<char>, u16)> {
        self.entries@.map_values(|e: (String, u16)| (e.0@, e.1))
    }

    /// Every code is below `KEY_SPACE`.
    pub closed spec fn wf(&self) -> bool {
        forall|i: int| 0 <= i < self.entries@.len() ==> (#[trigger] self.entries@[i]).1 < KEY_SPACE
    }
}

impl View for KeyMap {
    type V = Map<Seq<char>, u16>;

    closed spec fn view(&self) -> Map<Seq<char>, u16> {
        entries_map(self.entries_view())
    }
}

/// Every code of a map is below `bound`.
pub open spec fn codes_below(m: Map<Seq<char>, u16>, bound: int) -> bool {
    forall|k: Seq<char>| #[trigger] m.dom().contains(k) ==> m[k] < bound
}

proof fn lemma_entries_map_bound(es: Seq<(Seq<char>, u16)>, bound: int)
    requires
        forall|i: int| 0 <= i < es.len() ==> (#[trigger] es[i]).1 < bound,
    ensures
        codes_below(entries_map(es), bound),
    decreases es.len(),
{
    if es.len() > 0 {
        let init = es.drop_last();
        assert forall|i: int| 0 <= i < init.len() implies (#[trigger] init[i]).1 < bound by {
            assert(init[i] == es[i]);
        }
        lemma_entries_map_bound(init, bound);
        assert(es.last() == es[es.len() - 1]);
    }
}

/// No entry at or after `i` has name `k`, so the map holds for `k` what the
/// first `i` entries give it.
proof fn lemma_entries_map_prefix(es: Seq<(Seq<char>, u16)>, i: int, k: Seq<char>)
    requires
        0 <= i <= es.len(),
        forall|j: int| i <= j < es.len() ==> (#[trigger] es[j]).0 != k,
    ensures
        lookup(entries_map(es), k) == lookup(entries_map(es.take(i)), k),
    decreases es.len() - i,
{
    if i == es.len() {
        assert(es.take(i) =~= es);
    } else {
        let init = es.drop_last();
        assert forall|j: int| i <= j < init.len() implies (#[trigger] init[j]).0 != k by {
            assert(init[j] == es[j]);
        }
        lemma_entries_map_prefix(init, i, k);
        assert(init.take(i) =~= es.take(i));
        assert(es.last() == es[es.len() - 1]);
    }
}

impl KeyMap {
    /// The code of key `name`, if the map has it (as `HashMap::get`).
    pub fn get(&self, name: &str) -> (r: Option<u16>)
        ensures
            r == lookup(self@, name@),
    {
        let key = name.to_owned();
        self.get_string(&key)
    }

    fn get_string(&self, key: &String) -> (r: Option<u16>)
        ensures
            r == lookup(self@, key@),
    {
        let ghost es = self.entries_view();
        let mut i = self.entries.len();
        while i > 0
            invariant
                i <= self.entries@.len() == es.len(),
                es == self.entries_view(),
                forall|j: int| i <= j < es.len() ==> (#[trigger] es[j]).0 != key@,
            decreases i,
        {
            i -= 1;
            if self.entries[i].0 == *key {
                proof {
                    lemma_entries_map_prefix(es, i + 1, key@);
                    assert(es.take(i + 1).drop_last() =~= es.take(i as int));
                    assert(es.take(i + 1).last() == es[i as int]);
                }
                return Some(self.entries[i].1);
            }
        }
        proof {
            lemma_entries_map_prefix(es, 0, key@);
        }
        None
    }
}

/// Adds one row of the table: each of `names` stands for the key whose codes
/// are `win`, `linux` and `mac`.
fn add_keys(m: &mut KeyMap, platform: Platform, win: u16, linux: u16, mac: u16, names: &[&str])
    requires
        old(m).wf(),
        win < KEY_SPACE,
        linux < KEY_SPACE,
        mac < KEY_SPACE,
    ensures
        final(m).wf(),
        final(m).entries_view() == old(m).entries_view() + row(platform, win, linux, mac, names),
{
    let k = match platform {
        Platform::Windows => win,
        Platform::MacOs => mac,
        Platform::Linux => linux,
    };
    let ghost start = m.entries_view();
    let mut i: usize = 0;
    while i < names.len()
        invariant
            i <= names@.len(),
            k == code_for(platform, win, linux, mac),
            k < KEY_SPACE,
            m.wf(),
            m.entries_view() == start + named(k, names@.take(i as int)),
        decreases names@.len() - i,
    {
        let ghost before = m.entries_view();
        m.entries.push((names[i].to_owned(), k));
        proof {
            assert(names@.take(i + 1) =~= names@.take(i as int).push(names@[i as int]));
            assert(m.entries_view() =~= before.push((names@[i as int]@, k)));
            assert(named(k, names@.take(i + 1)) =~= named(k, names@.take(i as int)).push(
                (names@[i as int]@, k),
            ));
            assert(m.entries_view() =~= start + named(k, names@.take(i + 1)));
        }
        i += 1;
    }
    assert(names@.take(names@.len() as int) =~= names@);
}

/// The key map of `platform`: every key name of the table with its code there.
/// Every code fits in a bitmap of `KEY_SPACE` keys.
#[verifier::rlimit(80)]
#[verifier::spinoff_prover]
pub fn keymap(platform: Platform) -> (m: KeyMap)
    ensures
        m@ == entries_map(key_entries(platform)),
        codes_below(m@, KEY_SPACE as int),
{
    let mut m = KeyMap { entries: Vec::new() };
    assert(m.entries_view() =~= Seq::empty());
    add_keys(&mut m, platform, 0x1B, 1, 53, &["escape", "esc"]);
    add_keys(&mut m, platform, 0x0D, 28, 36, &["enter"]);
    add_keys(&mut m, platform, 0x09, 15, 48, &["tab"]);
    add_keys(&mut m, platform, 0x08, 14, 51, &["backspace"]);
    add_keys(&mut m, platform, 0x20, 57, 49, &["space"]);
    add_keys(&mut m, platform, 0x2D, 110, 114, &["insert", "ins"]);
    add_keys(&mut m, platform, 0x2E, 111, 117, &["delete", "del"]);
    add_keys(&mut m, platform, 0x24, 102, 115, &["home", "hm", "hom"]);
    add_keys(&mut m, platform, 0x23, 107, 119, &["end"]);
    add_keys(&mut m, platform, 0x21, 104, 116, &["pageup", "pgup", "pgu"]);
    add_keys(&mut m, platform, 0x22, 109, 121, &["pagedown", "pgdw", "pgd", "pgdwnn"]);
    add_keys(&mut m, platform, 0x25, 105, 123, &["arrowleft", "leftarrow", "larrow"]);
    add_keys(&mut m, platform, 0x26, 103, 126, &["arrowup", "uparrow", "uarrow"]);
    add_keys(&mut m, platform, 0x27, 106, 124, &["arrowright", "rightarrow", "rarrow"]);
    add_keys(&mut m, platform, 0x28, 108, 125, &["arrowdown", "downarrow", "darrow"]);
    add_keys(&mut m, platform, 0x41, 30, 0, &["a"]);
    add_keys(&mut m, platform, 0x42, 48, 11, &["b"]);
    add_keys(&mut m, platform, 0x43, 46, 8, &["c"]);
    add_keys(&mut m, platform, 0x44, 32, 2, &["d"]);
    add_keys(&mut m, platform, 0x45, 18, 14, &["e"]);
    add_keys(&mut m, platform, 0x46, 33, 3, &["f"]);
    add_keys(&mut m, platform, 0x47, 34, 5, &["g"]);
    add_keys(&mut m, platform, 0x48, 35, 4, &["h"]);
    add_keys(&mut m, platform, 0x49, 23, 34, &["i"]);
    add_keys(&mut m, platform, 0x4A, 36, 38, &["j"]);
    add_keys(&mut m, platform, 0x4B, 37, 40, &["k"]);
    add_keys(&mut m, platform, 0x4C, 38, 37, &["l"]);
    add_keys(&mut m, platform, 0x4D, 50, 46, &["m"]);
    add_keys(&mut m, platform, 0x4E, 49, 45, &["n"]);
    add_keys(&mut m, platform, 0x4F, 24, 31, &["o"]);
    add_keys(&mut m, platform, 0x50, 25, 35, &["p"]);
    add_keys(&mut m, platform, 0x51, 16, 12, &["q"]);
    add_keys(&mut m, platform, 0x52, 19, 15, &["r"]);
    add_keys(&mut m, platform, 0x53, 31, 1, &["s"]);
    add_keys(&mut m, platform, 0x54, 20, 17, &["t"]);
    add_keys(&mut m, platform, 0x55, 22, 32, &["u"]);
    add_keys(&mut m, platform, 0x56, 47, 9, &["v"]);
    add_keys(&mut m, platform, 0x57, 17, 13, &["w"]);
    add_keys(&mut m, platform, 0x58, 45, 7, &["x"]);
    add_keys(&mut m, platform, 0x59, 21, 16, &["y"]);
    add_keys(&mut m, platform, 0x5A, 44, 6, &["z"]);
    add_keys(&mut m, platform, 0x30, 11, 29, &["d0", "0"]);
    add_keys(&mut m, platform, 0x31, 2, 18, &["d1", "1"]);
    add_keys(&mut m, platform, 0x32, 3, 19, &["d2", "2"]);
    add_keys(&mut m, platform, 0x33, 4, 20, &["d3", "3"]);
    add_keys(&mut m, platform, 0x34, 5, 21, &["d4", "4"]);
    add_keys(&mut m, platform, 0x35, 6, 23, &["d5", "5"]);
    add_keys(&mut m, platform, 0x36, 7, 22, &["d6", "6"]);
    add_keys(&mut m, platform, 0x37, 8, 26, &["d7", "7"]);
    add_keys(&mut m, platform, 0x38, 9, 28, &["d8", "8"]);
    add_keys(&mut m, platform, 0x39, 10, 25, &["d9", "9"]);
    add_keys(&mut m, platform, 0x60, 82, 82, &["num0", "n0"]);
    add_keys(&mut m, platform, 0x61, 79, 83, &["num1", "n1"]);
    add_keys(&mut m, platform, 0x62, 80, 84, &["num2", "n2"]);
    add_keys(&mut m, platform, 0x63, 81, 85, &["num3", "n3"]);
    add_keys(&mut m, platform, 0x64, 75, 86, &["num4", "n4"]);
    add_keys(&mut m, platform, 0x65, 76, 87, &["num5", "n5"]);
    add_keys(&mut m, platform, 0x66, 77, 88, &["num6", "n6"]);
    add_keys(&mut m, platform, 0x67, 71, 89, &["num7", "n7"]);
    add_keys(&mut m, platform, 0x68, 72, 91, &["num8", "n8"]);
    add_keys(&mut m, platform, 0x69, 73, 92, &["num9", "n9"]);
    add_keys(&mut m, platform, 0x6A, 55, 67, &["nummultiply", "nmultiply", "nummul", "nmul", "num*", "n*"]);
    add_keys(&mut m, platform, 0x6B, 78, 69, &["numadd", "nadd", "num+", "n+"]);
    add_keys(&mut m, platform, 0x6D, 74, 78, &["numsubtract", "nsubtract", "numsub", "nsub", "num-", "n-"]);
    add_keys(&mut m, platform, 0x6F, 53, 75, &["numdivide", "ndivide", "numdiv", "ndiv", "num/", "n/"]);
    add_keys(&mut m, platform, 0x6E, 83, 65, &["numdecimal", "ndecimal", "numdec", "ndec", "numdelete", "ndelete", "numdel", "ndel", "numdot", "ndot", "num.", "n."]);
    add_keys(&mut m, platform, 0x70, 59, 122, &["f1"]);
    add_keys(&mut m, platform, 0x71, 60, 120, &["f2"]);
    add_keys(&mut m, platform, 0x72, 61, 99, &["f3"]);
    add_keys(&mut m, platform, 0x73, 62, 118, &["f4"]);
    add_keys(&mut m, platform, 0x74, 63, 96, &["f5"]);
    add_keys(&mut m, platform, 0x75, 64, 97, &["f6"]);
    add_keys(&mut m, platform, 0x76, 65, 98, &["f7"]);
    add_keys(&mut m, platform, 0x77, 66, 100, &["f8"]);
    add_keys(&mut m, platform, 0x78, 67, 101, &["f9"]);
    add_keys(&mut m, platform, 0x79, 68, 109, &["f10"]);
    add_keys(&mut m, platform, 0x7A, 87, 103, &["f11"]);
    add_keys(&mut m, platform, 0x7B, 88, 111, &["f12"]);
    add_keys(&mut m, platform, 0x7C, 183, 104, &["f13"]);
    add_keys(&mut m, platform, 0x7D, 184, 105, &["f14"]);
    add_keys(&mut m, platform, 0x7E, 185, 106, &["f15"]);
    add_keys(&mut m, platform, 0x7F, 186, 107, &["f16"]);
    add_keys(&mut m, platform, 0x80, 187, 108, &["f17"]);
    add_keys(&mut m, platform, 0x81, 188, 110, &["f18"]);
    add_keys(&mut m, platform, 0x82, 189, 112, &["f19"]);
    add_keys(&mut m, platform, 0x83, 190, 113, &["f20"]);
    add_keys(&mut m, platform, 0x84, 191, 102, &["f21"]);
    add_keys(&mut m, platform, 0x85, 192, 121, &["f22"]);
    add_keys(&mut m, platform, 0x86, 193, 122, &["f23"]);
    add_keys(&mut m, platform, 0x87, 194, 123, &["f24"]);
    add_keys(&mut m, platform, 0x14, 58, 57, &["capslock", "caps", "cl"]);
    add_keys(&mut m, platform, 0x90, 69, 71, &["numlock", "num", "nl"]);
    add_keys(&mut m, platform, 0x91, 70, 72, &["scrolllock", "scroll", "scrl", "sl"]);
    add_keys(&mut m, platform, 0x13, 119, 117, &["pausebreak", "pause", "pb", "pauseb", "pbreak", "break"]);
    add_keys(&mut m, platform, 0x5D, 135, 110, &["apps"]);
    add_keys(&mut m, platform, 0x5F, 142, 142, &["sleep"]);
    add_keys(&mut m, platform, 0xB3, 164, 163, &["mediaplaystop"]);
    add_keys(&mut m, platform, 0xB2, 165, 165, &["mediastop"]);
    add_keys(&mut m, platform, 0xB0, 163, 171, &["medianext"]);
    add_keys(&mut m, platform, 0xB1, 166, 172, &["mediaprevious", "mediaprev"]);
    add_keys(&mut m, platform, 0xAF, 123, 126, &["volumeup", "volup", "vup"]);
    add_keys(&mut m, platform, 0xAE, 122, 125, &["volumedown", "voldown", "vdown", "volumed", "vold", "vd", "volumedw", "voldw", "vdw"]);
    add_keys(&mut m, platform, 0xAD, 121, 127, &["volumemute", "volmute", "vmute"]);
    add_keys(&mut m, platform, 0xA6, 166, 178, &["browserback"]);
    add_keys(&mut m, platform, 0xA7, 167, 179, &["browserforward"]);
    add_keys(&mut m, platform, 0xA8, 168, 177, &["browserrefresh"]);
    add_keys(&mut m, platform, 0xAC, 178, 174, &["browserhome"]);
    add_keys(&mut m, platform, 0xA4, 56, 61, &["leftalt", "lalt", "alt"]);
    add_keys(&mut m, platform, 0xA5, 100, 61, &["rightalt", "ralt"]);
    add_keys(&mut m, platform, 0xA2, 29, 59, &["leftcontrol", "lcontrol", "control", "leftctrl", "lctrl", "ctrl"]);
    add_keys(&mut m, platform, 0xA3, 97, 59, &["rightcontrol", "rcontrol", "rightctrl", "rctrl"]);
    add_keys(&mut m, platform, 0xA0, 42, 60, &["leftshift", "lshift", "shift"]);
    add_keys(&mut m, platform, 0xA1, 54, 60, &["rightshift", "rshift"]);
    add_keys(&mut m, platform, 0x5B, 125, 55, &["leftmeta", "lmeta", "meta", "leftwin", "lwin", "win"]);
    add_keys(&mut m, platform, 0x5C, 126, 55, &["rightmeta", "rmeta", "rightwin", "rwin"]);
    add_keys(&mut m, platform, 0x2C, 107, 105, &["printscreen", "prtsc", "prscrn", "prtscr", "prsc"]);
    proof {
        let es = m.entries_view();
        assert forall|i: int| 0 <= i < es.len() implies (#[trigger] es[i]).1 < KEY_SPACE by {
            assert(es[i].1 == m.entries@[i].1);
        }
        lemma_entries_map_bound(es, KEY_SPACE as int);
    }
    m
}

/// The key name a hotkey piece stands for: the piece lower-cased, then trimmed.
pub open spec fn key_name(piece: Seq<char>) -> Seq<char> {
    trimmed(lowercase(piece))
}

/// The codes of the pieces' key names, in order; or the first piece whose key
/// name the map does not hold.
pub open spec fn codes_of(m: Map<Seq<char>, u16>, pieces: Seq<Seq<char>>) -> Result<Seq<u16>, Seq<char>>
    decreases pieces.len(),
{
    if pieces.len() == 0 {
        Ok(Seq::empty())
    } else {
        match codes_of(m, pieces.drop_last()) {
            Err(e) => Err(e),
            Ok(cs) => match lookup(m, key_name(pieces.last())) {
                Some(c) => Ok(cs.push(c)),
                None => Err(pieces.last()),
            },
        }
    }
}

/// What the hotkey `s` stands for: its comma-separated pieces looked up in `m`.
pub open spec fn hotkey_codes(m: Map<Seq<char>, u16>, s: Seq<char>) -> Result<Seq<u16>, Seq<char>> {
    codes_of(m, split_on(s, ','))
}

/// The codes of a hotkey written as key names delimited by commas, each piece
/// lower-cased and trimmed before it is looked up; or the first piece, as written,
/// that names no key.
fn parse_hotkey(keymap: &KeyMap, s: &str) -> (r: Result<Vec<u16>, String>)
    ensures
        match r {
            Ok(v) => hotkey_codes(keymap@, s@) == Ok::<Seq<u16>, Seq<char>>(v@),
            Err(k) => hotkey_codes(keymap@, s@) == Err::<Seq<u16>, Seq<char>>(k@),
        },
{
    let parts = split_by(s, ',');
    let ghost pieces = string_views(parts@);
    let mut codes: Vec<u16> = Vec::new();
    let mut i: usize = 0;
    while i < parts.len()
        invariant
            i <= parts@.len(),
            pieces == string_views(parts@),
            pieces == split_on(s@, ','),
            codes_of(keymap@, pieces.take(i as int)) == Ok::<Seq<u16>, Seq<char>>(codes@),
        decreases parts@.len() - i,
    {
        let lower = parts[i].as_str().to_lowercase();
        let name = trim(lower.as_str());
        proof {
            assert(pieces.take(i + 1).drop_last() =~= pieces.take(i as int));
            assert(pieces.take(i + 1).last() == parts@[i as int]@);
        }
        match keymap.get_string(&name) {
            Some(c) => {
                codes.push(c);
            },
            None => {
                proof {
                    lemma_codes_of_err_stays(keymap@, pieces, i + 1);
                }
                return Err(parts[i].clone());
            },
        }
        i += 1;
    }
    assert(pieces.take(parts@.len() as int) =~= pieces);
    Ok(codes)
}

/// The key codes of a hotkey written as key names delimited by commas; each piece
/// is lower-cased and trimmed before it is looked up. Every piece must name a key
/// (`unknown_key` tells whether one does not).
pub fn kcodes(keymap: &KeyMap, s: &str) -> (v: Vec<u16>)
    requires
        hotkey_codes(keymap@, s@) is Ok,
    ensures
        hotkey_codes(keymap@, s@) == Ok::<Seq<u16>, Seq<char>>(v@),
{
    match parse_hotkey(keymap, s) {
        Ok(v) => v,
        Err(_) => Vec::new(),
    }
}

/// The first piece of hotkey `s`, as written, that names no key; `None` when every
/// piece names one.
pub fn unknown_key(keymap: &KeyMap, s: &str) -> (r: Option<String>)
    ensures
        match r {
            None => hotkey_codes(keymap@, s@) is Ok,
            Some(k) => hotkey_codes(keymap@, s@) == Err::<Seq<u16>, Seq<char>>(k@),
        },
{
    match parse_hotkey(keymap, s) {
        Ok(_) => None,
        Err(k) => Some(k),
    }
}

/// Once a prefix of the pieces is refused, the whole is refused with the same piece.
proof fn lemma_codes_of_err_stays(m: Map<Seq<char>, u16>, pieces: Seq<Seq<char>>, j: int)
    requires
        0 <= j <= pieces.len(),
        codes_of(m, pieces.take(j)) is Err,
    ensures
        codes_of(m, pieces) == codes_of(m, pieces.take(j)),
    decreases pieces.len() - j,
{
    if j == pieces.len() {
        assert(pieces.take(j) =~= pieces);
    } else {
        assert(pieces.drop_last().take(j) =~= pieces.take(j));
        lemma_codes_of_err_stays(m, pieces.drop_last(), j);
    }
}

/// A hotkey that parses has exactly one code per comma-separated piece, and every
/// code is one the map holds.
pub proof fn lemma_codes_of_ok(m: Map<Seq<char>, u16>, pieces: Seq<Seq<char>>)
    requires
        codes_of(m, pieces) is Ok,
    ensures
        codes_of(m, pieces)->Ok_0.len() == pieces.len(),
        forall|i: int| 0 <= i < pieces.len()
            ==> lookup(m, #[trigger] key_name(pieces[i])) == Some(codes_of(m, pieces)->Ok_0[i]),
    decreases pieces.len(),
{
    if pieces.len() > 0 {
        let init = pieces.drop_last();
        lemma_codes_of_ok(m, init);
        let cs = codes_of(m, pieces)->Ok_0;
        assert forall|i: int| 0 <= i < pieces.len()
            implies lookup(m, #[trigger] key_name(pieces[i])) == Some(cs[i]) by {
            if i < init.len() {
                assert(init[i] == pieces[i]);
            } else {
                assert(pieces.last() == pieces[i]);
            }
        }
    }
}

/// Key names are case-insensitive: two hotkeys whose pieces have the same
/// lower-case forms stand for the same codes, or are both refused.
pub proof fn lemma_case_insensitive(m: Map<Seq<char>, u16>, s: Seq<char>, t: Seq<char>)
    requires
        split_on(s, ',').len() == split_on(t, ',').len(),
        forall|i: int| 0 <= i < split_on(s, ',').len()
            ==> lowercase(#[trigger] split_on(s, ',')[i]) == lowercase(split_on(t, ',')[i]),
    ensures
        hotkey_codes(m, s) is Ok <==> hotkey_codes(m, t) is Ok,
        hotkey_codes(m, s) is Ok ==> hotkey_codes(m, s)->Ok_0 == hotkey_codes(m, t)->Ok_0,
{
    lemma_codes_of_same_names(m, split_on(s, ','), split_on(t, ','));
}

proof fn lemma_codes_of_same_names(m: Map<Seq<char>, u16>, a: Seq<Seq<char>>, b: Seq<Seq<char>>)
    requires
        a.len() == b.len(),
        forall|i: int| 0 <= i < a.len() ==> lowercase(#[trigger] a[i]) == lowercase(b[i]),
    ensures
        codes_of(m, a) is Ok <==> codes_of(m, b) is Ok,
        codes_of(m, a) is Ok ==> codes_of(m, a)->Ok_0 == codes_of(m, b)->Ok_0,
    decreases a.len(),
{
    if a.len() > 0 {
        let (ia, ib) = (a.drop_last(), b.drop_last());
        assert forall|i: int| 0 <= i < ia.len() implies lowercase(#[trigger] ia[i]) == lowercase(ib[i]) by {
            assert(ia[i] == a[i]);
            assert(ib[i] == b[i]);
        }
        lemma_codes_of_same_names(m, ia, ib);
        assert(lowercase(a[a.len() - 1]) == lowercase(b[b.len() - 1]));
    }
}

/// Every code of a parsed hotkey is below any bound that all codes of the map keep.
pub proof fn lemma_hotkey_codes_below(m: Map<Seq<char>, u16>, s: Seq<char>, bound: int)
    requires
        codes_below(m, bound),
        hotkey_codes(m, s) is Ok,
    ensures
        forall|i: int| 0 <= i < hotkey_codes(m, s)->Ok_0.len()
            ==> #[trigger] hotkey_codes(m, s)->Ok_0[i] < bound,
        hotkey_codes(m, s)->Ok_0.len() == split_on(s, ',').len(),
{
    let pieces = split_on(s, ',');
    lemma_codes_of_ok(m, pieces);
    let cs = hotkey_codes(m, s)->Ok_0;
    assert forall|i: int| 0 <= i < cs.len() implies #[trigger] cs[i] < bound by {
        assert(lookup(m, key_name(pieces[i])) == Some(cs[i]));
    }
}

/// The text with each character's ASCII upper-case form (`str::to_ascii_uppercase`).
pub open spec fn ascii_upper_text(s: Seq<char>) -> Seq<char> {
    s.map_values(|c: char| ascii_upper(c))
}

/// The text with each character's ASCII lower-case form (`str::to_ascii_lowercase`).
pub open spec fn ascii_lower_text(s: Seq<char>) -> Seq<char> {
    s.map_values(|c: char| ascii_lower(c))
}

/// Changing the ASCII case of an ASCII hotkey leaves what it stands for alone.
proof fn lemma_case_change_same_codes(m: Map<Seq<char>, u16>, s: Seq<char>, f: spec_fn(char) -> char)
    requires
        is_ascii_chars(s),
        forall|c: char| (#[trigger] f(c) == ',') == (c == ','),
        forall|c: char|
            '\0' <= c <= '\u{7f}' ==> '\0' <= #[trigger] f(c) <= '\u{7f}' && ascii_lower(f(c))
                == ascii_lower(c),
    ensures
        hotkey_codes(m, s.map_values(f)) is Ok <==> hotkey_codes(m, s) is Ok,
        hotkey_codes(m, s) is Ok ==> hotkey_codes(m, s.map_values(f))->Ok_0 == hotkey_codes(m, s)->Ok_0,
{
    let a = split_on(s.map_values(f), ',');
    let b = split_on(s, ',');
    lemma_split_map(s, ',', f);
    lemma_split_ascii(s, ',');
    assert forall|i: int| 0 <= i < a.len() implies lowercase(#[trigger] a[i]) == lowercase(b[i]) by {
        let p = b[i];
        assert(is_ascii_chars(p));
        assert(a[i] == p.map_values(f));
        let q = p.map_values(f);
        assert(is_ascii_chars(q)) by {
            assert forall|j: int| 0 <= j < q.len() implies '\0' <= #[trigger] q[j] <= '\u{7f}' by {
                assert('\0' <= p[j] <= '\u{7f}');
            }
        }
        assert(q.map_values(|c: char| ascii_lower(c)) =~= p.map_values(|c: char| ascii_lower(c))) by {
            assert forall|j: int| 0 <= j < p.len() implies ascii_lower(#[trigger] q[j]) == ascii_lower(p[j]) by {
                assert('\0' <= p[j] <= '\u{7f}');
            }
        }
    }
    lemma_codes_of_same_names(m, a, b);
}

/// Key names are case-insensitive: an ASCII hotkey in upper case, in lower case, or
/// as written stands for the same codes, or all three are refused.
pub proof fn lemma_ascii_case_insensitive(m: Map<Seq<char>, u16>, s: Seq<char>)
    requires
        is_ascii_chars(s),
    ensures
        hotkey_codes(m, ascii_upper_text(s)) is Ok <==> hotkey_codes(m, s) is Ok,
        hotkey_codes(m, ascii_lower_text(s)) is Ok <==> hotkey_codes(m, s) is Ok,
        hotkey_codes(m, s) is Ok ==> hotkey_codes(m, ascii_upper_text(s))->Ok_0 == hotkey_codes(m, s)->Ok_0
            && hotkey_codes(m, ascii_lower_text(s))->Ok_0 == hotkey_codes(m, s)->Ok_0,
{
    let up = |c: char| ascii_upper(c);
    let lo = |c: char| ascii_lower(c);
    assert forall|c: char| (#[trigger] up(c) == ',') == (c == ',') by {
        lemma_ascii_case_comma(c);
    }
    assert forall|c: char| (#[trigger] lo(c) == ',') == (c == ',') by {
        lemma_ascii_case_comma(c);
    }
    assert forall|c: char|
        '\0' <= c <= '\u{7f}' implies '\0' <= #[trigger] up(c) <= '\u{7f}' && ascii_lower(up(c)) == ascii_lower(c) by {
        lemma_ascii_case_char(c);
    }
    assert forall|c: char|
        '\0' <= c <= '\u{7f}' implies '\0' <= #[trigger] lo(c) <= '\u{7f}' && ascii_lower(lo(c)) == ascii_lower(c) by {
        lemma_ascii_case_char(c);
    }
    lemma_case_change_same_codes(m, s, up);
    lemma_case_change_same_codes(m, s, lo);
}

} // verus!
