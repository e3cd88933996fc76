//! What the command line asks for.
use vstd::prelude::*;
use crate::keys::{
    entries_map, hotkey_codes, key_entries, keymap, kcodes, lemma_hotkey_codes_below, unknown_key, Platform,
    KEY_SPACE,
};
use crate::switch::in_key_space;

verus! {

/// What to do, as the command line asks.
pub enum Command {
    /// Unload the module and purge the application's data.
    Clear,
    /// Run the killswitch with these start and end hotkeys.
    Run { start: Vec<u16>, end: Vec<u16> },
    /// A hotkey names a key that does not exist: this piece, as written.
    UnknownKey(String),
    /// Neither `clear` nor both hotkeys were given.
    Invalid,
}

/// The key map of a platform, as a map.
pub open spec fn platform_keys(p: Platform) -> Map<Seq<char>, u16> {
    entries_map(key_entries(p))
}

/// What the command line `clear` flag and `--start` / `--end` values ask for on
/// platform `p`: `clear` wins; otherwise both hotkeys are parsed, start first,
/// and the first piece naming no key is reported.
pub fn plan(p: Platform, clear: bool, start: Option<String>, end: Option<String>) -> (c: Command)
    ensures
        clear ==> c is Clear,
        !clear && (start is None || end is None) ==> c is Invalid,
        !clear && start is Some && end is Some ==> {
            let s = hotkey_codes(platform_keys(p), start->0@);
            let e = hotkey_codes(platform_keys(p), end->0@);
            match c {
                Command::Run { start: a, end: b } => s == Ok::<Seq<u16>, Seq<char>>(a@) && e == Ok::<
                    Seq<u16>,
                    Seq<char>,
                >(b@),
                Command::UnknownKey(k) => s == Err::<Seq<u16>, Seq<char>>(k@) || (s is Ok && e
                    == Err::<Seq<u16>, Seq<char>>(k@)),
                _ => false,
            }
        },
        c matches Command::Run { start: a, end: b } ==> in_key_space(a@) && in_key_space(b@),
{
    if clear {
        return Command::Clear;
    }
    match (start, end) {
        (Some(s), Some(e)) => {
            let km = keymap(p);
            if let Some(k) = unknown_key(&km, s.as_str()) {
                return Command::UnknownKey(k);
            }
            if let Some(k) = unknown_key(&km, e.as_str()) {
                return Command::UnknownKey(k);
            }
            let a = kcodes(&km, s.as_str());
            let b = kcodes(&km, e.as_str());
            proof {
                lemma_hotkey_codes_below(km@, s@, KEY_SPACE as int);
                lemma_hotkey_codes_below(km@, e@, KEY_SPACE as int);
            }
            Command::Run { start: a, end: b }
        },
        _ => Command::Invalid,
    }
}

} // verus!
