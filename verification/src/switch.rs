//! The killswitch: which key events turn it on and off.
use vstd::prelude::*;
use crate::bitmap::{bitmap, bitmap_eq, bitmap_set, bm_setup, code_set, covered_below, EqMode, KeyBitmap};
use crate::keys::KEY_SPACE;

verus! {

/// What a key event did to the killswitch.
#[derive(Clone, Copy, Debug, PartialEq, Eq, Structural)]
pub enum Change {
    Activated,
    Deactivated,
}

/// Whether the keys held now flip the switch: while off, when every key of the
/// start hotkey is held; while on, when exactly the keys of the end hotkey are held.
pub open spec fn fires(start: Set<int>, end: Set<int>, held: Set<int>, active: bool) -> bool {
    if active {
        held == end
    } else {
        start.subset_of(held)
    }
}

/// The keys held and the switch's state after key `key` goes down (`down`) or up.
pub open spec fn step(start: Set<int>, end: Set<int>, held: Set<int>, active: bool, key: int, down: bool) -> (Set<int>, bool) {
    let now = if down { held.insert(key) } else { held.remove(key) };
    (now, active != fires(start, end, now, active))
}

/// The keys held and the switch's state after a sequence of (key, down) events.
pub open spec fn replay(start: Set<int>, end: Set<int>, held: Set<int>, active: bool, events: Seq<(int, bool)>) -> (Set<int>, bool)
    decreases events.len(),
{
    if events.len() == 0 {
        (held, active)
    } else {
        let (h, a) = replay(start, end, held, active, events.drop_last());
        step(start, end, h, a, events.last().0, events.last().1)
    }
}

/// Key codes below `KEY_SPACE`.
pub open spec fn in_key_space(keys: Seq<u16>) -> bool {
    forall|t: int| 0 <= t < keys.len() ==> (keys[t] as int) < KEY_SPACE
}

/// The switch: its start and end hotkeys, the keys held now, and whether it is on.
pub struct Killswitch {
    enable: KeyBitmap,
    disable: KeyBitmap,
    pressed: KeyBitmap,
    active: bool,
}

impl Killswitch {
    /// The keys of the start hotkey.
    pub closed spec fn start_keys(&self) -> Set<int> {
        self.enable@
    }

    /// The keys of the end hotkey.
    pub closed spec fn end_keys(&self) -> Set<int> {
        self.disable@
    }

    /// The keys held now.
    pub closed spec fn held_keys(&self) -> Set<int> {
        self.pressed@
    }

    /// Whether the switch is on.
    pub closed spec fn is_on(&self) -> bool {
        self.active
    }

    /// All three bitmaps have room for `KEY_SPACE` keys.
    pub closed spec fn wf(&self) -> bool {
        &&& self.enable.capacity() == KEY_SPACE
        &&& self.disable.capacity() == KEY_SPACE
        &&& self.pressed.capacity() == KEY_SPACE
    }

    /// A switch that is off, with no key held, turned on by `on` and off by `off`.
    pub fn new(on: Vec<u16>, off: Vec<u16>) -> (s: Self)
        requires
            in_key_space(on@),
            in_key_space(off@),
        ensures
            s.wf(),
            s.start_keys() == code_set(on@),
            s.end_keys() == code_set(off@),
            s.held_keys() == Set::<int>::empty(),
            !s.is_on(),
    {
        let mut disable = bitmap(KEY_SPACE);
        bm_setup(&mut disable, off);
        let mut enable = bitmap(KEY_SPACE);
        bm_setup(&mut enable, on);
        let pressed = bitmap(KEY_SPACE);
        assert(Set::<int>::empty().union(code_set(on@)) =~= code_set(on@));
        assert(Set::<int>::empty().union(code_set(off@)) =~= code_set(off@));
        Killswitch { enable, disable, pressed, active: false }
    }

    /// Whether the switch is on.
    pub fn is_active(&self) -> (r: bool)
        ensures
            r == self.is_on(),
    {
        self.active
    }

    /// Key `key` went down (`down`) or up: records it and flips the switch when the
    /// held keys call for it, saying which way it went.
    pub fn key_event(&mut self, key: usize, down: bool) -> (r: Option<Change>)
        requires
            old(self).wf(),
            key < KEY_SPACE,
        ensures
            final(self).wf(),
            final(self).start_keys() == old(self).start_keys(),
            final(self).end_keys() == old(self).end_keys(),
            (final(self).held_keys(), final(self).is_on()) == step(
                old(self).start_keys(),
                old(self).end_keys(),
                old(self).held_keys(),
                old(self).is_on(),
                key as int,
                down,
            ),
            r == (if final(self).is_on() == old(self).is_on() {
                None
            } else if final(self).is_on() {
                Some(Change::Activated)
            } else {
                Some(Change::Deactivated)
            }),
    {
        bitmap_set(&mut self.pressed, key, down);
        let hit = if self.active {
            bitmap_eq(&self.disable, &self.pressed, EqMode::Eq)
        } else {
            let h = bitmap_eq(&self.enable, &self.pressed, EqMode::Has);
            proof {
                assert(h == self.enable@.subset_of(self.pressed@)) by {
                    if h {
                        self.enable.lemma_keys_below();
                        assert forall|i: int| self.enable@.contains(i) implies self.pressed@.contains(i) by {
                            assert(0 <= i < KEY_SPACE);
                        }
                    }
                }
            }
            h
        };
        if hit {
            self.active = !self.active;
            if self.active {
                Some(Change::Activated)
            } else {
                Some(Change::Deactivated)
            }
        } else {
            None
        }
    }
}

/// Once on, the switch goes off only at an event after which exactly the keys of
/// the end hotkey are held: input stays locked until the end hotkey is entered.
pub proof fn lemma_unlock_needs_end_hotkey(start: Set<int>, end: Set<int>, held: Set<int>, events: Seq<(int, bool)>)
    requires
        !replay(start, end, held, true, events).1,
    ensures
        exists|j: int|
            0 <= j < events.len() && replay(start, end, held, true, events.take(j)).1
                && #[trigger] replay(start, end, held, true, events.take(j + 1)) == (end, false),
    decreases events.len(),
{
    if events.len() == 0 {
    } else {
        let pre = events.drop_last();
        let r = replay(start, end, held, true, pre);
        if !r.1 {
            lemma_unlock_needs_end_hotkey(start, end, held, pre);
            let j = choose|j: int|
                0 <= j < pre.len() && replay(start, end, held, true, pre.take(j)).1
                    && #[trigger] replay(start, end, held, true, pre.take(j + 1)) == (end, false);
            assert(pre.take(j) =~= events.take(j));
            assert(pre.take(j + 1) =~= events.take(j + 1));
        } else {
            let j = pre.len() as int;
            assert(events.take(j) =~= pre);
            assert(events.take(j + 1) =~= events);
            assert(replay(start, end, held, true, events.take(j + 1)) == (end, false));
        }
    }
}

/// Once off, the switch goes on only at an event after which every key of the
/// start hotkey is held.
pub proof fn lemma_lock_needs_start_hotkey(start: Set<int>, end: Set<int>, held: Set<int>, events: Seq<(int, bool)>)
    requires
        replay(start, end, held, false, events).1,
    ensures
        exists|j: int|
            0 <= j < events.len() && !replay(start, end, held, false, events.take(j)).1
                && #[trigger] replay(start, end, held, false, events.take(j + 1)).1
                && start.subset_of(replay(start, end, held, false, events.take(j + 1)).0),
    decreases events.len(),
{
    if events.len() == 0 {
    } else {
        let pre = events.drop_last();
        let r = replay(start, end, held, false, pre);
        if r.1 {
            lemma_lock_needs_start_hotkey(start, end, held, pre);
            let j = choose|j: int|
                0 <= j < pre.len() && !replay(start, end, held, false, pre.take(j)).1
                    && #[trigger] replay(start, end, held, false, pre.take(j + 1)).1
                    && start.subset_of(replay(start, end, held, false, pre.take(j + 1)).0);
            assert(pre.take(j) =~= events.take(j));
            assert(pre.take(j + 1) =~= events.take(j + 1));
        } else {
            let j = pre.len() as int;
            assert(events.take(j) =~= pre);
            assert(events.take(j + 1) =~= events);
        }
    }
}

/// A key's last event decides whether it is held: after any events, a key is held
/// exactly when its last event was a key-down (or, with no event for it, when it
/// was held to begin with).
pub proof fn lemma_held_follows_last_event(
    start: Set<int>,
    end: Set<int>,
    held: Set<int>,
    active: bool,
    events: Seq<(int, bool)>,
    key: int,
)
    ensures
        replay(start, end, held, active, events).0.contains(key) == (if exists|j: int|
            0 <= j < events.len() && (#[trigger] events[j]).0 == key {
            events[last_event_of(events, key)].1
        } else {
            held.contains(key)
        }),
    decreases events.len(),
{
    if events.len() > 0 {
        let pre = events.drop_last();
        lemma_held_follows_last_event(start, end, held, active, pre, key);
        if events.last().0 == key {
            assert(events[events.len() - 1].0 == key);
            assert(last_event_of(events, key) == events.len() - 1);
        } else {
            if exists|j: int| 0 <= j < pre.len() && (#[trigger] pre[j]).0 == key {
                let j = choose|j: int| 0 <= j < pre.len() && (#[trigger] pre[j]).0 == key;
                assert(events[j] == pre[j]);
                lemma_last_event_in_range(pre, key);
                assert(last_event_of(events, key) == last_event_of(pre, key));
                assert(events[last_event_of(events, key)] == pre[last_event_of(pre, key)]);
            } else {
                assert forall|j: int| 0 <= j < events.len() implies (#[trigger] events[j]).0 != key by {
                    if j < pre.len() {
                        assert(events[j] == pre[j]);
                    }
                }
            }
        }
    }
}

proof fn lemma_last_event_in_range(events: Seq<(int, bool)>, key: int)
    requires
        exists|j: int| 0 <= j < events.len() && (#[trigger] events[j]).0 == key,
    ensures
        0 <= last_event_of(events, key) < events.len(),
        events[last_event_of(events, key)].0 == key,
    decreases events.len(),
{
    if events.last().0 != key {
        let pre = events.drop_last();
        let j = choose|j: int| 0 <= j < events.len() && (#[trigger] events[j]).0 == key;
        assert(j < pre.len() && pre[j] == events[j]);
        lemma_last_event_in_range(pre, key);
    }
}

/// The index of the last event for `key` (meaningful when there is one).
pub open spec fn last_event_of(events: Seq<(int, bool)>, key: int) -> int
    decreases events.len(),
{
    if events.len() == 0 {
        -1
    } else if events.last().0 == key {
        events.len() - 1
    } else {
        last_event_of(events.drop_last(), key)
    }
}

} // verus!
