//! Key auto-repeat of the Wayland adapter, as a state machine.
//!
//! The adapter grabs the keyboard, so the compositor does not repeat keys for
//! it: it repeats them itself.  The adapter feeds each compositor event to a
//! [`RepeatState`] and performs the [`RepeatAction`]s it gets back (talking
//! to the application, running the tick timer, running the engine again).
//! Compositors such as KWin send bursts of synthetic releases while a key
//! repeats, so a release of the repeating key only arms a deadline; the
//! repeat stops once the deadline passes without a new event.

use std::collections::HashSet;
use vstd::prelude::*;

verus! {

broadcast use vstd::std_specs::hash::group_hash_axioms;

/// The key being repeated.
#[derive(Debug, Clone, Copy, PartialEq, Eq, Structural)]
pub struct RepeatKey {
    pub keycode: u32,
    pub keysym: u32,
    /// Whether the engine consumed the first press.  A consumed key repeats
    /// through the engine; any other key repeats as release and press sent
    /// to the application.
    pub consumed: bool,
}

/// What the adapter does for the state machine.
#[derive(Debug, Clone, Copy, PartialEq, Eq, Structural)]
pub enum RepeatAction {
    /// Send a release of the key to the application.
    ReleaseToApp(u32),
    /// Send a press of the key to the application.
    PressToApp(u32),
    /// Stop the tick timer of the current repeat.
    CancelTimer,
    /// Start ticking after `delay_ms`, then every `interval_ms`.
    StartTimer { delay_ms: u64, interval_ms: u64 },
    /// Run the key through the engine again, as a press.
    RerunKey { keycode: u32, keysym: u32 },
}

/// Key-repeat state of one keyboard.
pub struct RepeatState {
    /// Keys held down.
    pub pressed: HashSet<u32>,
    /// The key being repeated, if any.
    pub active: Option<RepeatKey>,
    /// When a release of the repeating key was seen: the time, in
    /// milliseconds, at which the repeat stops unless the key is struck again.
    pub stop_deadline_ms: Option<u64>,
    /// Repeats per second; 0 turns repeat off.
    pub rate: u32,
    /// Milliseconds before the first repeat.
    pub delay: u32,
}

/// Milliseconds between two ticks at `rate` repeats per second.
pub open spec fn spec_interval_ms(rate: u32) -> u64 {
    let per: int = 1000int / (if rate == 0 { 1int } else { rate as int });
    (if per < 1 { 1 } else { per }) as u64
}

/// How long a repeat outlives a release of its key: twice the tick
/// interval, kept between 60 and 500 ms.
pub open spec fn spec_grace_ms(rate: u32) -> u64 {
    let twice: int = 2 * (1000int / (if rate == 0 { 1int } else { rate as int }));
    (if twice < 60 {
        60
    } else if twice > 500 {
        500
    } else {
        twice
    }) as u64
}

/// The actions that end a repeat: stop the timer and, for a key the
/// application has been receiving, send its final release.
pub open spec fn stop_actions(a: Option<RepeatKey>) -> Seq<RepeatAction> {
    match a {
        Some(k) => if k.consumed {
            seq![RepeatAction::CancelTimer]
        } else {
            seq![RepeatAction::CancelTimer, RepeatAction::ReleaseToApp(k.keycode)]
        },
        None => Seq::empty(),
    }
}

/// The held keys once the repeating key, if any, is let go.
pub open spec fn released(pressed: Set<u32>, a: Option<RepeatKey>) -> Set<u32> {
    match a {
        Some(k) => pressed.remove(k.keycode),
        None => pressed,
    }
}

/// Milliseconds between two ticks at `rate` repeats per second.
pub fn interval_ms(rate: u32) -> (r: u64)
    ensures
        r == spec_interval_ms(rate),
{
    let per = 1000u32 / (if rate == 0 { 1 } else { rate });
    if per < 1 { 1 } else { per as u64 }
}

/// How long a repeat outlives a release of its key.
pub fn grace_ms(rate: u32) -> (r: u64)
    ensures
        r == spec_grace_ms(rate),
{
    let twice: u64 = 2 * ((1000u32 / (if rate == 0 { 1 } else { rate })) as u64);
    if twice < 60 {
        60
    } else if twice > 500 {
        500
    } else {
        twice
    }
}

fn stop_vec(a: Option<RepeatKey>) -> (r: Vec<RepeatAction>)
    ensures
        r@ == stop_actions(a),
{
    match a {
        Some(k) => if k.consumed {
            vec![RepeatAction::CancelTimer]
        } else {
            vec![RepeatAction::CancelTimer, RepeatAction::ReleaseToApp(k.keycode)]
        },
        None => Vec::new(),
    }
}

impl RepeatState {
    /// No key held, nothing repeating, 25 repeats per second after 500 ms
    /// until the compositor reports its own settings.
    pub fn new() -> (r: Self)
        ensures
            r.pressed@ == Set::<u32>::empty(),
            r.active is None,
            r.stop_deadline_ms is None,
            r.rate == 25,
            r.delay == 500,
    {
        RepeatState { pressed: HashSet::new(), active: None, stop_deadline_ms: None, rate: 25, delay: 500 }
    }

    /// Takes the compositor's repeat settings; negative values count as 0.
    pub fn set_info(&mut self, rate: i32, delay: i32)
        ensures
            final(self).rate == (if rate < 0 { 0 } else { rate as u32 }),
            final(self).delay == (if delay < 0 { 0 } else { delay as u32 }),
            final(self).pressed@ == old(self).pressed@,
            final(self).active == old(self).active,
            final(self).stop_deadline_ms == old(self).stop_deadline_ms,
    {
        self.rate = if rate < 0 { 0 } else { rate as u32 };
        self.delay = if delay < 0 { 0 } else { delay as u32 };
    }

    /// Ends the current repeat at once, if there is one.
    pub fn stop_all(&mut self) -> (r: Vec<RepeatAction>)
        ensures
            final(self).active is None,
            final(self).stop_deadline_ms is None,
            final(self).pressed@ == released(old(self).pressed@, old(self).active),
            final(self).rate == old(self).rate,
            final(self).delay == old(self).delay,
            r@ == stop_actions(old(self).active),
    {
        let a = self.active;
        if let Some(k) = a {
            self.pressed.remove(&k.keycode);
        }
        self.active = None;
        self.stop_deadline_ms = None;
        stop_vec(a)
    }

    /// Filters a key event from the compositor at time `now_ms`, and says
    /// whether the adapter should go on to process it.
    ///
    /// A press of a held key is a stray, unless it is the repeating key
    /// struck again while its stop is pending: that ends the old repeat
    /// and counts as a fresh press.  A release of the repeating key only
    /// arms the stop deadline.  A release of a key not held is a stray.
    pub fn key_event(&mut self, key: u32, is_press: bool, now_ms: u64) -> (r: (bool, Vec<RepeatAction>))
        requires
            now_ms <= u64::MAX - 500,
        ensures
            final(self).rate == old(self).rate,
            final(self).delay == old(self).delay,
            is_press && old(self).pressed@.contains(key) ==> if old(self).active matches Some(a) && a.keycode == key
                && old(self).stop_deadline_ms is Some {
                &&& r.0 && r.1@ == stop_actions(old(self).active)
                &&& final(self).pressed@ == old(self).pressed@
                &&& final(self).active is None && final(self).stop_deadline_ms is None
            } else {
                &&& !r.0 && r.1@.len() == 0
                &&& final(self).pressed@ == old(self).pressed@
                &&& final(self).active == old(self).active && final(self).stop_deadline_ms == old(self).stop_deadline_ms
            },
            is_press && !old(self).pressed@.contains(key) ==> {
                &&& r.0 && r.1@.len() == 0
                &&& final(self).pressed@ == old(self).pressed@.insert(key)
                &&& final(self).active == old(self).active && final(self).stop_deadline_ms == old(self).stop_deadline_ms
            },
            !is_press ==> if old(self).active matches Some(a) && a.keycode == key {
                &&& !r.0 && r.1@.len() == 0
                &&& final(self).stop_deadline_ms == Some((now_ms + spec_grace_ms(old(self).rate)) as u64)
                &&& final(self).pressed@ == old(self).pressed@ && final(self).active == old(self).active
            } else if old(self).pressed@.contains(key) {
                &&& r.0 && r.1@.len() == 0
                &&& final(self).pressed@ == old(self).pressed@.remove(key)
                &&& final(self).active == old(self).active && final(self).stop_deadline_ms == old(self).stop_deadline_ms
            } else {
                &&& !r.0 && r.1@.len() == 0
                &&& final(self).pressed@ == old(self).pressed@
                &&& final(self).active == old(self).active && final(self).stop_deadline_ms == old(self).stop_deadline_ms
            },
    {
        let repeating = match self.active {
            Some(a) => a.keycode == key,
            None => false,
        };
        if is_press {
            if self.pressed.contains(&key) {
                if repeating && self.stop_deadline_ms.is_some() {
                    let acts = self.stop_all();
                    self.pressed.insert(key);
                    proof {
                        assert(self.pressed@ =~= old(self).pressed@);
                    }
                    return (true, acts);
                }
                return (false, Vec::new());
            }
            self.pressed.insert(key);
            return (true, Vec::new());
        }
        if repeating {
            let g = grace_ms(self.rate);
            self.stop_deadline_ms = Some(now_ms + g);
            return (false, Vec::new());
        }
        if !self.pressed.contains(&key) {
            return (false, Vec::new());
        }
        self.pressed.remove(&key);
        (true, Vec::new())
    }

    /// Starts repeating `key` after the configured delay, ending any repeat
    /// in progress.  With a rate of 0 nothing repeats.
    pub fn start_repeat(&mut self, key: u32, keysym: u32, consumed: bool) -> (r: Vec<RepeatAction>)
        ensures
            final(self).pressed@ == released(old(self).pressed@, old(self).active),
            final(self).stop_deadline_ms is None,
            final(self).rate == old(self).rate,
            final(self).delay == old(self).delay,
            old(self).rate == 0 ==> final(self).active is None && r@ == stop_actions(old(self).active),
            old(self).rate != 0 ==> final(self).active == Some(RepeatKey { keycode: key, keysym, consumed })
                && r@ == stop_actions(old(self).active).push(
                RepeatAction::StartTimer { delay_ms: old(self).delay as u64, interval_ms: spec_interval_ms(old(self).rate) },
            ),
    {
        let mut acts = self.stop_all();
        if self.rate == 0 {
            return acts;
        }
        self.active = Some(RepeatKey { keycode: key, keysym, consumed });
        let interval = interval_ms(self.rate);
        acts.push(RepeatAction::StartTimer { delay_ms: self.delay as u64, interval_ms: interval });
        acts
    }

    /// After the adapter processed a key: a press of a key that repeats
    /// starts its repeat.
    pub fn after_key(&mut self, key: u32, keysym: u32, consumed: bool, is_press: bool, repeats: bool) -> (r: Vec<RepeatAction>)
        ensures
            final(self).rate == old(self).rate,
            final(self).delay == old(self).delay,
            is_press && repeats ==> {
                &&& final(self).pressed@ == released(old(self).pressed@, old(self).active)
                &&& final(self).stop_deadline_ms is None
                &&& old(self).rate == 0 ==> final(self).active is None && r@ == stop_actions(old(self).active)
                &&& old(self).rate != 0 ==> final(self).active == Some(RepeatKey { keycode: key, keysym, consumed })
                    && r@ == stop_actions(old(self).active).push(
                    RepeatAction::StartTimer { delay_ms: old(self).delay as u64, interval_ms: spec_interval_ms(old(self).rate) },
                )
            },
            !(is_press && repeats) ==> r@.len() == 0 && final(self).pressed@ == old(self).pressed@
                && final(self).active == old(self).active && final(self).stop_deadline_ms == old(self).stop_deadline_ms,
    {
        if is_press && repeats {
            return self.start_repeat(key, keysym, consumed);
        }
        Vec::new()
    }

    /// At time `now_ms`: once the stop deadline has passed, the repeat ends.
    pub fn expire(&mut self, now_ms: u64) -> (r: Vec<RepeatAction>)
        ensures
            final(self).rate == old(self).rate,
            final(self).delay == old(self).delay,
            old(self).stop_deadline_ms matches Some(d) && now_ms >= d ==> {
                &&& final(self).active is None && final(self).stop_deadline_ms is None
                &&& final(self).pressed@ == released(old(self).pressed@, old(self).active)
                &&& r@ == stop_actions(old(self).active)
            },
            !(old(self).stop_deadline_ms matches Some(d) && now_ms >= d) ==> r@.len() == 0
                && final(self).pressed@ == old(self).pressed@ && final(self).active == old(self).active
                && final(self).stop_deadline_ms == old(self).stop_deadline_ms,
    {
        match self.stop_deadline_ms {
            Some(d) => if now_ms >= d {
                return self.stop_all();
            },
            None => {},
        }
        Vec::new()
    }

    /// One tick of the repeat timer: a consumed key goes through the
    /// engine again; any other key reaches the application as a release
    /// and a press.
    pub fn tick(&self) -> (r: Vec<RepeatAction>)
        ensures
            r@ == match self.active {
                Some(a) => if a.consumed {
                    seq![RepeatAction::RerunKey { keycode: a.keycode, keysym: a.keysym }]
                } else {
                    seq![RepeatAction::ReleaseToApp(a.keycode), RepeatAction::PressToApp(a.keycode)]
                },
                None => Seq::empty(),
            },
    {
        match self.active {
            Some(a) => if a.consumed {
                vec![RepeatAction::RerunKey { keycode: a.keycode, keysym: a.keysym }]
            } else {
                vec![RepeatAction::ReleaseToApp(a.keycode), RepeatAction::PressToApp(a.keycode)]
            },
            None => Vec::new(),
        }
    }

    /// A change of the modifier state ends the repeat in progress, so that
    /// letting go of Shift while holding `1` does not turn `!` into `1`.
    pub fn modifiers_changed(&mut self, old_mods: u32, new_mods: u32) -> (r: Vec<RepeatAction>)
        ensures
            final(self).rate == old(self).rate,
            final(self).delay == old(self).delay,
            new_mods != old_mods && old(self).active is Some ==> {
                &&& final(self).active is None && final(self).stop_deadline_ms is None
                &&& final(self).pressed@ == released(old(self).pressed@, old(self).active)
                &&& r@ == stop_actions(old(self).active)
            },
            !(new_mods != old_mods && old(self).active is Some) ==> r@.len() == 0
                && final(self).pressed@ == old(self).pressed@ && final(self).active == old(self).active
                && final(self).stop_deadline_ms == old(self).stop_deadline_ms,
    {
        if new_mods != old_mods && self.active.is_some() {
            return self.stop_all();
        }
        Vec::new()
    }
}

} // verus!
