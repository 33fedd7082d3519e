use vstd::prelude::*;
use crate::action::Action;
use crate::input::{key_modifier, modifier_of_key, Hotkey, InputEvent, Key, ModifierSet, Trigger};
use crate::registry::{lookup, resolution, BindingRegistry};
use crate::tracker::{next_buttons, next_keys, StateTracker};

verus! {

/// What the caller has to do after one event.
#[derive(Debug)]
pub enum Reaction {
    /// Nothing.
    Idle,
    /// Run the action bound to the hotkey once, independently.
    Run(Hotkey),
    /// Start the sustained action bound to the hotkey: a repeat loop, or a
    /// held key.
    StartHeld(Hotkey),
    /// End the sustained actions of these hotkeys: cancel their loops and
    /// release their held keys.
    EndHeld(Vec<Hotkey>),
}

/// The trigger that a press event presses.
pub open spec fn press_trigger(e: InputEvent) -> Option<Trigger> {
    match e {
        InputEvent::KeyPress(k) => Some(Trigger::Key(k)),
        InputEvent::MousePress(b) => Some(Trigger::MouseButton(b)),
        _ => None,
    }
}

/// The trigger that a release event releases.
pub open spec fn release_trigger(e: InputEvent) -> Option<Trigger> {
    match e {
        InputEvent::KeyRelease(k) => Some(Trigger::Key(k)),
        InputEvent::MouseRelease(b) => Some(Trigger::MouseButton(b)),
        _ => None,
    }
}

/// The modifiers held among `keys`.
pub open spec fn held_modifiers(keys: Set<Key>) -> ModifierSet {
    ModifierSet {
        ctrl: keys.contains(Key::Ctrl),
        shift: keys.contains(Key::Shift),
        alt: keys.contains(Key::Alt),
        meta: keys.contains(Key::Meta),
    }
}

/// The modifiers that qualify a press of `t` while `keys` are held: those
/// held, less the trigger itself where it is a modifier key.
pub open spec fn chord(keys: Set<Key>, t: Trigger) -> ModifierSet {
    match t {
        Trigger::Key(k) => match key_modifier(k) {
            Some(m) => held_modifiers(keys).removed(m),
            None => held_modifiers(keys),
        },
        Trigger::MouseButton(_) => held_modifiers(keys),
    }
}

/// The hotkey that `e` fires, with `keys` held before it.
pub open spec fn fired(entries: Seq<(Hotkey, Action)>, keys: Set<Key>, e: InputEvent) -> Option<Hotkey> {
    match press_trigger(e) {
        Some(t) => resolution(entries, t, chord(keys, t)),
        None => None,
    }
}

/// The action lasts while its trigger is held: a repeat loop, which the
/// release cancels, or a held key, which the release releases.
pub open spec fn is_sustained(a: Option<Action>) -> bool {
    a matches Some(Action::RepeatWhileHeld { .. }) || a matches Some(Action::HoldKey(_))
}

/// The hotkey whose sustained action `e` starts: one that fires, is bound to
/// a sustained action, and has none running yet.
pub open spec fn starts(
    entries: Seq<(Hotkey, Action)>,
    keys: Set<Key>,
    active: Seq<Hotkey>,
    e: InputEvent,
) -> Option<Hotkey> {
    match fired(entries, keys, e) {
        Some(h) => if is_sustained(lookup(entries, h)) && !active.contains(h) {
            Some(h)
        } else {
            None
        },
        None => None,
    }
}

/// The hotkeys of `s` on trigger `t`, in order.
pub open spec fn on_trigger(s: Seq<Hotkey>, t: Trigger) -> Seq<Hotkey>
    decreases s.len(),
{
    if s.len() == 0 {
        s
    } else if s.last().trigger == t {
        on_trigger(s.drop_last(), t).push(s.last())
    } else {
        on_trigger(s.drop_last(), t)
    }
}

/// The hotkeys of `s` on another trigger than `t`, in order.
pub open spec fn off_trigger(s: Seq<Hotkey>, t: Trigger) -> Seq<Hotkey>
    decreases s.len(),
{
    if s.len() == 0 {
        s
    } else if s.last().trigger == t {
        off_trigger(s.drop_last(), t)
    } else {
        off_trigger(s.drop_last(), t).push(s.last())
    }
}

/// The sustained actions that `e` ends: those on the trigger it releases.
pub open spec fn stopped(active: Seq<Hotkey>, e: InputEvent) -> Seq<Hotkey> {
    match release_trigger(e) {
        Some(t) => on_trigger(active, t),
        None => seq![],
    }
}

/// The sustained actions running after `e`.
pub open spec fn next_active(
    entries: Seq<(Hotkey, Action)>,
    keys: Set<Key>,
    active: Seq<Hotkey>,
    e: InputEvent,
) -> Seq<Hotkey> {
    match starts(entries, keys, active, e) {
        Some(h) => active.push(h),
        None => match release_trigger(e) {
            Some(t) => off_trigger(active, t),
            None => active,
        },
    }
}

/// What splitting by trigger keeps.
proof fn lemma_split(s: Seq<Hotkey>, t: Trigger)
    ensures
        forall|h: Hotkey| #[trigger] on_trigger(s, t).contains(h) <==> s.contains(h) && h.trigger == t,
        forall|h: Hotkey| #[trigger] off_trigger(s, t).contains(h) <==> s.contains(h) && h.trigger != t,
        s.no_duplicates() ==> off_trigger(s, t).no_duplicates(),
    decreases s.len(),
{
    if s.len() > 0 {
        let p = s.drop_last();
        lemma_split(p, t);
        let x = s.last();
        assert(s =~= p.push(x));
        assert forall|h: Hotkey| s.contains(h) <==> (p.contains(h) || h == x) by {
            if s.contains(h) {
                let j = choose|j: int| 0 <= j < s.len() && s[j] == h;
                if j < p.len() {
                    assert(p[j] == h);
                }
            }
            if p.contains(h) {
                let j = choose|j: int| 0 <= j < p.len() && p[j] == h;
                assert(s[j] == h);
            }
            if h == x {
                assert(s[s.len() - 1] == h);
            }
        }
        let on = on_trigger(p, t);
        let off = off_trigger(p, t);
        assert forall|h: Hotkey| on.push(x).contains(h) <==> (on.contains(h) || h == x) by {
            if on.push(x).contains(h) {
                let j = choose|j: int| 0 <= j < on.len() + 1 && on.push(x)[j] == h;
                if j < on.len() {
                    assert(on[j] == h);
                }
            }
            if on.contains(h) {
                let j = choose|j: int| 0 <= j < on.len() && on[j] == h;
                assert(on.push(x)[j] == h);
            }
            if h == x {
                assert(on.push(x)[on.len() as int] == h);
            }
        }
        assert forall|h: Hotkey| off.push(x).contains(h) <==> (off.contains(h) || h == x) by {
            if off.push(x).contains(h) {
                let j = choose|j: int| 0 <= j < off.len() + 1 && off.push(x)[j] == h;
                if j < off.len() {
                    assert(off[j] == h);
                }
            }
            if off.contains(h) {
                let j = choose|j: int| 0 <= j < off.len() && off[j] == h;
                assert(off.push(x)[j] == h);
            }
            if h == x {
                assert(off.push(x)[off.len() as int] == h);
            }
        }
        assert forall|h: Hotkey| #[trigger] on_trigger(s, t).contains(h) <==> s.contains(h)
            && h.trigger == t by {
            assert(s.contains(h) <==> (p.contains(h) || h == x));
            if x.trigger == t {
                assert(on_trigger(s, t) == on.push(x));
                assert(on.push(x).contains(h) <==> (on.contains(h) || h == x));
            } else {
                assert(on_trigger(s, t) == on);
            }
        }
        assert forall|h: Hotkey| #[trigger] off_trigger(s, t).contains(h) <==> s.contains(h)
            && h.trigger != t by {
            assert(s.contains(h) <==> (p.contains(h) || h == x));
            if x.trigger != t {
                assert(off_trigger(s, t) == off.push(x));
                assert(off.push(x).contains(h) <==> (off.contains(h) || h == x));
            } else {
                assert(off_trigger(s, t) == off);
            }
        }
        if s.no_duplicates() {
            assert(p.no_duplicates()) by {
                assert forall|a: int, b: int| 0 <= a < p.len() && 0 <= b < p.len() && a != b implies p[a]
                    != p[b] by {
                    assert(s[a] == p[a] && s[b] == p[b]);
                }
            }
            if x.trigger != t {
                assert(!p.contains(x)) by {
                    if p.contains(x) {
                        let j = choose|j: int| 0 <= j < p.len() && p[j] == x;
                        assert(s[j] == s[s.len() - 1]);
                    }
                }
                let w = off.push(x);
                assert forall|a: int, b: int| 0 <= a < w.len() && 0 <= b < w.len() && a != b implies w[a]
                    != w[b] by {
                    if a == off.len() {
                        assert(off.contains(w[b]));
                    } else if b == off.len() {
                        assert(off.contains(w[a]));
                    }
                }
            }
        }
    }
}

/// Sustained actions (repeat loops and held keys) run at most once per
/// hotkey: a press starts one only for a hotkey that has none running (so
/// pressing again while held, as key repeat does, starts nothing), and
/// releasing a trigger ends every one on it.
pub proof fn lemma_sustained_once_per_hotkey(
    entries: Seq<(Hotkey, Action)>,
    keys: Set<Key>,
    active: Seq<Hotkey>,
    e: InputEvent,
)
    requires
        active.no_duplicates(),
    ensures
        next_active(entries, keys, active, e).no_duplicates(),
        forall|h: Hotkey| active.contains(h) ==> starts(entries, keys, active, e) != Some(h),
        starts(entries, keys, active, e) matches Some(h) ==> next_active(
            entries,
            keys,
            active,
            e,
        ).contains(h),
        release_trigger(e) matches Some(t) ==> forall|h: Hotkey|
            active.contains(h) && h.trigger == t ==> #[trigger] stopped(active, e).contains(h)
                && !next_active(entries, keys, active, e).contains(h),
{
    match starts(entries, keys, active, e) {
        Some(h) => {
            let w = active.push(h);
            assert(w[active.len() as int] == h);
            assert forall|a: int, b: int| 0 <= a < w.len() && 0 <= b < w.len() && a != b implies w[a]
                != w[b] by {
                if a == active.len() {
                    assert(active.contains(w[b]));
                } else if b == active.len() {
                    assert(active.contains(w[a]));
                }
            }
        },
        None => match release_trigger(e) {
            Some(t) => {
                lemma_split(active, t);
            },
            None => {},
        },
    }
}

/// Turns input events into reactions, keeping track of held input and of the
/// sustained actions (repeat loops and held keys) running.
pub struct EventProcessor {
    registry: BindingRegistry,
    state: StateTracker,
    active: Vec<Hotkey>,
}

impl EventProcessor {
    /// The bindings, oldest first.
    pub closed spec fn entries(&self) -> Seq<(Hotkey, Action)> {
        self.registry.entries()
    }

    /// The held keys.
    pub closed spec fn keys(&self) -> Set<Key> {
        self.state.keys()
    }

    /// The held mouse buttons.
    pub closed spec fn buttons(&self) -> Set<crate::input::MouseButton> {
        self.state.buttons()
    }

    /// The hotkeys whose sustained actions are running, oldest first.
    pub closed spec fn sustained(&self) -> Seq<Hotkey> {
        self.active@
    }

    /// The registry and tracker are well formed, and no hotkey has two
    /// sustained actions.
    pub closed spec fn wf(&self) -> bool {
        &&& self.registry.wf()
        &&& self.state.wf()
        &&& self.active@.no_duplicates()
    }

    /// A processor over `registry`, with nothing held and no loop running.
    pub fn new(registry: BindingRegistry) -> (r: EventProcessor)
        requires
            registry.wf(),
        ensures
            r.wf(),
            r.entries() == registry.entries(),
            r.keys() == Set::<Key>::empty(),
            r.buttons() == Set::<crate::input::MouseButton>::empty(),
            r.sustained().len() == 0,
    {
        let r = EventProcessor { registry, state: StateTracker::new(), active: Vec::new() };
        proof {
            assert(r.active@.no_duplicates());
        }
        r
    }

    /// The modifiers that qualify a press of `t` now.
    fn chord_of(&self, t: &Trigger) -> (r: ModifierSet)
        ensures
            r == chord(self.keys(), *t),
    {
        let held = ModifierSet {
            ctrl: self.state.is_key_held(&Key::Ctrl),
            shift: self.state.is_key_held(&Key::Shift),
            alt: self.state.is_key_held(&Key::Alt),
            meta: self.state.is_key_held(&Key::Meta),
        };
        match t {
            Trigger::Key(k) => match modifier_of_key(*k) {
                Some(m) => held.without(m),
                None => held,
            },
            Trigger::MouseButton(_) => held,
        }
    }

    /// Processes one event: the modifiers held before it qualify a press,
    /// the tracker is updated, a press fires the most specific matching
    /// binding (a sustained action only if none runs for that hotkey), and a
    /// release ends the sustained actions on the released trigger.
    pub fn process_event(&mut self, event: InputEvent) -> (r: Reaction)
        requires
            old(self).wf(),
        ensures
            final(self).wf(),
            final(self).entries() == old(self).entries(),
            final(self).keys() == next_keys(old(self).keys(), event),
            final(self).buttons() == next_buttons(old(self).buttons(), event),
            final(self).sustained() == next_active(
                old(self).entries(),
                old(self).keys(),
                old(self).sustained(),
                event,
            ),
            match fired(old(self).entries(), old(self).keys(), event) {
                Some(h) => if !is_sustained(lookup(old(self).entries(), h)) {
                    r == Reaction::Run(h)
                } else if old(self).sustained().contains(h) {
                    r is Idle
                } else {
                    r == Reaction::StartHeld(h)
                },
                None => if stopped(old(self).sustained(), event).len() > 0 {
                    r matches Reaction::EndHeld(v) && v@ == stopped(old(self).sustained(), event)
                } else {
                    r is Idle
                },
            },
    {
        let ghost keys0 = self.keys();
        let ghost active0 = self.active@;
        let pressed = match event {
            InputEvent::KeyPress(k) => Some(Trigger::Key(k)),
            InputEvent::MousePress(b) => Some(Trigger::MouseButton(b)),
            _ => None,
        };
        let released = match event {
            InputEvent::KeyRelease(k) => Some(Trigger::Key(k)),
            InputEvent::MouseRelease(b) => Some(Trigger::MouseButton(b)),
            _ => None,
        };
        let qualifying = match pressed {
            Some(t) => Some(self.chord_of(&t)),
            None => None,
        };
        self.state.update(&event);
        match pressed {
            Some(t) => {
                let mods = qualifying.unwrap();
                match self.registry.resolve(&t, &mods) {
                    Some(h) => {
                        let repeat = match self.registry.get_action(&h) {
                            Some(Action::RepeatWhileHeld { .. }) => true,
                            Some(Action::HoldKey(_)) => true,
                            _ => false,
                        };
                        if !repeat {
                            Reaction::Run(h)
                        } else if self.is_sustaining(&h) {
                            Reaction::Idle
                        } else {
                            proof {
                                assert(!active0.contains(h));
                            }
                            self.active.push(h);
                            proof {
                                assert forall|a: int, b: int|
                                    0 <= a < self.active@.len() && 0 <= b < self.active@.len() && a
                                        != b implies self.active@[a] != self.active@[b] by {
                                    if a == active0.len() {
                                        assert(active0.contains(self.active@[b]));
                                    } else if b == active0.len() {
                                        assert(active0.contains(self.active@[a]));
                                    }
                                }
                            }
                            Reaction::StartHeld(h)
                        }
                    },
                    None => Reaction::Idle,
                }
            },
            None => match released {
                Some(t) => {
                    let mut stop: Vec<Hotkey> = Vec::new();
                    let mut keep: Vec<Hotkey> = Vec::new();
                    let mut i: usize = 0;
                    while i < self.active.len()
                        invariant
                            self.active@ == active0,
                            i <= active0.len(),
                            stop@ == on_trigger(active0.subrange(0, i as int), t),
                            keep@ == off_trigger(active0.subrange(0, i as int), t),
                        decreases active0.len() - i,
                    {
                        let h = self.active[i];
                        proof {
                            assert(active0.subrange(0, i + 1).drop_last() =~= active0.subrange(
                                0,
                                i as int,
                            ));
                        }
                        if h.trigger == t {
                            stop.push(h);
                        } else {
                            keep.push(h);
                        }
                        i = i + 1;
                    }
                    proof {
                        assert(active0.subrange(0, i as int) =~= active0);
                        lemma_split(active0, t);
                    }
                    self.active = keep;
                    if stop.len() > 0 {
                        Reaction::EndHeld(stop)
                    } else {
                        Reaction::Idle
                    }
                },
                None => Reaction::Idle,
            },
        }
    }

    /// Whether a sustained action of `h` is running.
    pub fn is_sustaining(&self, h: &Hotkey) -> (r: bool)
        ensures
            r == self.sustained().contains(*h),
    {
        let mut i: usize = 0;
        while i < self.active.len()
            invariant
                i <= self.active@.len(),
                forall|j: int| 0 <= j < i ==> self.active@[j] != *h,
            decreases self.active@.len() - i,
        {
            if self.active[i] == *h {
                proof {
                    assert(self.active@.contains(*h));
                }
                return true;
            }
            i = i + 1;
        }
        false
    }

    /// The action bound to `h`, if any.
    pub fn action_for(&self, h: &Hotkey) -> (r: Option<&Action>)
        ensures
            match r {
                Some(a) => lookup(self.entries(), *h) == Some(*a),
                None => lookup(self.entries(), *h) is None,
            },
    {
        self.registry.get_action(h)
    }

    /// Ends every running sustained action, for shutdown; returns their hotkeys.
    pub fn shutdown(&mut self) -> (r: Vec<Hotkey>)
        requires
            old(self).wf(),
        ensures
            final(self).wf(),
            r@ == old(self).sustained(),
            final(self).sustained().len() == 0,
            final(self).entries() == old(self).entries(),
            final(self).keys() == old(self).keys(),
            final(self).buttons() == old(self).buttons(),
    {
        let mut r: Vec<Hotkey> = Vec::new();
        r.append(&mut self.active);
        proof {
            assert(self.active@.no_duplicates());
        }
        r
    }
}

} // verus!
