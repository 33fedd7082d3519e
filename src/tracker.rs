use vstd::prelude::*;
use crate::input::{InputEvent, Key, MouseButton};

verus! {

/// The keys held after `e`, given the keys `s` held before it.
pub open spec fn next_keys(s: Set<Key>, e: InputEvent) -> Set<Key> {
    match e {
        InputEvent::KeyPress(k) => s.insert(k),
        InputEvent::KeyRelease(k) => s.remove(k),
        _ => s,
    }
}

/// The buttons held after `e`, given the buttons `s` held before it.
pub open spec fn next_buttons(s: Set<MouseButton>, e: InputEvent) -> Set<MouseButton> {
    match e {
        InputEvent::MousePress(b) => s.insert(b),
        InputEvent::MouseRelease(b) => s.remove(b),
        _ => s,
    }
}

/// The keys held after a sequence of events, starting from none.
pub open spec fn keys_after(events: Seq<InputEvent>) -> Set<Key>
    decreases events.len(),
{
    if events.len() == 0 {
        Set::empty()
    } else {
        next_keys(keys_after(events.drop_last()), events.last())
    }
}

/// Some press of `k` in `events` is followed by no release of `k`.
pub open spec fn pressed_since_release(events: Seq<InputEvent>, k: Key) -> bool {
    exists|i: int|
        0 <= i < events.len() && #[trigger] events[i] == InputEvent::KeyPress(k) && forall|j: int|
            i < j < events.len() ==> #[trigger] events[j] != InputEvent::KeyRelease(k)
}

/// A key is held after a sequence of events exactly when it was pressed at
/// least once since its last release: pressing twice changes nothing, and
/// releasing a key that is not held is harmless.
pub proof fn lemma_held_iff_pressed_since_release(events: Seq<InputEvent>, k: Key)
    ensures
        keys_after(events).contains(k) == pressed_since_release(events, k),
    decreases events.len(),
{
    if events.len() > 0 {
        let prev = events.drop_last();
        let n = events.len() - 1;
        lemma_held_iff_pressed_since_release(prev, k);
        if events.last() == InputEvent::KeyPress(k) {
            assert(events[n] == InputEvent::KeyPress(k));
        } else if events.last() == InputEvent::KeyRelease(k) {
            if pressed_since_release(events, k) {
                let i = choose|i: int|
                    0 <= i < events.len() && #[trigger] events[i] == InputEvent::KeyPress(k)
                        && forall|j: int|
                        i < j < events.len() ==> #[trigger] events[j] != InputEvent::KeyRelease(k);
                assert(i != n);
                assert(events[n] != InputEvent::KeyRelease(k));
            }
        } else {
            if pressed_since_release(events, k) {
                let i = choose|i: int|
                    0 <= i < events.len() && #[trigger] events[i] == InputEvent::KeyPress(k)
                        && forall|j: int|
                        i < j < events.len() ==> #[trigger] events[j] != InputEvent::KeyRelease(k);
                assert(prev[i] == InputEvent::KeyPress(k));
                assert forall|j: int| i < j < prev.len() implies #[trigger] prev[j]
                    != InputEvent::KeyRelease(k) by {
                    assert(events[j] != InputEvent::KeyRelease(k));
                }
            }
            if pressed_since_release(prev, k) {
                let i = choose|i: int|
                    0 <= i < prev.len() && #[trigger] prev[i] == InputEvent::KeyPress(k)
                        && forall|j: int|
                        i < j < prev.len() ==> #[trigger] prev[j] != InputEvent::KeyRelease(k);
                assert(events[i] == InputEvent::KeyPress(k));
                assert forall|j: int| i < j < events.len() implies #[trigger] events[j]
                    != InputEvent::KeyRelease(k) by {
                    if j < n {
                        assert(prev[j] != InputEvent::KeyRelease(k));
                    }
                }
            }
        }
    }
}

/// One step of taking `gone` out of a list without repeats: `kept` holds
/// what `held[..i]` holds but `gone`, and stays without repeats once
/// `held[i]` is appended unless it is `gone`.
proof fn lemma_filter_step<T>(held: Seq<T>, i: int, pre: Seq<T>, kept: Seq<T>, gone: T)
    requires
        0 <= i < held.len(),
        held.no_duplicates(),
        pre.no_duplicates(),
        forall|x: T| #[trigger] pre.contains(x) <==> (held.subrange(0, i).contains(x) && x != gone),
        kept == (if held[i] != gone {
            pre.push(held[i])
        } else {
            pre
        }),
    ensures
        kept.no_duplicates(),
        forall|x: T| #[trigger] kept.contains(x) <==> (held.subrange(0, i + 1).contains(x) && x
            != gone),
{
    let v = held[i];
    let sub = held.subrange(0, i);
    let upto = held.subrange(0, i + 1);
    assert(upto =~= sub.push(v));
    if sub.contains(v) {
        let j = choose|j: int| 0 <= j < i && sub[j] == v;
        assert(held[j] == held[i]);
    }
    if v != gone {
        assert forall|a: int, b: int|
            0 <= a < kept.len() && 0 <= b < kept.len() && a != b implies kept[a] != kept[b] by {
            if a == pre.len() {
                assert(pre.contains(kept[b]));
            } else if b == pre.len() {
                assert(pre.contains(kept[a]));
            }
        }
    }
    assert forall|x: T| #[trigger] kept.contains(x) <==> (upto.contains(x) && x != gone) by {
        assert(pre.contains(x) <==> (sub.contains(x) && x != gone));
        if upto.contains(x) && x != gone {
            if x == v {
                assert(kept[pre.len() as int] == x);
            } else {
                let j = choose|j: int| 0 <= j < upto.len() && upto[j] == x;
                assert(sub[j] == x);
                let j2 = choose|j2: int| 0 <= j2 < pre.len() && pre[j2] == x;
                assert(kept[j2] == x);
            }
        }
        if kept.contains(x) {
            let j = choose|j: int| 0 <= j < kept.len() && kept[j] == x;
            if j < pre.len() {
                assert(pre[j] == x);
                let j3 = choose|j3: int| 0 <= j3 < sub.len() && sub[j3] == x;
                assert(upto[j3] == x);
            } else {
                assert(upto[i] == x);
            }
        }
    }
}

/// The keys and mouse buttons currently held.
pub struct StateTracker {
    held_keys: Vec<Key>,
    held_buttons: Vec<MouseButton>,
}

impl StateTracker {
    /// The set of held keys.
    pub closed spec fn keys(&self) -> Set<Key> {
        self.held_keys@.to_set()
    }

    /// The set of held buttons.
    pub closed spec fn buttons(&self) -> Set<MouseButton> {
        self.held_buttons@.to_set()
    }

    /// Each key and each button is recorded at most once.
    pub closed spec fn wf(&self) -> bool {
        self.held_keys@.no_duplicates() && self.held_buttons@.no_duplicates()
    }

    /// Nothing held.
    pub fn new() -> (r: StateTracker)
        ensures
            r.wf(),
            r.keys() == Set::<Key>::empty(),
            r.buttons() == Set::<MouseButton>::empty(),
    {
        let r = StateTracker { held_keys: Vec::new(), held_buttons: Vec::new() };
        proof {
            assert(r.keys() =~= Set::<Key>::empty());
            assert(r.buttons() =~= Set::<MouseButton>::empty());
        }
        r
    }

    /// Applies one event: a press adds, a release removes, a move changes
    /// nothing.
    pub fn update(&mut self, event: &InputEvent)
        requires
            old(self).wf(),
        ensures
            final(self).wf(),
            final(self).keys() == next_keys(old(self).keys(), *event),
            final(self).buttons() == next_buttons(old(self).buttons(), *event),
    {
        match event {
            InputEvent::KeyPress(key) => {
                if !self.is_key_held(key) {
                    let ghost before = self.held_keys@;
                    self.held_keys.push(*key);
                    proof {
                        assert(self.held_keys@ == before.push(*key));
                        assert(self.held_keys@.to_set() =~= before.to_set().insert(*key)) by {
                            assert forall|x: Key| self.held_keys@.contains(x) <==> (before.contains(
                                x,
                            ) || x == *key) by {
                                if before.contains(x) {
                                    let j = choose|j: int| 0 <= j < before.len() && before[j] == x;
                                    assert(self.held_keys@[j] == x);
                                }
                                if x == *key {
                                    assert(self.held_keys@[before.len() as int] == x);
                                }
                            }
                        }
                    }
                } else {
                    proof {
                        assert(self.keys() =~= self.keys().insert(*key));
                    }
                }
            },
            InputEvent::KeyRelease(key) => {
                let mut kept: Vec<Key> = Vec::new();
                let mut i: usize = 0;
                while i < self.held_keys.len()
                    invariant
                        i <= self.held_keys@.len(),
                        self.held_keys@.no_duplicates(),
                        kept@.no_duplicates(),
                        forall|x: Key| #[trigger] kept@.contains(x) <==> (self.held_keys@.subrange(
                            0,
                            i as int,
                        ).contains(x) && x != *key),
                    decreases self.held_keys@.len() - i,
                {
                    let k = self.held_keys[i];
                    let ghost pre = kept@;
                    if k != *key {
                        kept.push(k);
                    }
                    proof {
                        lemma_filter_step(self.held_keys@, i as int, pre, kept@, *key);
                    }
                    i = i + 1;
                }
                proof {
                    assert(self.held_keys@.subrange(0, i as int) =~= self.held_keys@);
                    assert(kept@.to_set() =~= self.held_keys@.to_set().remove(*key));
                }
                self.held_keys = kept;
            },
            InputEvent::MousePress(button) => {
                if !self.is_button_held(button) {
                    let ghost before = self.held_buttons@;
                    self.held_buttons.push(*button);
                    proof {
                        assert(self.held_buttons@ == before.push(*button));
                        assert(self.held_buttons@.to_set() =~= before.to_set().insert(*button)) by {
                            assert forall|x: MouseButton| self.held_buttons@.contains(x) <==> (
                            before.contains(x) || x == *button) by {
                                if before.contains(x) {
                                    let j = choose|j: int| 0 <= j < before.len() && before[j] == x;
                                    assert(self.held_buttons@[j] == x);
                                }
                                if x == *button {
                                    assert(self.held_buttons@[before.len() as int] == x);
                                }
                            }
                        }
                    }
                } else {
                    proof {
                        assert(self.buttons() =~= self.buttons().insert(*button));
                    }
                }
            },
            InputEvent::MouseRelease(button) => {
                let mut kept: Vec<MouseButton> = Vec::new();
                let mut i: usize = 0;
                while i < self.held_buttons.len()
                    invariant
                        i <= self.held_buttons@.len(),
                        self.held_buttons@.no_duplicates(),
                        kept@.no_duplicates(),
                        forall|x: MouseButton| #[trigger] kept@.contains(x) <==> (
                        self.held_buttons@.subrange(0, i as int).contains(x) && x != *button),
                    decreases self.held_buttons@.len() - i,
                {
                    let b = self.held_buttons[i];
                    let ghost pre = kept@;
                    if b != *button {
                        kept.push(b);
                    }
                    proof {
                        lemma_filter_step(self.held_buttons@, i as int, pre, kept@, *button);
                    }
                    i = i + 1;
                }
                proof {
                    assert(self.held_buttons@.subrange(0, i as int) =~= self.held_buttons@);
                    assert(kept@.to_set() =~= self.held_buttons@.to_set().remove(*button));
                }
                self.held_buttons = kept;
            },
            InputEvent::MouseMove { .. } => {},
        }
    }

    /// Whether `key` is currently held.
    pub fn is_key_held(&self, key: &Key) -> (r: bool)
        ensures
            r == self.keys().contains(*key),
    {
        let mut i: usize = 0;
        while i < self.held_keys.len()
            invariant
                i <= self.held_keys@.len(),
                forall|j: int| 0 <= j < i ==> self.held_keys@[j] != *key,
            decreases self.held_keys@.len() - i,
        {
            if self.held_keys[i] == *key {
                proof {
                    assert(self.held_keys@.contains(*key));
                }
                return true;
            }
            i = i + 1;
        }
        false
    }

    /// Whether `button` is currently held.
    pub fn is_button_held(&self, button: &MouseButton) -> (r: bool)
        ensures
            r == self.buttons().contains(*button),
    {
        let mut i: usize = 0;
        while i < self.held_buttons.len()
            invariant
                i <= self.held_buttons@.len(),
                forall|j: int| 0 <= j < i ==> self.held_buttons@[j] != *button,
            decreases self.held_buttons@.len() - i,
        {
            if self.held_buttons[i] == *button {
                proof {
                    assert(self.held_buttons@.contains(*button));
                }
                return true;
            }
            i = i + 1;
        }
        false
    }

    /// The held keys, each once.
    pub fn held_keys(&self) -> (r: Vec<Key>)
        ensures
            r@.to_set() == self.keys(),
            self.wf() ==> r@.no_duplicates(),
    {
        self.held_keys.clone()
    }

    /// The held buttons, each once.
    pub fn held_buttons(&self) -> (r: Vec<MouseButton>)
        ensures
            r@.to_set() == self.buttons(),
            self.wf() ==> r@.no_duplicates(),
    {
        self.held_buttons.clone()
    }
}

} // verus!
