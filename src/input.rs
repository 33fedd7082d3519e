use vstd::prelude::*;

verus! {

/// A platform-independent input event.
#[derive(Debug, Clone, Copy, PartialEq, Eq, Structural)]
pub enum InputEvent {
    KeyPress(Key),
    KeyRelease(Key),
    MousePress(MouseButton),
    MouseRelease(MouseButton),
    MouseMove { x: i32, y: i32 },
}

/// Keyboard keys.
#[derive(Debug, Clone, Copy, PartialEq, Eq, Hash, Structural)]
pub enum Key {
    A, B, C, D, E, F, G, H, I, J, K, L, M,
    N, O, P, Q, R, S, T, U, V, W, X, Y, Z,
    Num0, Num1, Num2, Num3, Num4, Num5, Num6, Num7, Num8, Num9,
    Ctrl, Shift, Alt, Meta,
    F1, F2, F3, F4, F5, F6, F7, F8, F9, F10, F11, F12,
    Enter, Escape, Space, Tab, Backspace,
}

/// Mouse buttons.
#[derive(Debug, Clone, Copy, PartialEq, Eq, Hash, Structural)]
pub enum MouseButton {
    Left,
    Right,
    Middle,
    /// Side button (back).
    Button4,
    /// Side button (forward).
    Button5,
}

/// Modifiers for hotkey combinations.
#[derive(Debug, Clone, Copy, PartialEq, Eq, Hash, Structural)]
pub enum Modifier {
    Ctrl,
    Shift,
    Alt,
    Meta,
}

/// An unordered set of modifiers, one flag per modifier, so that two sets
/// built in different orders are equal.
#[derive(Debug, Clone, Copy, PartialEq, Eq, Hash, Structural)]
pub struct ModifierSet {
    pub ctrl: bool,
    pub shift: bool,
    pub alt: bool,
    pub meta: bool,
}

/// The key or button whose transition a hotkey reacts to.
#[derive(Debug, Clone, Copy, PartialEq, Eq, Hash, Structural)]
pub enum Trigger {
    Key(Key),
    MouseButton(MouseButton),
}

/// A hotkey: a set of modifiers plus one trigger.
#[derive(Debug, Clone, Copy, PartialEq, Eq, Hash, Structural)]
pub struct Hotkey {
    pub modifiers: ModifierSet,
    pub trigger: Trigger,
}

/// The modifier that a key stands for, if it is a modifier key.
pub open spec fn key_modifier(k: Key) -> Option<Modifier> {
    match k {
        Key::Ctrl => Some(Modifier::Ctrl),
        Key::Shift => Some(Modifier::Shift),
        Key::Alt => Some(Modifier::Alt),
        Key::Meta => Some(Modifier::Meta),
        _ => None,
    }
}

/// The modifier that a key stands for, if it is a modifier key.
pub fn modifier_of_key(k: Key) -> (r: Option<Modifier>)
    ensures
        r == key_modifier(k),
{
    match k {
        Key::Ctrl => Some(Modifier::Ctrl),
        Key::Shift => Some(Modifier::Shift),
        Key::Alt => Some(Modifier::Alt),
        Key::Meta => Some(Modifier::Meta),
        _ => None,
    }
}

impl ModifierSet {
    /// Membership of one modifier.
    pub open spec fn has(self, m: Modifier) -> bool {
        match m {
            Modifier::Ctrl => self.ctrl,
            Modifier::Shift => self.shift,
            Modifier::Alt => self.alt,
            Modifier::Meta => self.meta,
        }
    }

    /// This set without `m`.
    pub open spec fn removed(self, m: Modifier) -> ModifierSet {
        match m {
            Modifier::Ctrl => ModifierSet { ctrl: false, ..self },
            Modifier::Shift => ModifierSet { shift: false, ..self },
            Modifier::Alt => ModifierSet { alt: false, ..self },
            Modifier::Meta => ModifierSet { meta: false, ..self },
        }
    }

    /// Every modifier of `self` is in `other`.
    pub open spec fn subset_of(self, other: ModifierSet) -> bool {
        forall|m: Modifier| self.has(m) ==> other.has(m)
    }

    /// Number of modifiers in the set (its specificity).
    pub open spec fn size(self) -> nat {
        (if self.ctrl { 1nat } else { 0nat }) + (if self.shift { 1nat } else { 0nat })
            + (if self.alt { 1nat } else { 0nat }) + (if self.meta { 1nat } else { 0nat })
    }

    /// The empty set.
    pub fn empty() -> (r: ModifierSet)
        ensures
            r.size() == 0,
            forall|m: Modifier| !r.has(m),
    {
        ModifierSet { ctrl: false, shift: false, alt: false, meta: false }
    }

    /// The set of the modifiers listed, in any order and with repeats.
    pub fn from_slice(mods: &[Modifier]) -> (r: ModifierSet)
        ensures
            forall|m: Modifier| r.has(m) <==> mods@.contains(m),
    {
        let mut r = ModifierSet::empty();
        let mut i: usize = 0;
        while i < mods.len()
            invariant
                i <= mods@.len(),
                forall|m: Modifier| r.has(m) <==> mods@.subrange(0, i as int).contains(m),
            decreases mods@.len() - i,
        {
            let m = mods[i];
            r = r.with(m);
            proof {
                assert(mods@.subrange(0, i + 1) =~= mods@.subrange(0, i as int).push(m));
                assert forall|x: Modifier| r.has(x) <==> mods@.subrange(0, i + 1).contains(x) by {
                    if x == m {
                        assert(mods@.subrange(0, i + 1)[i as int] == m);
                    }
                    if mods@.subrange(0, i + 1).contains(x) && x != m {
                        let j = choose|j: int| 0 <= j < i + 1 && #[trigger] mods@.subrange(0, i + 1)[j] == x;
                        assert(mods@.subrange(0, i as int)[j] == x);
                    }
                }
            }
            i = i + 1;
        }
        proof {
            assert(mods@.subrange(0, mods@.len() as int) =~= mods@);
        }
        r
    }

    /// This set with `m` added.
    pub fn with(self, m: Modifier) -> (r: ModifierSet)
        ensures
            forall|x: Modifier| r.has(x) <==> (self.has(x) || x == m),
    {
        match m {
            Modifier::Ctrl => ModifierSet { ctrl: true, ..self },
            Modifier::Shift => ModifierSet { shift: true, ..self },
            Modifier::Alt => ModifierSet { alt: true, ..self },
            Modifier::Meta => ModifierSet { meta: true, ..self },
        }
    }

    /// This set with `m` taken out.
    pub fn without(self, m: Modifier) -> (r: ModifierSet)
        ensures
            r == self.removed(m),
            forall|x: Modifier| r.has(x) <==> (self.has(x) && x != m),
    {
        match m {
            Modifier::Ctrl => ModifierSet { ctrl: false, ..self },
            Modifier::Shift => ModifierSet { shift: false, ..self },
            Modifier::Alt => ModifierSet { alt: false, ..self },
            Modifier::Meta => ModifierSet { meta: false, ..self },
        }
    }

    /// Whether `m` is in the set.
    pub fn contains(&self, m: Modifier) -> (r: bool)
        ensures
            r == self.has(m),
    {
        match m {
            Modifier::Ctrl => self.ctrl,
            Modifier::Shift => self.shift,
            Modifier::Alt => self.alt,
            Modifier::Meta => self.meta,
        }
    }

    /// Whether every modifier of `self` is in `other`.
    pub fn is_subset(&self, other: &ModifierSet) -> (r: bool)
        ensures
            r == self.subset_of(*other),
    {
        let r = (!self.ctrl || other.ctrl) && (!self.shift || other.shift) && (!self.alt
            || other.alt) && (!self.meta || other.meta);
        proof {
            if r {
                assert forall|m: Modifier| self.has(m) implies other.has(m) by {
                    match m {
                        Modifier::Ctrl => {},
                        Modifier::Shift => {},
                        Modifier::Alt => {},
                        Modifier::Meta => {},
                    }
                }
            } else if self.ctrl && !other.ctrl {
                assert(self.has(Modifier::Ctrl) && !other.has(Modifier::Ctrl));
            } else if self.shift && !other.shift {
                assert(self.has(Modifier::Shift) && !other.has(Modifier::Shift));
            } else if self.alt && !other.alt {
                assert(self.has(Modifier::Alt) && !other.has(Modifier::Alt));
            } else {
                assert(self.has(Modifier::Meta) && !other.has(Modifier::Meta));
            }
        }
        r
    }

    /// Number of modifiers in the set.
    pub fn count(&self) -> (r: u8)
        ensures
            r as nat == self.size(),
    {
        let mut n: u8 = 0;
        if self.ctrl {
            n = n + 1;
        }
        if self.shift {
            n = n + 1;
        }
        if self.alt {
            n = n + 1;
        }
        if self.meta {
            n = n + 1;
        }
        n
    }
}

impl Hotkey {
    /// A hotkey on a key, without modifiers.
    pub fn key(key: Key) -> (r: Hotkey)
        ensures
            r.trigger == Trigger::Key(key),
            r.modifiers.size() == 0,
            forall|m: Modifier| !r.modifiers.has(m),
    {
        Hotkey { modifiers: ModifierSet::empty(), trigger: Trigger::Key(key) }
    }

    /// A hotkey on a mouse button, without modifiers.
    pub fn mouse(button: MouseButton) -> (r: Hotkey)
        ensures
            r.trigger == Trigger::MouseButton(button),
            r.modifiers.size() == 0,
            forall|m: Modifier| !r.modifiers.has(m),
    {
        Hotkey { modifiers: ModifierSet::empty(), trigger: Trigger::MouseButton(button) }
    }

    /// A hotkey on `trigger` with the modifiers listed, in any order.
    pub fn combo(modifiers: &[Modifier], trigger: Trigger) -> (r: Hotkey)
        ensures
            r.trigger == trigger,
            forall|m: Modifier| r.modifiers.has(m) <==> modifiers@.contains(m),
    {
        Hotkey { modifiers: ModifierSet::from_slice(modifiers), trigger }
    }
}

} // verus!
