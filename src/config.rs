use vstd::prelude::*;
use crate::action::Action;
use crate::input::{Hotkey, Key, Modifier, ModifierSet, MouseButton, Trigger};
use crate::registry::{lookup, unbound, BindingRegistry};

verus! {

/// The modifier set with exactly the flags given.
pub open spec fn mods(ctrl: bool, shift: bool, alt: bool, meta: bool) -> ModifierSet {
    ModifierSet { ctrl, shift, alt, meta }
}

/// The bindings defined by this configuration: F1 presses Enter, mouse
/// button 4 right-clicks, and Ctrl+Shift+P runs a short sequence.
pub fn register_all_bindings() -> (r: BindingRegistry)
    ensures
        r.wf(),
        r.entries().len() == 3,
        lookup(
            r.entries(),
            Hotkey { modifiers: mods(false, false, false, false), trigger: Trigger::Key(Key::F1) },
        ) == Some(Action::PressKey(Key::Enter)),
        lookup(
            r.entries(),
            Hotkey {
                modifiers: mods(false, false, false, false),
                trigger: Trigger::MouseButton(MouseButton::Button4),
            },
        ) == Some(Action::Click(MouseButton::Right)),
        lookup(
            r.entries(),
            Hotkey { modifiers: mods(true, true, false, false), trigger: Trigger::Key(Key::P) },
        ) matches Some(Action::Sequence(v)) && v@ == seq![Action::Delay(100)],
{
    let f1 = Hotkey::key(Key::F1);
    let side = Hotkey::mouse(MouseButton::Button4);
    let palette = Hotkey::combo(&[Modifier::Ctrl, Modifier::Shift], Trigger::Key(Key::P));
    proof {
        assert(!f1.modifiers.has(Modifier::Ctrl) && !f1.modifiers.has(Modifier::Shift)
            && !f1.modifiers.has(Modifier::Alt) && !f1.modifiers.has(Modifier::Meta));
        assert(!side.modifiers.has(Modifier::Ctrl) && !side.modifiers.has(Modifier::Shift)
            && !side.modifiers.has(Modifier::Alt) && !side.modifiers.has(Modifier::Meta));
        let l = seq![Modifier::Ctrl, Modifier::Shift];
        assert(l[0] == Modifier::Ctrl && l[1] == Modifier::Shift);
        assert(palette.modifiers.has(Modifier::Ctrl) && palette.modifiers.has(Modifier::Shift));
        assert(!palette.modifiers.has(Modifier::Alt) && !palette.modifiers.has(Modifier::Meta));
    }
    let seq_action = Action::Sequence(vec![Action::Delay(100)]);
    let r0 = BindingRegistry::new();
    let r1 = r0.bind(f1, Action::PressKey(Key::Enter));
    let r2 = r1.bind(side, Action::Click(MouseButton::Right));
    let r3 = r2.bind(palette, seq_action);
    proof {
        assert(r1.entries().len() == 1);
        assert(unbound(r1.entries(), side).len() == 1) by {
            reveal_with_fuel(unbound, 2);
        }
        assert(unbound(r2.entries(), palette).len() == 2) by {
            let e = r2.entries();
            assert(e.drop_last().drop_last().len() == 0);
            reveal_with_fuel(unbound, 3);
        }
    }
    r3
}

} // verus!
