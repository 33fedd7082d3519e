use vstd::prelude::*;
use crate::action::Action;
use crate::input::{Hotkey, ModifierSet, MouseButton, Trigger};

verus! {

/// Holding mouse button 4 right-clicks every 50 ms: a click and a 50 ms
/// pause, repeated at a 50 ms interval.
pub fn rapid_click_binding() -> (r: (Hotkey, Action))
    ensures
        r.0 == (Hotkey {
            modifiers: ModifierSet { ctrl: false, shift: false, alt: false, meta: false },
            trigger: Trigger::MouseButton(MouseButton::Button4),
        }),
        r.1 matches Action::RepeatWhileHeld { actions, interval } && interval == 50 && actions@
            == seq![Action::Click(MouseButton::Right), Action::Delay(50)],
{
    let hotkey = Hotkey::mouse(MouseButton::Button4);
    proof {
        assert(!hotkey.modifiers.has(crate::input::Modifier::Ctrl));
        assert(!hotkey.modifiers.has(crate::input::Modifier::Shift));
        assert(!hotkey.modifiers.has(crate::input::Modifier::Alt));
        assert(!hotkey.modifiers.has(crate::input::Modifier::Meta));
    }
    let action = Action::RepeatWhileHeld {
        actions: vec![Action::Click(MouseButton::Right), Action::Delay(50)],
        interval: 50,
    };
    (hotkey, action)
}

} // verus!
