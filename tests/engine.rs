use handplusplus::action::{unmapped_chars, Action, ActionExecutor, ExecError, InputState, Step};
use handplusplus::config::register_all_bindings;
use handplusplus::gaming::rapid_click_binding;
use handplusplus::input::{Hotkey, InputEvent, Key, Modifier, MouseButton, Trigger};
use handplusplus::processor::{EventProcessor, Reaction};
use handplusplus::registry::BindingRegistry;
use handplusplus::runner::{after_primitive, Pause, Runner};
use handplusplus::tracker::StateTracker;
use std::cell::RefCell;

struct Recorder {
    calls: RefCell<Vec<Step>>,
    fail_on: Option<Key>,
}

impl Recorder {
    fn new(fail_on: Option<Key>) -> Self {
        Recorder { calls: RefCell::new(Vec::new()), fail_on }
    }
}

impl ActionExecutor for Recorder {
    fn simulate_key(&self, key: Key, state: InputState) -> Result<(), ExecError> {
        self.calls.borrow_mut().push(Step::Key(key, state));
        if self.fail_on == Some(key) {
            Err(ExecError::Rejected)
        } else {
            Ok(())
        }
    }

    fn simulate_mouse(&self, button: MouseButton, state: InputState) -> Result<(), ExecError> {
        self.calls.borrow_mut().push(Step::Mouse(button, state));
        Ok(())
    }

    fn mouse_move_abs(&self, _x: i32, _y: i32) -> Result<(), ExecError> {
        Ok(())
    }

    fn mouse_move_rel(&self, _dx: i32, _dy: i32) -> Result<(), ExecError> {
        Ok(())
    }
}

fn all_steps(action: &Action, limit: usize) -> Vec<Step> {
    let mut runner = Runner::new(action).expect("valid program");
    let mut out = Vec::new();
    while out.len() < limit {
        match runner.next_step() {
            Some(s) => out.push(s),
            None => break,
        }
    }
    out
}

fn press(k: Key) -> Step {
    Step::Key(k, InputState::Press)
}

fn release(k: Key) -> Step {
    Step::Key(k, InputState::Release)
}

#[test]
fn tracker_press_is_idempotent_and_release_is_safe() {
    let mut t = StateTracker::new();
    assert!(!t.is_key_held(&Key::A));
    t.update(&InputEvent::KeyRelease(Key::A));
    assert!(!t.is_key_held(&Key::A));
    t.update(&InputEvent::KeyPress(Key::A));
    t.update(&InputEvent::KeyPress(Key::A));
    assert!(t.is_key_held(&Key::A));
    assert_eq!(t.held_keys(), vec![Key::A]);
    t.update(&InputEvent::KeyRelease(Key::A));
    assert!(!t.is_key_held(&Key::A));
    t.update(&InputEvent::MousePress(MouseButton::Left));
    t.update(&InputEvent::MouseMove { x: 3, y: 4 });
    assert!(t.is_button_held(&MouseButton::Left));
    t.update(&InputEvent::MouseRelease(MouseButton::Left));
    assert!(!t.is_button_held(&MouseButton::Left));
}

#[test]
fn tracker_release_keeps_other_keys() {
    let mut t = StateTracker::new();
    t.update(&InputEvent::KeyPress(Key::A));
    t.update(&InputEvent::KeyPress(Key::B));
    t.update(&InputEvent::KeyPress(Key::C));
    t.update(&InputEvent::KeyRelease(Key::B));
    assert_eq!(t.held_keys(), vec![Key::A, Key::C]);
}

#[test]
fn binding_twice_keeps_the_second_action() {
    let h = Hotkey::key(Key::F2);
    let reg = BindingRegistry::new()
        .bind(h, Action::PressKey(Key::A))
        .bind(h, Action::PressKey(Key::B));
    assert_eq!(reg.len(), 1);
    assert!(reg.is_registered(&h));
    assert!(matches!(reg.get_action(&h), Some(Action::PressKey(Key::B))));
    assert!(!reg.is_registered(&Hotkey::key(Key::F3)));
    assert!(reg.get_action(&Hotkey::key(Key::F3)).is_none());
}

#[test]
fn combo_ignores_modifier_order() {
    let a = Hotkey::combo(&[Modifier::Ctrl, Modifier::Shift], Trigger::Key(Key::P));
    let b = Hotkey::combo(&[Modifier::Shift, Modifier::Ctrl, Modifier::Shift], Trigger::Key(Key::P));
    assert_eq!(a, b);
    assert_eq!(a.modifiers.count(), 2);
    let reg = BindingRegistry::new().bind(a, Action::PressKey(Key::A)).bind(b, Action::PressKey(Key::B));
    assert_eq!(reg.len(), 1);
}

#[test]
fn ctrl_held_selects_the_more_specific_binding() {
    let plain = Hotkey::key(Key::P);
    let ctrl = Hotkey::combo(&[Modifier::Ctrl], Trigger::Key(Key::P));
    let reg = BindingRegistry::new()
        .bind(plain, Action::PressKey(Key::A))
        .bind(ctrl, Action::PressKey(Key::B));
    let mut p = EventProcessor::new(reg);
    assert!(matches!(p.process_event(InputEvent::KeyPress(Key::Ctrl)), Reaction::Idle));
    assert!(matches!(p.process_event(InputEvent::KeyPress(Key::P)), Reaction::Run(h) if h == ctrl));
    assert!(matches!(p.process_event(InputEvent::KeyRelease(Key::P)), Reaction::Idle));
    assert!(matches!(p.process_event(InputEvent::KeyRelease(Key::Ctrl)), Reaction::Idle));
    assert!(matches!(p.process_event(InputEvent::KeyPress(Key::P)), Reaction::Run(h) if h == plain));
    assert!(matches!(p.action_for(&ctrl), Some(Action::PressKey(Key::B))));
}

#[test]
fn equally_specific_bindings_resolve_to_the_latest() {
    let ctrl = Hotkey::combo(&[Modifier::Ctrl], Trigger::Key(Key::P));
    let shift = Hotkey::combo(&[Modifier::Shift], Trigger::Key(Key::P));
    let reg = BindingRegistry::new()
        .bind(ctrl, Action::PressKey(Key::A))
        .bind(shift, Action::PressKey(Key::B));
    let mut p = EventProcessor::new(reg);
    p.process_event(InputEvent::KeyPress(Key::Ctrl));
    p.process_event(InputEvent::KeyPress(Key::Shift));
    assert!(matches!(p.process_event(InputEvent::KeyPress(Key::P)), Reaction::Run(h) if h == shift));
}

#[test]
fn modifier_trigger_does_not_qualify_itself() {
    let ctrl_alone = Hotkey::key(Key::Ctrl);
    let reg = BindingRegistry::new().bind(ctrl_alone, Action::PressKey(Key::A));
    let mut p = EventProcessor::new(reg);
    assert!(matches!(p.process_event(InputEvent::KeyPress(Key::Ctrl)), Reaction::Run(h) if h == ctrl_alone));
    assert!(matches!(p.process_event(InputEvent::KeyPress(Key::Ctrl)), Reaction::Run(h) if h == ctrl_alone));
}

#[test]
fn repeat_starts_once_and_stops_on_release() {
    let (hotkey, action) = rapid_click_binding();
    let reg = BindingRegistry::new().bind(hotkey, action);
    let mut p = EventProcessor::new(reg);
    assert!(matches!(
        p.process_event(InputEvent::MousePress(MouseButton::Button4)),
        Reaction::StartHeld(h) if h == hotkey
    ));
    assert!(p.is_sustaining(&hotkey));
    assert!(matches!(p.process_event(InputEvent::MousePress(MouseButton::Button4)), Reaction::Idle));
    assert!(matches!(p.process_event(InputEvent::MouseMove { x: 1, y: 1 }), Reaction::Idle));
    match p.process_event(InputEvent::MouseRelease(MouseButton::Button4)) {
        Reaction::EndHeld(v) => assert_eq!(v, vec![hotkey]),
        other => panic!("unexpected {:?}", other),
    }
    assert!(!p.is_sustaining(&hotkey));
    assert!(matches!(p.process_event(InputEvent::MouseRelease(MouseButton::Button4)), Reaction::Idle));
    assert!(matches!(
        p.process_event(InputEvent::MousePress(MouseButton::Button4)),
        Reaction::StartHeld(_)
    ));
    assert_eq!(p.shutdown(), vec![hotkey]);
    assert!(!p.is_sustaining(&hotkey));
}

#[test]
fn unbound_press_is_idle() {
    let mut p = EventProcessor::new(BindingRegistry::new());
    assert!(matches!(p.process_event(InputEvent::KeyPress(Key::Q)), Reaction::Idle));
}

#[test]
fn sequence_stops_at_the_first_failure() {
    let action = Action::Sequence(vec![
        Action::PressKey(Key::A),
        Action::PressKey(Key::B),
        Action::PressKey(Key::C),
    ]);
    let exec = Recorder::new(Some(Key::B));
    let mut runner = Runner::new(&action).unwrap();
    match runner.run_until_pause(&exec) {
        Pause::Failed(step, err) => {
            assert_eq!(step, press(Key::B));
            assert_eq!(err, ExecError::Rejected);
        },
        other => panic!("unexpected {:?}", other),
    }
    assert_eq!(*exec.calls.borrow(), vec![press(Key::A), release(Key::A), press(Key::B)]);
}

#[test]
fn sequence_pauses_at_delays_and_finishes() {
    let action = Action::Sequence(vec![
        Action::Click(MouseButton::Left),
        Action::Delay(30),
        Action::PressKey(Key::Enter),
    ]);
    let exec = Recorder::new(None);
    let mut runner = Runner::new(&action).unwrap();
    assert!(matches!(runner.run_until_pause(&exec), Pause::Sleep(30)));
    assert!(matches!(runner.run_until_pause(&exec), Pause::Finished));
    assert_eq!(
        *exec.calls.borrow(),
        vec![
            Step::Mouse(MouseButton::Left, InputState::Press),
            Step::Mouse(MouseButton::Left, InputState::Release),
            press(Key::Enter),
            release(Key::Enter),
        ]
    );
}

#[test]
fn type_text_brackets_shifted_characters() {
    let steps = all_steps(&Action::TypeText("Hi!".to_string()), 100);
    assert_eq!(
        steps,
        vec![
            press(Key::Shift),
            press(Key::H),
            release(Key::H),
            release(Key::Shift),
            press(Key::I),
            release(Key::I),
            press(Key::Shift),
            press(Key::Num1),
            release(Key::Num1),
            release(Key::Shift),
        ]
    );
}

#[test]
fn type_text_skips_unmapped_characters() {
    let steps = all_steps(&Action::TypeText("a~1".to_string()), 100);
    assert_eq!(steps, vec![press(Key::A), release(Key::A), press(Key::Num1), release(Key::Num1)]);
}

#[test]
fn degenerate_random_delay_is_a_delay() {
    assert_eq!(all_steps(&Action::RandomDelay { min: 10, max: 10 }, 10), vec![Step::Wait(10)]);
    assert_eq!(all_steps(&Action::Delay(10), 10), vec![Step::Wait(10)]);
}

#[test]
fn random_delay_stays_in_range() {
    for _ in 0..50 {
        let steps = all_steps(&Action::RandomDelay { min: 5, max: 8 }, 10);
        assert_eq!(steps.len(), 1);
        match steps[0] {
            Step::Wait(ms) => assert!((5..=8).contains(&ms)),
            other => panic!("unexpected {:?}", other),
        }
    }
}

#[test]
fn inverted_random_range_is_rejected() {
    assert!(Runner::new(&Action::RandomDelay { min: 8, max: 5 }).is_none());
    let nested = Action::Sequence(vec![Action::PressKey(Key::A), Action::RandomDelay { min: 2, max: 1 }]);
    assert!(Runner::new(&nested).is_none());
}

#[test]
fn repeat_loops_over_body_and_interval() {
    let (_, action) = rapid_click_binding();
    let click = [
        Step::Mouse(MouseButton::Right, InputState::Press),
        Step::Mouse(MouseButton::Right, InputState::Release),
        Step::Wait(50),
        Step::Wait(50),
    ];
    let steps = all_steps(&action, 8);
    let expected: Vec<Step> = click.iter().chain(click.iter()).copied().collect();
    assert_eq!(steps, expected);
}

#[test]
fn sequence_after_a_repeat_is_never_reached() {
    let action = Action::Sequence(vec![
        Action::PressKey(Key::A),
        Action::RepeatWhileHeld { actions: vec![Action::PressKey(Key::B)], interval: 20 },
        Action::PressKey(Key::C),
    ]);
    let steps = all_steps(&action, 8);
    assert_eq!(
        steps,
        vec![
            press(Key::A),
            release(Key::A),
            press(Key::B),
            release(Key::B),
            Step::Wait(20),
            press(Key::B),
            release(Key::B),
            Step::Wait(20),
        ]
    );
}

#[test]
fn cancel_releases_what_is_held() {
    let action = Action::RepeatWhileHeld {
        actions: vec![Action::HoldKey(Key::W), Action::Delay(5), Action::ReleaseKey(Key::W)],
        interval: 10,
    };
    let exec = Recorder::new(None);
    let mut runner = Runner::new(&action).unwrap();
    assert!(matches!(runner.run_until_pause(&exec), Pause::Sleep(5)));
    assert_eq!(runner.cancel(), vec![release(Key::W)]);
    assert!(runner.next_step().is_none());
    assert!(runner.cancel().is_empty());
}

#[test]
fn hold_and_release_are_single_calls() {
    assert_eq!(all_steps(&Action::HoldKey(Key::Alt), 10), vec![press(Key::Alt)]);
    assert_eq!(all_steps(&Action::ReleaseKey(Key::Alt), 10), vec![release(Key::Alt)]);
}

#[test]
fn configured_bindings() {
    let reg = register_all_bindings();
    assert_eq!(reg.len(), 3);
    assert!(matches!(reg.get_action(&Hotkey::key(Key::F1)), Some(Action::PressKey(Key::Enter))));
    assert!(matches!(
        reg.get_action(&Hotkey::mouse(MouseButton::Button4)),
        Some(Action::Click(MouseButton::Right))
    ));
    let palette = Hotkey::combo(&[Modifier::Shift, Modifier::Ctrl], Trigger::Key(Key::P));
    match reg.get_action(&palette) {
        Some(Action::Sequence(v)) => {
            assert_eq!(v.len(), 1);
            assert!(matches!(v[0], Action::Delay(100)));
        },
        _ => panic!("palette binding missing"),
    }
}

#[test]
fn rapid_click_is_a_repeat_on_button4() {
    let (hotkey, action) = rapid_click_binding();
    assert_eq!(hotkey, Hotkey::mouse(MouseButton::Button4));
    match action {
        Action::RepeatWhileHeld { actions, interval } => {
            assert_eq!(interval, 50);
            assert_eq!(actions.len(), 2);
            assert!(matches!(actions[0], Action::Click(MouseButton::Right)));
            assert!(matches!(actions[1], Action::Delay(50)));
        },
        _ => panic!("not a repeat"),
    }
}

#[test]
fn equally_specific_rivals_are_reported() {
    let ctrl = Hotkey::combo(&[Modifier::Ctrl], Trigger::Key(Key::P));
    let shift = Hotkey::combo(&[Modifier::Shift], Trigger::Key(Key::P));
    let plain = Hotkey::key(Key::P);
    let other = Hotkey::combo(&[Modifier::Alt], Trigger::Key(Key::Q));
    let reg = BindingRegistry::new()
        .bind(ctrl, Action::PressKey(Key::A))
        .bind(plain, Action::PressKey(Key::B))
        .bind(shift, Action::PressKey(Key::C))
        .bind(other, Action::PressKey(Key::D));
    assert_eq!(reg.ambiguous_with(&ctrl), vec![shift]);
    assert_eq!(reg.ambiguous_with(&plain), Vec::<Hotkey>::new());
    assert_eq!(reg.hotkeys(), vec![ctrl, plain, shift, other]);
}

#[test]
fn rebinding_moves_the_hotkey_last() {
    let a = Hotkey::key(Key::A);
    let b = Hotkey::key(Key::B);
    let reg = BindingRegistry::new()
        .bind(a, Action::PressKey(Key::A))
        .bind(b, Action::PressKey(Key::B))
        .bind(a, Action::PressKey(Key::C));
    assert_eq!(reg.hotkeys(), vec![b, a]);
}

#[test]
fn unmapped_characters_are_listed() {
    assert_eq!(unmapped_chars("a~b\u{20ac}C"), vec!['~', '\u{20ac}']);
    assert!(unmapped_chars("Hi!").is_empty());
}

#[test]
fn held_key_binding_is_released_with_its_trigger() {
    let h = Hotkey::key(Key::F5);
    let reg = BindingRegistry::new().bind(h, Action::HoldKey(Key::Shift));
    let mut p = EventProcessor::new(reg);
    assert!(matches!(p.process_event(InputEvent::KeyPress(Key::F5)), Reaction::StartHeld(x) if x == h));
    assert!(matches!(p.process_event(InputEvent::KeyPress(Key::F5)), Reaction::Idle));
    match p.process_event(InputEvent::KeyRelease(Key::F5)) {
        Reaction::EndHeld(v) => assert_eq!(v, vec![h]),
        other => panic!("unexpected {:?}", other),
    }
    let end = p.action_for(&h).and_then(|a| a.release_on_end());
    assert_eq!(end, Some(release(Key::Shift)));
    assert_eq!(Action::PressKey(Key::A).release_on_end(), None);
}

#[test]
fn failed_press_skips_the_release() {
    let exec = Recorder::new(Some(Key::B));
    let mut runner = Runner::new(&Action::PressKey(Key::B)).unwrap();
    match runner.run_until_pause(&exec) {
        Pause::Failed(step, err) => {
            assert_eq!(step, press(Key::B));
            assert_eq!(err, ExecError::Rejected);
        },
        other => panic!("unexpected {:?}", other),
    }
    assert_eq!(*exec.calls.borrow(), vec![press(Key::B)]);
}

#[test]
fn hold_key_is_one_call_and_finishes() {
    let exec = Recorder::new(None);
    let mut runner = Runner::new(&Action::HoldKey(Key::A)).unwrap();
    assert!(matches!(runner.run_until_pause(&exec), Pause::Finished));
    assert_eq!(*exec.calls.borrow(), vec![press(Key::A)]);
    assert_eq!(runner.cancel(), vec![release(Key::A)]);
}

#[test]
fn empty_sequence_finishes_without_calls() {
    let exec = Recorder::new(None);
    let mut runner = Runner::new(&Action::Sequence(vec![])).unwrap();
    assert!(matches!(runner.run_until_pause(&exec), Pause::Finished));
    assert!(exec.calls.borrow().is_empty());
}

#[test]
fn executor_answer_decides_the_run() {
    assert!(after_primitive(press(Key::A), Ok(())).is_none());
    assert!(matches!(
        after_primitive(press(Key::A), Err(ExecError::Unavailable)),
        Some(Pause::Failed(s, ExecError::Unavailable)) if s == press(Key::A)
    ));
}
