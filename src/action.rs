use vstd::prelude::*;
use crate::input::{Key, MouseButton};

verus! {

/// Key or button state.
#[derive(Debug, Clone, Copy, PartialEq, Eq, Structural)]
pub enum InputState {
    Press,
    Release,
}

/// Failure reported by an executor primitive.
#[derive(Debug, Clone, Copy, PartialEq, Eq, Structural)]
pub enum ExecError {
    /// The platform refused the synthetic input.
    Rejected,
    /// No injection backend is available.
    Unavailable,
}

/// Platform primitive for simulating input; one implementation per platform.
pub trait ActionExecutor {
    /// Simulate a key press or release.
    fn simulate_key(&self, key: Key, state: InputState) -> Result<(), ExecError>;

    /// Simulate a mouse button press or release.
    fn simulate_mouse(&self, button: MouseButton, state: InputState) -> Result<(), ExecError>;

    /// Move the pointer to an absolute position.
    fn mouse_move_abs(&self, x: i32, y: i32) -> Result<(), ExecError>;

    /// Move the pointer by a relative offset.
    fn mouse_move_rel(&self, dx: i32, dy: i32) -> Result<(), ExecError>;
}

/// High-level actions composed of executor primitives. Durations are in
/// milliseconds.
#[derive(Debug)]
pub enum Action {
    /// Press and release a key.
    PressKey(Key),
    /// Press and release a mouse button.
    Click(MouseButton),
    /// Press a key without releasing it.
    HoldKey(Key),
    /// Release a key.
    ReleaseKey(Key),
    /// Actions executed in order; the first failure stops the rest.
    Sequence(Vec<Action>),
    /// Run `actions` as a sequence, wait `interval`, and again, until cancelled.
    RepeatWhileHeld { actions: Vec<Action>, interval: u64 },
    /// Suspend for the given number of milliseconds.
    Delay(u64),
    /// Suspend for a number of milliseconds drawn uniformly from `[min, max]`.
    RandomDelay { min: u64, max: u64 },
    /// Type a text string through the character table.
    TypeText(String),
}

/// One primitive of an action's program.
#[derive(Debug, Clone, Copy, PartialEq, Eq, Structural)]
pub enum Step {
    Key(Key, InputState),
    Mouse(MouseButton, InputState),
    /// Suspend for the given number of milliseconds.
    Wait(u64),
    /// Suspend for a number of milliseconds drawn from `[lo, hi]`.
    WaitBetween(u64, u64),
}

impl Step {
    /// A suspension point.
    pub open spec fn is_wait(self) -> bool {
        self is Wait || self is WaitBetween
    }
}

/// The key for letter number `i` of the alphabet.
pub open spec fn letter_key(i: int) -> Key {
    if i == 0 { Key::A } else if i == 1 { Key::B } else if i == 2 { Key::C }
    else if i == 3 { Key::D } else if i == 4 { Key::E } else if i == 5 { Key::F }
    else if i == 6 { Key::G } else if i == 7 { Key::H } else if i == 8 { Key::I }
    else if i == 9 { Key::J } else if i == 10 { Key::K } else if i == 11 { Key::L }
    else if i == 12 { Key::M } else if i == 13 { Key::N } else if i == 14 { Key::O }
    else if i == 15 { Key::P } else if i == 16 { Key::Q } else if i == 17 { Key::R }
    else if i == 18 { Key::S } else if i == 19 { Key::T } else if i == 20 { Key::U }
    else if i == 21 { Key::V } else if i == 22 { Key::W } else if i == 23 { Key::X }
    else if i == 24 { Key::Y } else { Key::Z }
}

/// The key for digit `i`.
pub open spec fn digit_key(i: int) -> Key {
    if i == 0 { Key::Num0 } else if i == 1 { Key::Num1 } else if i == 2 { Key::Num2 }
    else if i == 3 { Key::Num3 } else if i == 4 { Key::Num4 } else if i == 5 { Key::Num5 }
    else if i == 6 { Key::Num6 } else if i == 7 { Key::Num7 } else if i == 8 { Key::Num8 }
    else { Key::Num9 }
}

/// The character table: the key that types `c`, and whether Shift is needed.
/// Shifted digits give the US-layout symbols.
pub open spec fn char_key(c: char) -> Option<(Key, bool)> {
    let u = c as u32;
    if 'a' as u32 <= u && u <= 'z' as u32 {
        Some((letter_key(u - 'a' as u32), false))
    } else if 'A' as u32 <= u && u <= 'Z' as u32 {
        Some((letter_key(u - 'A' as u32), true))
    } else if '0' as u32 <= u && u <= '9' as u32 {
        Some((digit_key(u - '0' as u32), false))
    } else if c == '!' { Some((Key::Num1, true)) }
    else if c == '@' { Some((Key::Num2, true)) }
    else if c == '#' { Some((Key::Num3, true)) }
    else if c == '$' { Some((Key::Num4, true)) }
    else if c == '%' { Some((Key::Num5, true)) }
    else if c == '^' { Some((Key::Num6, true)) }
    else if c == '&' { Some((Key::Num7, true)) }
    else if c == '*' { Some((Key::Num8, true)) }
    else if c == '(' { Some((Key::Num9, true)) }
    else if c == ')' { Some((Key::Num0, true)) }
    else if c == ' ' { Some((Key::Space, false)) }
    else if c == '\n' { Some((Key::Enter, false)) }
    else if c == '\t' { Some((Key::Tab, false)) }
    else { None }
}

/// The steps that type one character: Shift brackets the key when needed;
/// an unmapped character gives none.
pub open spec fn char_steps(c: char) -> Seq<Step> {
    match char_key(c) {
        None => seq![],
        Some((k, shift)) => if shift {
            seq![
                Step::Key(Key::Shift, InputState::Press),
                Step::Key(k, InputState::Press),
                Step::Key(k, InputState::Release),
                Step::Key(Key::Shift, InputState::Release),
            ]
        } else {
            seq![Step::Key(k, InputState::Press), Step::Key(k, InputState::Release)]
        },
    }
}

/// The steps that type a text, character after character.
pub open spec fn text_steps(s: Seq<char>) -> Seq<Step>
    decreases s.len(),
{
    if s.len() == 0 {
        seq![]
    } else {
        text_steps(s.drop_last()) + char_steps(s.last())
    }
}

/// The program of an action: the steps run once, then the steps repeated
/// until cancellation (empty where the action does not repeat).
pub open spec fn program(a: Action) -> (Seq<Step>, Seq<Step>)
    decreases a, 0nat,
{
    match a {
        Action::PressKey(k) => (
            seq![Step::Key(k, InputState::Press), Step::Key(k, InputState::Release)],
            seq![],
        ),
        Action::Click(b) => (
            seq![Step::Mouse(b, InputState::Press), Step::Mouse(b, InputState::Release)],
            seq![],
        ),
        Action::HoldKey(k) => (seq![Step::Key(k, InputState::Press)], seq![]),
        Action::ReleaseKey(k) => (seq![Step::Key(k, InputState::Release)], seq![]),
        Action::Sequence(v) => program_list(v@, 0),
        Action::RepeatWhileHeld { actions, interval } => {
            let body = program_list(actions@, 0);
            if body.1.len() > 0 {
                body
            } else {
                (seq![], body.0.push(Step::Wait(interval)))
            }
        },
        Action::Delay(d) => (seq![Step::Wait(d)], seq![]),
        Action::RandomDelay { min, max } => (seq![Step::WaitBetween(min, max)], seq![]),
        Action::TypeText(t) => (text_steps(t@), seq![]),
    }
}

/// The program of the actions `s[i..]` run as a sequence: once an element
/// repeats forever, the elements after it are never reached.
pub open spec fn program_list(s: Seq<Action>, i: int) -> (Seq<Step>, Seq<Step>)
    decreases s, (s.len() - i) as nat,
{
    if i < 0 || i >= s.len() {
        (seq![], seq![])
    } else {
        let first = program(s[i]);
        if first.1.len() > 0 {
            first
        } else {
            let rest = program_list(s, i + 1);
            (first.0 + rest.0, rest.1)
        }
    }
}

/// The key for letter number `i` of the alphabet.
fn letter(i: u32) -> (r: Key)
    ensures
        r == letter_key(i as int),
{
    match i {
        0 => Key::A, 1 => Key::B, 2 => Key::C, 3 => Key::D, 4 => Key::E, 5 => Key::F,
        6 => Key::G, 7 => Key::H, 8 => Key::I, 9 => Key::J, 10 => Key::K, 11 => Key::L,
        12 => Key::M, 13 => Key::N, 14 => Key::O, 15 => Key::P, 16 => Key::Q, 17 => Key::R,
        18 => Key::S, 19 => Key::T, 20 => Key::U, 21 => Key::V, 22 => Key::W, 23 => Key::X,
        24 => Key::Y, _ => Key::Z,
    }
}

/// The key for digit `i`.
fn digit(i: u32) -> (r: Key)
    ensures
        r == digit_key(i as int),
{
    match i {
        0 => Key::Num0, 1 => Key::Num1, 2 => Key::Num2, 3 => Key::Num3, 4 => Key::Num4,
        5 => Key::Num5, 6 => Key::Num6, 7 => Key::Num7, 8 => Key::Num8, _ => Key::Num9,
    }
}

/// Looks `c` up in the character table.
pub fn key_for_char(c: char) -> (r: Option<(Key, bool)>)
    ensures
        r == char_key(c),
{
    let u = c as u32;
    if 'a' as u32 <= u && u <= 'z' as u32 {
        Some((letter(u - 'a' as u32), false))
    } else if 'A' as u32 <= u && u <= 'Z' as u32 {
        Some((letter(u - 'A' as u32), true))
    } else if '0' as u32 <= u && u <= '9' as u32 {
        Some((digit(u - '0' as u32), false))
    } else if c == '!' { Some((Key::Num1, true)) }
    else if c == '@' { Some((Key::Num2, true)) }
    else if c == '#' { Some((Key::Num3, true)) }
    else if c == '$' { Some((Key::Num4, true)) }
    else if c == '%' { Some((Key::Num5, true)) }
    else if c == '^' { Some((Key::Num6, true)) }
    else if c == '&' { Some((Key::Num7, true)) }
    else if c == '*' { Some((Key::Num8, true)) }
    else if c == '(' { Some((Key::Num9, true)) }
    else if c == ')' { Some((Key::Num0, true)) }
    else if c == ' ' { Some((Key::Space, false)) }
    else if c == '\n' { Some((Key::Enter, false)) }
    else if c == '\t' { Some((Key::Tab, false)) }
    else { None }
}

/// The characters of `s` that the character table does not map, in order.
pub open spec fn unmapped(s: Seq<char>) -> Seq<char>
    decreases s.len(),
{
    if s.len() == 0 {
        s
    } else if char_key(s.last()) is None {
        unmapped(s.drop_last()).push(s.last())
    } else {
        unmapped(s.drop_last())
    }
}

/// The characters of `text` that typing it skips, for a warning.
pub fn unmapped_chars(text: &str) -> (r: Vec<char>)
    ensures
        r@ == unmapped(text@),
{
    let n = text.unicode_len();
    let mut out: Vec<char> = Vec::new();
    let mut i: usize = 0;
    while i < n
        invariant
            n == text@.len(),
            i <= n,
            out@ == unmapped(text@.subrange(0, i as int)),
        decreases n - i,
    {
        let c = text.get_char(i);
        if key_for_char(c).is_none() {
            out.push(c);
        }
        proof {
            let s = text@.subrange(0, i + 1);
            assert(s.drop_last() =~= text@.subrange(0, i as int));
            assert(s.last() == c);
        }
        i = i + 1;
    }
    proof {
        assert(text@.subrange(0, n as int) =~= text@);
    }
    out
}

/// The steps that type `text`.
pub fn text_program(text: &str) -> (r: Vec<Step>)
    ensures
        r@ == text_steps(text@),
{
    let n = text.unicode_len();
    let mut out: Vec<Step> = Vec::new();
    let mut i: usize = 0;
    while i < n
        invariant
            n == text@.len(),
            i <= n,
            out@ == text_steps(text@.subrange(0, i as int)),
        decreases n - i,
    {
        let c = text.get_char(i);
        match key_for_char(c) {
            None => {},
            Some((k, shift)) => {
                if shift {
                    out.push(Step::Key(Key::Shift, InputState::Press));
                }
                out.push(Step::Key(k, InputState::Press));
                out.push(Step::Key(k, InputState::Release));
                if shift {
                    out.push(Step::Key(Key::Shift, InputState::Release));
                }
            },
        }
        proof {
            let s = text@.subrange(0, i + 1);
            assert(s.drop_last() =~= text@.subrange(0, i as int));
            assert(s.last() == c);
            assert(out@ =~= text_steps(s));
        }
        i = i + 1;
    }
    proof {
        assert(text@.subrange(0, n as int) =~= text@);
    }
    out
}

impl Action {
    /// The step that ends this action when its trigger is released: the
    /// release of a held key; other actions leave nothing pressed.
    pub fn release_on_end(&self) -> (r: Option<Step>)
        ensures
            r == match *self {
                Action::HoldKey(k) => Some(Step::Key(k, InputState::Release)),
                _ => None::<Step>,
            },
    {
        match self {
            Action::HoldKey(k) => Some(Step::Key(*k, InputState::Release)),
            _ => None,
        }
    }

    /// Computes this action's program: the steps run once, then the steps
    /// repeated until cancellation.
    pub fn program(&self) -> (r: (Vec<Step>, Vec<Step>))
        ensures
            r.0@ == program(*self).0,
            r.1@ == program(*self).1,
        decreases self, 0nat,
    {
        match self {
            Action::PressKey(k) => (
                vec![Step::Key(*k, InputState::Press), Step::Key(*k, InputState::Release)],
                Vec::new(),
            ),
            Action::Click(b) => (
                vec![Step::Mouse(*b, InputState::Press), Step::Mouse(*b, InputState::Release)],
                Vec::new(),
            ),
            Action::HoldKey(k) => (vec![Step::Key(*k, InputState::Press)], Vec::new()),
            Action::ReleaseKey(k) => (vec![Step::Key(*k, InputState::Release)], Vec::new()),
            Action::Sequence(v) => list_program(v),
            Action::RepeatWhileHeld { actions, interval } => {
                let (mut once, repeated) = list_program(actions);
                if repeated.len() > 0 {
                    (once, repeated)
                } else {
                    once.push(Step::Wait(*interval));
                    (Vec::new(), once)
                }
            },
            Action::Delay(d) => (vec![Step::Wait(*d)], Vec::new()),
            Action::RandomDelay { min, max } => (vec![Step::WaitBetween(*min, *max)], Vec::new()),
            Action::TypeText(t) => (text_program(t.as_str()), Vec::new()),
        }
    }
}

/// Computes the program of a list of actions run as a sequence.
fn list_program(v: &Vec<Action>) -> (r: (Vec<Step>, Vec<Step>))
    ensures
        r.0@ == program_list(v@, 0).0,
        r.1@ == program_list(v@, 0).1,
    decreases v, 1nat,
{
    let mut once: Vec<Step> = Vec::new();
    let mut i: usize = 0;
    while i < v.len()
        invariant
            i <= v@.len(),
            program_list(v@, 0).0 == once@ + program_list(v@, i as int).0,
            program_list(v@, 0).1 == program_list(v@, i as int).1,
        decreases v@.len() - i,
    {
        let (mut p, c) = v[i].program();
        if c.len() > 0 {
            once.append(&mut p);
            return (once, c);
        }
        proof {
            assert(program_list(v@, i as int).0 =~= p@ + program_list(v@, i + 1).0);
        }
        let ghost before = once@;
        let ghost added = p@;
        once.append(&mut p);
        proof {
            assert(before + (added + program_list(v@, i + 1).0) =~= once@ + program_list(
                v@,
                i + 1,
            ).0);
        }
        i = i + 1;
    }
    proof {
        assert(once@ + program_list(v@, i as int).0 =~= once@);
    }
    (once, Vec::new())
}

} // verus!
