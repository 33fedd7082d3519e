use vstd::prelude::*;
use rand::Rng;
use crate::action::{program, Action, ActionExecutor, ExecError, InputState, Step};
use crate::input::{InputEvent, Key, MouseButton};
use crate::tracker::{next_buttons, next_keys, StateTracker};

verus! {

/// Where a run stopped.
#[derive(Debug)]
pub enum Pause {
    /// The action has nothing left to do.
    Finished,
    /// Suspend for this many milliseconds, then run on.
    Sleep(u64),
    /// This primitive failed; the action is aborted.
    Failed(Step, ExecError),
}

/// `out` is a way to carry out `s`: a random wait becomes a wait within its
/// range, every other step stays as it is.
pub open spec fn resolves(s: Step, out: Step) -> bool {
    match s {
        Step::WaitBetween(lo, hi) => out matches Step::Wait(d) && lo <= d && d <= hi,
        _ => out == s,
    }
}

/// There is a planned step, and `out` is a way to carry it out.
pub open spec fn resolves_opt(planned: Option<Step>, out: Step) -> bool {
    planned matches Some(s) && resolves(s, out)
}

/// Every random wait of `s` has a range with `lo <= hi`.
pub open spec fn ranges_valid(s: Seq<Step>) -> bool {
    forall|i: int| 0 <= i < s.len() ==> (#[trigger] s[i] matches Step::WaitBetween(lo, hi) ==> lo <= hi)
}

/// A program that can run: its random ranges are valid and its repeated
/// part, if any, ends with a suspension point.
pub open spec fn program_valid(p: (Seq<Step>, Seq<Step>)) -> bool {
    &&& ranges_valid(p.0)
    &&& ranges_valid(p.1)
    &&& (p.1.len() > 0 ==> p.1.last().is_wait())
}

/// The input event that a step simulates; a wait simulates none and maps to
/// a pointer move, which changes no held state.
pub open spec fn step_event(s: Step) -> InputEvent {
    match s {
        Step::Key(k, InputState::Press) => InputEvent::KeyPress(k),
        Step::Key(k, InputState::Release) => InputEvent::KeyRelease(k),
        Step::Mouse(b, InputState::Press) => InputEvent::MousePress(b),
        Step::Mouse(b, InputState::Release) => InputEvent::MouseRelease(b),
        _ => InputEvent::MouseMove { x: 0, y: 0 },
    }
}

/// The step at a position of a program: `pos` in the part run once, or in
/// the repeated part when `looping`.
pub open spec fn step_at(once: Seq<Step>, cycle: Seq<Step>, looping: bool, pos: int) -> Option<Step> {
    if !looping {
        if pos < once.len() {
            Some(once[pos])
        } else if cycle.len() > 0 {
            Some(cycle[0])
        } else {
            None
        }
    } else {
        Some(cycle[pos])
    }
}

/// The position after the step at `pos`: on through the part run once, then
/// round the repeated part; it stays put at the end of a program that does
/// not repeat.
pub open spec fn after_step(once: Seq<Step>, cycle: Seq<Step>, looping: bool, pos: int) -> (bool, int) {
    if !looping {
        if pos < once.len() {
            (false, pos + 1)
        } else if cycle.len() > 1 {
            (true, 1)
        } else if cycle.len() == 1 {
            (true, 0)
        } else {
            (false, pos)
        }
    } else if pos + 1 < cycle.len() {
        (true, pos + 1)
    } else {
        (true, 0)
    }
}

/// The position `n` steps after `pos`.
pub open spec fn walk(once: Seq<Step>, cycle: Seq<Step>, looping: bool, pos: int, n: nat) -> (bool, int)
    decreases n,
{
    if n == 0 {
        (looping, pos)
    } else {
        let prev = walk(once, cycle, looping, pos, (n - 1) as nat);
        after_step(once, cycle, prev.0, prev.1)
    }
}

/// What the run does with the executor's answer to primitive `s`: go on
/// after success, fail with the executor's own error otherwise.
pub fn after_primitive(s: Step, res: Result<(), ExecError>) -> (r: Option<Pause>)
    ensures
        match res {
            Ok(_) => r is None,
            Err(e) => r == Some(Pause::Failed(s, e)),
        },
{
    match res {
        Ok(()) => None,
        Err(e) => Some(Pause::Failed(s, e)),
    }
}

/// A random delay over a single value behaves as a plain delay of it.
pub proof fn lemma_degenerate_random_delay(d: u64)
    ensures
        program(Action::RandomDelay { min: d, max: d }).0.len() == 1,
        program(Action::Delay(d)).0.len() == 1,
        program(Action::RandomDelay { min: d, max: d }).1.len() == 0,
        program(Action::Delay(d)).1.len() == 0,
        forall|out: Step|
            resolves(program(Action::RandomDelay { min: d, max: d }).0[0], out) <==> resolves(
                program(Action::Delay(d)).0[0],
                out,
            ),
        forall|out: Step| resolves(program(Action::Delay(d)).0[0], out) <==> out == Step::Wait(d),
{
}

/// Relies on rand's `thread_rng().gen_range(lo..=hi)`: a value of the
/// inclusive range, which is not empty.
#[verifier::external_body]
fn draw_millis(lo: u64, hi: u64) -> (r: u64)
    requires
        lo <= hi,
    ensures
        lo <= r <= hi,
{
    rand::thread_rng().gen_range(lo..=hi)
}

/// Whether every random wait of `v` has a valid range.
fn ranges_ok(v: &Vec<Step>) -> (r: bool)
    ensures
        r == ranges_valid(v@),
{
    let mut i: usize = 0;
    while i < v.len()
        invariant
            i <= v@.len(),
            forall|j: int| 0 <= j < i ==> (#[trigger] v@[j] matches Step::WaitBetween(lo, hi) ==> lo <= hi),
        decreases v@.len() - i,
    {
        if let Step::WaitBetween(lo, hi) = v[i] {
            if lo > hi {
                proof {
                    assert(v@[i as int] matches Step::WaitBetween(lo, hi));
                }
                return false;
            }
        }
        i = i + 1;
    }
    true
}

/// Executes an action's program step by step: the steps run once, then the
/// repeated steps, over and over, until cancelled. It tracks what it has
/// pressed and not released, so that cancelling releases it.
pub struct Runner {
    once: Vec<Step>,
    cycle: Vec<Step>,
    pos: usize,
    looping: bool,
    pressed: StateTracker,
    issued: Ghost<Seq<Step>>,
}

impl Runner {
    /// The steps run once.
    pub closed spec fn once(&self) -> Seq<Step> {
        self.once@
    }

    /// The steps repeated until cancellation.
    pub closed spec fn cycle(&self) -> Seq<Step> {
        self.cycle@
    }

    /// Whether the run is in its repeated part.
    pub closed spec fn looping(&self) -> bool {
        self.looping
    }

    /// Index of the next step in the part being run.
    pub closed spec fn pos(&self) -> int {
        self.pos as int
    }

    /// Keys pressed by the run and not released.
    pub closed spec fn pressed_keys(&self) -> Set<Key> {
        self.pressed.keys()
    }

    /// Buttons pressed by the run and not released.
    pub closed spec fn pressed_buttons(&self) -> Set<MouseButton> {
        self.pressed.buttons()
    }

    /// The steps handed out so far.
    pub closed spec fn issued(&self) -> Seq<Step> {
        self.issued@
    }

    /// The position is within the part being run and the program is valid.
    pub closed spec fn wf(&self) -> bool {
        &&& program_valid((self.once@, self.cycle@))
        &&& (!self.looping ==> self.pos <= self.once@.len())
        &&& (self.looping ==> self.pos < self.cycle@.len())
        &&& self.pressed.wf()
    }

    /// The next step of the program, if any.
    pub open spec fn upcoming(&self) -> Option<Step> {
        step_at(self.once(), self.cycle(), self.looping(), self.pos())
    }

    /// The part and position after the next step.
    pub open spec fn advanced(&self) -> (bool, int) {
        after_step(self.once(), self.cycle(), self.looping(), self.pos())
    }

    /// The part and position after `n` more steps.
    pub open spec fn walked(&self, n: nat) -> (bool, int) {
        walk(self.once(), self.cycle(), self.looping(), self.pos(), n)
    }

    /// Step number `i` from here (the next one is number 0).
    pub open spec fn planned(&self, i: nat) -> Option<Step> {
        let at = self.walked(i);
        step_at(self.once(), self.cycle(), at.0, at.1)
    }

    /// Steps left before the run must reach a suspension point or its end.
    spec fn remaining(&self) -> int {
        if self.looping {
            self.cycle@.len() - self.pos
        } else {
            self.once@.len() - self.pos + self.cycle@.len() + 1
        }
    }

    /// A run of `action` from its start; `None` where its program is not
    /// valid (a random delay with `min > max`).
    pub fn new(action: &Action) -> (r: Option<Runner>)
        ensures
            r is None <==> !program_valid(program(*action)),
            r matches Some(run) ==> {
                &&& run.wf()
                &&& run.once() == program(*action).0
                &&& run.cycle() == program(*action).1
                &&& !run.looping()
                &&& run.pos() == 0
                &&& run.pressed_keys() == Set::<Key>::empty()
                &&& run.pressed_buttons() == Set::<MouseButton>::empty()
                &&& run.issued().len() == 0
            },
    {
        let (once, cycle) = action.program();
        let ok = ranges_ok(&once) && ranges_ok(&cycle) && (cycle.len() == 0 || match cycle[cycle.len() - 1] {
            Step::Wait(_) => true,
            Step::WaitBetween(_, _) => true,
            _ => false,
        });
        if ok {
            Some(
                Runner {
                    once,
                    cycle,
                    pos: 0,
                    looping: false,
                    pressed: StateTracker::new(),
                    issued: Ghost(Seq::empty()),
                },
            )
        } else {
            None
        }
    }

    /// Hands out the next step, with a random wait drawn within its range,
    /// and moves past it; `None` once the program is done.
    pub fn next_step(&mut self) -> (r: Option<Step>)
        requires
            old(self).wf(),
        ensures
            final(self).wf(),
            final(self).once() == old(self).once(),
            final(self).cycle() == old(self).cycle(),
            match old(self).upcoming() {
                None => {
                    &&& r is None
                    &&& final(self).looping() == old(self).looping()
                    &&& final(self).pos() == old(self).pos()
                    &&& final(self).pressed_keys() == old(self).pressed_keys()
                    &&& final(self).pressed_buttons() == old(self).pressed_buttons()
                    &&& final(self).issued() == old(self).issued()
                },
                Some(s) => r matches Some(out) && {
                    &&& resolves(s, out)
                    &&& (final(self).looping(), final(self).pos()) == old(self).advanced()
                    &&& final(self).pressed_keys() == next_keys(
                        old(self).pressed_keys(),
                        step_event(out),
                    )
                    &&& final(self).pressed_buttons() == next_buttons(
                        old(self).pressed_buttons(),
                        step_event(out),
                    )
                    &&& final(self).issued() == old(self).issued().push(out)
                },
            },
    {
        let s = if !self.looping {
            if self.pos < self.once.len() {
                let s = self.once[self.pos];
                self.pos = self.pos + 1;
                s
            } else if self.cycle.len() > 0 {
                let s = self.cycle[0];
                self.looping = true;
                self.pos = if self.cycle.len() > 1 { 1 } else { 0 };
                s
            } else {
                return None;
            }
        } else {
            let n = self.cycle.len();
            let s = self.cycle[self.pos];
            self.pos = if self.pos < n - 1 { self.pos + 1 } else { 0 };
            s
        };
        proof {
            assert(s matches Step::WaitBetween(lo, hi) ==> lo <= hi) by {
                if old(self).looping || old(self).pos >= old(self).once@.len() {
                    let j = if old(self).looping { old(self).pos as int } else { 0 };
                    assert(self.cycle@[j] == s);
                } else {
                    assert(self.once@[old(self).pos as int] == s);
                }
            }
        }
        let out = match s {
            Step::WaitBetween(lo, hi) => Step::Wait(draw_millis(lo, hi)),
            _ => s,
        };
        let event = match out {
            Step::Key(k, InputState::Press) => InputEvent::KeyPress(k),
            Step::Key(k, InputState::Release) => InputEvent::KeyRelease(k),
            Step::Mouse(b, InputState::Press) => InputEvent::MousePress(b),
            Step::Mouse(b, InputState::Release) => InputEvent::MouseRelease(b),
            _ => InputEvent::MouseMove { x: 0, y: 0 },
        };
        self.pressed.update(&event);
        self.issued = Ghost(self.issued@.push(out));
        Some(out)
    }

    /// Carries out the program's steps, in order, through `exec`, up to the
    /// next suspension point: a wait ends the run with `Sleep`, a primitive
    /// that the executor refuses ends it with `Failed`, and the end of the
    /// program with `Finished`. Every primitive before the last step was
    /// accepted; only the last step may be a wait.
    pub fn run_until_pause<E: ActionExecutor>(&mut self, exec: &E) -> (r: Pause)
        requires
            old(self).wf(),
        ensures
            final(self).wf(),
            final(self).once() == old(self).once(),
            final(self).cycle() == old(self).cycle(),
            final(self).issued().len() >= old(self).issued().len(),
            final(self).issued().subrange(0, old(self).issued().len() as int) == old(self).issued(),
            (final(self).looping(), final(self).pos()) == old(self).walked(
                (final(self).issued().len() - old(self).issued().len()) as nat,
            ),
            forall|j: int|
                old(self).issued().len() <= j < final(self).issued().len() ==> resolves_opt(
                    old(self).planned((j - old(self).issued().len()) as nat),
                    #[trigger] final(self).issued()[j],
                ),
            forall|j: int|
                old(self).issued().len() <= j < final(self).issued().len() - 1 ==> !(
                #[trigger] final(self).issued()[j]).is_wait(),
            match r {
                Pause::Finished => final(self).upcoming() is None && forall|j: int|
                    old(self).issued().len() <= j < final(self).issued().len() ==> !(
                    #[trigger] final(self).issued()[j]).is_wait(),
                Pause::Sleep(ms) => final(self).issued().len() > old(self).issued().len()
                    && final(self).issued().last() == Step::Wait(ms),
                Pause::Failed(s, _) => final(self).issued().len() > old(self).issued().len()
                    && final(self).issued().last() == s && !s.is_wait(),
            },
    {
        let ghost start = self.issued@;
        let ghost init = *self;
        loop
            invariant
                self.wf(),
                init == *old(self),
                self.once@ == init.once@,
                self.cycle@ == init.cycle@,
                start == init.issued@,
                self.issued@.len() >= start.len(),
                self.issued@.subrange(0, start.len() as int) == start,
                (self.looping, self.pos as int) == init.walked(
                    (self.issued@.len() - start.len()) as nat,
                ),
                forall|j: int|
                    start.len() <= j < self.issued@.len() ==> resolves_opt(
                        init.planned((j - start.len()) as nat),
                        #[trigger] self.issued()[j],
                    ),
                forall|j: int|
                    start.len() <= j < self.issued@.len() ==> !(#[trigger] self.issued@[j]).is_wait(),
            decreases self.remaining(),
        {
            let ghost prior = *self;
            let next = self.next_step();
            proof {
                let k0 = (prior.issued@.len() - start.len()) as nat;
                if next is Some {
                    let out = next->Some_0;
                    assert(self.issued@ == prior.issued@.push(out));
                    assert(init.walked(k0 + 1) == after_step(
                        self.once@,
                        self.cycle@,
                        init.walked(k0).0,
                        init.walked(k0).1,
                    ));
                    assert(self.issued@.subrange(0, start.len() as int) =~= start);
                    assert forall|j: int| start.len() <= j < self.issued@.len() implies resolves_opt(
                        init.planned((j - start.len()) as nat),
                        #[trigger] self.issued()[j],
                    ) by {
                        if j < prior.issued@.len() {
                            assert(self.issued()[j] == prior.issued()[j]);
                        } else {
                            assert(init.planned(k0) == prior.upcoming());
                        }
                    }
                }
            }
            match next {
                None => {
                    return Pause::Finished;
                },
                Some(Step::Wait(ms)) => {
                    return Pause::Sleep(ms);
                },
                Some(Step::WaitBetween(lo, hi)) => {
                    proof {
                        assert(false);
                    }
                    return Pause::Finished;
                },
                Some(Step::Key(k, st)) => {
                    proof {
                        Self::lemma_progress(prior, *self);
                        assert forall|j: int| start.len() <= j < self.issued@.len() implies !(
                        #[trigger] self.issued@[j]).is_wait() by {
                            if j < prior.issued@.len() {
                                assert(self.issued@[j] == prior.issued@[j]);
                            }
                        }
                    }
                    if let Some(p) = after_primitive(Step::Key(k, st), exec.simulate_key(k, st)) {
                        return p;
                    }
                },
                Some(Step::Mouse(b, st)) => {
                    proof {
                        Self::lemma_progress(prior, *self);
                        assert forall|j: int| start.len() <= j < self.issued@.len() implies !(
                        #[trigger] self.issued@[j]).is_wait() by {
                            if j < prior.issued@.len() {
                                assert(self.issued@[j] == prior.issued@[j]);
                            }
                        }
                    }
                    if let Some(p) = after_primitive(
                        Step::Mouse(b, st),
                        exec.simulate_mouse(b, st),
                    ) {
                        return p;
                    }
                },
            }
        }
    }

    /// Handing out a step that is not a wait brings the run closer to a
    /// suspension point or its end.
    proof fn lemma_progress(prior: Runner, after: Runner)
        requires
            prior.wf(),
            after.once@ == prior.once@,
            after.cycle@ == prior.cycle@,
            prior.upcoming() matches Some(s) && !s.is_wait(),
            (after.looping(), after.pos()) == prior.advanced(),
        ensures
            after.remaining() < prior.remaining(),
    {
        if prior.looping {
            assert(prior.pos + 1 < prior.cycle@.len());
        } else if prior.pos >= prior.once@.len() {
            assert(prior.cycle@.len() > 1);
        }
    }

    /// Cancels the run: returns one release step for each key and button it
    /// pressed and did not release, and leaves nothing to run.
    pub fn cancel(&mut self) -> (r: Vec<Step>)
        requires
            old(self).wf(),
        ensures
            final(self).wf(),
            final(self).upcoming() is None,
            final(self).pressed_keys() == Set::<Key>::empty(),
            final(self).pressed_buttons() == Set::<MouseButton>::empty(),
            forall|k: Key|
                old(self).pressed_keys().contains(k) <==> r@.contains(
                    Step::Key(k, InputState::Release),
                ),
            forall|b: MouseButton|
                old(self).pressed_buttons().contains(b) <==> r@.contains(
                    Step::Mouse(b, InputState::Release),
                ),
            forall|i: int|
                0 <= i < r@.len() ==> (#[trigger] r@[i] matches Step::Key(_, InputState::Release)
                    || r@[i] matches Step::Mouse(_, InputState::Release)),
            r@.no_duplicates(),
    {
        let keys = self.pressed.held_keys();
        let buttons = self.pressed.held_buttons();
        let mut out: Vec<Step> = Vec::new();
        let mut i: usize = 0;
        while i < keys.len()
            invariant
                i <= keys@.len(),
                out@.len() == i,
                forall|j: int| 0 <= j < i ==> #[trigger] out@[j] == Step::Key(keys@[j], InputState::Release),
            decreases keys@.len() - i,
        {
            out.push(Step::Key(keys[i], InputState::Release));
            i = i + 1;
        }
        let nk = out.len();
        let mut i: usize = 0;
        while i < buttons.len()
            invariant
                i <= buttons@.len(),
                nk == keys@.len(),
                out@.len() == nk + i,
                forall|j: int| 0 <= j < nk ==> #[trigger] out@[j] == Step::Key(keys@[j], InputState::Release),
                forall|j: int|
                    0 <= j < i ==> #[trigger] out@[nk + j] == Step::Mouse(buttons@[j], InputState::Release),
            decreases buttons@.len() - i,
        {
            out.push(Step::Mouse(buttons[i], InputState::Release));
            i = i + 1;
        }
        proof {
            assert forall|k: Key| old(self).pressed_keys().contains(k) <==> out@.contains(
                Step::Key(k, InputState::Release),
            ) by {
                if keys@.contains(k) {
                    let j = choose|j: int| 0 <= j < keys@.len() && keys@[j] == k;
                    assert(out@[j] == Step::Key(k, InputState::Release));
                }
                if out@.contains(Step::Key(k, InputState::Release)) {
                    let j = choose|j: int| 0 <= j < out@.len() && out@[j] == Step::Key(k, InputState::Release);
                    if j >= nk {
                        assert(out@[nk + (j - nk)] == Step::Mouse(buttons@[j - nk], InputState::Release));
                    } else {
                        assert(keys@[j] == k);
                    }
                }
            }
            assert forall|b: MouseButton| old(self).pressed_buttons().contains(b) <==> out@.contains(
                Step::Mouse(b, InputState::Release),
            ) by {
                if buttons@.contains(b) {
                    let j = choose|j: int| 0 <= j < buttons@.len() && buttons@[j] == b;
                    assert(out@[nk + j] == Step::Mouse(b, InputState::Release));
                }
                if out@.contains(Step::Mouse(b, InputState::Release)) {
                    let j = choose|j: int|
                        0 <= j < out@.len() && out@[j] == Step::Mouse(b, InputState::Release);
                    if j < nk {
                        assert(out@[j] == Step::Key(keys@[j], InputState::Release));
                    } else {
                        assert(out@[nk + (j - nk)] == Step::Mouse(buttons@[j - nk], InputState::Release));
                    }
                }
            }
            assert forall|j: int| 0 <= j < out@.len() implies (#[trigger] out@[j] matches Step::Key(
                _,
                InputState::Release,
            ) || out@[j] matches Step::Mouse(_, InputState::Release)) by {
                if j >= nk {
                    assert(out@[nk + (j - nk)] == Step::Mouse(buttons@[j - nk], InputState::Release));
                }
            }
        }
        proof {
            assert forall|a: int, b: int|
                0 <= a < out@.len() && 0 <= b < out@.len() && a != b implies out@[a] != out@[b] by {
                if a < nk && b < nk {
                    assert(keys@[a] != keys@[b]);
                } else if a >= nk && b >= nk {
                    assert(out@[nk + (a - nk)] == Step::Mouse(buttons@[a - nk], InputState::Release));
                    assert(out@[nk + (b - nk)] == Step::Mouse(buttons@[b - nk], InputState::Release));
                    assert(buttons@[a - nk] != buttons@[b - nk]);
                } else if a < nk {
                    assert(out@[nk + (b - nk)] == Step::Mouse(buttons@[b - nk], InputState::Release));
                } else {
                    assert(out@[nk + (a - nk)] == Step::Mouse(buttons@[a - nk], InputState::Release));
                }
            }
        }
        self.once = Vec::new();
        self.cycle = Vec::new();
        self.pos = 0;
        self.looping = false;
        self.pressed = StateTracker::new();
        out
    }
}

} // verus!
