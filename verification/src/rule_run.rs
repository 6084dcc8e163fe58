//! The decisions of running one rule: launch the application, watch for its
//! window, and act on it.
//!
//! Running a rule alternates outside work (calls of `hyprctl`, sleeps,
//! notifications) with decisions.  `RuleRun` holds the decisions: the caller
//! performs each `Step` it returns and hands back what came of it as a
//! `Reply`, until the step is `Finish`.

use vstd::prelude::*;

use crate::state::Action;
use crate::text::{append_chars, chars_of, string_of};

verus! {

/// How many times the window is looked for before the action.
pub const APPEAR_TRIES: u32 = 60;

/// How many times the first window of a close-twice rule is looked for.
pub const FIRST_CLOSE_TRIES: u32 = 40;

/// How many times the second window of a close-twice rule is looked for.
pub const SECOND_CLOSE_TRIES: u32 = 80;

/// Milliseconds between two looks for a window.
pub const POLL_MS: u64 = 500;

/// Milliseconds between the first and the second close of a close-twice rule.
pub const BETWEEN_CLOSES_MS: u64 = 1000;

/// One piece of outside work.
#[derive(Clone, Copy, Debug, PartialEq, Eq, Structural)]
pub enum Step {
    /// Show the "Launching ..." desktop notification.
    Notify,
    /// Start the application through `hyprctl dispatch exec`; reply `Launched`.
    Launch,
    /// Start the application directly, capturing its output.
    LaunchDirectly,
    /// Count the windows of the rule's class; reply `Windows`.
    CountWindows,
    /// Sleep for the given number of milliseconds.
    Wait(u64),
    /// Close the window of the rule's class.
    CloseWindow,
    /// Move the window of the rule's class, silently, to a workspace.
    MoveToWorkspace(u32),
    /// Move the window of the rule's class to the special workspace.
    HideWindow,
    /// Record the rule's class among the hidden windows.
    RememberHidden,
    /// Nothing is left to do for this rule.
    Finish,
}

/// What came of the last step.
#[derive(Clone, Copy, Debug, PartialEq, Eq, Structural)]
pub enum Reply {
    /// The step was carried out (or nothing was asked yet).
    Done,
    /// Whether `hyprctl dispatch exec` succeeded.
    Launched(bool),
    /// How many windows of the rule's class exist.
    Windows(usize),
}

/// Which window the run is looking for.
#[derive(Clone, Copy, Debug, PartialEq, Eq, Structural)]
pub enum Watch {
    /// The window to act on (every action but close-twice).
    Appear,
    /// The first window of a close-twice rule.
    FirstClose,
    /// The second window of a close-twice rule.
    SecondClose,
}

/// Where the run stands: the last step it asked for.
#[derive(Clone, Copy, Debug, PartialEq, Eq, Structural)]
pub enum Phase {
    Start,
    Notified,
    Launching,
    Fallback,
    /// A count of windows was asked; the number of looks left includes it.
    Polling(Watch, u32),
    /// A pause after a look that found nothing.
    Pausing(Watch, u32),
    Settling,
    FirstSettling,
    FirstClosed,
    BetweenCloses,
    Hidden,
    Finishing,
    Finished,
}

/// The state of running one rule.
#[derive(Clone, Copy, Debug)]
pub struct RuleRun {
    pub action: Action,
    pub delay: u64,
    pub notify: bool,
    pub phase: Phase,
}

/// How many looks a watch makes at most.
pub open spec fn tries(w: Watch) -> u32 {
    match w {
        Watch::Appear => APPEAR_TRIES,
        Watch::FirstClose => FIRST_CLOSE_TRIES,
        Watch::SecondClose => SECOND_CLOSE_TRIES,
    }
}

/// Whether a reply reports at least one window.
pub open spec fn sighted(r: Reply) -> bool {
    r matches Reply::Windows(n) && n > 0
}

/// `m` in another phase.
pub open spec fn moved(m: RuleRun, p: Phase) -> RuleRun {
    RuleRun { phase: p, ..m }
}

/// Starts looking for a window.
pub open spec fn start_watch(m: RuleRun, w: Watch) -> (RuleRun, Step) {
    (moved(m, Phase::Polling(w, tries(w))), Step::CountWindows)
}

/// What follows the launch: close-twice rules look for their first window,
/// the others for the window to act on.
pub open spec fn after_launch(m: RuleRun) -> (RuleRun, Step) {
    if m.action is Close2 {
        start_watch(m, Watch::FirstClose)
    } else {
        start_watch(m, Watch::Appear)
    }
}

/// The action on the window once it is there (and the delay is over).
pub open spec fn act(m: RuleRun) -> (RuleRun, Step) {
    match m.action {
        Action::Close => (moved(m, Phase::Finishing), Step::CloseWindow),
        Action::Workspace(ws) => (moved(m, Phase::Finishing), Step::MoveToWorkspace(ws)),
        Action::HideToTray => (moved(m, Phase::Hidden), Step::HideWindow),
        Action::Close2 => start_watch(m, Watch::FirstClose),
    }
}

/// What follows a look that found the window.
pub open spec fn on_sight(m: RuleRun, w: Watch) -> (RuleRun, Step) {
    match w {
        Watch::Appear => if m.delay > 0 {
            (moved(m, Phase::Settling), Step::Wait(m.delay))
        } else {
            act(m)
        },
        Watch::FirstClose => if m.delay > 0 {
            (moved(m, Phase::FirstSettling), Step::Wait(m.delay))
        } else {
            (moved(m, Phase::FirstClosed), Step::CloseWindow)
        },
        Watch::SecondClose => (moved(m, Phase::Finishing), Step::CloseWindow),
    }
}

/// The transition of a run: given the reply to the last step, the new state
/// and the next step.
pub open spec fn next(m: RuleRun, reply: Reply) -> (RuleRun, Step) {
    match m.phase {
        Phase::Start => if m.notify {
            (moved(m, Phase::Notified), Step::Notify)
        } else {
            (moved(m, Phase::Launching), Step::Launch)
        },
        Phase::Notified => (moved(m, Phase::Launching), Step::Launch),
        Phase::Launching => if reply == Reply::Launched(true) {
            after_launch(m)
        } else {
            (moved(m, Phase::Fallback), Step::LaunchDirectly)
        },
        Phase::Fallback => after_launch(m),
        Phase::Polling(w, left) => if sighted(reply) {
            on_sight(m, w)
        } else {
            (moved(m, Phase::Pausing(w, left)), Step::Wait(POLL_MS))
        },
        Phase::Pausing(w, left) => if left > 1 {
            (moved(m, Phase::Polling(w, (left - 1) as u32)), Step::CountWindows)
        } else {
            (moved(m, Phase::Finished), Step::Finish)
        },
        Phase::Settling => act(m),
        Phase::FirstSettling => (moved(m, Phase::FirstClosed), Step::CloseWindow),
        Phase::FirstClosed => (moved(m, Phase::BetweenCloses), Step::Wait(BETWEEN_CLOSES_MS)),
        Phase::BetweenCloses => start_watch(m, Watch::SecondClose),
        Phase::Hidden => (moved(m, Phase::Finishing), Step::RememberHidden),
        Phase::Finishing => (moved(m, Phase::Finished), Step::Finish),
        Phase::Finished => (moved(m, Phase::Finished), Step::Finish),
    }
}

impl RuleRun {
    /// A run of a rule with `action`, waiting `delay` milliseconds before
    /// acting, announcing the launch when `notify` holds.
    pub fn new(action: Action, delay: u64, notify: bool) -> (r: Self)
        ensures
            r == (RuleRun { action, delay, notify, phase: Phase::Start }),
    {
        RuleRun { action, delay, notify, phase: Phase::Start }
    }

    fn moved_to(&mut self, p: Phase)
        ensures
            *final(self) == moved(*old(self), p),
    {
        self.phase = p;
    }

    fn start_watch(&mut self, w: Watch) -> (s: Step)
        ensures
            (*final(self), s) == start_watch(*old(self), w),
    {
        let n = match w {
            Watch::Appear => APPEAR_TRIES,
            Watch::FirstClose => FIRST_CLOSE_TRIES,
            Watch::SecondClose => SECOND_CLOSE_TRIES,
        };
        self.moved_to(Phase::Polling(w, n));
        Step::CountWindows
    }

    fn after_launch(&mut self) -> (s: Step)
        ensures
            (*final(self), s) == after_launch(*old(self)),
    {
        match self.action {
            Action::Close2 => self.start_watch(Watch::FirstClose),
            _ => self.start_watch(Watch::Appear),
        }
    }

    fn act(&mut self) -> (s: Step)
        ensures
            (*final(self), s) == act(*old(self)),
    {
        match self.action {
            Action::Close => {
                self.moved_to(Phase::Finishing);
                Step::CloseWindow
            },
            Action::Workspace(ws) => {
                self.moved_to(Phase::Finishing);
                Step::MoveToWorkspace(ws)
            },
            Action::HideToTray => {
                self.moved_to(Phase::Hidden);
                Step::HideWindow
            },
            Action::Close2 => self.start_watch(Watch::FirstClose),
        }
    }

    fn on_sight(&mut self, w: Watch) -> (s: Step)
        ensures
            (*final(self), s) == on_sight(*old(self), w),
    {
        match w {
            Watch::Appear => {
                if self.delay > 0 {
                    self.moved_to(Phase::Settling);
                    Step::Wait(self.delay)
                } else {
                    self.act()
                }
            },
            Watch::FirstClose => {
                if self.delay > 0 {
                    self.moved_to(Phase::FirstSettling);
                    Step::Wait(self.delay)
                } else {
                    self.moved_to(Phase::FirstClosed);
                    Step::CloseWindow
                }
            },
            Watch::SecondClose => {
                self.moved_to(Phase::Finishing);
                Step::CloseWindow
            },
        }
    }

    /// Takes the reply to the last step and gives the next step.
    pub fn advance(&mut self, reply: Reply) -> (s: Step)
        ensures
            (*final(self), s) == next(*old(self), reply),
    {
        match self.phase {
            Phase::Start => {
                if self.notify {
                    self.moved_to(Phase::Notified);
                    Step::Notify
                } else {
                    self.moved_to(Phase::Launching);
                    Step::Launch
                }
            },
            Phase::Notified => {
                self.moved_to(Phase::Launching);
                Step::Launch
            },
            Phase::Launching => {
                let ok = match reply {
                    Reply::Launched(b) => b,
                    _ => false,
                };
                if ok {
                    self.after_launch()
                } else {
                    self.moved_to(Phase::Fallback);
                    Step::LaunchDirectly
                }
            },
            Phase::Fallback => self.after_launch(),
            Phase::Polling(w, left) => {
                let seen = match reply {
                    Reply::Windows(n) => n > 0,
                    _ => false,
                };
                if seen {
                    self.on_sight(w)
                } else {
                    self.moved_to(Phase::Pausing(w, left));
                    Step::Wait(POLL_MS)
                }
            },
            Phase::Pausing(w, left) => {
                if left > 1 {
                    self.moved_to(Phase::Polling(w, left - 1));
                    Step::CountWindows
                } else {
                    self.moved_to(Phase::Finished);
                    Step::Finish
                }
            },
            Phase::Settling => self.act(),
            Phase::FirstSettling => {
                self.moved_to(Phase::FirstClosed);
                Step::CloseWindow
            },
            Phase::FirstClosed => {
                self.moved_to(Phase::BetweenCloses);
                Step::Wait(BETWEEN_CLOSES_MS)
            },
            Phase::BetweenCloses => self.start_watch(Watch::SecondClose),
            Phase::Hidden => {
                self.moved_to(Phase::Finishing);
                Step::RememberHidden
            },
            Phase::Finishing => {
                self.moved_to(Phase::Finished);
                Step::Finish
            },
            Phase::Finished => {
                self.moved_to(Phase::Finished);
                Step::Finish
            },
        }
    }
}


/// The body of the notification that announces a launch.
pub open spec fn launch_notice_of(name: Seq<char>) -> Seq<char> {
    "Launching "@ + name
}

/// The text of the notification shown for `Step::Notify`.
pub fn launch_notice(name: &str) -> (r: String)
    ensures
        r@ == launch_notice_of(name@),
{
    let mut t = chars_of("Launching ");
    append_chars(&mut t, chars_of(name).as_slice());
    string_of(t.as_slice())
}

// ---------------------------------------------------------------------------
// What a whole run does, stated directly, and the proof that `RuleRun`
// does exactly that.
// ---------------------------------------------------------------------------

/// The index of the first look, among the first `tries`, that finds the
/// window; `sight[i]` tells whether the i-th look finds one.
pub open spec fn first_sighting(sight: Seq<bool>, tries: nat) -> Option<nat>
    decreases tries,
{
    if tries == 0 || sight.len() == 0 {
        None
    } else if sight[0] {
        Some(0)
    } else {
        match first_sighting(sight.drop_first(), (tries - 1) as nat) {
            Some(i) => Some(i + 1),
            None => None,
        }
    }
}

/// `k` looks that find nothing, each followed by a pause.
pub open spec fn misses(k: nat) -> Seq<Step>
    decreases k,
{
    if k == 0 {
        Seq::<Step>::empty()
    } else {
        seq![Step::CountWindows, Step::Wait(POLL_MS)] + misses((k - 1) as nat)
    }
}

/// The steps of looking for a window at most `tries` times.
pub open spec fn watch_steps(sight: Seq<bool>, tries: nat) -> Seq<Step> {
    match first_sighting(sight, tries) {
        Some(i) => misses(i) + seq![Step::CountWindows],
        None => misses(tries),
    }
}

/// The notification (if enabled), the launch, and the direct start when the
/// launch through Hyprland failed.
pub open spec fn launch_steps(notify: bool, exec_ok: bool) -> Seq<Step> {
    (if notify {
        seq![Step::Notify]
    } else {
        Seq::<Step>::empty()
    }) + seq![Step::Launch] + (if exec_ok {
        Seq::<Step>::empty()
    } else {
        seq![Step::LaunchDirectly]
    })
}

/// The launch delay, when there is one.
pub open spec fn settle_steps(delay: u64) -> Seq<Step> {
    if delay > 0 {
        seq![Step::Wait(delay)]
    } else {
        Seq::<Step>::empty()
    }
}

/// The action on a found window.
pub open spec fn act_steps(action: Action) -> Seq<Step> {
    match action {
        Action::Close => seq![Step::CloseWindow],
        Action::Workspace(ws) => seq![Step::MoveToWorkspace(ws)],
        Action::HideToTray => seq![Step::HideWindow, Step::RememberHidden],
        Action::Close2 => Seq::<Step>::empty(),
    }
}

/// Close-twice: wait for a window, let the delay pass, close it, pause, then
/// wait for a window again and close it too.
pub open spec fn close_twice_steps(delay: u64, sight: Seq<bool>) -> Seq<Step> {
    watch_steps(sight, FIRST_CLOSE_TRIES as nat) + match first_sighting(
        sight,
        FIRST_CLOSE_TRIES as nat,
    ) {
        Some(i) => {
            let rest = sight.skip(i + 1int);
            settle_steps(delay) + seq![Step::CloseWindow, Step::Wait(BETWEEN_CLOSES_MS)]
                + watch_steps(rest, SECOND_CLOSE_TRIES as nat) + (if first_sighting(
                rest,
                SECOND_CLOSE_TRIES as nat,
            ) is Some {
                seq![Step::CloseWindow]
            } else {
                Seq::<Step>::empty()
            })
        },
        None => Seq::<Step>::empty(),
    }
}

/// Every other action: wait for the window; once it is there, let the delay
/// pass and act on it; if it never comes, give up.
pub open spec fn act_once_steps(action: Action, delay: u64, sight: Seq<bool>) -> Seq<Step> {
    watch_steps(sight, APPEAR_TRIES as nat) + match first_sighting(sight, APPEAR_TRIES as nat) {
        Some(_) => settle_steps(delay) + act_steps(action),
        None => Seq::<Step>::empty(),
    }
}

/// The whole run of a rule, given whether the launch through Hyprland
/// succeeds and what each look for a window finds.
pub open spec fn expected_steps(
    action: Action,
    delay: u64,
    notify: bool,
    exec_ok: bool,
    sight: Seq<bool>,
) -> Seq<Step> {
    launch_steps(notify, exec_ok) + (if action is Close2 {
        close_twice_steps(delay, sight)
    } else {
        act_once_steps(action, delay, sight)
    }) + seq![Step::Finish]
}

/// The reply the outside world gives to a step.
pub open spec fn answer(s: Step, exec_ok: bool, sight: Seq<bool>) -> Reply {
    match s {
        Step::Launch => Reply::Launched(exec_ok),
        Step::CountWindows => Reply::Windows(if sight.len() > 0 && sight[0] {
            1
        } else {
            0
        }),
        _ => Reply::Done,
    }
}

/// The looks not yet answered after step `s`.
pub open spec fn unanswered(s: Step, sight: Seq<bool>) -> Seq<bool> {
    if s is CountWindows {
        sight.drop_first()
    } else {
        sight
    }
}

/// The steps a run asks for from the given state and step on, until it
/// finishes (or `fuel` runs out).
#[verifier::opaque]
pub open spec fn run_on(ms: (RuleRun, Step), exec_ok: bool, sight: Seq<bool>, fuel: nat) -> Seq<
    Step,
>
    decreases fuel, 0nat,
{
    if ms.1 is Finish {
        seq![Step::Finish]
    } else if fuel == 0 {
        Seq::<Step>::empty()
    } else {
        seq![ms.1] + run(
            ms.0,
            answer(ms.1, exec_ok, sight),
            exec_ok,
            unanswered(ms.1, sight),
            (fuel - 1) as nat,
        )
    }
}

/// The steps a run asks for after receiving `reply`.
#[verifier::opaque]
pub open spec fn run(m: RuleRun, reply: Reply, exec_ok: bool, sight: Seq<bool>, fuel: nat) -> Seq<
    Step,
>
    decreases fuel, 1nat,
{
    run_on(next(m, reply), exec_ok, sight, fuel)
}

proof fn lemma_watch_steps_miss(sight: Seq<bool>, tries: nat)
    requires
        tries >= 1,
        sight.len() >= 1,
        !sight[0],
    ensures
        watch_steps(sight, tries) == seq![Step::CountWindows, Step::Wait(POLL_MS)] + watch_steps(
            sight.drop_first(),
            (tries - 1) as nat,
        ),
        first_sighting(sight, tries) == (match first_sighting(
            sight.drop_first(),
            (tries - 1) as nat,
        ) {
            Some(i) => Some(i + 1),
            None => None::<nat>,
        }),
{
    match first_sighting(sight.drop_first(), (tries - 1) as nat) {
        Some(i) => {
            assert(misses(i + 1) == seq![Step::CountWindows, Step::Wait(POLL_MS)] + misses(i));
            assert(watch_steps(sight, tries) =~= seq![Step::CountWindows, Step::Wait(POLL_MS)]
                + watch_steps(sight.drop_first(), (tries - 1) as nat));
        },
        None => {
            assert(misses(tries) == seq![Step::CountWindows, Step::Wait(POLL_MS)] + misses(
                (tries - 1) as nat,
            ));
        },
    }
}

proof fn lemma_first_sighting(sight: Seq<bool>, tries: nat)
    ensures
        match first_sighting(sight, tries) {
            Some(i) => i < tries && i < sight.len() && sight[i as int] && forall|j: int|
                0 <= j < i ==> !#[trigger] sight[j],
            None => forall|j: int| 0 <= j < tries && j < sight.len() ==> !#[trigger] sight[j],
        },
    decreases tries,
{
    if tries > 0 && sight.len() > 0 && !sight[0] {
        let rest = sight.drop_first();
        lemma_first_sighting(rest, (tries - 1) as nat);
        match first_sighting(rest, (tries - 1) as nat) {
            Some(i) => {
                assert(sight[i + 1int] == rest[i as int]);
                assert forall|j: int| 0 <= j < i + 1 implies !#[trigger] sight[j] by {
                    if j > 0 {
                        assert(sight[j] == rest[j - 1]);
                    }
                }
            },
            None => {
                assert forall|j: int| 0 <= j < tries && j < sight.len() implies !#[trigger] sight[j] by {
                    if j > 0 {
                        assert(sight[j] == rest[j - 1]);
                    }
                }
            },
        }
    }
}

/// One step of a run that does not finish.
proof fn lemma_run_unfold(m: RuleRun, reply: Reply, exec_ok: bool, sight: Seq<bool>, fuel: nat)
    requires
        fuel >= 1,
        !(next(m, reply).1 is Finish),
    ensures
        run(m, reply, exec_ok, sight, fuel) == seq![next(m, reply).1] + run(
            next(m, reply).0,
            answer(next(m, reply).1, exec_ok, sight),
            exec_ok,
            unanswered(next(m, reply).1, sight),
            (fuel - 1) as nat,
        ),
{
    reveal(run);
    reveal(run_on);
}

/// A run whose next step is `Finish`.
proof fn lemma_run_finish(m: RuleRun, reply: Reply, exec_ok: bool, sight: Seq<bool>, fuel: nat)
    requires
        next(m, reply).1 is Finish,
    ensures
        run(m, reply, exec_ok, sight, fuel) == seq![Step::Finish],
{
    reveal(run);
    reveal(run_on);
}

/// One step, from a state and the step it asked for.
proof fn lemma_run_on_step(ms: (RuleRun, Step), exec_ok: bool, sight: Seq<bool>, fuel: nat)
    requires
        fuel >= 1,
        !(ms.1 is Finish),
    ensures
        run_on(ms, exec_ok, sight, fuel) == seq![ms.1] + run(
            ms.0,
            answer(ms.1, exec_ok, sight),
            exec_ok,
            unanswered(ms.1, sight),
            (fuel - 1) as nat,
        ),
{
    reveal(run);
    reveal(run_on);
}

proof fn lemma_run_on_is_run(ms: (RuleRun, Step), m: RuleRun, reply: Reply, exec_ok: bool, sight: Seq<bool>, fuel: nat)
    requires
        ms == next(m, reply),
    ensures
        run_on(ms, exec_ok, sight, fuel) == run(m, reply, exec_ok, sight, fuel),
{
    reveal(run);
    reveal(run_on);
}

/// A watch with `left` looks to go, the current look answered by `sight[0]`.
#[verifier::spinoff_prover]
proof fn lemma_watch(m: RuleRun, w: Watch, left: u32, exec_ok: bool, sight: Seq<bool>, fuel: nat)
    requires
        m.phase == Phase::Polling(w, left),
        left >= 1,
        sight.len() >= left,
        fuel >= 2 * left,
    ensures
        run(m, answer(Step::CountWindows, exec_ok, sight), exec_ok, sight.drop_first(), fuel)
            == watch_steps(sight, left as nat).drop_first() + match first_sighting(
            sight,
            left as nat,
        ) {
            Some(i) => run_on(
                on_sight(m, w),
                exec_ok,
                sight.skip(i + 1int),
                (fuel - 2 * i) as nat,
            ),
            None => seq![Step::Finish],
        },
    decreases left,
{
    let reply = answer(Step::CountWindows, exec_ok, sight);
    if sight[0] {
        assert(sight.skip(1) =~= sight.drop_first());
        assert(watch_steps(sight, left as nat) =~= seq![Step::CountWindows]);
        assert(watch_steps(sight, left as nat).drop_first() =~= Seq::<Step>::empty());
        lemma_run_on_is_run(on_sight(m, w), m, reply, exec_ok, sight.drop_first(), fuel);
    } else {
        lemma_watch_miss(m, w, left, exec_ok, sight, fuel);
    }
}

#[verifier::spinoff_prover]
proof fn lemma_watch_miss(m: RuleRun, w: Watch, left: u32, exec_ok: bool, sight: Seq<bool>, fuel: nat)
    requires
        m.phase == Phase::Polling(w, left),
        left >= 1,
        sight.len() >= left,
        fuel >= 2 * left,
        !sight[0],
    ensures
        run(m, answer(Step::CountWindows, exec_ok, sight), exec_ok, sight.drop_first(), fuel)
            == watch_steps(sight, left as nat).drop_first() + match first_sighting(
            sight,
            left as nat,
        ) {
            Some(i) => run_on(
                on_sight(m, w),
                exec_ok,
                sight.skip(i + 1int),
                (fuel - 2 * i) as nat,
            ),
            None => seq![Step::Finish],
        },
    decreases left, 0nat,
{
    let reply = answer(Step::CountWindows, exec_ok, sight);
    lemma_watch_steps_miss(sight, left as nat);
    let paused = moved(m, Phase::Pausing(w, left));
    let rest = sight.drop_first();
    lemma_run_unfold(m, reply, exec_ok, rest, fuel);
    assert(next(m, reply) == (paused, Step::Wait(POLL_MS)));
    if left > 1 {
        let m2 = moved(m, Phase::Polling(w, (left - 1) as u32));
        assert(next(paused, Reply::Done) == (m2, Step::CountWindows));
        lemma_run_unfold(paused, Reply::Done, exec_ok, rest, (fuel - 1) as nat);
        lemma_watch(m2, w, (left - 1) as u32, exec_ok, rest, (fuel - 2) as nat);
        assert(on_sight(m2, w) == on_sight(m, w));
        lemma_first_sighting(rest, (left - 1) as nat);
        match first_sighting(rest, (left - 1) as nat) {
            Some(i) => {
                assert(rest.skip(i + 1int) =~= sight.skip(i + 2int));
                assert(watch_steps(sight, left as nat).drop_first() =~= seq![
                    Step::Wait(POLL_MS),
                    Step::CountWindows,
                ] + watch_steps(rest, (left - 1) as nat).drop_first());
            },
            None => {
                assert(watch_steps(sight, left as nat).drop_first() =~= seq![
                    Step::Wait(POLL_MS),
                    Step::CountWindows,
                ] + watch_steps(rest, (left - 1) as nat).drop_first());
            },
        }
    } else {
        assert(next(paused, Reply::Done).1 is Finish);
        lemma_run_finish(paused, Reply::Done, exec_ok, rest, (fuel - 1) as nat);
        assert(first_sighting(rest, 0) is None);
        assert(misses(0) =~= Seq::<Step>::empty());
        assert(watch_steps(sight, left as nat).drop_first() =~= seq![Step::Wait(POLL_MS)]);
    }
}

proof fn lemma_watch_steps_head(sight: Seq<bool>, tries: nat)
    requires
        tries >= 1,
    ensures
        watch_steps(sight, tries).len() >= 1,
        watch_steps(sight, tries)[0] == Step::CountWindows,
        watch_steps(sight, tries) == seq![Step::CountWindows] + watch_steps(sight, tries).drop_first(),
{
    match first_sighting(sight, tries) {
        Some(i) => {
            if i > 0 {
                assert(misses(i) == seq![Step::CountWindows, Step::Wait(POLL_MS)] + misses(
                    (i - 1) as nat,
                ));
            } else {
                assert(misses(0) =~= Seq::<Step>::empty());
            }
        },
        None => {
            assert(misses(tries) == seq![Step::CountWindows, Step::Wait(POLL_MS)] + misses(
                (tries - 1) as nat,
            ));
        },
    }
    assert(watch_steps(sight, tries) =~= seq![Step::CountWindows] + watch_steps(
        sight,
        tries,
    ).drop_first());
}

/// A whole watch, from the step that starts it.
proof fn lemma_start_watch(m: RuleRun, w: Watch, exec_ok: bool, sight: Seq<bool>, fuel: nat)
    requires
        sight.len() >= tries(w),
        fuel >= 2 * tries(w) + 1,
    ensures
        run_on(start_watch(m, w), exec_ok, sight, fuel) == watch_steps(sight, tries(w) as nat)
            + match first_sighting(sight, tries(w) as nat) {
            Some(i) => run_on(
                on_sight(m, w),
                exec_ok,
                sight.skip(i + 1int),
                (fuel - 1 - 2 * i) as nat,
            ),
            None => seq![Step::Finish],
        },
{
    let (m2, st) = start_watch(m, w);
    lemma_run_on_step(start_watch(m, w), exec_ok, sight, fuel);
    lemma_watch(m2, w, tries(w), exec_ok, sight, (fuel - 1) as nat);
    assert(on_sight(m2, w) == on_sight(m, w));
    lemma_watch_steps_head(sight, tries(w) as nat);
    let tail = match first_sighting(sight, tries(w) as nat) {
        Some(i) => run_on(
            on_sight(m, w),
            exec_ok,
            sight.skip(i + 1int),
            (fuel - 1 - 2 * i) as nat,
        ),
        None => seq![Step::Finish],
    };
    assert(seq![Step::CountWindows] + (watch_steps(sight, tries(w) as nat).drop_first() + tail)
        =~= watch_steps(sight, tries(w) as nat) + tail);
}

/// The action on a found window, then the end of the run.
proof fn lemma_act(m: RuleRun, exec_ok: bool, sight: Seq<bool>, fuel: nat)
    requires
        !(m.action is Close2),
        fuel >= 3,
    ensures
        run_on(act(m), exec_ok, sight, fuel) == act_steps(m.action) + seq![Step::Finish],
{
    let (m2, st) = act(m);
    lemma_run_on_step(act(m), exec_ok, sight, fuel);
    match m.action {
        Action::HideToTray => {
            lemma_run_unfold(m2, Reply::Done, exec_ok, sight, (fuel - 1) as nat);
            let m3 = moved(m, Phase::Finishing);
            lemma_run_finish(m3, Reply::Done, exec_ok, sight, (fuel - 2) as nat);
            assert(seq![Step::HideWindow] + (seq![Step::RememberHidden] + seq![Step::Finish])
                =~= act_steps(m.action) + seq![Step::Finish]);
        },
        _ => {
            lemma_run_finish(m2, Reply::Done, exec_ok, sight, (fuel - 1) as nat);
        },
    }
}

/// Found window of a rule that acts once: the delay, then the action.
proof fn lemma_appear_sighted(m: RuleRun, exec_ok: bool, sight: Seq<bool>, fuel: nat)
    requires
        !(m.action is Close2),
        fuel >= 5,
    ensures
        run_on(on_sight(m, Watch::Appear), exec_ok, sight, fuel) == settle_steps(m.delay)
            + act_steps(m.action) + seq![Step::Finish],
{
    if m.delay > 0 {
        let m2 = moved(m, Phase::Settling);
        lemma_run_on_step(on_sight(m, Watch::Appear), exec_ok, sight, fuel);
        lemma_run_on_is_run(act(m2), m2, Reply::Done, exec_ok, sight, (fuel - 1) as nat);
        lemma_act(m2, exec_ok, sight, (fuel - 1) as nat);
        assert(act_steps(m2.action) == act_steps(m.action));
        assert(seq![Step::Wait(m.delay)] + (act_steps(m.action) + seq![Step::Finish])
            =~= settle_steps(m.delay) + act_steps(m.action) + seq![Step::Finish]);
    } else {
        lemma_act(m, exec_ok, sight, fuel);
        assert(settle_steps(m.delay) + act_steps(m.action) =~= act_steps(m.action));
    }
}

/// The second close of a close-twice rule, from the pause before it.
proof fn lemma_second_close(m: RuleRun, exec_ok: bool, rest: Seq<bool>, fuel: nat)
    requires
        m.phase == Phase::BetweenCloses,
        rest.len() >= SECOND_CLOSE_TRIES,
        fuel >= 2 * SECOND_CLOSE_TRIES + 4,
    ensures
        run(m, Reply::Done, exec_ok, rest, fuel) == watch_steps(rest, SECOND_CLOSE_TRIES as nat)
            + (if first_sighting(rest, SECOND_CLOSE_TRIES as nat) is Some {
            seq![Step::CloseWindow]
        } else {
            Seq::<Step>::empty()
        }) + seq![Step::Finish],
{
    lemma_run_on_is_run(start_watch(m, Watch::SecondClose), m, Reply::Done, exec_ok, rest, fuel);
    lemma_start_watch(m, Watch::SecondClose, exec_ok, rest, fuel);
    let ws = watch_steps(rest, SECOND_CLOSE_TRIES as nat);
    match first_sighting(rest, SECOND_CLOSE_TRIES as nat) {
        Some(j) => {
            lemma_first_sighting(rest, SECOND_CLOSE_TRIES as nat);
            let f2 = (fuel - 1 - 2 * j) as nat;
            lemma_run_on_step(on_sight(m, Watch::SecondClose), exec_ok, rest.skip(j + 1int), f2);
            let m3 = moved(m, Phase::Finishing);
            lemma_run_finish(m3, Reply::Done, exec_ok, rest.skip(j + 1int), (f2 - 1) as nat);
            assert(ws + (seq![Step::CloseWindow] + seq![Step::Finish]) =~= ws + seq![
                Step::CloseWindow,
            ] + seq![Step::Finish]);
        },
        None => {
            assert(ws + Seq::<Step>::empty() =~= ws);
        },
    }
}

/// A close-twice rule once its first window is found.
proof fn lemma_first_sighted(m: RuleRun, exec_ok: bool, rest: Seq<bool>, fuel: nat)
    requires
        rest.len() >= SECOND_CLOSE_TRIES,
        fuel >= 2 * SECOND_CLOSE_TRIES + 10,
    ensures
        run_on(on_sight(m, Watch::FirstClose), exec_ok, rest, fuel) == settle_steps(m.delay) + seq![
            Step::CloseWindow,
            Step::Wait(BETWEEN_CLOSES_MS),
        ] + watch_steps(rest, SECOND_CLOSE_TRIES as nat) + (if first_sighting(
            rest,
            SECOND_CLOSE_TRIES as nat,
        ) is Some {
            seq![Step::CloseWindow]
        } else {
            Seq::<Step>::empty()
        }) + seq![Step::Finish],
{
    let second = watch_steps(rest, SECOND_CLOSE_TRIES as nat) + (if first_sighting(
        rest,
        SECOND_CLOSE_TRIES as nat,
    ) is Some {
        seq![Step::CloseWindow]
    } else {
        Seq::<Step>::empty()
    }) + seq![Step::Finish];
    let closed = moved(m, Phase::FirstClosed);
    let between = moved(m, Phase::BetweenCloses);
    lemma_run_on_step(on_sight(m, Watch::FirstClose), exec_ok, rest, fuel);
    if m.delay > 0 {
        let settling = moved(m, Phase::FirstSettling);
        lemma_run_unfold(settling, Reply::Done, exec_ok, rest, (fuel - 1) as nat);
        lemma_run_unfold(closed, Reply::Done, exec_ok, rest, (fuel - 2) as nat);
        lemma_second_close(between, exec_ok, rest, (fuel - 3) as nat);
        assert(seq![Step::Wait(m.delay)] + (seq![Step::CloseWindow] + (seq![
            Step::Wait(BETWEEN_CLOSES_MS),
        ] + second)) =~= settle_steps(m.delay) + seq![
            Step::CloseWindow,
            Step::Wait(BETWEEN_CLOSES_MS),
        ] + second);
    } else {
        lemma_run_unfold(closed, Reply::Done, exec_ok, rest, (fuel - 1) as nat);
        lemma_second_close(between, exec_ok, rest, (fuel - 2) as nat);
        assert(seq![Step::CloseWindow] + (seq![Step::Wait(BETWEEN_CLOSES_MS)] + second)
            =~= settle_steps(m.delay) + seq![Step::CloseWindow, Step::Wait(BETWEEN_CLOSES_MS)]
            + second);
    }
}

/// Everything after the launch.
proof fn lemma_after_launch(m: RuleRun, exec_ok: bool, sight: Seq<bool>, fuel: nat)
    requires
        sight.len() >= FIRST_CLOSE_TRIES + SECOND_CLOSE_TRIES,
        sight.len() >= APPEAR_TRIES,
        fuel >= 400,
    ensures
        run_on(after_launch(m), exec_ok, sight, fuel) == (if m.action is Close2 {
            close_twice_steps(m.delay, sight)
        } else {
            act_once_steps(m.action, m.delay, sight)
        }) + seq![Step::Finish],
{
    if m.action is Close2 {
        lemma_start_watch(m, Watch::FirstClose, exec_ok, sight, fuel);
        let ws = watch_steps(sight, FIRST_CLOSE_TRIES as nat);
        lemma_first_sighting(sight, FIRST_CLOSE_TRIES as nat);
        match first_sighting(sight, FIRST_CLOSE_TRIES as nat) {
            Some(i) => {
                let rest = sight.skip(i + 1int);
                lemma_first_sighted(m, exec_ok, rest, (fuel - 1 - 2 * i) as nat);
                let tail = settle_steps(m.delay) + seq![
                    Step::CloseWindow,
                    Step::Wait(BETWEEN_CLOSES_MS),
                ] + watch_steps(rest, SECOND_CLOSE_TRIES as nat) + (if first_sighting(
                    rest,
                    SECOND_CLOSE_TRIES as nat,
                ) is Some {
                    seq![Step::CloseWindow]
                } else {
                    Seq::<Step>::empty()
                });
                assert(ws + (tail + seq![Step::Finish]) =~= (ws + tail) + seq![Step::Finish]);
            },
            None => {
                assert(ws + seq![Step::Finish] =~= (ws + Seq::<Step>::empty()) + seq![
                    Step::Finish,
                ]);
            },
        }
    } else {
        lemma_start_watch(m, Watch::Appear, exec_ok, sight, fuel);
        let ws = watch_steps(sight, APPEAR_TRIES as nat);
        lemma_first_sighting(sight, APPEAR_TRIES as nat);
        match first_sighting(sight, APPEAR_TRIES as nat) {
            Some(i) => {
                lemma_appear_sighted(m, exec_ok, sight.skip(i + 1int), (fuel - 1 - 2 * i) as nat);
                let tail = settle_steps(m.delay) + act_steps(m.action);
                assert(ws + (tail + seq![Step::Finish]) =~= (ws + tail) + seq![Step::Finish]);
            },
            None => {
                assert(ws + seq![Step::Finish] =~= (ws + Seq::<Step>::empty()) + seq![
                    Step::Finish,
                ]);
            },
        }
    }
}

/// The number of steps that always suffices for a run to finish.
pub open spec fn run_fuel() -> nat {
    500
}

/// Law: a run of a rule asks for exactly the steps `expected_steps` lists,
/// whatever the outside world answers, as long as it answers every look
/// for a window (`sight[i]`: whether the i-th look finds one).  In words:
/// announce (if enabled), launch through Hyprland and start the application
/// directly if that fails; a close-twice rule then waits up to 40 looks for
/// a window, lets the launch delay pass, closes it, pauses a second, waits
/// up to 80 looks for another window and closes that too; every other rule
/// waits up to 60 looks for its window, lets the launch delay pass and acts
/// on it; a window that never comes ends the run without any action.
pub proof fn lemma_run_follows_rule(
    action: Action,
    delay: u64,
    notify: bool,
    exec_ok: bool,
    sight: Seq<bool>,
)
    requires
        sight.len() >= FIRST_CLOSE_TRIES + SECOND_CLOSE_TRIES,
    ensures
        run(
            RuleRun { action, delay, notify, phase: Phase::Start },
            Reply::Done,
            exec_ok,
            sight,
            run_fuel(),
        ) == expected_steps(action, delay, notify, exec_ok, sight),
{
    let m0 = RuleRun { action, delay, notify, phase: Phase::Start };
    let launching = moved(m0, Phase::Launching);
    let body = (if action is Close2 {
        close_twice_steps(delay, sight)
    } else {
        act_once_steps(action, delay, sight)
    }) + seq![Step::Finish];
    let fb = moved(m0, Phase::Fallback);
    let mut f: nat = run_fuel();
    if notify {
        lemma_run_unfold(m0, Reply::Done, exec_ok, sight, f);
        f = (f - 1) as nat;
        lemma_run_unfold(moved(m0, Phase::Notified), Reply::Done, exec_ok, sight, f);
    } else {
        lemma_run_unfold(m0, Reply::Done, exec_ok, sight, f);
    }
    f = (f - 1) as nat;
    // `launching` now receives the answer to the launch.
    if exec_ok {
        lemma_run_on_is_run(
            after_launch(launching),
            launching,
            Reply::Launched(true),
            exec_ok,
            sight,
            f,
        );
        lemma_after_launch(launching, exec_ok, sight, f);
    } else {
        lemma_run_unfold(launching, Reply::Launched(false), exec_ok, sight, f);
        lemma_run_on_is_run(after_launch(fb), fb, Reply::Done, exec_ok, sight, (f - 1) as nat);
        lemma_after_launch(fb, exec_ok, sight, (f - 1) as nat);
    }
    assert(launch_steps(notify, exec_ok) + (if action is Close2 {
        close_twice_steps(delay, sight)
    } else {
        act_once_steps(action, delay, sight)
    }) + seq![Step::Finish] =~= launch_steps(notify, exec_ok) + body);
    if notify {
        if exec_ok {
            assert(seq![Step::Notify] + (seq![Step::Launch] + body) =~= launch_steps(notify, exec_ok)
                + body);
        } else {
            assert(seq![Step::Notify] + (seq![Step::Launch] + (seq![Step::LaunchDirectly] + body))
                =~= launch_steps(notify, exec_ok) + body);
        }
    } else {
        if exec_ok {
            assert(seq![Step::Launch] + body =~= launch_steps(notify, exec_ok) + body);
        } else {
            assert(seq![Step::Launch] + (seq![Step::LaunchDirectly] + body) =~= launch_steps(
                notify,
                exec_ok,
            ) + body);
        }
    }
}

/// Whether a step acts on the rule's window.
pub open spec fn acts_on_window(s: Step) -> bool {
    s is CloseWindow || s is MoveToWorkspace || s is HideWindow
}

/// Whether step `k` is the first one that acts on the window.
pub open spec fn first_act(steps: Seq<Step>, k: int) -> bool {
    &&& 0 <= k < steps.len()
    &&& acts_on_window(steps[k])
    &&& forall|j: int| 0 <= j < k ==> !acts_on_window(#[trigger] steps[j])
}

/// Whether no step of `steps` acts on the window.
pub open spec fn no_act(steps: Seq<Step>) -> bool {
    forall|i: int| 0 <= i < steps.len() ==> !acts_on_window(#[trigger] steps[i])
}

proof fn lemma_misses_no_act(k: nat)
    ensures
        no_act(misses(k)),
    decreases k,
{
    if k > 0 {
        lemma_misses_no_act((k - 1) as nat);
        let head = seq![Step::CountWindows, Step::Wait(POLL_MS)];
        assert forall|i: int| 0 <= i < misses(k).len() implies !acts_on_window(
            #[trigger] misses(k)[i],
        ) by {
            if i >= 2 {
                assert(misses(k)[i] == misses((k - 1) as nat)[i - 2]);
            }
        }
    }
}

proof fn lemma_watch_no_act(sight: Seq<bool>, tries: nat)
    ensures
        no_act(watch_steps(sight, tries)),
{
    match first_sighting(sight, tries) {
        Some(i) => {
            lemma_misses_no_act(i);
            let w = misses(i) + seq![Step::CountWindows];
            assert forall|j: int| 0 <= j < w.len() implies !acts_on_window(#[trigger] w[j]) by {
                if j < misses(i).len() {
                    assert(w[j] == misses(i)[j]);
                }
            }
        },
        None => lemma_misses_no_act(tries),
    }
}

/// Where the first action of a run stands: right after the wait of the
/// launch delay that follows the steps `before`, none of which acts.
proof fn lemma_first_act_at(steps: Seq<Step>, before: Seq<Step>, d: u64, rest: Seq<Step>)
    requires
        steps == before + seq![Step::Wait(d)] + rest,
        no_act(before),
        rest.len() > 0,
        acts_on_window(rest[0]),
    ensures
        forall|k: int| #[trigger] first_act(steps, k) ==> k >= 1 && steps[k - 1] == Step::Wait(d),
{
    let at: int = before.len() + 1int;
    assert(steps[at] == rest[0]);
    assert forall|k: int| #[trigger] first_act(steps, k) implies k >= 1 && steps[k - 1] == Step::Wait(
        d,
    ) by {
        if k < before.len() {
            assert(steps[k] == before[k]);
        } else if k == before.len() {
            assert(steps[k] == Step::Wait(d));
        } else if k > at {
            assert(!acts_on_window(steps[at]));
        }
        assert(steps[before.len() as int] == Step::Wait(d));
    }
}

/// Law: with a launch delay, nothing is done to a window before the delay
/// has passed since it was found; for close-twice rules too.  The first
/// step that acts on the window (close, move, hide) directly follows the
/// wait of the launch delay.
#[verifier::spinoff_prover]
#[verifier::rlimit(40)]
pub proof fn lemma_delay_before_first_act(
    action: Action,
    delay: u64,
    notify: bool,
    exec_ok: bool,
    sight: Seq<bool>,
)
    requires
        delay > 0,
        sight.len() >= FIRST_CLOSE_TRIES + SECOND_CLOSE_TRIES,
    ensures
        forall|k: int|
            #[trigger] first_act(
                run(
                    RuleRun { action, delay, notify, phase: Phase::Start },
                    Reply::Done,
                    exec_ok,
                    sight,
                    run_fuel(),
                ),
                k,
            ) ==> k >= 1 && run(
                RuleRun { action, delay, notify, phase: Phase::Start },
                Reply::Done,
                exec_ok,
                sight,
                run_fuel(),
            )[k - 1] == Step::Wait(delay),
{
    lemma_run_follows_rule(action, delay, notify, exec_ok, sight);
    let steps = expected_steps(action, delay, notify, exec_ok, sight);
    let head = launch_steps(notify, exec_ok);
    assert(no_act(head));
    let tries: nat = if action is Close2 {
        FIRST_CLOSE_TRIES as nat
    } else {
        APPEAR_TRIES as nat
    };
    let w = watch_steps(sight, tries);
    lemma_watch_no_act(sight, tries);
    let before = head + w;
    assert forall|i: int| 0 <= i < before.len() implies !acts_on_window(#[trigger] before[i]) by {
        if i < head.len() {
            assert(before[i] == head[i]);
        } else {
            assert(before[i] == w[i - head.len()]);
        }
    }
    match first_sighting(sight, tries) {
        Some(i) => {
            let rest = if action is Close2 {
                let r = sight.skip(i + 1int);
                seq![Step::CloseWindow, Step::Wait(BETWEEN_CLOSES_MS)] + watch_steps(
                    r,
                    SECOND_CLOSE_TRIES as nat,
                ) + (if first_sighting(r, SECOND_CLOSE_TRIES as nat) is Some {
                    seq![Step::CloseWindow]
                } else {
                    Seq::<Step>::empty()
                }) + seq![Step::Finish]
            } else {
                act_steps(action) + seq![Step::Finish]
            };
            assert(steps =~= before + seq![Step::Wait(delay)] + rest);
            lemma_first_act_at(steps, before, delay, rest);
        },
        None => {
            assert(steps =~= before + seq![Step::Finish]);
            assert forall|k: int| #[trigger] first_act(steps, k) implies k >= 1 && steps[k - 1]
                == Step::Wait(delay) by {
                if k < before.len() {
                    assert(steps[k] == before[k]);
                }
            }
        },
    }
}

} // verus!
