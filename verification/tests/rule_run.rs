use totray::rule_run::{launch_notice, Reply, RuleRun, Step};
use totray::state::Action;

/// Runs a rule against a scripted world: whether the launch works, and for
/// each look whether a window is there (missing answers mean no window).
fn simulate(action: Action, delay: u64, notify: bool, exec_ok: bool, sight: &[bool]) -> Vec<Step> {
    let mut run = RuleRun::new(action, delay, notify);
    let mut reply = Reply::Done;
    let mut looks = 0;
    let mut steps = Vec::new();
    loop {
        let step = run.advance(reply);
        steps.push(step);
        reply = match step {
            Step::Finish => break,
            Step::Launch => Reply::Launched(exec_ok),
            Step::CountWindows => {
                let seen = sight.get(looks).copied().unwrap_or(false);
                looks += 1;
                Reply::Windows(if seen { 2 } else { 0 })
            }
            _ => Reply::Done,
        };
        assert!(steps.len() < 1000);
    }
    steps
}

#[test]
fn close_rule_waits_then_closes() {
    let steps = simulate(Action::Close, 1500, true, true, &[false, false, true]);
    assert_eq!(
        steps,
        vec![
            Step::Notify,
            Step::Launch,
            Step::CountWindows,
            Step::Wait(500),
            Step::CountWindows,
            Step::Wait(500),
            Step::CountWindows,
            Step::Wait(1500),
            Step::CloseWindow,
            Step::Finish,
        ]
    );
}

#[test]
fn failed_launch_falls_back() {
    let steps = simulate(Action::Workspace(4), 0, false, false, &[true]);
    assert_eq!(
        steps,
        vec![
            Step::Launch,
            Step::LaunchDirectly,
            Step::CountWindows,
            Step::MoveToWorkspace(4),
            Step::Finish,
        ]
    );
}

#[test]
fn tray_rule_hides_and_remembers() {
    let steps = simulate(Action::HideToTray, 10, false, true, &[true]);
    assert_eq!(
        steps,
        vec![
            Step::Launch,
            Step::CountWindows,
            Step::Wait(10),
            Step::HideWindow,
            Step::RememberHidden,
            Step::Finish,
        ]
    );
}

#[test]
fn missing_window_gives_up_after_sixty_looks() {
    let steps = simulate(Action::Close, 100, false, true, &[]);
    let looks = steps.iter().filter(|s| **s == Step::CountWindows).count();
    assert_eq!(looks, 60);
    assert_eq!(steps.len(), 1 + 120 + 1);
    assert_eq!(steps[steps.len() - 2], Step::Wait(500));
    assert_eq!(*steps.last().unwrap(), Step::Finish);
    assert!(!steps.contains(&Step::CloseWindow));
}

#[test]
fn close_twice_closes_two_windows() {
    let mut sight = vec![false, true];
    sight.extend([false, false, true]);
    let steps = simulate(Action::Close2, 300, false, true, &sight);
    assert_eq!(
        steps,
        vec![
            Step::Launch,
            Step::CountWindows,
            Step::Wait(500),
            Step::CountWindows,
            Step::Wait(300),
            Step::CloseWindow,
            Step::Wait(1000),
            Step::CountWindows,
            Step::Wait(500),
            Step::CountWindows,
            Step::Wait(500),
            Step::CountWindows,
            Step::CloseWindow,
            Step::Finish,
        ]
    );
}

#[test]
fn close_twice_without_first_window() {
    let steps = simulate(Action::Close2, 0, false, true, &[]);
    let looks = steps.iter().filter(|s| **s == Step::CountWindows).count();
    assert_eq!(looks, 40);
    assert!(!steps.contains(&Step::CloseWindow));
}

#[test]
fn close_twice_without_second_window() {
    let steps = simulate(Action::Close2, 0, false, true, &[true]);
    let looks = steps.iter().filter(|s| **s == Step::CountWindows).count();
    assert_eq!(looks, 81);
    assert_eq!(steps.iter().filter(|s| **s == Step::CloseWindow).count(), 1);
}

#[test]
fn finished_run_stays_finished() {
    let mut run = RuleRun::new(Action::Close, 0, false);
    let _ = simulate(Action::Close, 0, false, true, &[true]);
    assert_eq!(run.advance(Reply::Done), Step::Launch);
    assert_eq!(run.advance(Reply::Launched(true)), Step::CountWindows);
    assert_eq!(run.advance(Reply::Windows(1)), Step::CloseWindow);
    assert_eq!(run.advance(Reply::Done), Step::Finish);
    assert_eq!(run.advance(Reply::Done), Step::Finish);
}

#[test]
fn notification_text() {
    assert_eq!(launch_notice("firefox"), "Launching firefox");
}
