use uat_runner::dispatch::{
    resolve_all, split_versions, DispatchAction, DispatchEvent, DispatchState, ResolvedEngine,
    UAT_RELATIVE_PATH,
};
use uat_runner::engine_utils::EngineInstall;

fn install(major: u8, minor: u8, patch: u8, dir: &str) -> EngineInstall {
    EngineInstall {
        major_version: major,
        minor_version: minor,
        patch_version: patch,
        cl_version: 1,
        is_source: false,
        branch_name: None,
        base_dir: dir.to_string(),
    }
}

fn installs() -> Vec<EngineInstall> {
    vec![install(5, 3, 0, "five-three"), install(5, 4, 1, "five-four"), install(4, 27, 2, "four")]
}

/// Runs the state machine over the exit codes that the tool would give, and
/// lists the positions that were launched with the action that ended the run.
fn run(total: usize, exit_codes: &[Option<i32>]) -> (Vec<usize>, DispatchAction) {
    let (mut state, mut action) = DispatchState::begin(total);
    let mut launched = Vec::new();
    while let DispatchAction::Launch(position) = action {
        launched.push(position);
        let event = match exit_codes[position] {
            Some(code) => DispatchEvent::Exited(code),
            None => DispatchEvent::LaunchFailed,
        };
        let next = state.step(event);
        state = next.0;
        action = next.1;
    }
    (launched, action)
}

#[test]
fn tool_path_is_relative_to_the_base_directory() {
    assert_eq!(UAT_RELATIVE_PATH, "Engine/Build/BatchFiles/RunUAT.bat");
}

#[test]
fn split_versions_splits_at_plus_signs() {
    assert_eq!(split_versions("5.4.1+5.3.0"), vec!["5.4.1", "5.3.0"]);
    assert_eq!(split_versions("latest"), vec!["latest"]);
    assert_eq!(split_versions("cl-500+source-5+latest"), vec!["cl-500", "source-5", "latest"]);
}

#[test]
fn split_versions_keeps_empty_names() {
    assert_eq!(split_versions(""), vec![""]);
    assert_eq!(split_versions("+"), vec!["", ""]);
    assert_eq!(split_versions("5.4+"), vec!["5.4", ""]);
    assert_eq!(split_versions("5.4++5.3"), vec!["5.4", "", "5.3"]);
}

#[test]
fn split_versions_counts_characters_not_bytes() {
    assert_eq!(split_versions("é+5.4+ü"), vec!["é", "5.4", "ü"]);
}

#[test]
fn resolve_all_gives_the_queue_in_the_order_of_the_names() {
    let installs = installs();
    let queue = resolve_all(&installs, "5.4.1+4+5.3").unwrap();
    assert_eq!(
        queue,
        vec![
            ResolvedEngine { name: "5.4.1".to_string(), install: installs[1].clone() },
            ResolvedEngine { name: "4".to_string(), install: installs[2].clone() },
            ResolvedEngine { name: "5.3".to_string(), install: installs[0].clone() },
        ]
    );
}

#[test]
fn resolve_all_may_name_one_install_twice() {
    let installs = installs();
    let queue = resolve_all(&installs, "5.4+latest").unwrap();
    assert_eq!(queue.len(), 2);
    assert_eq!(queue[0].install, installs[1]);
    assert_eq!(queue[1].install, installs[1]);
}

#[test]
fn resolve_all_refuses_the_run_where_one_name_does_not_resolve() {
    let installs = installs();
    assert_eq!(resolve_all(&installs, "5.4.1+5.3.0"), Ok(vec![
        ResolvedEngine { name: "5.4.1".to_string(), install: installs[1].clone() },
        ResolvedEngine { name: "5.3.0".to_string(), install: installs[0].clone() },
    ]));
    assert_eq!(resolve_all(&installs, "5.4.1+5.3.9"), Err(vec!["5.3.9".to_string()]));
    assert_eq!(resolve_all(&installs, "5.4.9+5.3.0"), Err(vec!["5.4.9".to_string()]));
}

#[test]
fn resolve_all_lists_every_name_that_does_not_resolve() {
    let installs = installs();
    assert_eq!(
        resolve_all(&installs, "6+5.4+cl-x++source-5"),
        Err(vec!["6".to_string(), "cl-x".to_string(), "".to_string(), "source-5".to_string()])
    );
    assert_eq!(resolve_all(&installs, ""), Err(vec!["".to_string()]));
    assert_eq!(resolve_all(&Vec::new(), "latest"), Err(vec!["latest".to_string()]));
}

#[test]
fn run_of_three_where_the_second_fails_never_launches_the_third() {
    let (launched, end) = run(3, &[Some(0), Some(2), Some(0)]);
    assert_eq!(launched, vec![0, 1]);
    assert_eq!(end, DispatchAction::Halt { position: 1, exit_code: 2 });
}

#[test]
fn run_where_every_invocation_succeeds_processes_all_in_order() {
    let (launched, end) = run(3, &[Some(0), Some(0), Some(0)]);
    assert_eq!(launched, vec![0, 1, 2]);
    assert_eq!(end, DispatchAction::Finish);
}

#[test]
fn run_where_the_first_fails_launches_only_the_first() {
    let (launched, end) = run(3, &[Some(-1), Some(0), Some(0)]);
    assert_eq!(launched, vec![0]);
    assert_eq!(end, DispatchAction::Halt { position: 0, exit_code: -1 });
}

#[test]
fn run_over_an_empty_queue_finishes_at_once() {
    let (state, action) = DispatchState::begin(0);
    assert_eq!(state, DispatchState::Running { total: 0, completed: 0 });
    assert_eq!(action, DispatchAction::Finish);
}

#[test]
fn run_where_the_tool_cannot_be_started_is_aborted() {
    let (launched, end) = run(3, &[Some(0), None, Some(0)]);
    assert_eq!(launched, vec![0, 1]);
    assert_eq!(end, DispatchAction::Abort(1));
}

#[test]
fn begin_launches_the_first_install() {
    let (state, action) = DispatchState::begin(2);
    assert_eq!(state, DispatchState::Running { total: 2, completed: 0 });
    assert_eq!(action, DispatchAction::Launch(0));
    assert_eq!(state.next_action(), DispatchAction::Launch(0));
}

#[test]
fn step_moves_on_after_exit_code_zero() {
    let state = DispatchState::Running { total: 2, completed: 0 };
    let (state, action) = state.step(DispatchEvent::Exited(0));
    assert_eq!(state, DispatchState::Running { total: 2, completed: 1 });
    assert_eq!(action, DispatchAction::Launch(1));
    let (state, action) = state.step(DispatchEvent::Exited(0));
    assert_eq!(state, DispatchState::Running { total: 2, completed: 2 });
    assert_eq!(action, DispatchAction::Finish);
}

#[test]
fn stopped_run_stays_stopped() {
    let halted = DispatchState::Halted { position: 1, exit_code: 3 };
    for event in [DispatchEvent::Exited(0), DispatchEvent::Exited(9), DispatchEvent::LaunchFailed] {
        let halt = DispatchAction::Halt { position: 1, exit_code: 3 };
        assert_eq!(halted.step(event), (halted, halt));
    }
    let aborted = DispatchState::Aborted { position: 0 };
    assert_eq!(aborted.step(DispatchEvent::Exited(0)), (aborted, DispatchAction::Abort(0)));
    let finished = DispatchState::Running { total: 2, completed: 2 };
    assert_eq!(finished.step(DispatchEvent::Exited(1)), (finished, DispatchAction::Finish));
}

#[test]
fn halt_carries_the_exit_code() {
    let state = DispatchState::Running { total: 5, completed: 3 };
    assert_eq!(
        state.step(DispatchEvent::Exited(i32::MIN)),
        (
            DispatchState::Halted { position: 3, exit_code: i32::MIN },
            DispatchAction::Halt { position: 3, exit_code: i32::MIN }
        )
    );
}

#[test]
fn step_at_the_largest_queue_does_not_overflow() {
    let state = DispatchState::Running { total: usize::MAX, completed: usize::MAX - 1 };
    let (state, action) = state.step(DispatchEvent::Exited(0));
    assert_eq!(state, DispatchState::Running { total: usize::MAX, completed: usize::MAX });
    assert_eq!(action, DispatchAction::Finish);
}
