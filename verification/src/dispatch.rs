//! Running the build tool once for each requested install, in order, and
//! stopping at the first invocation that fails.
//!
//! Nothing here starts a process. `resolve_all` turns the requested versions
//! into a queue of installs, and `DispatchState` says after each invocation
//! what is to be done next.

use vstd::prelude::*;
use vstd::string::{StrSliceExecFns, StringExecFns};
use crate::engine_utils::EngineInstall;
use crate::resolver::{resolution, resolve, ResolveError};
use crate::text::{lemma_split_on_joins, split_on, split_ranges, to_chars};

verus! {

/// Where the build tool lies, relative to the base directory of an install.
pub const UAT_RELATIVE_PATH: &'static str = "Engine/Build/BatchFiles/RunUAT.bat";

/// The names that a request for several versions holds: the pieces of
/// `engine_version` between plus signs.
pub open spec fn requested_names(engine_version: Seq<char>) -> Seq<Seq<char>> {
    split_on(engine_version, '+')
}

/// Splits a request for several versions at its plus signs. There is always
/// at least one name, and no name holds a plus sign.
pub fn split_versions(engine_version: &str) -> (names: Vec<String>)
    ensures
        names@.len() >= 1,
        names@.len() == requested_names(engine_version@).len(),
        forall|i: int|
            0 <= i < names@.len() ==> (#[trigger] names@[i])@ == requested_names(
                engine_version@,
            )[i],
        forall|i: int, j: int|
            0 <= i < names@.len() && 0 <= j < names@[i]@.len() ==> #[trigger] names@[i]@[j] != '+',
{
    proof {
        lemma_split_on_joins(engine_version@, '+');
    }
    let chars = to_chars(engine_version);
    let ranges = split_ranges(chars.as_slice(), '+');
    let mut names: Vec<String> = Vec::new();
    let mut i: usize = 0;
    while i < ranges.len()
        invariant
            i <= ranges@.len(),
            chars@ == engine_version@,
            ranges@.len() == split_on(chars@, '+').len(),
            forall|k: int|
                0 <= k < ranges@.len() ==> {
                    &&& (#[trigger] ranges@[k]).0 <= ranges@[k].1 <= chars@.len()
                    &&& chars@.subrange(ranges@[k].0 as int, ranges@[k].1 as int) == split_on(
                        chars@,
                        '+',
                    )[k]
                },
            names@.len() == i,
            forall|k: int| 0 <= k < i ==> (#[trigger] names@[k])@ == split_on(chars@, '+')[k],
        decreases ranges@.len() - i,
    {
        let range = ranges[i];
        let piece = engine_version.substring_char(range.0, range.1);
        names.push(String::from_str(piece));
        i += 1;
    }
    names
}

/// A requested name with the install that it resolved to.
#[derive(Debug, PartialEq, Eq)]
pub struct ResolvedEngine {
    pub name: String,
    pub install: EngineInstall,
}

/// The names among `names` that resolve to no install, in their order.
pub open spec fn unresolved_names(installs: Seq<EngineInstall>, names: Seq<Seq<char>>) -> Seq<
    Seq<char>,
>
    decreases names.len(),
{
    if names.len() == 0 {
        Seq::empty()
    } else {
        let before = unresolved_names(installs, names.drop_last());
        if resolution(installs, names.last()) is Err {
            before.push(names.last())
        } else {
            before
        }
    }
}

/// No name is unresolved exactly where every name resolves.
pub proof fn lemma_unresolved_names_empty(installs: Seq<EngineInstall>, names: Seq<Seq<char>>)
    ensures
        unresolved_names(installs, names).len() == 0 <==> forall|i: int|
            0 <= i < names.len() ==> resolution(installs, #[trigger] names[i]) is Ok,
    decreases names.len(),
{
    if names.len() > 0 {
        let shorter = names.drop_last();
        lemma_unresolved_names_empty(installs, shorter);
        if unresolved_names(installs, names).len() == 0 {
            assert forall|i: int| 0 <= i < names.len() implies resolution(
                installs,
                #[trigger] names[i],
            ) is Ok by {
                if i < shorter.len() {
                    assert(shorter[i] == names[i]);
                }
            }
        } else if unresolved_names(installs, shorter).len() > 0 {
            let i = choose|i: int|
                0 <= i < shorter.len() && !(resolution(installs, #[trigger] shorter[i]) is Ok);
            assert(!(resolution(installs, names[i]) is Ok));
        } else {
            assert(!(resolution(installs, names[names.len() - 1]) is Ok));
        }
    }
}

/// Resolves every name of a request against `installs`. The run may start
/// only where all of them resolve: then the outcome is the queue of installs,
/// one for each name and in the order of the names. Where any name does not
/// resolve, the outcome is the list of the names that do not, and there is no
/// queue.
pub fn resolve_all(installs: &Vec<EngineInstall>, engine_version: &str) -> (outcome: Result<
    Vec<ResolvedEngine>,
    Vec<String>,
>)
    ensures
        outcome is Ok <==> forall|i: int|
            0 <= i < requested_names(engine_version@).len() ==> resolution(
                installs@,
                #[trigger] requested_names(engine_version@)[i],
            ) is Ok,
        match outcome {
            Ok(queue) => {
                &&& unresolved_names(installs@, requested_names(engine_version@)).len() == 0
                &&& queue@.len() == requested_names(engine_version@).len()
                &&& forall|i: int|
                    0 <= i < queue@.len() ==> {
                        &&& (#[trigger] queue@[i]).name@ == requested_names(engine_version@)[i]
                        &&& resolution(installs@, requested_names(engine_version@)[i]) == Ok::<
                            EngineInstall,
                            ResolveError,
                        >(queue@[i].install)
                    }
            },
            Err(missing) => {
                &&& missing@.len() > 0
                &&& missing@.len() == unresolved_names(
                    installs@,
                    requested_names(engine_version@),
                ).len()
                &&& forall|i: int|
                    0 <= i < missing@.len() ==> (#[trigger] missing@[i])@ == unresolved_names(
                        installs@,
                        requested_names(engine_version@),
                    )[i]
            },
        },
{
    let names = split_versions(engine_version);
    let ghost wanted = requested_names(engine_version@);
    let mut queue: Vec<ResolvedEngine> = Vec::new();
    let mut missing: Vec<String> = Vec::new();
    let mut i: usize = 0;
    while i < names.len()
        invariant
            i <= names@.len(),
            wanted == requested_names(engine_version@),
            names@.len() == wanted.len(),
            forall|k: int| 0 <= k < names@.len() ==> (#[trigger] names@[k])@ == wanted[k],
            missing@.len() == unresolved_names(installs@, wanted.take(i as int)).len(),
            forall|k: int|
                0 <= k < missing@.len() ==> (#[trigger] missing@[k])@ == unresolved_names(
                    installs@,
                    wanted.take(i as int),
                )[k],
            missing@.len() == 0 ==> queue@.len() == i,
            forall|k: int|
                0 <= k < queue@.len() && missing@.len() == 0 ==> {
                    &&& (#[trigger] queue@[k]).name@ == wanted[k]
                    &&& resolution(installs@, wanted[k]) == Ok::<EngineInstall, ResolveError>(
                        queue@[k].install,
                    )
                },
        decreases names@.len() - i,
    {
        proof {
            assert(wanted.take(i + 1).drop_last() =~= wanted.take(i as int));
        }
        match resolve(installs, names[i].as_str()) {
            Ok(install) => {
                if missing.len() == 0 {
                    queue.push(ResolvedEngine { name: names[i].clone(), install });
                }
            },
            Err(_) => {
                missing.push(names[i].clone());
            },
        }
        i += 1;
    }
    assert(wanted.take(i as int) =~= wanted);
    proof {
        lemma_unresolved_names_empty(installs@, wanted);
    }
    if missing.len() == 0 {
        Ok(queue)
    } else {
        Err(missing)
    }
}

/// What has happened to the invocation that was started last.
#[derive(Debug, Clone, Copy, PartialEq, Eq, Structural)]
pub enum DispatchEvent {
    /// The tool ran and ended with this exit code.
    Exited(i32),
    /// The tool could not be started, or ended without an exit code.
    LaunchFailed,
}

/// What is to be done next.
#[derive(Debug, Clone, Copy, PartialEq, Eq, Structural)]
pub enum DispatchAction {
    /// Start the tool for the install at this position of the queue, and wait
    /// for it to end.
    Launch(usize),
    /// Stop: the invocation at `position` ended with `exit_code`, which is not
    /// zero. No further install is processed.
    Halt { position: usize, exit_code: i32 },
    /// Stop: the tool could not be run for the install at this position.
    Abort(usize),
    /// Stop: every invocation ended with exit code zero.
    Finish,
}

/// How far a run has come.
#[derive(Debug, Clone, Copy, PartialEq, Eq, Structural)]
pub enum DispatchState {
    /// Of `total` installs in the queue, the first `completed` have been
    /// processed, each with exit code zero.
    Running { total: usize, completed: usize },
    /// The invocation at `position` ended with an exit code that is not zero.
    Halted { position: usize, exit_code: i32 },
    /// The tool could not be run for the install at `position`.
    Aborted { position: usize },
}

impl DispatchState {
    /// A running state has not processed more installs than there are, and a
    /// halted state holds an exit code other than zero.
    pub open spec fn wf(self) -> bool {
        match self {
            DispatchState::Running { total, completed } => completed <= total,
            DispatchState::Halted { exit_code, .. } => exit_code != 0,
            DispatchState::Aborted { .. } => true,
        }
    }

    /// The state before anything has been started.
    pub open spec fn initial(total: usize) -> DispatchState {
        DispatchState::Running { total, completed: 0 }
    }

    /// What is to be done in this state.
    pub open spec fn action(self) -> DispatchAction {
        match self {
            DispatchState::Running { total, completed } => if completed < total {
                DispatchAction::Launch(completed)
            } else {
                DispatchAction::Finish
            },
            DispatchState::Halted { position, exit_code } => DispatchAction::Halt {
                position,
                exit_code,
            },
            DispatchState::Aborted { position } => DispatchAction::Abort(position),
        }
    }

    /// The state that follows `event`. An event counts only while an
    /// invocation is under way: a state that has stopped stays as it is.
    pub open spec fn after(self, event: DispatchEvent) -> DispatchState {
        match self {
            DispatchState::Running { total, completed } => if completed < total {
                match event {
                    DispatchEvent::Exited(exit_code) => if exit_code == 0 {
                        DispatchState::Running { total, completed: (completed + 1) as usize }
                    } else {
                        DispatchState::Halted { position: completed, exit_code }
                    },
                    DispatchEvent::LaunchFailed => DispatchState::Aborted { position: completed },
                }
            } else {
                self
            },
            _ => self,
        }
    }

    /// The state in which a run over `events` ends, started on a queue of
    /// `total` installs.
    pub open spec fn run(total: usize, events: Seq<DispatchEvent>) -> DispatchState
        decreases events.len(),
    {
        if events.len() == 0 {
            DispatchState::initial(total)
        } else {
            DispatchState::run(total, events.drop_last()).after(events.last())
        }
    }

    /// Starts a run over a queue of `total` installs.
    pub fn begin(total: usize) -> (start: (DispatchState, DispatchAction))
        ensures
            start.0 == DispatchState::initial(total),
            start.0.wf(),
            start.1 == start.0.action(),
    {
        let state = DispatchState::Running { total, completed: 0 };
        let action = state.next_action();
        (state, action)
    }

    /// What is to be done in this state.
    pub fn next_action(&self) -> (action: DispatchAction)
        ensures
            action == self.action(),
    {
        match *self {
            DispatchState::Running { total, completed } => if completed < total {
                DispatchAction::Launch(completed)
            } else {
                DispatchAction::Finish
            },
            DispatchState::Halted { position, exit_code } => DispatchAction::Halt {
                position,
                exit_code,
            },
            DispatchState::Aborted { position } => DispatchAction::Abort(position),
        }
    }

    /// Takes in what happened to the invocation that was started last, and
    /// says what state follows and what is to be done in it.
    pub fn step(self, event: DispatchEvent) -> (next: (DispatchState, DispatchAction))
        ensures
            next.0 == self.after(event),
            self.wf() ==> next.0.wf(),
            next.1 == next.0.action(),
    {
        let state = match self {
            DispatchState::Running { total, completed } => if completed < total {
                match event {
                    DispatchEvent::Exited(exit_code) => if exit_code == 0 {
                        DispatchState::Running { total, completed: completed + 1 }
                    } else {
                        DispatchState::Halted { position: completed, exit_code }
                    },
                    DispatchEvent::LaunchFailed => DispatchState::Aborted { position: completed },
                }
            } else {
                self
            },
            _ => self,
        };
        let action = state.next_action();
        (state, action)
    }
}

/// A run that has stopped stays stopped: whatever is reported afterwards, no
/// install is processed any more.
pub proof fn lemma_stop_is_final(state: DispatchState, event: DispatchEvent)
    requires
        !(state.action() is Launch),
    ensures
        state.after(event) == state,
        !(state.after(event).action() is Launch),
{
}

/// An invocation that ends with an exit code other than zero halts the run
/// with that code.
pub proof fn lemma_failure_halts(state: DispatchState, exit_code: i32)
    requires
        state.action() is Launch,
        exit_code != 0,
    ensures
        state.after(DispatchEvent::Exited(exit_code)).action() == (DispatchAction::Halt {
            position: state.action()->Launch_0,
            exit_code,
        }),
{
}

/// The installs are processed in the order of the queue, each only after all
/// those before it have ended with exit code zero: where a run is about to
/// launch the install at position `k`, exactly `k` invocations have been
/// reported, and each of them ended with exit code zero.
pub proof fn lemma_launches_in_order(total: usize, events: Seq<DispatchEvent>)
    requires
        DispatchState::run(total, events).action() is Launch,
    ensures
        DispatchState::run(total, events) is Running,
        DispatchState::run(total, events)->total == total,
        DispatchState::run(total, events)->completed == events.len(),
        events.len() < total,
        forall|i: int| 0 <= i < events.len() ==> #[trigger] events[i] == DispatchEvent::Exited(0),
    decreases events.len(),
{
    if events.len() > 0 {
        let shorter = events.drop_last();
        // The run was about to launch before the last event too: a run that
        // has stopped or finished stays as it is.
        assert(DispatchState::run(total, shorter).action() is Launch);
        lemma_launches_in_order(total, shorter);
        assert forall|i: int| 0 <= i < events.len() implies #[trigger] events[i]
            == DispatchEvent::Exited(0) by {
            if i < shorter.len() {
                assert(shorter[i] == events[i]);
            } else {
                assert(events[i] == events.last());
            }
        }
    }
}

/// Once an invocation has ended with an exit code other than zero, the run
/// is halted at that invocation, and whatever is reported later starts none
/// of the installs that follow it in the queue.
pub proof fn lemma_first_failure_halts_run(
    total: usize,
    events: Seq<DispatchEvent>,
    position: int,
    exit_code: i32,
)
    requires
        0 <= position < events.len(),
        position < total,
        exit_code != 0,
        events[position] == DispatchEvent::Exited(exit_code),
        forall|i: int| 0 <= i < position ==> #[trigger] events[i] == DispatchEvent::Exited(0),
    ensures
        DispatchState::run(total, events) == (DispatchState::Halted {
            position: position as usize,
            exit_code,
        }),
        !(DispatchState::run(total, events).action() is Launch),
    decreases events.len(),
{
    let shorter = events.drop_last();
    if position == events.len() - 1 {
        lemma_zero_exits_advance(total, shorter);
    } else {
        assert forall|i: int| 0 <= i < position implies #[trigger] shorter[i]
            == DispatchEvent::Exited(0) by {
            assert(shorter[i] == events[i]);
        }
        lemma_first_failure_halts_run(total, shorter, position, exit_code);
    }
}

/// As long as every invocation ends with exit code zero, the run moves on by
/// one install for each of them.
pub proof fn lemma_zero_exits_advance(total: usize, events: Seq<DispatchEvent>)
    requires
        events.len() <= total,
        forall|i: int| 0 <= i < events.len() ==> #[trigger] events[i] == DispatchEvent::Exited(0),
    ensures
        DispatchState::run(total, events) == (DispatchState::Running {
            total,
            completed: events.len() as usize,
        }),
    decreases events.len(),
{
    if events.len() > 0 {
        let shorter = events.drop_last();
        assert forall|i: int| 0 <= i < shorter.len() implies #[trigger] shorter[i]
            == DispatchEvent::Exited(0) by {
            assert(shorter[i] == events[i]);
        }
        lemma_zero_exits_advance(total, shorter);
    }
}

} // verus!
