//! The protocol of a worker of a pool of persistent workers.
//!
//! A worker owns one ring for its whole life. It waits for a command, meets
//! the pool at the start barrier, does the work of the command on its ring,
//! meets the pool at the done barrier, and waits again. When the command
//! channel is closed it returns its ring. The threads, channels and barriers
//! are the caller's; what to do next is decided here, from what has just
//! happened.

use vstd::prelude::*;

verus! {

/// Where a worker stands in the protocol.
#[derive(Clone, Copy, PartialEq, Eq, Debug, Structural)]
pub enum Phase {
    /// Waiting for a command.
    Idle,
    /// A command has arrived; waiting at the start barrier.
    Armed,
    /// Doing the work of the command.
    Running,
    /// The work is done; waiting at the done barrier.
    Closing,
    /// The command channel is closed and the ring has been handed back.
    Stopped,
}

/// What has just happened to a worker.
#[derive(Clone, Copy, PartialEq, Eq, Debug, Structural)]
pub enum WorkerEvent {
    /// A command was received.
    Command,
    /// The command channel is closed.
    Disconnected,
    /// The barrier that the worker waited at has let it through.
    Released,
    /// The work of the command is finished.
    Worked,
}

/// What a worker has to do next.
#[derive(Clone, Copy, PartialEq, Eq, Debug, Structural)]
pub enum WorkerAction {
    /// Wait for the next command.
    Receive,
    /// Wait at the start barrier.
    WaitStart,
    /// Do the work of the command on the ring.
    Work,
    /// Wait at the done barrier.
    WaitDone,
    /// Return the ring: the worker ends.
    Return,
}

/// The phase that follows `phase` on `event`. An event that the phase does
/// not wait for changes nothing.
pub open spec fn next_phase(phase: Phase, event: WorkerEvent) -> Phase {
    match (phase, event) {
        (Phase::Idle, WorkerEvent::Command) => Phase::Armed,
        (Phase::Idle, WorkerEvent::Disconnected) => Phase::Stopped,
        (Phase::Armed, WorkerEvent::Released) => Phase::Running,
        (Phase::Running, WorkerEvent::Worked) => Phase::Closing,
        (Phase::Closing, WorkerEvent::Released) => Phase::Idle,
        _ => phase,
    }
}

/// What a worker in `phase` has to do.
pub open spec fn action_of(phase: Phase) -> WorkerAction {
    match phase {
        Phase::Idle => WorkerAction::Receive,
        Phase::Armed => WorkerAction::WaitStart,
        Phase::Running => WorkerAction::Work,
        Phase::Closing => WorkerAction::WaitDone,
        Phase::Stopped => WorkerAction::Return,
    }
}

/// The number of runs that are complete after a worker that had completed
/// `runs` took the step from `phase` on `event`. It does not count beyond
/// the largest `u64`.
pub open spec fn next_runs(phase: Phase, event: WorkerEvent, runs: u64) -> u64 {
    if phase == Phase::Closing && event == WorkerEvent::Released && runs < u64::MAX {
        (runs + 1) as u64
    } else {
        runs
    }
}

/// The state of one worker.
#[derive(Clone, Copy, Debug)]
pub struct Worker {
    phase: Phase,
    runs: u64,
}

impl Worker {
    /// Where the worker stands.
    pub closed spec fn phase_view(&self) -> Phase {
        self.phase
    }

    /// The number of runs that the worker has completed.
    pub closed spec fn runs_view(&self) -> u64 {
        self.runs
    }

    /// A worker that waits for its first command.
    pub fn new() -> (worker: Self)
        ensures
            worker.phase_view() == Phase::Idle,
            worker.runs_view() == 0,
    {
        Worker { phase: Phase::Idle, runs: 0 }
    }

    /// Where the worker stands.
    pub fn phase(&self) -> (phase: Phase)
        ensures
            phase == self.phase_view(),
    {
        self.phase
    }

    /// The number of runs that the worker has completed.
    pub fn runs(&self) -> (runs: u64)
        ensures
            runs == self.runs_view(),
    {
        self.runs
    }

    /// What the worker has to do now.
    pub fn action(&self) -> (action: WorkerAction)
        ensures
            action == action_of(self.phase_view()),
    {
        match self.phase {
            Phase::Idle => WorkerAction::Receive,
            Phase::Armed => WorkerAction::WaitStart,
            Phase::Running => WorkerAction::Work,
            Phase::Closing => WorkerAction::WaitDone,
            Phase::Stopped => WorkerAction::Return,
        }
    }

    /// Takes note of `event` and says what the worker has to do next.
    pub fn step(&mut self, event: WorkerEvent) -> (action: WorkerAction)
        ensures
            final(self).phase_view() == next_phase(old(self).phase_view(), event),
            final(self).runs_view() == next_runs(
                old(self).phase_view(),
                event,
                old(self).runs_view(),
            ),
            action == action_of(final(self).phase_view()),
    {
        match (self.phase, event) {
            (Phase::Idle, WorkerEvent::Command) => {
                self.phase = Phase::Armed;
            },
            (Phase::Idle, WorkerEvent::Disconnected) => {
                self.phase = Phase::Stopped;
            },
            (Phase::Armed, WorkerEvent::Released) => {
                self.phase = Phase::Running;
            },
            (Phase::Running, WorkerEvent::Worked) => {
                self.phase = Phase::Closing;
            },
            (Phase::Closing, WorkerEvent::Released) => {
                self.phase = Phase::Idle;
                if self.runs < u64::MAX {
                    self.runs = self.runs + 1;
                }
            },
            _ => {},
        }
        self.action()
    }
}

/// The phase of a worker after `events`, from `phase`.
pub open spec fn phase_after(phase: Phase, events: Seq<WorkerEvent>) -> Phase
    decreases events.len(),
{
    if events.len() == 0 {
        phase
    } else {
        next_phase(phase_after(phase, events.drop_last()), events.last())
    }
}

/// How often a worker has started work during `events`, from `phase`.
pub open spec fn works_started(phase: Phase, events: Seq<WorkerEvent>) -> nat
    decreases events.len(),
{
    if events.len() == 0 {
        0
    } else {
        let before = phase_after(phase, events.drop_last());
        let started: nat = if before == Phase::Armed && events.last() == WorkerEvent::Released {
            1
        } else {
            0
        };
        works_started(phase, events.drop_last()) + started
    }
}

/// How often a worker has passed the done barrier during `events`, from
/// `phase`.
pub open spec fn runs_closed(phase: Phase, events: Seq<WorkerEvent>) -> nat
    decreases events.len(),
{
    if events.len() == 0 {
        0
    } else {
        let before = phase_after(phase, events.drop_last());
        let closed: nat = if before == Phase::Closing && events.last() == WorkerEvent::Released {
            1
        } else {
            0
        };
        runs_closed(phase, events.drop_last()) + closed
    }
}

/// How many commands a worker has taken up during `events`, from `phase`.
pub open spec fn commands_taken(phase: Phase, events: Seq<WorkerEvent>) -> nat
    decreases events.len(),
{
    if events.len() == 0 {
        0
    } else {
        let before = phase_after(phase, events.drop_last());
        let taken: nat = if before == Phase::Idle && events.last() == WorkerEvent::Command {
            1
        } else {
            0
        };
        commands_taken(phase, events.drop_last()) + taken
    }
}

/// One command is one start, one piece of work and one done, in this order:
/// the four events of a run bring an idle worker back to idle.
pub proof fn lemma_one_run()
    ensures
        phase_after(
            Phase::Idle,
            seq![
                WorkerEvent::Command,
                WorkerEvent::Released,
                WorkerEvent::Worked,
                WorkerEvent::Released,
            ],
        ) == Phase::Idle,
{
    let events = seq![
        WorkerEvent::Command,
        WorkerEvent::Released,
        WorkerEvent::Worked,
        WorkerEvent::Released,
    ];
    reveal_with_fuel(phase_after, 5);
    assert(events.drop_last() == seq![
        WorkerEvent::Command,
        WorkerEvent::Released,
        WorkerEvent::Worked,
    ]);
    assert(events.drop_last().drop_last() == seq![WorkerEvent::Command, WorkerEvent::Released]);
    assert(events.drop_last().drop_last().drop_last() == seq![WorkerEvent::Command]);
    assert(events.drop_last().drop_last().drop_last().drop_last() == Seq::<WorkerEvent>::empty());
}

/// Whatever happens to a worker that starts idle, it works once for every
/// command that it has taken up and never more: the work of a command
/// starts after the start barrier, and a run is closed after its work. A
/// worker that is idle again has closed every run that it started.
pub proof fn lemma_runs_are_balanced(events: Seq<WorkerEvent>)
    ensures
        runs_closed(Phase::Idle, events) <= works_started(Phase::Idle, events),
        works_started(Phase::Idle, events) <= commands_taken(Phase::Idle, events),
        commands_taken(Phase::Idle, events) <= runs_closed(Phase::Idle, events) + 1,
        phase_after(Phase::Idle, events) == Phase::Idle || phase_after(Phase::Idle, events)
            == Phase::Stopped ==> {
            &&& runs_closed(Phase::Idle, events) == works_started(Phase::Idle, events)
            &&& works_started(Phase::Idle, events) == commands_taken(Phase::Idle, events)
        },
        phase_after(Phase::Idle, events) == Phase::Armed ==> {
            &&& runs_closed(Phase::Idle, events) == works_started(Phase::Idle, events)
            &&& commands_taken(Phase::Idle, events) == works_started(Phase::Idle, events) + 1
        },
        phase_after(Phase::Idle, events) == Phase::Running || phase_after(Phase::Idle, events)
            == Phase::Closing ==> {
            &&& works_started(Phase::Idle, events) == runs_closed(Phase::Idle, events) + 1
            &&& commands_taken(Phase::Idle, events) == works_started(Phase::Idle, events)
        },
    decreases events.len(),
{
    if events.len() > 0 {
        lemma_runs_are_balanced(events.drop_last());
    }
}

/// The number of threads that meet at a barrier of a pool: the workers and
/// the pool itself.
pub fn barrier_parties(num_workers: usize) -> (parties: Option<usize>)
    ensures
        0 < num_workers < usize::MAX ==> parties == Some((num_workers + 1) as usize),
        num_workers == 0 || num_workers == usize::MAX ==> parties.is_none(),
{
    if num_workers == 0 || num_workers == usize::MAX {
        None
    } else {
        Some(num_workers + 1)
    }
}

} // verus!
