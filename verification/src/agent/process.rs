//! Child processes: what of their output is kept, and how they are brought to an end.
use vstd::prelude::*;

verus! {

/// Why a process was stopped.
#[derive(Clone, Copy, Debug, PartialEq, Eq, Structural)]
pub enum ProcessFailure {
    Cancelled,
    TimedOut,
}

impl ProcessFailure {
    pub open spec fn text(self) -> Seq<char> {
        match self {
            ProcessFailure::Cancelled => "process cancelled"@,
            ProcessFailure::TimedOut => "process timed out"@,
        }
    }

    /// The text shown for the failure.
    pub fn message(self) -> (out: &'static str)
        ensures
            out@ == self.text(),
    {
        match self {
            ProcessFailure::Cancelled => "process cancelled",
            ProcessFailure::TimedOut => "process timed out",
        }
    }
}

/// What a process left behind.
#[derive(Debug)]
pub struct ProcessOutput {
    /// The exit code; none where a signal ended the process.
    pub exit_code: Option<i32>,
    pub stdout: Vec<u8>,
    pub stderr: Vec<u8>,
    pub stdout_truncated: bool,
    pub stderr_truncated: bool,
    pub failure: Option<ProcessFailure>,
}

// ---------------------------------------------------------------------------------------------
// Bounded output
// ---------------------------------------------------------------------------------------------

/// The beginning of a stream, up to a limit.
#[derive(Debug)]
pub struct BoundedOutput {
    pub bytes: Vec<u8>,
    pub truncated: bool,
    pub limit: usize,
}

impl BoundedOutput {
    /// Whether this is what is kept of the stream so far.
    pub open spec fn keeps(self, stream: Seq<u8>) -> bool {
        &&& self.bytes@ == (if stream.len() <= self.limit {
            stream
        } else {
            stream.take(self.limit as int)
        })
        &&& self.truncated == (stream.len() > self.limit)
    }

    /// Nothing has been read yet.
    pub fn new(limit: usize) -> (output: Self)
        ensures
            output.limit == limit,
            output.keeps(Seq::empty()),
    {
        BoundedOutput { bytes: Vec::new(), truncated: false, limit }
    }

    /// Takes the first `count` bytes of the buffer as the next part of the stream.
    pub fn accept(&mut self, buffer: &[u8], count: usize)
        requires
            count <= buffer@.len(),
            old(self).bytes@.len() <= old(self).limit,
        ensures
            final(self).limit == old(self).limit,
            final(self).bytes@.len() <= final(self).limit,
            forall|stream: Seq<u8>| #[trigger]
                old(self).keeps(stream) ==> final(self).keeps(
                    stream + buffer@.take(count as int),
                ),
    {
        let ghost before = *self;
        let remaining: usize = self.limit - self.bytes.len();
        let accepted: usize = if remaining < count {
            remaining
        } else {
            count
        };
        let mut i: usize = 0;
        while i < accepted
            invariant
                i <= accepted <= count <= buffer@.len(),
                self.limit == before.limit,
                self.truncated == before.truncated,
                self.bytes@ == before.bytes@ + buffer@.take(i as int),
            decreases accepted - i,
        {
            self.bytes.push(buffer[i]);
            assert(self.bytes@ =~= before.bytes@ + buffer@.take(i + 1));
            i += 1;
        }
        if accepted < count {
            self.truncated = true;
        }
        assert forall|stream: Seq<u8>| #[trigger] before.keeps(stream) implies self.keeps(
            stream + buffer@.take(count as int),
        ) by {
            let longer = stream + buffer@.take(count as int);
            if longer.len() <= self.limit {
                assert(self.bytes@ =~= longer);
            } else {
                assert(self.bytes@ =~= longer.take(self.limit as int));
            }
        }
    }
}

// ---------------------------------------------------------------------------------------------
// Supervision
// ---------------------------------------------------------------------------------------------

/// How writing the standard input of a process ended.
#[derive(Clone, Copy, Debug, PartialEq, Eq, Structural)]
pub enum StdinOutcome {
    Written,
    BrokenPipe,
    Failed,
    NotJoined,
}

/// What a supervisor learns of its process.
#[derive(Clone, Copy, Debug, PartialEq, Eq, Structural)]
pub enum ProcessEvent {
    /// The process ended by itself and was waited for.
    Exited,
    /// Waiting for the process failed.
    WaitFailed,
    /// The writer of the standard input ended.
    Stdin(StdinOutcome),
    /// Both output readers ended; with an error in one of them, or without.
    Outputs(bool),
    /// The caller gave up.
    Cancelled,
    /// The time limit passed.
    TimedOut,
    /// The time between the two signals passed.
    GraceElapsed,
    /// The stopped process was waited for.
    Reaped,
}

/// How far a supervised process has come.
#[derive(Clone, Copy, Debug, PartialEq, Eq, Structural)]
pub enum Supervision {
    Running,
    /// The process ended; its input writer is awaited.
    AwaitingStdin,
    /// The process ended; its output readers are awaited.
    AwaitingOutputs,
    /// The process was asked to stop.
    Terminating(ProcessFailure),
    /// The process was killed.
    Killing(ProcessFailure),
    Done,
}

/// What the supervisor does next.
#[derive(Clone, Copy, Debug, PartialEq, Eq, Structural)]
pub enum ProcessAction {
    /// Wait for what comes next.
    Wait,
    /// Send the group the signal to terminate and start the grace period.
    Terminate,
    /// Send the group the signal that kills it and wait for the process.
    Kill,
    /// Disarm the guard and hand the output out.
    Finish,
    /// Disarm the guard, stop the readers and the writer, and report the failure.
    Report(ProcessFailure),
    /// Report an error; the guard kills the group.
    Abandon,
    /// The event does not belong to this state.
    Ignore,
}

/// The rule of supervision: what follows an event.
pub open spec fn supervised(
    state: Supervision,
    event: ProcessEvent,
    has_stdin: bool,
) -> (Supervision, ProcessAction) {
    match (state, event) {
        (Supervision::Running, ProcessEvent::Exited) => if has_stdin {
            (Supervision::AwaitingStdin, ProcessAction::Wait)
        } else {
            (Supervision::AwaitingOutputs, ProcessAction::Wait)
        },
        (Supervision::Running, ProcessEvent::WaitFailed) => (
            Supervision::Done,
            ProcessAction::Abandon,
        ),
        (Supervision::AwaitingStdin, ProcessEvent::Stdin(outcome)) => if outcome
            == StdinOutcome::Written || outcome == StdinOutcome::BrokenPipe {
            (Supervision::AwaitingOutputs, ProcessAction::Wait)
        } else {
            (Supervision::Done, ProcessAction::Abandon)
        },
        (Supervision::AwaitingOutputs, ProcessEvent::Outputs(failed)) => if failed {
            (Supervision::Done, ProcessAction::Abandon)
        } else {
            (Supervision::Done, ProcessAction::Finish)
        },
        (
            Supervision::Running | Supervision::AwaitingStdin | Supervision::AwaitingOutputs,
            ProcessEvent::Cancelled,
        ) => (Supervision::Terminating(ProcessFailure::Cancelled), ProcessAction::Terminate),
        (
            Supervision::Running | Supervision::AwaitingStdin | Supervision::AwaitingOutputs,
            ProcessEvent::TimedOut,
        ) => (Supervision::Terminating(ProcessFailure::TimedOut), ProcessAction::Terminate),
        (Supervision::Terminating(failure), ProcessEvent::GraceElapsed) => (
            Supervision::Killing(failure),
            ProcessAction::Kill,
        ),
        (Supervision::Killing(failure), ProcessEvent::Reaped) => (
            Supervision::Done,
            ProcessAction::Report(failure),
        ),
        (Supervision::Killing(_), ProcessEvent::WaitFailed) => (
            Supervision::Done,
            ProcessAction::Abandon,
        ),
        _ => (state, ProcessAction::Ignore),
    }
}

/// What follows an event of a supervised process.
pub fn supervise(state: Supervision, event: ProcessEvent, has_stdin: bool) -> (out: (
    Supervision,
    ProcessAction,
))
    ensures
        out == supervised(state, event, has_stdin),
{
    match (state, event) {
        (Supervision::Running, ProcessEvent::Exited) => if has_stdin {
            (Supervision::AwaitingStdin, ProcessAction::Wait)
        } else {
            (Supervision::AwaitingOutputs, ProcessAction::Wait)
        },
        (Supervision::Running, ProcessEvent::WaitFailed) => (
            Supervision::Done,
            ProcessAction::Abandon,
        ),
        (Supervision::AwaitingStdin, ProcessEvent::Stdin(outcome)) => if outcome
            == StdinOutcome::Written || outcome == StdinOutcome::BrokenPipe {
            (Supervision::AwaitingOutputs, ProcessAction::Wait)
        } else {
            (Supervision::Done, ProcessAction::Abandon)
        },
        (Supervision::AwaitingOutputs, ProcessEvent::Outputs(failed)) => if failed {
            (Supervision::Done, ProcessAction::Abandon)
        } else {
            (Supervision::Done, ProcessAction::Finish)
        },
        (
            Supervision::Running | Supervision::AwaitingStdin | Supervision::AwaitingOutputs,
            ProcessEvent::Cancelled,
        ) => (Supervision::Terminating(ProcessFailure::Cancelled), ProcessAction::Terminate),
        (
            Supervision::Running | Supervision::AwaitingStdin | Supervision::AwaitingOutputs,
            ProcessEvent::TimedOut,
        ) => (Supervision::Terminating(ProcessFailure::TimedOut), ProcessAction::Terminate),
        (Supervision::Terminating(failure), ProcessEvent::GraceElapsed) => (
            Supervision::Killing(failure),
            ProcessAction::Kill,
        ),
        (Supervision::Killing(failure), ProcessEvent::Reaped) => (
            Supervision::Done,
            ProcessAction::Report(failure),
        ),
        (Supervision::Killing(_), ProcessEvent::WaitFailed) => (
            Supervision::Done,
            ProcessAction::Abandon,
        ),
        _ => (state, ProcessAction::Ignore),
    }
}

/// The process group that is killed unless its guard was disarmed.
#[derive(Clone, Copy, Debug, PartialEq, Eq, Structural)]
pub struct ProcessGroupGuard {
    pub pid: i32,
    pub armed: bool,
}

impl ProcessGroupGuard {
    pub fn new(pid: i32) -> (guard: Self)
        ensures
            guard == (ProcessGroupGuard { pid, armed: true }),
    {
        ProcessGroupGuard { pid, armed: true }
    }

    pub fn disarm(&mut self)
        ensures
            *final(self) == (ProcessGroupGuard { pid: old(self).pid, armed: false }),
    {
        self.armed = false;
    }
}

/// The states of a process that was told to stop for this reason.
pub open spec fn stopping(state: Supervision, failure: ProcessFailure) -> bool {
    state == Supervision::Terminating(failure) || state == Supervision::Killing(failure)
}

/// Once a process is told to stop, it is killed and reaped before anything is reported, the
/// report names the reason for which it was stopped, and its output is never handed out.
pub proof fn law_stopped_process_is_reported(
    state: Supervision,
    event: ProcessEvent,
    has_stdin: bool,
    failure: ProcessFailure,
)
    requires
        stopping(state, failure),
    ensures
        ({
            let (next, action) = supervised(state, event, has_stdin);
            &&& stopping(next, failure) || next == Supervision::Done
            &&& action != ProcessAction::Finish
            &&& action matches ProcessAction::Report(reason) ==> reason == failure && state
                == Supervision::Killing(failure)
        }),
{
}

/// A process that ends by itself is reported once its input was taken, where it had one, and its
/// outputs were read; a failure of any of these is no result.
pub proof fn law_ended_processes_are_read(has_stdin: bool, outcome: StdinOutcome, failed: bool)
    ensures
        supervised(Supervision::Running, ProcessEvent::Exited, has_stdin) == (
            if has_stdin {
                Supervision::AwaitingStdin
            } else {
                Supervision::AwaitingOutputs
            },
            ProcessAction::Wait,
        ),
        supervised(Supervision::AwaitingStdin, ProcessEvent::Stdin(outcome), has_stdin).1
            == ProcessAction::Wait <==> (outcome == StdinOutcome::Written || outcome
            == StdinOutcome::BrokenPipe),
        supervised(Supervision::AwaitingOutputs, ProcessEvent::Outputs(failed), has_stdin).1 == (
        if failed {
            ProcessAction::Abandon
        } else {
            ProcessAction::Finish
        }),
{
}

/// A process that is canceled or out of time is asked to end, then killed, and the reason that is
/// reported is the one for which it was stopped.
pub proof fn law_stopped_processes_name_the_reason(state: Supervision, has_stdin: bool)
    requires
        state == Supervision::Running || state == Supervision::AwaitingStdin || state
            == Supervision::AwaitingOutputs,
    ensures
        ({
            let (first, terminate) = supervised(state, ProcessEvent::Cancelled, has_stdin);
            let (second, kill) = supervised(first, ProcessEvent::GraceElapsed, has_stdin);
            let (third, report) = supervised(second, ProcessEvent::Reaped, has_stdin);
            &&& terminate == ProcessAction::Terminate
            &&& kill == ProcessAction::Kill
            &&& report == ProcessAction::Report(ProcessFailure::Cancelled)
            &&& third == Supervision::Done
        }),
        ({
            let (first, terminate) = supervised(state, ProcessEvent::TimedOut, has_stdin);
            let (second, kill) = supervised(first, ProcessEvent::GraceElapsed, has_stdin);
            let (third, report) = supervised(second, ProcessEvent::Reaped, has_stdin);
            &&& terminate == ProcessAction::Terminate
            &&& kill == ProcessAction::Kill
            &&& report == ProcessAction::Report(ProcessFailure::TimedOut)
            &&& third == Supervision::Done
        }),
{
}

} // verus!
