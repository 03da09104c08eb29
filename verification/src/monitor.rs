//! The monitor: when sources are polled, when work is claimed and recovered, and what is said of
//! it.
use vstd::prelude::*;

use crate::agent::errors::TriageError;
use crate::config::{SourceConfig, TriageConfig};
use crate::database::operations::WriteOperation;
use crate::database::queue::stale;
use crate::database::records::{FIRST_MOMENT, LAST_MOMENT};
use crate::database::tables::EventModel;
use crate::errors::{
    classify_message, message_category, public_error, public_wording, ErrorCategory,
};
use crate::source_runner::SourceRunnerError;
use crate::text;

verus! {

/// How long a run may last beyond its time before it counts as interrupted, in milliseconds.
pub const TRIAGE_RECOVERY_GRACE_MILLISECONDS: i64 = 60_000;

/// How long it takes until interrupted runs are looked for again, in milliseconds.
pub const RECOVERY_INTERVAL_MILLISECONDS: i64 = 60_000;

/// How long a worker without work waits, in milliseconds.
pub const IDLE_MILLISECONDS: u64 = 500;

// ---------------------------------------------------------------------------------------------
// A check
// ---------------------------------------------------------------------------------------------

/// What came of polling every source once and of handling what was ready.
#[derive(Clone, Debug)]
pub struct CheckResult {
    pub observed: usize,
    pub handled: usize,
    pub errors: Vec<String>,
}

impl Default for CheckResult {
    fn default() -> (result: Self)
        ensures
            result.observed == 0,
            result.handled == 0,
            result.errors@.len() == 0,
    {
        CheckResult { observed: 0, handled: 0, errors: Vec::new() }
    }
}

impl CheckResult {
    /// Takes the outcome of a poll: how many events it queued, or the text of its error.
    pub fn polled(&mut self, outcome: Result<usize, String>)
        requires
            outcome matches Ok(count) ==> old(self).observed + count <= usize::MAX,
        ensures
            final(self).handled == old(self).handled,
            match outcome {
                Ok(count) => {
                    &&& final(self).observed == old(self).observed + count
                    &&& text::texts(final(self).errors@) == text::texts(old(self).errors@)
                },
                Err(error) => {
                    &&& final(self).observed == old(self).observed
                    &&& text::texts(final(self).errors@) == text::texts(old(self).errors@).push(
                        error@,
                    )
                },
            },
    {
        match outcome {
            Ok(count) => {
                self.observed = self.observed + count;
            },
            Err(error) => {
                self.errors.push(error);
                assert(text::texts(self.errors@) =~= text::texts(old(self).errors@).push(error@));
            },
        }
    }

    /// Takes the outcome of handling an event: the text of the error, where there was one.
    pub fn triaged(&mut self, event_id: i64, error: Option<String>)
        requires
            error is None ==> old(self).handled < usize::MAX,
        ensures
            final(self).observed == old(self).observed,
            match error {
                None => {
                    &&& final(self).handled == old(self).handled + 1
                    &&& text::texts(final(self).errors@) == text::texts(old(self).errors@)
                },
                Some(error) => {
                    &&& final(self).handled == old(self).handled
                    &&& text::texts(final(self).errors@) == text::texts(old(self).errors@).push(
                        "event "@ + text::signed_decimal(event_id as int) + ": "@ + error@,
                    )
                },
            },
    {
        match error {
            None => {
                self.handled = self.handled + 1;
            },
            Some(error) => {
                let mut message = "event ".to_owned();
                message.append(text::signed_decimal_of(event_id).as_str());
                message.append(": ");
                message.append(error.as_str());
                self.errors.push(message);
                assert(text::texts(self.errors@) =~= text::texts(old(self).errors@).push(
                    message@,
                ));
            },
        }
    }

    /// What the program ends with after the check: zero where nothing failed, and else one.
    pub fn exit_code(&self) -> (code: i32)
        ensures
            code == (if self.errors@.len() == 0 {
                0int
            } else {
                1int
            }),
    {
        if self.errors.len() == 0 {
            0
        } else {
            1
        }
    }

    /// The line that sums up the check.
    pub fn summary(&self) -> (out: String)
        ensures
            out@ == "Observed "@ + text::decimal(self.observed as nat) + "; handled "@
                + text::decimal(self.handled as nat) + "; errors "@ + text::decimal(
                self.errors@.len(),
            ) + "."@,
    {
        let mut out = "Observed ".to_owned();
        out.append(text::decimal_of(self.observed as u128).as_str());
        out.append("; handled ");
        out.append(text::decimal_of(self.handled as u128).as_str());
        out.append("; errors ");
        out.append(text::decimal_of(self.errors.len() as u128).as_str());
        out.append(".");
        out
    }
}

/// How far a check has come.
#[derive(Clone, Copy, Debug, PartialEq, Eq, Structural)]
pub enum CheckState {
    /// Nothing has happened yet.
    Ready,
    /// The sources are polled.
    Polling,
    /// It is asked whether the check goes on.
    Free,
    /// The next event is asked for.
    Claiming,
    /// The event is triaged.
    Triaging(i64),
    Done,
}

/// What happened to a check.
#[derive(Debug)]
pub enum CheckEvent {
    /// The check begins.
    Started,
    /// A source was polled: how many events it queued, or the text of its error.
    Polled(Result<usize, String>),
    /// The check is free to go on, unless it is told to stop.
    Free { stopping: bool },
    /// The next event was asked for.
    Claimed(Option<i64>),
    /// The event was triaged: the text of the error, where there was one.
    Triaged(Option<String>),
}

/// What a check does next.
#[derive(Clone, Copy, Debug, PartialEq, Eq, Structural)]
pub enum CheckAction {
    /// Poll every source.
    Poll,
    /// Wait for the next poll to end.
    Wait,
    /// See whether the check is free to go on.
    Look,
    Claim,
    Triage(i64),
    Finish,
    /// The event does not belong to this state.
    Ignore,
}

/// A check: every source is polled once, then what is ready is handled.
#[derive(Debug)]
pub struct Check {
    sources: usize,
    polled: usize,
    result: CheckResult,
    state: CheckState,
}

/// What the contracts say of a check.
#[verifier::ext_equal]
pub struct CheckModel {
    pub sources: nat,
    pub polled: nat,
    pub observed: nat,
    pub handled: nat,
    pub errors: Seq<Seq<char>>,
    pub state: CheckState,
}

impl View for Check {
    type V = CheckModel;

    closed spec fn view(&self) -> CheckModel {
        CheckModel {
            sources: self.sources as nat,
            polled: self.polled as nat,
            observed: self.result.observed as nat,
            handled: self.result.handled as nat,
            errors: text::texts(self.result.errors@),
            state: self.state,
        }
    }
}

/// The polls that are still waited for, if any, belong to sources; behind them there are none.
pub open spec fn check_ok(check: CheckModel) -> bool {
    match check.state {
        CheckState::Ready => check.polled == 0,
        CheckState::Polling => check.polled < check.sources,
        _ => check.polled == check.sources,
    }
}

/// Whether the counts can take the event.
pub open spec fn can_count(check: CheckModel, event: CheckEvent) -> bool {
    match event {
        CheckEvent::Polled(Ok(count)) => check.observed + count <= usize::MAX,
        CheckEvent::Triaged(None) => check.handled < usize::MAX,
        _ => true,
    }
}

/// The rule of a check: what follows an event.
pub open spec fn check_step(check: CheckModel, event: CheckEvent) -> (CheckModel, CheckAction) {
    match (check.state, event) {
        (CheckState::Ready, CheckEvent::Started) => if check.sources == 0 {
            (CheckModel { state: CheckState::Free, ..check }, CheckAction::Look)
        } else {
            (CheckModel { state: CheckState::Polling, ..check }, CheckAction::Poll)
        },
        (CheckState::Polling, CheckEvent::Polled(outcome)) => {
            let last = check.polled + 1 == check.sources;
            (
                CheckModel {
                    polled: check.polled + 1,
                    observed: match outcome {
                        Ok(count) => check.observed + count as nat,
                        Err(_) => check.observed,
                    },
                    errors: match outcome {
                        Ok(_) => check.errors,
                        Err(error) => check.errors.push(error@),
                    },
                    state: if last {
                        CheckState::Free
                    } else {
                        CheckState::Polling
                    },
                    ..check
                },
                if last {
                    CheckAction::Look
                } else {
                    CheckAction::Wait
                },
            )
        },
        (CheckState::Free, CheckEvent::Free { stopping }) => if stopping {
            (CheckModel { state: CheckState::Done, ..check }, CheckAction::Finish)
        } else {
            (CheckModel { state: CheckState::Claiming, ..check }, CheckAction::Claim)
        },
        (CheckState::Claiming, CheckEvent::Claimed(claimed)) => match claimed {
            Some(id) => (
                CheckModel { state: CheckState::Triaging(id), ..check },
                CheckAction::Triage(id),
            ),
            None => (CheckModel { state: CheckState::Done, ..check }, CheckAction::Finish),
        },
        (CheckState::Triaging(id), CheckEvent::Triaged(error)) => (
            CheckModel {
                handled: if error is None {
                    check.handled + 1
                } else {
                    check.handled
                },
                errors: match error {
                    None => check.errors,
                    Some(error) => check.errors.push(
                        "event "@ + text::signed_decimal(id as int) + ": "@ + error@,
                    ),
                },
                state: CheckState::Free,
                ..check
            },
            CheckAction::Look,
        ),
        _ => (check, CheckAction::Ignore),
    }
}

impl Check {
    /// A check of so many sources.
    pub fn new(sources: usize) -> (check: Self)
        ensures
            check@ == (CheckModel {
                sources: sources as nat,
                polled: 0,
                observed: 0,
                handled: 0,
                errors: Seq::empty(),
                state: CheckState::Ready,
            }),
            check_ok(check@),
    {
        let check = Check {
            sources,
            polled: 0,
            result: CheckResult::default(),
            state: CheckState::Ready,
        };
        assert(check@.errors =~= Seq::<Seq<char>>::empty());
        check
    }

    /// Whether the counts can take the event.
    pub fn can_take(&self, event: &CheckEvent) -> (b: bool)
        ensures
            b == can_count(self@, *event),
    {
        match event {
            CheckEvent::Polled(Ok(count)) => *count <= usize::MAX - self.result.observed,
            CheckEvent::Triaged(None) => self.result.handled < usize::MAX,
            _ => true,
        }
    }

    /// What is done after the event.
    pub fn step(&mut self, event: CheckEvent) -> (action: CheckAction)
        requires
            check_ok(old(self)@),
            can_count(old(self)@, event),
        ensures
            (final(self)@, action) == check_step(old(self)@, event),
            check_ok(final(self)@),
    {
        match (self.state, event) {
            (CheckState::Ready, CheckEvent::Started) => {
                if self.sources == 0 {
                    self.state = CheckState::Free;
                    CheckAction::Look
                } else {
                    self.state = CheckState::Polling;
                    CheckAction::Poll
                }
            },
            (CheckState::Polling, CheckEvent::Polled(outcome)) => {
                self.result.polled(outcome);
                self.polled = self.polled + 1;
                if self.polled == self.sources {
                    self.state = CheckState::Free;
                    CheckAction::Look
                } else {
                    CheckAction::Wait
                }
            },
            (CheckState::Free, CheckEvent::Free { stopping }) => {
                if stopping {
                    self.state = CheckState::Done;
                    CheckAction::Finish
                } else {
                    self.state = CheckState::Claiming;
                    CheckAction::Claim
                }
            },
            (CheckState::Claiming, CheckEvent::Claimed(claimed)) => match claimed {
                Some(id) => {
                    self.state = CheckState::Triaging(id);
                    CheckAction::Triage(id)
                },
                None => {
                    self.state = CheckState::Done;
                    CheckAction::Finish
                },
            },
            (CheckState::Triaging(id), CheckEvent::Triaged(error)) => {
                self.result.triaged(id, error);
                self.state = CheckState::Free;
                CheckAction::Look
            },
            _ => CheckAction::Ignore,
        }
    }

    /// What came of the check.
    pub fn into_result(self) -> (result: CheckResult)
        ensures
            result.observed == self@.observed,
            result.handled == self@.handled,
            text::texts(result.errors@) == self@.errors,
    {
        self.result
    }
}

// ---------------------------------------------------------------------------------------------
// The loops
// ---------------------------------------------------------------------------------------------

/// What happened to a worker.
#[derive(Clone, Copy, Debug, PartialEq, Eq, Structural)]
pub enum WorkerEvent {
    /// It is free.
    Free { stopping: bool },
    /// It asked for an event.
    Claimed(Option<i64>),
    /// It waited, and was told to stop or not.
    Waited { cancelled: bool },
}

/// What a worker does next.
#[derive(Clone, Copy, Debug, PartialEq, Eq, Structural)]
pub enum WorkerAction {
    Claim,
    Triage(i64),
    Pause,
    /// To see whether it is free to go on.
    Look,
    Stop,
}

/// What a worker does next.
pub open spec fn worker_action(event: WorkerEvent) -> WorkerAction {
    match event {
        WorkerEvent::Free { stopping } => if stopping {
            WorkerAction::Stop
        } else {
            WorkerAction::Claim
        },
        WorkerEvent::Claimed(Some(id)) => WorkerAction::Triage(id),
        WorkerEvent::Claimed(None) => WorkerAction::Pause,
        WorkerEvent::Waited { cancelled } => if cancelled {
            WorkerAction::Stop
        } else {
            WorkerAction::Look
        },
    }
}

/// What a worker does next.
pub fn worker_step(event: WorkerEvent) -> (action: WorkerAction)
    ensures
        action == worker_action(event),
{
    match event {
        WorkerEvent::Free { stopping } => if stopping {
            WorkerAction::Stop
        } else {
            WorkerAction::Claim
        },
        WorkerEvent::Claimed(Some(id)) => WorkerAction::Triage(id),
        WorkerEvent::Claimed(None) => WorkerAction::Pause,
        WorkerEvent::Waited { cancelled } => if cancelled {
            WorkerAction::Stop
        } else {
            WorkerAction::Look
        },
    }
}

/// What happened to the schedule of a source.
#[derive(Clone, Copy, Debug, PartialEq, Eq, Structural)]
pub enum ScheduleEvent {
    /// The source is to be polled: for the first time, or again.
    Due { first: bool, stopping: bool },
    /// The interval went by, or the schedule was cancelled.
    Waited { cancelled: bool, stopping: bool },
}

/// What the schedule of a source does next.
#[derive(Clone, Copy, Debug, PartialEq, Eq, Structural)]
pub enum ScheduleAction {
    Poll,
    /// To wait for the interval of the source.
    Wait,
    Stop,
}

/// What the schedule of a source does next: the first poll waits for nothing.
pub open spec fn schedule_action(event: ScheduleEvent) -> ScheduleAction {
    match event {
        ScheduleEvent::Due { first, stopping } => if stopping {
            ScheduleAction::Stop
        } else if first {
            ScheduleAction::Poll
        } else {
            ScheduleAction::Wait
        },
        ScheduleEvent::Waited { cancelled, stopping } => if cancelled || stopping {
            ScheduleAction::Stop
        } else {
            ScheduleAction::Poll
        },
    }
}

/// What the schedule of a source does next.
pub fn schedule_step(event: ScheduleEvent) -> (action: ScheduleAction)
    ensures
        action == schedule_action(event),
{
    match event {
        ScheduleEvent::Due { first, stopping } => if stopping {
            ScheduleAction::Stop
        } else if first {
            ScheduleAction::Poll
        } else {
            ScheduleAction::Wait
        },
        ScheduleEvent::Waited { cancelled, stopping } => if cancelled || stopping {
            ScheduleAction::Stop
        } else {
            ScheduleAction::Poll
        },
    }
}

// ---------------------------------------------------------------------------------------------
// Recovery
// ---------------------------------------------------------------------------------------------

/// When interrupted runs are looked for again. Moments are milliseconds.
#[derive(Clone, Copy, Debug, PartialEq, Eq, Structural)]
pub struct RecoveryClock {
    pub next_at: i64,
}

/// The moment before which a run that still goes on must have been interrupted.
pub open spec fn stale_moment(now: int, timeout_minutes: int) -> int {
    now - timeout_minutes * 60_000 - TRIAGE_RECOVERY_GRACE_MILLISECONDS
}

impl RecoveryClock {
    /// Whether interrupted runs are to be looked for at the moment.
    pub open spec fn is_due(self, now: i64) -> bool {
        now >= self.next_at
    }

    /// The clock once the moment has come.
    pub open spec fn after(self, now: i64) -> RecoveryClock {
        if self.is_due(now) {
            RecoveryClock { next_at: (now + RECOVERY_INTERVAL_MILLISECONDS) as i64 }
        } else {
            self
        }
    }

    /// A clock that is due at once.
    pub fn new() -> (clock: Self)
        ensures
            clock.next_at == 0,
    {
        RecoveryClock { next_at: 0 }
    }

    /// Whether interrupted runs are to be looked for now, and if so, the moment from which on
    /// runs are not yet overdue.
    pub fn due(&mut self, now: i64, timeout_minutes: u64) -> (stale_before: Option<i64>)
        requires
            now <= LAST_MOMENT,
            stale_moment(now as int, timeout_minutes as int) >= FIRST_MOMENT,
        ensures
            stale_before == (if old(self).is_due(now) {
                Some(stale_moment(now as int, timeout_minutes as int) as i64)
            } else {
                None
            }),
            *final(self) == old(self).after(now),
    {
        if now >= self.next_at {
            self.next_at = now + RECOVERY_INTERVAL_MILLISECONDS;
            Some(now - timeout_minutes as i64 * 60_000 - TRIAGE_RECOVERY_GRACE_MILLISECONDS)
        } else {
            None
        }
    }
}

// ---------------------------------------------------------------------------------------------
// Triage
// ---------------------------------------------------------------------------------------------

/// The request that settles an event once a run of it has ended: with the text of the error,
/// where there was one.
pub fn settlement(event_id: i64, error: Option<&str>, triage: &TriageConfig, now: i64) -> (operation:
    WriteOperation)
    ensures
        match error {
            None => operation matches WriteOperation::Succeed { event_id: id, now: at } && id
                == event_id && at == now,
            Some(message) => operation matches WriteOperation::Fail {
                event_id: id,
                error: stored,
                max_attempts,
                retry_base_seconds,
                now: at,
            } && id == event_id && stored@ == message@ && max_attempts == triage.max_attempts as u32
                && retry_base_seconds == triage.retry_base_seconds && at == now,
        },
{
    match error {
        None => WriteOperation::Succeed { event_id, now },
        Some(message) => WriteOperation::Fail {
            event_id,
            error: message.to_owned(),
            max_attempts: triage.max_attempts as u32,
            retry_base_seconds: triage.retry_base_seconds,
            now,
        },
    }
}

// ---------------------------------------------------------------------------------------------
// Categories
// ---------------------------------------------------------------------------------------------

/// The category of a message, as far as it is logged.
pub open spec fn logged_category(message: Seq<char>) -> ErrorCategory {
    match message_category(message) {
        ErrorCategory::Authentication => ErrorCategory::Authentication,
        ErrorCategory::RateLimit => ErrorCategory::RateLimit,
        ErrorCategory::Timeout => ErrorCategory::Timeout,
        ErrorCategory::Connection => ErrorCategory::Connection,
        _ => ErrorCategory::Unknown,
    }
}

/// The category of a message, as far as it is logged.
pub fn safe_message_category(message: &str) -> (out: &'static str)
    ensures
        out@ == logged_category(message@).name(),
{
    match classify_message(message) {
        ErrorCategory::Authentication => ErrorCategory::Authentication.as_str(),
        ErrorCategory::RateLimit => ErrorCategory::RateLimit.as_str(),
        ErrorCategory::Timeout => ErrorCategory::Timeout.as_str(),
        ErrorCategory::Connection => ErrorCategory::Connection.as_str(),
        _ => ErrorCategory::Unknown.as_str(),
    }
}

/// The category under which an error of a source is logged.
pub open spec fn failure_name(error: SourceRunnerError) -> Seq<char> {
    match error {
        SourceRunnerError::RequestTooLarge => "limit"@,
        SourceRunnerError::OutputTooLarge { .. } => "limit"@,
        SourceRunnerError::Spawn(_) => "spawn"@,
        SourceRunnerError::Timeout => "timeout"@,
        SourceRunnerError::Exit { .. } => "exit"@,
        SourceRunnerError::Stream(_) => "stream"@,
        SourceRunnerError::Utf8(_) => "stream"@,
        SourceRunnerError::Json(_) => "protocol"@,
        SourceRunnerError::Schema(_) => "protocol"@,
        SourceRunnerError::ItemLimit { .. } => "protocol"@,
        SourceRunnerError::Database(_) => "database"@,
        SourceRunnerError::FailureRecording { .. } => "database"@,
        SourceRunnerError::Poll(message) => logged_category(message@).name(),
    }
}

/// The category under which an error of a source is logged.
pub fn source_failure_category(error: &SourceRunnerError) -> (out: &'static str)
    ensures
        out@ == failure_name(*error),
{
    match error {
        SourceRunnerError::RequestTooLarge => "limit",
        SourceRunnerError::OutputTooLarge { .. } => "limit",
        SourceRunnerError::Spawn(_) => "spawn",
        SourceRunnerError::Timeout => "timeout",
        SourceRunnerError::Exit { .. } => "exit",
        SourceRunnerError::Stream(_) => "stream",
        SourceRunnerError::Utf8(_) => "stream",
        SourceRunnerError::Json(_) => "protocol",
        SourceRunnerError::Schema(_) => "protocol",
        SourceRunnerError::ItemLimit { .. } => "protocol",
        SourceRunnerError::Database(_) => "database",
        SourceRunnerError::FailureRecording { .. } => "database",
        SourceRunnerError::Poll(message) => safe_message_category(message.as_str()),
    }
}

/// The category under which an error of a triage is logged: its own, or else the one that its
/// text points to.
pub fn safe_error_category(error: &TriageError) -> (out: &'static str)
    ensures
        out@ == (if error.category_of() != ErrorCategory::Unknown {
            error.category_of().name()
        } else {
            logged_category(error.text()).name()
        }),
{
    let category = error.category();
    if category != ErrorCategory::Unknown {
        category.as_str()
    } else {
        safe_message_category(error.message().as_str())
    }
}

// ---------------------------------------------------------------------------------------------
// Notices
// ---------------------------------------------------------------------------------------------

/// The ending of a word for so many.
pub open spec fn plural(count: nat) -> Seq<char> {
    if count == 1 {
        ""@
    } else {
        "s"@
    }
}

fn plural_ending(count: u64) -> (out: &'static str)
    ensures
        out@ == plural(count as nat),
{
    if count == 1 {
        ""
    } else {
        "s"
    }
}

/// How often a source is polled.
pub open spec fn schedule_text(source: SourceConfig) -> Seq<char> {
    source.name@ + " every "@ + text::decimal(source.interval_seconds as nat) + " second"@
        + plural(source.interval_seconds as nat)
}

/// What the watch says when it begins.
pub open spec fn watch_text(sources: Seq<SourceConfig>) -> Seq<char> {
    let schedules = text::join(
        sources.map_values(|source: SourceConfig| schedule_text(source)),
        ", "@,
    );
    "Watching "@ + (if schedules.len() == 0 {
        "no configured sources"@
    } else {
        schedules
    }) + ". Press Ctrl-C to stop."@
}

/// What the watch says when it begins.
pub fn watch_notice(sources: &Vec<SourceConfig>) -> (out: String)
    ensures
        out@ == watch_text(sources@),
{
    let mut list: Vec<String> = Vec::new();
    let total: usize = sources.len();
    let mut i: usize = 0;
    while i < total
        invariant
            i <= total == sources@.len(),
            list@.len() == i,
            forall|k: int| 0 <= k < i ==> (#[trigger] list@[k])@ == schedule_text(sources@[k]),
        decreases total - i,
    {
        let mut line = sources[i].name.as_str().to_owned();
        line.append(" every ");
        line.append(text::decimal_of(sources[i].interval_seconds as u128).as_str());
        line.append(" second");
        line.append(plural_ending(sources[i].interval_seconds));
        list.push(line);
        i += 1;
    }
    assert(text::texts(list@) =~= sources@.map_values(
        |source: SourceConfig| schedule_text(source),
    ));
    let schedules = text::join_strings(&list, ", ");
    let mut out = "Watching ".to_owned();
    if schedules.as_str().is_empty() {
        out.append("no configured sources");
    } else {
        out.append(schedules.as_str());
    }
    out.append(". Press Ctrl-C to stop.");
    out
}

/// What is said of a poll that succeeded: nothing where it queued nothing.
pub fn poll_notice(source: &str, observed: usize) -> (out: Option<String>)
    ensures
        text::opt_text(out) == (if observed == 0 {
            None
        } else {
            Some(
                source@ + ": queued "@ + text::decimal(observed as nat) + " event"@ + plural(
                    observed as nat,
                ),
            )
        }),
{
    if observed == 0 {
        return None;
    }
    let mut out = source.to_owned();
    out.append(": queued ");
    out.append(text::decimal_of(observed as u128).as_str());
    out.append(" event");
    out.append(plural_ending(observed as u64));
    Some(out)
}

/// What is said of a poll that failed.
pub fn poll_failure_notice(source: &str, error: &str) -> (out: String)
    ensures
        out@ == source@ + ": "@ + public_wording(error@),
{
    let mut out = source.to_owned();
    out.append(": ");
    match public_error(Some(error)) {
        Some(message) => out.append(message.as_str()),
        None => {},
    }
    out
}

/// What is said of an event that was handled.
pub fn handled_notice(event_id: i64, title: &str) -> (out: String)
    ensures
        out@ == "event "@ + text::signed_decimal(event_id as int) + ": handled "@ + title@,
{
    let mut out = "event ".to_owned();
    out.append(text::signed_decimal_of(event_id).as_str());
    out.append(": handled ");
    out.append(title);
    out
}

/// What is said of an event that could not be handled.
pub fn failed_notice(event_id: i64) -> (out: String)
    ensures
        out@ == "event "@ + text::signed_decimal(event_id as int) + ": triage failed"@,
{
    let mut out = "event ".to_owned();
    out.append(text::signed_decimal_of(event_id).as_str());
    out.append(": triage failed");
    out
}

// ---------------------------------------------------------------------------------------------
// Laws
// ---------------------------------------------------------------------------------------------

/// Interrupted runs are looked for no more often than once in the interval.
pub proof fn law_recovery_is_spaced(clock: RecoveryClock, now: i64, later: i64)
    requires
        clock.is_due(now),
        later < now + RECOVERY_INTERVAL_MILLISECONDS <= i64::MAX,
    ensures
        !clock.after(now).is_due(later),
{
}

/// Work to which something happened within the time of a run and the grace does not count as
/// interrupted.
pub proof fn law_recovery_spares_running_work(event: EventModel, now: i64, timeout_minutes: u64)
    requires
        now - event.updated_at < timeout_minutes * 60_000 + TRIAGE_RECOVERY_GRACE_MILLISECONDS,
        i64::MIN <= stale_moment(now as int, timeout_minutes as int),
    ensures
        !stale(event, stale_moment(now as int, timeout_minutes as int) as i64),
{
}

/// A check claims an event only once every source has been polled, and it has them polled at its
/// very beginning and never again.
pub proof fn law_checks_poll_before_they_claim(check: CheckModel, event: CheckEvent)
    requires
        check_ok(check),
    ensures
        check_step(check, event).1 is Claim ==> check.polled == check.sources,
        check_step(check, event).1 is Poll ==> check.state == CheckState::Ready && check.polled
            == 0,
        check_step(check, event).0.state != CheckState::Ready || check_step(check, event).0 == check,
        check_ok(check_step(check, event).0),
{
}

/// A check that is done stays done, whatever still happens.
pub proof fn law_finished_checks_stay_finished(check: CheckModel, event: CheckEvent)
    requires
        check.state == CheckState::Done,
    ensures
        check_step(check, event) == (check, CheckAction::Ignore),
{
}

/// Once it is told to stop, a check and a worker claim no event and a schedule polls no source.
pub proof fn law_stopping_begins_nothing(check: CheckModel, first: bool, cancelled: bool)
    ensures
        !(check_step(check, CheckEvent::Free { stopping: true }).1 is Claim),
        worker_action(WorkerEvent::Free { stopping: true }) is Stop,
        schedule_action(ScheduleEvent::Due { first, stopping: true }) is Stop,
        schedule_action(ScheduleEvent::Waited { cancelled, stopping: true }) is Stop,
        worker_action(WorkerEvent::Waited { cancelled: true }) is Stop,
{
}

/// A check adds up what its sources observed, counts the events that were handled, and keeps every
/// error: that of a poll as it is, that of an event under its number.
pub proof fn law_checks_add_up(check: CheckModel, event: CheckEvent)
    ensures
        ({
            let (next, action) = check_step(check, event);
            &&& check.state == CheckState::Polling ==> (event matches CheckEvent::Polled(outcome)
                ==> {
                &&& next.polled == check.polled + 1
                &&& next.handled == check.handled
                &&& outcome matches Ok(count) ==> next.observed == check.observed + count
                    && next.errors == check.errors
                &&& outcome matches Err(error) ==> next.observed == check.observed && next.errors
                    == check.errors.push(error@)
                &&& action == (if next.polled == check.sources {
                    CheckAction::Look
                } else {
                    CheckAction::Wait
                })
            })
            &&& check.state matches CheckState::Triaging(id) ==> (event matches CheckEvent::Triaged(
                error,
            ) ==> {
                &&& action == CheckAction::Look
                &&& next.state == CheckState::Free
                &&& next.observed == check.observed
                &&& error is None ==> next.handled == check.handled + 1 && next.errors
                    == check.errors
                &&& error matches Some(message) ==> next.handled == check.handled && next.errors
                    == check.errors.push(
                    "event "@ + text::signed_decimal(id as int) + ": "@ + message@,
                )
            })
            &&& check.state == CheckState::Claiming ==> (event matches CheckEvent::Claimed(claimed)
                ==> {
                &&& claimed matches Some(id) ==> action == CheckAction::Triage(id)
                &&& claimed is None ==> action == CheckAction::Finish
                &&& next.handled == check.handled && next.errors == check.errors
            })
        }),
{
}

/// A worker triages the event that it claimed, and pauses where there is none.
pub proof fn law_workers_triage_what_they_claim(id: i64)
    ensures
        worker_action(WorkerEvent::Claimed(Some(id))) == WorkerAction::Triage(id),
        worker_action(WorkerEvent::Claimed(None)) == WorkerAction::Pause,
        worker_action(WorkerEvent::Free { stopping: false }) == WorkerAction::Claim,
        worker_action(WorkerEvent::Waited { cancelled: false }) == WorkerAction::Look,
        schedule_action(ScheduleEvent::Due { first: true, stopping: false })
            == ScheduleAction::Poll,
        schedule_action(ScheduleEvent::Due { first: false, stopping: false })
            == ScheduleAction::Wait,
        schedule_action(ScheduleEvent::Waited { cancelled: false, stopping: false })
            == ScheduleAction::Poll,
{
}

/// Work counts as interrupted a minute after the time of a run has passed; and interrupted work is
/// looked for a minute after it was looked for.
pub proof fn law_recovery_times(clock: RecoveryClock, now: i64, timeout_minutes: int)
    requires
        now <= i64::MAX - 60_000,
    ensures
        stale_moment(now as int, timeout_minutes) + 60_000 * (timeout_minutes + 1) == now,
        now >= clock.next_at ==> clock.is_due(now) && clock.after(now).next_at == now + 60_000,
        now < clock.next_at ==> !clock.is_due(now) && clock.after(now) == clock,
{
}

} // verus!
