//! The dashboard: the overview that it shows, the queries that it answers, and the address that
//! it binds to.
use vstd::prelude::*;

use crate::config::{IntakeConfig, MAX_SAFE_INTEGER};
use crate::database::order::{in_order, last_of};
use crate::database::queue::{is_out_of_range, joined, moments_fit, states, written_moment};
use crate::database::readers::{
    count_status, events_read, latest_events, latest_runs, law_counts_add_up, oldest_open,
    sources_read, states_summary, step_fits, step_keys, steps_read, summaries_read,
};
use crate::database::records::{
    rfc3339, timestamp, DatabaseError, EventRecord, EventStatus, RunId, SourceStatus,
    TriageRunSummary, TriageStepRecord,
};
use crate::database::tables::{RunModel, Store, StoreModel};
use crate::errors::{contains_one, holds_one};
use crate::run_detail::{event_url, safe_event_url};
use crate::text;
use crate::urls::{self, QueryPair};

verus! {

pub const DEFAULT_DASHBOARD_HOST: &'static str = "127.0.0.1";

pub const DEFAULT_DASHBOARD_PORT: u16 = 4545;

pub const NON_LOOPBACK_WARNING: &'static str =
    "Warning: the dashboard title and entity API has no authentication.";

/// How many events an overview shows.
pub const SNAPSHOT_EVENTS: usize = 100;

/// How many runs an overview shows.
pub const SNAPSHOT_RUNS: usize = 50;

/// How many steps an overview shows of a run that goes on.
pub const SNAPSHOT_STEPS: usize = 12;

/// A header of a response.
#[derive(Clone, Copy, Debug)]
pub struct Header {
    pub name: &'static str,
    pub value: &'static str,
}

/// The headers that every response carries.
pub fn security_headers() -> (headers: [Header; 7])
    ensures
        headers@.map_values(|header: Header| (header.name@, header.value@)) == seq![
            ("cache-control"@, "no-store"@),
            (
                "content-security-policy"@,
                "default-src 'none'; style-src 'unsafe-inline'; script-src 'unsafe-inline'; connect-src 'self'; img-src 'self'; base-uri 'none'; form-action 'none'; frame-ancestors 'none'"@,
            ),
            ("cross-origin-resource-policy"@, "same-origin"@),
            ("permissions-policy"@, "camera=(), microphone=(), geolocation=()"@),
            ("referrer-policy"@, "no-referrer"@),
            ("x-content-type-options"@, "nosniff"@),
            ("x-frame-options"@, "DENY"@),
        ],
{
    [
        Header { name: "cache-control", value: "no-store" },
        Header {
            name: "content-security-policy",
            value: "default-src 'none'; style-src 'unsafe-inline'; script-src 'unsafe-inline'; connect-src 'self'; img-src 'self'; base-uri 'none'; form-action 'none'; frame-ancestors 'none'",
        },
        Header { name: "cross-origin-resource-policy", value: "same-origin" },
        Header {
            name: "permissions-policy",
            value: "camera=(), microphone=(), geolocation=()",
        },
        Header { name: "referrer-policy", value: "no-referrer" },
        Header { name: "x-content-type-options", value: "nosniff" },
        Header { name: "x-frame-options", value: "DENY" },
    ]
}

/// The limits of runs that the dashboard shows.
#[derive(Clone, Copy, Debug, PartialEq, Eq, Structural)]
pub struct DashboardRunLimits {
    pub max_turns: Option<u32>,
    pub wall_timeout_ms: Option<u64>,
}

impl Default for DashboardRunLimits {
    fn default() -> (limits: Self)
        ensures
            limits.max_turns is None,
            limits.wall_timeout_ms is None,
    {
        DashboardRunLimits { max_turns: None, wall_timeout_ms: None }
    }
}

/// The limits of runs under a configuration.
pub fn dashboard_limits(config: &IntakeConfig) -> (limits: DashboardRunLimits)
    ensures
        limits.max_turns == Some(config.triage.max_turns as u32),
        limits.wall_timeout_ms == Some(
            if config.triage.timeout_minutes * 60_000 <= u64::MAX {
                (config.triage.timeout_minutes * 60_000) as u64
            } else {
                u64::MAX
            },
        ),
{
    DashboardRunLimits {
        max_turns: Some(config.triage.max_turns as u32),
        wall_timeout_ms: Some(
            match config.triage.timeout_minutes.checked_mul(60_000) {
                Some(milliseconds) => milliseconds,
                None => u64::MAX,
            },
        ),
    }
}

// ---------------------------------------------------------------------------------------------
// Counts
// ---------------------------------------------------------------------------------------------

/// How many events have a status.
#[derive(Clone, Copy, Debug, PartialEq, Eq, Structural)]
pub struct StatusCount {
    pub status: EventStatus,
    pub count: usize,
}

/// How many events have each status.
#[derive(Clone, Copy, Debug, PartialEq, Eq, Structural)]
pub struct DashboardCounts {
    pub pending: usize,
    pub processing: usize,
    pub retryable: usize,
    pub succeeded: usize,
    pub failed: usize,
    pub ignored: usize,
}

/// How many events have the status: none where nothing is said of it.
pub open spec fn counted(counts: Seq<StatusCount>, status: EventStatus) -> usize
    decreases counts.len(),
{
    if counts.len() == 0 {
        0
    } else if counts.last().status == status {
        counts.last().count
    } else {
        counted(counts.drop_last(), status)
    }
}

fn count_with(counts: &Vec<StatusCount>, status: EventStatus) -> (count: usize)
    ensures
        count == counted(counts@, status),
{
    let mut i: usize = counts.len();
    assert(counts@.take(i as int) =~= counts@);
    while i > 0
        invariant
            i <= counts@.len(),
            counted(counts@, status) == counted(counts@.take(i as int), status),
        decreases i,
    {
        assert(counts@.take(i as int).last() == counts@[i - 1]);
        assert(counts@.take(i as int).drop_last() =~= counts@.take(i - 1));
        if counts[i - 1].status == status {
            return counts[i - 1].count;
        }
        i -= 1;
    }
    0
}

impl DashboardCounts {
    /// How many events there are.
    pub open spec fn sum(self) -> nat {
        (self.pending + self.processing + self.retryable + self.succeeded + self.failed
            + self.ignored) as nat
    }

    /// The counts that were read.
    pub fn read(counts: &Vec<StatusCount>) -> (out: Self)
        ensures
            out.pending == counted(counts@, EventStatus::Pending),
            out.processing == counted(counts@, EventStatus::Processing),
            out.retryable == counted(counts@, EventStatus::Retryable),
            out.succeeded == counted(counts@, EventStatus::Succeeded),
            out.failed == counted(counts@, EventStatus::Failed),
            out.ignored == counted(counts@, EventStatus::Ignored),
    {
        DashboardCounts {
            pending: count_with(counts, EventStatus::Pending),
            processing: count_with(counts, EventStatus::Processing),
            retryable: count_with(counts, EventStatus::Retryable),
            succeeded: count_with(counts, EventStatus::Succeeded),
            failed: count_with(counts, EventStatus::Failed),
            ignored: count_with(counts, EventStatus::Ignored),
        }
    }

    /// How many events there are.
    pub fn total(&self) -> (total: usize)
        requires
            self.sum() <= usize::MAX,
        ensures
            total == self.sum(),
    {
        self.pending + self.processing + self.retryable + self.succeeded + self.failed
            + self.ignored
    }
}

// ---------------------------------------------------------------------------------------------
// Errors
// ---------------------------------------------------------------------------------------------

/// The fixed wording that stands for an error, given its text in lower case.
pub open spec fn wording(m: Seq<char>) -> Seq<char> {
    if holds_one(m, seq!["auth"@, "credential"@, "token"@, "unauthorized"@, "forbidden"@]) {
        "Authentication failed"@
    } else if holds_one(m, seq!["rate limit"@, "too many requests"@]) {
        "Rate limited"@
    } else if holds_one(m, seq!["timeout"@, "timed out"@]) {
        "Request timed out"@
    } else if text::contains(m, "connection reset"@) {
        "Connection reset"@
    } else if holds_one(m, seq!["not found"@, "404"@]) {
        "Resource not found (404)"@
    } else if text::contains(m, "model"@) && text::contains(m, "unavailable"@) {
        "Model unavailable"@
    } else if text::contains(m, "interrupt"@) {
        "Triage interrupted"@
    } else {
        "Operation failed"@
    }
}

/// The fixed wording that stands for an error, given its text in lower case.
pub fn word_error(lowercase: &str) -> (out: &'static str)
    ensures
        out@ == wording(lowercase@),
{
    let m = text::chars_of(lowercase);
    let authentication: [&str; 5] = ["auth", "credential", "token", "unauthorized", "forbidden"];
    let rate: [&str; 2] = ["rate limit", "too many requests"];
    let timeout: [&str; 2] = ["timeout", "timed out"];
    let missing: [&str; 2] = ["not found", "404"];
    assert(authentication@.map_values(|n: &str| n@) =~= seq![
        "auth"@,
        "credential"@,
        "token"@,
        "unauthorized"@,
        "forbidden"@,
    ]);
    assert(rate@.map_values(|n: &str| n@) =~= seq!["rate limit"@, "too many requests"@]);
    assert(timeout@.map_values(|n: &str| n@) =~= seq!["timeout"@, "timed out"@]);
    assert(missing@.map_values(|n: &str| n@) =~= seq!["not found"@, "404"@]);
    if contains_one(&m, &authentication) {
        "Authentication failed"
    } else if contains_one(&m, &rate) {
        "Rate limited"
    } else if contains_one(&m, &timeout) {
        "Request timed out"
    } else if text::contains_chars(&m, &text::chars_of("connection reset")) {
        "Connection reset"
    } else if contains_one(&m, &missing) {
        "Resource not found (404)"
    } else if text::contains_chars(&m, &text::chars_of("model")) && text::contains_chars(
        &m,
        &text::chars_of("unavailable"),
    ) {
        "Model unavailable"
    } else if text::contains_chars(&m, &text::chars_of("interrupt")) {
        "Triage interrupted"
    } else {
        "Operation failed"
    }
}

/// The fixed wording that the dashboard shows for an error.
pub open spec fn error_shown(error: Option<Seq<char>>) -> Option<Seq<char>> {
    match error {
        Some(error) => Some(wording(text::lowercase(error))),
        None => None,
    }
}

/// The fixed wording that the dashboard shows for an error, where there is one.
pub fn public_error(error: Option<&str>) -> (out: Option<String>)
    ensures
        text::opt_text(out) == error_shown(text::opt_str(error)),
{
    match error {
        Some(error) => Some(word_error(text::to_lowercase(error).as_str()).to_owned()),
        None => None,
    }
}

fn shown_error(error: &Option<String>) -> (out: Option<String>)
    ensures
        text::opt_text(out) == error_shown(text::opt_text(*error)),
{
    match error {
        Some(error) => public_error(Some(error.as_str())),
        None => None,
    }
}

// ---------------------------------------------------------------------------------------------
// The overview
// ---------------------------------------------------------------------------------------------

/// What the dashboard shows of a source.
#[derive(Clone, Debug)]
pub struct DashboardSource {
    pub source: String,
    pub last_success_at: Option<String>,
    pub last_error: Option<String>,
    pub updated_at: String,
}

/// Whether this is what is shown of the source.
pub open spec fn shows_source(shown: DashboardSource, source: SourceStatus) -> bool {
    &&& shown.source@ == source.source@
    &&& text::opt_text(shown.last_success_at) == text::opt_text(source.last_success_at)
    &&& text::opt_text(shown.last_error) == error_shown(text::opt_text(source.last_error))
    &&& shown.updated_at@ == source.updated_at@
}

/// The sources that are shown: those that are not the one of events that were queued by hand.
pub open spec fn listed_sources(sources: Seq<SourceStatus>) -> Seq<SourceStatus>
    decreases sources.len(),
{
    if sources.len() == 0 {
        Seq::empty()
    } else {
        let before = listed_sources(sources.drop_last());
        if sources.last().source@ == "manual-injection"@ {
            before
        } else {
            before.push(sources.last())
        }
    }
}

/// What is shown of the sources.
pub fn source_projections(sources: &Vec<SourceStatus>) -> (out: Vec<DashboardSource>)
    ensures
        out@.len() == listed_sources(sources@).len(),
        forall|k: int|
            0 <= k < out@.len() ==> shows_source(
                #[trigger] out@[k],
                listed_sources(sources@)[k],
            ),
{
    let total: usize = sources.len();
    let mut out: Vec<DashboardSource> = Vec::new();
    let mut i: usize = 0;
    while i < total
        invariant
            i <= total == sources@.len(),
            out@.len() == listed_sources(sources@.take(i as int)).len(),
            forall|k: int|
                0 <= k < out@.len() ==> shows_source(
                    #[trigger] out@[k],
                    listed_sources(sources@.take(i as int))[k],
                ),
        decreases total - i,
    {
        assert(sources@.take(i + 1).drop_last() =~= sources@.take(i as int));
        let source = &sources[i];
        if !text::same(source.source.as_str(), "manual-injection") {
            out.push(
                DashboardSource {
                    source: source.source.as_str().to_owned(),
                    last_success_at: text::copy_opt(&source.last_success_at),
                    last_error: shown_error(&source.last_error),
                    updated_at: source.updated_at.as_str().to_owned(),
                },
            );
        }
        i += 1;
    }
    assert(sources@.take(i as int) =~= sources@);
    out
}

/// What the dashboard shows of an event.
#[derive(Clone, Debug)]
pub struct DashboardEvent {
    pub id: i64,
    pub source: String,
    pub entity_id: String,
    pub kind: String,
    pub title: String,
    pub url: Option<String>,
    pub occurred_at: String,
    pub observed_at: String,
    pub status: EventStatus,
    pub attempt_count: u32,
    pub next_attempt_at: Option<String>,
    pub last_error: Option<String>,
    pub aven_ref: Option<String>,
    pub investigation_handle: Option<String>,
}

/// Whether this is what is shown of the event.
pub open spec fn shows_event(shown: DashboardEvent, event: EventRecord) -> bool {
    &&& shown.id == event.id
    &&& shown.source@ == event.source@
    &&& shown.entity_id@ == event.entity_id@
    &&& shown.kind@ == event.kind@
    &&& shown.title@ == event.title@
    &&& text::opt_text(shown.url) == event_url(event)
    &&& shown.occurred_at@ == event.occurred_at@
    &&& shown.observed_at@ == event.observed_at@
    &&& shown.status == event.status
    &&& shown.attempt_count == event.attempt_count
    &&& text::opt_text(shown.next_attempt_at) == text::opt_text(event.next_attempt_at)
    &&& text::opt_text(shown.last_error) == error_shown(text::opt_text(event.last_error))
    &&& text::opt_text(shown.aven_ref) == text::opt_text(event.aven_ref)
    &&& text::opt_text(shown.investigation_handle) == text::opt_text(event.investigation_handle)
}

/// What is shown of an event.
pub fn event_projection(event: &EventRecord) -> (shown: DashboardEvent)
    ensures
        shows_event(shown, *event),
{
    DashboardEvent {
        id: event.id,
        source: event.source.as_str().to_owned(),
        entity_id: event.entity_id.as_str().to_owned(),
        kind: event.kind.as_str().to_owned(),
        title: event.title.as_str().to_owned(),
        url: safe_event_url(event),
        occurred_at: event.occurred_at.as_str().to_owned(),
        observed_at: event.observed_at.as_str().to_owned(),
        status: event.status,
        attempt_count: event.attempt_count,
        next_attempt_at: text::copy_opt(&event.next_attempt_at),
        last_error: shown_error(&event.last_error),
        aven_ref: text::copy_opt(&event.aven_ref),
        investigation_handle: text::copy_opt(&event.investigation_handle),
    }
}

/// What is shown of the events.
pub fn event_projections(events: &Vec<EventRecord>) -> (out: Vec<DashboardEvent>)
    ensures
        out@.len() == events@.len(),
        forall|k: int| 0 <= k < out@.len() ==> shows_event(#[trigger] out@[k], events@[k]),
{
    let total: usize = events.len();
    let mut out: Vec<DashboardEvent> = Vec::new();
    let mut i: usize = 0;
    while i < total
        invariant
            i <= total == events@.len(),
            out@.len() == i,
            forall|k: int| 0 <= k < i ==> shows_event(#[trigger] out@[k], events@[k]),
        decreases total - i,
    {
        out.push(event_projection(&events[i]));
        i += 1;
    }
    out
}

/// What the dashboard shows of a step.
#[derive(Clone, Debug)]
pub struct DashboardStep {
    pub id: i64,
    pub turn_ordinal: Option<i64>,
    pub kind: String,
    pub label: String,
    pub summary: Option<String>,
    pub started_at: String,
    pub ended_at: Option<String>,
    pub state: String,
}

/// Whether this is what is shown of the step.
pub open spec fn shows_step(shown: DashboardStep, step: TriageStepRecord) -> bool {
    &&& shown.id == step.id
    &&& shown.turn_ordinal == step.turn_ordinal
    &&& shown.kind@ == step.kind@
    &&& shown.label@ == step.label@
    &&& text::opt_text(shown.summary) == text::opt_text(step.summary)
    &&& shown.started_at@ == step.started_at@
    &&& text::opt_text(shown.ended_at) == text::opt_text(step.ended_at)
    &&& shown.state@ == (match text::opt_text(step.outcome) {
        Some(outcome) => outcome,
        None => "active"@,
    })
}

fn step_projection(step: &TriageStepRecord) -> (shown: DashboardStep)
    ensures
        shows_step(shown, *step),
{
    DashboardStep {
        id: step.id,
        turn_ordinal: step.turn_ordinal,
        kind: step.kind.as_str().to_owned(),
        label: step.label.as_str().to_owned(),
        summary: text::copy_opt(&step.summary),
        started_at: step.started_at.as_str().to_owned(),
        ended_at: text::copy_opt(&step.ended_at),
        state: match &step.outcome {
            Some(outcome) => outcome.as_str().to_owned(),
            None => "active".to_owned(),
        },
    }
}

/// What the dashboard shows of a run.
#[derive(Clone, Debug)]
pub struct DashboardRun {
    pub id: i64,
    pub event_id: i64,
    pub event_title: String,
    pub source: String,
    pub event_kind: String,
    pub attempt: u32,
    pub started_at: String,
    pub ended_at: Option<String>,
    pub last_activity_at: String,
    pub state: String,
    pub model_id: Option<String>,
    pub model_provider: Option<String>,
    pub thinking_level: Option<String>,
    pub turn_count: u32,
    pub retry_count: u32,
    pub compaction_count: u32,
    pub telemetry_completeness: String,
    pub timeline_truncated: bool,
    pub investigation_handle: Option<String>,
    pub steps: Vec<DashboardStep>,
}

/// The state of a run: its outcome, or else whether its event is being worked on.
pub open spec fn state_shown(outcome: Option<Seq<char>>, status: EventStatus) -> Seq<char> {
    match outcome {
        Some(outcome) => outcome,
        None => if status == EventStatus::Processing {
            "active"@
        } else {
            "interrupted"@
        },
    }
}

/// The state of a run.
pub fn run_state(outcome: &Option<String>, status: EventStatus) -> (state: String)
    ensures
        state@ == state_shown(text::opt_text(*outcome), status),
{
    match outcome {
        Some(outcome) => outcome.as_str().to_owned(),
        None => if status == EventStatus::Processing {
            "active".to_owned()
        } else {
            "interrupted".to_owned()
        },
    }
}

/// The steps that are shown of a run in a state: those of one that goes on.
pub open spec fn steps_shown(state: Seq<char>, steps: Seq<TriageStepRecord>) -> Seq<TriageStepRecord> {
    if state == "active"@ {
        steps
    } else {
        Seq::empty()
    }
}

/// Whether this is what is shown of the run, of which `steps` are the last steps.
pub open spec fn shows_run(
    shown: DashboardRun,
    summary: TriageRunSummary,
    event: EventRecord,
    steps: Seq<TriageStepRecord>,
) -> bool {
    let run = summary.run;
    let state = state_shown(text::opt_text(run.outcome), event.status);
    let listed = steps_shown(state, steps);
    &&& shown.id == run.id
    &&& shown.event_id == run.event_id
    &&& shown.event_title@ == event.title@
    &&& shown.source@ == event.source@
    &&& shown.event_kind@ == event.kind@
    &&& shown.attempt == run.attempt
    &&& shown.started_at@ == run.started_at@
    &&& text::opt_text(shown.ended_at) == (match text::opt_text(run.ended_at) {
        Some(ended_at) => Some(ended_at),
        None => if state == "interrupted"@ {
            Some(run.last_activity_at@)
        } else {
            None
        },
    })
    &&& shown.last_activity_at@ == run.last_activity_at@
    &&& shown.state@ == state
    &&& text::opt_text(shown.model_id) == text::opt_text(run.model_id)
    &&& text::opt_text(shown.model_provider) == text::opt_text(run.model_provider)
    &&& text::opt_text(shown.thinking_level) == text::opt_text(run.thinking_level)
    &&& shown.turn_count == run.turn_count
    &&& shown.retry_count == run.retry_count
    &&& shown.compaction_count == run.compaction_count
    &&& shown.telemetry_completeness@ == run.telemetry_completeness@
    &&& shown.timeline_truncated == (summary.step_count > listed.len())
    &&& text::opt_text(shown.investigation_handle) == text::opt_text(event.investigation_handle)
    &&& shown.steps@.len() == listed.len()
    &&& forall|k: int|
        0 <= k < listed.len() ==> shows_step(#[trigger] shown.steps@[k], listed[k])
}

/// What is shown of a run.
pub fn run_projection(
    summary: &TriageRunSummary,
    event: &EventRecord,
    steps: &Vec<TriageStepRecord>,
) -> (shown: DashboardRun)
    ensures
        shows_run(shown, *summary, *event, steps@),
{
    let run = &summary.run;
    let state = run_state(&run.outcome, event.status);
    let mut listed: Vec<DashboardStep> = Vec::new();
    if text::same(state.as_str(), "active") {
        let total: usize = steps.len();
        let mut i: usize = 0;
        while i < total
            invariant
                i <= total == steps@.len(),
                listed@.len() == i,
                forall|k: int| 0 <= k < i ==> shows_step(#[trigger] listed@[k], steps@[k]),
            decreases total - i,
        {
            listed.push(step_projection(&steps[i]));
            i += 1;
        }
    }
    let ended_at = match &run.ended_at {
        Some(ended_at) => Some(ended_at.as_str().to_owned()),
        None => if text::same(state.as_str(), "interrupted") {
            Some(run.last_activity_at.as_str().to_owned())
        } else {
            None
        },
    };
    DashboardRun {
        id: run.id,
        event_id: run.event_id,
        event_title: event.title.as_str().to_owned(),
        source: event.source.as_str().to_owned(),
        event_kind: event.kind.as_str().to_owned(),
        attempt: run.attempt,
        started_at: run.started_at.as_str().to_owned(),
        ended_at,
        last_activity_at: run.last_activity_at.as_str().to_owned(),
        state,
        model_id: text::copy_opt(&run.model_id),
        model_provider: text::copy_opt(&run.model_provider),
        thinking_level: text::copy_opt(&run.thinking_level),
        turn_count: run.turn_count,
        retry_count: run.retry_count,
        compaction_count: run.compaction_count,
        telemetry_completeness: run.telemetry_completeness.as_str().to_owned(),
        timeline_truncated: summary.step_count > listed.len(),
        investigation_handle: text::copy_opt(&event.investigation_handle),
        steps: listed,
    }
}

/// A run as it was read for the overview: with its event, where that is still there, and with
/// its last steps.
#[derive(Debug)]
pub struct RunOverview {
    pub summary: TriageRunSummary,
    pub event: Option<EventRecord>,
    pub steps: Vec<TriageStepRecord>,
}

/// The runs whose event is still there.
pub open spec fn listed_runs(runs: Seq<RunOverview>) -> Seq<RunOverview>
    decreases runs.len(),
{
    if runs.len() == 0 {
        Seq::empty()
    } else {
        let before = listed_runs(runs.drop_last());
        if runs.last().event is Some {
            before.push(runs.last())
        } else {
            before
        }
    }
}

/// What is shown of the runs.
pub fn run_projections(runs: &Vec<RunOverview>) -> (out: Vec<DashboardRun>)
    ensures
        out@.len() == listed_runs(runs@).len(),
        forall|k: int|
            0 <= k < out@.len() ==> shows_run(
                #[trigger] out@[k],
                listed_runs(runs@)[k].summary,
                listed_runs(runs@)[k].event->0,
                listed_runs(runs@)[k].steps@,
            ),
{
    let total: usize = runs.len();
    let mut out: Vec<DashboardRun> = Vec::new();
    let mut i: usize = 0;
    while i < total
        invariant
            i <= total == runs@.len(),
            out@.len() == listed_runs(runs@.take(i as int)).len(),
            forall|k: int|
                0 <= k < out@.len() ==> shows_run(
                    #[trigger] out@[k],
                    listed_runs(runs@.take(i as int))[k].summary,
                    listed_runs(runs@.take(i as int))[k].event->0,
                    listed_runs(runs@.take(i as int))[k].steps@,
                ),
        decreases total - i,
    {
        assert(runs@.take(i + 1).drop_last() =~= runs@.take(i as int));
        let overview = &runs[i];
        match &overview.event {
            Some(event) => {
                out.push(run_projection(&overview.summary, event, &overview.steps));
            },
            None => {},
        }
        i += 1;
    }
    assert(runs@.take(i as int) =~= runs@);
    out
}

/// What was read for the overview.
#[derive(Debug)]
pub struct SnapshotRecords {
    pub counts: Vec<StatusCount>,
    pub events: Vec<EventRecord>,
    pub sources: Vec<SourceStatus>,
    pub runs: Vec<RunOverview>,
    pub oldest_open_at: Option<String>,
}

/// The overview that the dashboard shows.
#[derive(Clone, Debug)]
pub struct DashboardSnapshot {
    pub generated_at: Option<String>,
    pub counts: DashboardCounts,
    pub total: usize,
    pub open: usize,
    pub attention: usize,
    pub handled: usize,
    pub oldest_open_at: Option<String>,
    pub sources: Vec<DashboardSource>,
    pub runs: Vec<DashboardRun>,
    pub events: Vec<DashboardEvent>,
}

/// Whether these are the counts of the records.
pub open spec fn counts_of(counts: DashboardCounts, records: Seq<StatusCount>) -> bool {
    &&& counts.pending == counted(records, EventStatus::Pending)
    &&& counts.processing == counted(records, EventStatus::Processing)
    &&& counts.retryable == counted(records, EventStatus::Retryable)
    &&& counts.succeeded == counted(records, EventStatus::Succeeded)
    &&& counts.failed == counted(records, EventStatus::Failed)
    &&& counts.ignored == counted(records, EventStatus::Ignored)
}

/// How many events the records count.
pub open spec fn counted_total(records: Seq<StatusCount>) -> nat {
    (counted(records, EventStatus::Pending) + counted(records, EventStatus::Processing) + counted(
        records,
        EventStatus::Retryable,
    ) + counted(records, EventStatus::Succeeded) + counted(records, EventStatus::Failed) + counted(
        records,
        EventStatus::Ignored,
    )) as nat
}

/// Whether this is the overview of the records.
pub open spec fn overviews(shown: DashboardSnapshot, records: SnapshotRecords, now: i64) -> bool {
    &&& text::opt_text(shown.generated_at) == rfc3339(now)
    &&& counts_of(shown.counts, records.counts@)
    &&& shown.total == counted_total(records.counts@)
    &&& shown.open == shown.counts.pending + shown.counts.processing + shown.counts.retryable
    &&& shown.attention == shown.counts.retryable + shown.counts.failed
    &&& shown.handled == shown.counts.succeeded + shown.counts.ignored
    &&& text::opt_text(shown.oldest_open_at) == text::opt_text(records.oldest_open_at)
    &&& shown.sources@.len() == listed_sources(records.sources@).len()
    &&& forall|k: int|
        0 <= k < shown.sources@.len() ==> shows_source(
            #[trigger] shown.sources@[k],
            listed_sources(records.sources@)[k],
        )
    &&& shown.runs@.len() == listed_runs(records.runs@).len()
    &&& forall|k: int|
        0 <= k < shown.runs@.len() ==> shows_run(
            #[trigger] shown.runs@[k],
            listed_runs(records.runs@)[k].summary,
            listed_runs(records.runs@)[k].event->0,
            listed_runs(records.runs@)[k].steps@,
        )
    &&& shown.events@.len() == records.events@.len()
    &&& forall|k: int|
        0 <= k < shown.events@.len() ==> shows_event(
            #[trigger] shown.events@[k],
            records.events@[k],
        )
}

/// The overview of what was read.
pub fn overview_of(records: &SnapshotRecords, now: i64) -> (shown: DashboardSnapshot)
    requires
        counted_total(records.counts@) <= usize::MAX,
    ensures
        overviews(shown, *records, now),
{
    let counts = DashboardCounts::read(&records.counts);
    let total: usize = counts.total();
    DashboardSnapshot {
        generated_at: timestamp(now),
        counts,
        total,
        open: counts.pending + counts.processing + counts.retryable,
        attention: counts.retryable + counts.failed,
        handled: counts.succeeded + counts.ignored,
        oldest_open_at: text::copy_opt(&records.oldest_open_at),
        sources: source_projections(&records.sources),
        runs: run_projections(&records.runs),
        events: event_projections(&records.events),
    }
}

// ---------------------------------------------------------------------------------------------
// What is read for the overview
// ---------------------------------------------------------------------------------------------

/// The name of the outcome of a run, where it has ended.
pub open spec fn outcome_name(run: RunModel) -> Option<Seq<char>> {
    match run.outcome {
        Some(outcome) => Some(outcome.name()),
        None => None,
    }
}

/// Whether the run of the event goes on.
pub open spec fn goes_on(run: RunModel, status: EventStatus) -> bool {
    state_shown(outcome_name(run), status) == "active"@
}

/// The places of the last steps of a run that an overview shows.
pub open spec fn last_steps(store: StoreModel, run: RunModel) -> Seq<usize> {
    last_of(in_order(step_keys(store.steps, run.id)), SNAPSHOT_STEPS as nat)
}

/// Whether this was read of the run: its summary, its event where that is there, and its last
/// steps where it goes on.
pub open spec fn reads_run(overview: RunOverview, store: StoreModel, run: RunModel) -> bool {
    &&& states_summary(overview.summary, run, store.steps)
    &&& match joined(store, run.event_id) {
        None => overview.event is None && overview.steps@.len() == 0,
        Some((event, entity)) => {
            &&& overview.event matches Some(record) && states(record, event, entity)
            &&& if goes_on(run, event.status) {
                steps_read(
                    Ok(overview.steps),
                    store.steps,
                    store.turns,
                    last_steps(store, run),
                )
            } else {
                overview.steps@.len() == 0
            }
        },
    }
}

/// Whether what is read of the run can be handed out.
pub open spec fn run_readable(store: StoreModel, run: RunModel) -> bool {
    match joined(store, run.event_id) {
        None => true,
        Some((event, entity)) => moments_fit(event) && (goes_on(run, event.status) ==> forall|
            k: int,
        |
            0 <= k < last_steps(store, run).len() ==> step_fits(
                store.steps[#[trigger] last_steps(store, run)[k] as int],
            )),
    }
}

/// Whether this is what is read for the overview: how many events have each status, the events
/// that were observed last, the sources, the runs that began last, and since when the first open
/// event waits.
pub open spec fn reads_overview(records: SnapshotRecords, store: StoreModel) -> bool {
    let shown = latest_runs(store.runs, SNAPSHOT_RUNS as nat);
    &&& forall|status: EventStatus| #[trigger]
        counted(records.counts@, status) == count_status(store.events, status)
    &&& events_read(
        Ok(records.events),
        store.events,
        store.entities,
        SNAPSHOT_EVENTS as nat,
    )
    &&& sources_read(Ok(records.sources), store.sources)
    &&& records.runs@.len() == shown.len()
    &&& forall|k: int|
        0 <= k < shown.len() ==> reads_run(
            #[trigger] records.runs@[k],
            store,
            store.runs[shown[k] as int],
        )
    &&& written_moment(oldest_open(store.events)) == Some(text::opt_text(records.oldest_open_at))
}

/// Whether the error is that of the first reading for the overview that fails.
pub open spec fn fails_overview(error: DatabaseError, store: StoreModel) -> bool {
    let shown = latest_runs(store.runs, SNAPSHOT_RUNS as nat);
    ||| events_read(Err(error), store.events, store.entities, SNAPSHOT_EVENTS as nat)
    ||| sources_read(Err(error), store.sources)
    ||| summaries_read(Err(error), store.runs, store.steps, SNAPSHOT_RUNS as nat)
    ||| (exists|k: int|
        0 <= k < shown.len() && !run_readable(store, store.runs[#[trigger] shown[k] as int]))
        && is_out_of_range(error)
    ||| written_moment(oldest_open(store.events)) is None && is_out_of_range(error)
}

fn read_run(database: &Store, summary: TriageRunSummary, Ghost(run): Ghost<RunModel>) -> (result:
    Result<RunOverview, DatabaseError>)
    requires
        states_summary(summary, run, database@.steps),
    ensures
        match result {
            Ok(overview) => reads_run(overview, database@, run),
            Err(error) => !run_readable(database@, run) && is_out_of_range(error),
        },
{
    let event = match database.event(summary.run.event_id) {
        Ok(event) => event,
        Err(error) => {
            return Err(error);
        },
    };
    let mut steps: Vec<TriageStepRecord> = Vec::new();
    if let Some(record) = &event {
        let state = run_state(&summary.run.outcome, record.status);
        if text::same(state.as_str(), "active") {
            steps = match database.recent_triage_run_steps(RunId(summary.run.id), SNAPSHOT_STEPS) {
                Ok(steps) => steps,
                Err(error) => {
                    proof {
                        let order = last_steps(database@, run);
                        let k = choose|k: int|
                            0 <= k < order.len() && !step_fits(
                                database@.steps[#[trigger] order[k] as int],
                            );
                        assert(!step_fits(
                            database@.steps[last_steps(database@, run)[k] as int],
                        ));
                    }
                    return Err(error);
                },
            };
        }
    }
    Ok(RunOverview { summary, event, steps })
}

/// The runs that are listed are among those that were read.
proof fn lemma_listed_runs(runs: Seq<RunOverview>)
    ensures
        listed_runs(runs).len() <= runs.len(),
        forall|k: int|
            0 <= k < listed_runs(runs).len() ==> runs.contains(#[trigger] listed_runs(runs)[k]),
    decreases runs.len(),
{
    if runs.len() > 0 {
        let before = listed_runs(runs.drop_last());
        lemma_listed_runs(runs.drop_last());
        assert forall|k: int| 0 <= k < listed_runs(runs).len() implies runs.contains(
            #[trigger] listed_runs(runs)[k],
        ) by {
            if k < before.len() {
                assert(listed_runs(runs)[k] == before[k]);
                assert(runs.drop_last().contains(before[k]));
                let j = choose|j: int|
                    0 <= j < runs.drop_last().len() && runs.drop_last()[j] == before[k];
                assert(runs[j] == before[k]);
            } else {
                assert(runs[runs.len() - 1] == runs.last());
            }
        }
    }
}

/// An overview shows at most a hundred events and fifty runs, at most twelve steps of a run that
/// goes on, and none of any other.
pub proof fn law_overview_is_bounded(
    shown: DashboardSnapshot,
    records: SnapshotRecords,
    store: StoreModel,
    now: i64,
)
    requires
        reads_overview(records, store),
        overviews(shown, records, now),
    ensures
        shown.events@.len() <= SNAPSHOT_EVENTS,
        shown.runs@.len() <= SNAPSHOT_RUNS,
        forall|k: int|
            0 <= k < shown.runs@.len() ==> (#[trigger] shown.runs@[k]).steps@.len()
                <= SNAPSHOT_STEPS && (shown.runs@[k].state@ != "active"@
                ==> shown.runs@[k].steps@.len() == 0),
{
    let runs = records.runs@;
    let order = latest_runs(store.runs, SNAPSHOT_RUNS as nat);
    lemma_listed_runs(runs);
    assert forall|k: int| 0 <= k < shown.runs@.len() implies (#[trigger] shown.runs@[k]).steps@.len()
        <= SNAPSHOT_STEPS && (shown.runs@[k].state@ != "active"@
        ==> shown.runs@[k].steps@.len() == 0) by {
        let overview = listed_runs(runs)[k];
        assert(runs.contains(overview));
        let j = choose|j: int| 0 <= j < runs.len() && runs[j] == overview;
        assert(reads_run(runs[j], store, store.runs[order[j] as int]));
        assert(overview.steps@.len() <= SNAPSHOT_STEPS);
    }
}

fn read_counts(database: &Store) -> (counts: Vec<StatusCount>)
    ensures
        forall|status: EventStatus| #[trigger]
            counted(counts@, status) == count_status(database@.events, status),
        counted_total(counts@) == database@.events.len() <= usize::MAX,
{
    let mut counts: Vec<StatusCount> = Vec::new();
    let pending: usize = database.count_events(EventStatus::Pending);
    let processing: usize = database.count_events(EventStatus::Processing);
    let retryable: usize = database.count_events(EventStatus::Retryable);
    let succeeded: usize = database.count_events(EventStatus::Succeeded);
    let failed: usize = database.count_events(EventStatus::Failed);
    let ignored: usize = database.count_events(EventStatus::Ignored);
    let events: usize = database.events.len();
    counts.push(StatusCount { status: EventStatus::Pending, count: pending });
    counts.push(StatusCount { status: EventStatus::Processing, count: processing });
    counts.push(StatusCount { status: EventStatus::Retryable, count: retryable });
    counts.push(StatusCount { status: EventStatus::Succeeded, count: succeeded });
    counts.push(StatusCount { status: EventStatus::Failed, count: failed });
    counts.push(StatusCount { status: EventStatus::Ignored, count: ignored });
    assert forall|status: EventStatus| #[trigger]
        counted(counts@, status) == count_status(database@.events, status) by {
        reveal_with_fuel(counted, 7);
    }
    proof {
        law_counts_add_up(database@.events);
        assert(database@.events.len() == events);
    }
    counts
}

/// The overview that the dashboard shows: at most a hundred events, fifty runs, and twelve steps
/// of a run that goes on.
pub fn dashboard_snapshot(database: &Store, now: i64) -> (result: Result<
    DashboardSnapshot,
    DatabaseError,
>)
    ensures
        match result {
            Ok(shown) => {
                &&& exists|records: SnapshotRecords|
                    reads_overview(records, database@) && #[trigger] overviews(shown, records, now)
                &&& shown.total == database@.events.len()
                &&& shown.events@.len() <= SNAPSHOT_EVENTS
                &&& shown.runs@.len() <= SNAPSHOT_RUNS
                &&& forall|k: int|
                    0 <= k < shown.runs@.len() ==> (#[trigger] shown.runs@[k]).steps@.len()
                        <= SNAPSHOT_STEPS && (shown.runs@[k].state@ != "active"@
                        ==> shown.runs@[k].steps@.len() == 0)
            },
            Err(error) => fails_overview(error, database@),
        },
{
    let counts = read_counts(database);
    let events = database.list_events(SNAPSHOT_EVENTS)?;
    let sources = database.source_statuses()?;
    let mut summaries = database.list_triage_run_summaries(SNAPSHOT_RUNS)?;
    let ghost shown = latest_runs(database@.runs, SNAPSHOT_RUNS as nat);
    let ghost read = summaries@;
    let total: usize = summaries.len();
    let mut runs: Vec<RunOverview> = Vec::new();
    let mut i: usize = 0;
    assert(summaries@ =~= read.skip(0));
    while i < total
        invariant
            i <= total == read.len(),
            total == shown.len(),
            shown == latest_runs(database@.runs, SNAPSHOT_RUNS as nat),
            summaries@ == read.skip(i as int),
            forall|k: int|
                0 <= k < total ==> states_summary(
                    #[trigger] read[k],
                    database@.runs[shown[k] as int],
                    database@.steps,
                ),
            runs@.len() == i,
            forall|k: int|
                0 <= k < i ==> reads_run(
                    #[trigger] runs@[k],
                    database@,
                    database@.runs[shown[k] as int],
                ),
        decreases total - i,
    {
        let ghost run = database@.runs[shown[i as int] as int];
        let summary = summaries.remove(0);
        assert(summary == read[i as int]);
        assert(summaries@ =~= read.skip(i + 1));
        let overview = match read_run(database, summary, Ghost(run)) {
            Ok(overview) => overview,
            Err(error) => {
                assert(!run_readable(database@, database@.runs[shown[i as int] as int]));
                return Err(error);
            },
        };
        runs.push(overview);
        i += 1;
    }
    let oldest_open_at = database.oldest_open_event_at()?;
    let records = SnapshotRecords { counts, events, sources, runs, oldest_open_at };
    let shown = overview_of(&records, now);
    proof {
        assert(reads_overview(records, database@));
        law_overview_is_bounded(shown, records, database@, now);
    }
    Ok(shown)
}

// ---------------------------------------------------------------------------------------------
// Queries
// ---------------------------------------------------------------------------------------------

/// The number that a text of digits stands for, where it is no larger than every reader
/// represents exactly.
pub open spec fn integer_in(value: Seq<char>) -> Option<nat> {
    if text::all_digits(value) && text::digits_value(value) <= MAX_SAFE_INTEGER {
        Some(text::digits_value(value))
    } else {
        None
    }
}

/// The number that a text of digits stands for.
pub fn query_integer(value: &str) -> (number: Option<u64>)
    ensures
        number matches Some(n) ==> integer_in(value@) == Some(n as nat),
        number is None ==> integer_in(value@) is None,
{
    match text::parse_digits(&text::chars_of(value)) {
        Some(number) => if number <= MAX_SAFE_INTEGER {
            Some(number)
        } else {
            None
        },
        None => None,
    }
}

/// The number of a run that a text stands for: without leading zeros, and not zero.
pub open spec fn run_number(value: Seq<char>) -> Option<nat> {
    if text::starts_with(value, "0"@) {
        None
    } else {
        integer_in(value)
    }
}

/// The number of a run that a text stands for.
pub fn positive_safe_integer(value: &str) -> (number: Option<i64>)
    ensures
        number matches Some(n) ==> n >= 0 && run_number(value@) == Some(n as nat),
        number is None ==> run_number(value@) is None,
{
    if text::starts_with_str(value, "0") {
        return None;
    }
    match query_integer(value) {
        Some(number) => Some(number as i64),
        None => None,
    }
}

/// The number that the last pair with the name gives, where it gives one.
pub open spec fn last_number(pairs: Seq<(Seq<char>, Seq<char>)>, name: Seq<char>) -> Option<nat>
    decreases pairs.len(),
{
    if pairs.len() == 0 {
        None
    } else if pairs.last().0 == name {
        integer_in(pairs.last().1)
    } else {
        last_number(pairs.drop_last(), name)
    }
}

/// The page that the pairs of a query ask for: where it begins, and how long it is.
pub open spec fn page_asked(pairs: Seq<(Seq<char>, Seq<char>)>) -> (nat, nat) {
    (
        match last_number(pairs, "offset"@) {
            Some(offset) => offset,
            None => 0,
        },
        match last_number(pairs, "limit"@) {
            Some(limit) => if limit < 1 {
                1
            } else if limit > 500 {
                500
            } else {
                limit
            },
            None => 200,
        },
    )
}

fn number_named(pairs: &Vec<QueryPair>, name: &str) -> (number: Option<u64>)
    ensures
        number matches Some(n) ==> last_number(urls::query_pairs(pairs@), name@) == Some(n as nat),
        number is None ==> last_number(urls::query_pairs(pairs@), name@) is None,
{
    let ghost all = urls::query_pairs(pairs@);
    let mut i: usize = pairs.len();
    assert(all.take(i as int) =~= all);
    while i > 0
        invariant
            i <= pairs@.len(),
            all == urls::query_pairs(pairs@),
            last_number(all, name@) == last_number(all.take(i as int), name@),
        decreases i,
    {
        assert(all.take(i as int).last() == (pairs@[i - 1].name@, pairs@[i - 1].value@));
        assert(all.take(i as int).drop_last() =~= all.take(i - 1));
        if text::same(pairs[i - 1].name.as_str(), name) {
            return query_integer(pairs[i - 1].value.as_str());
        }
        i -= 1;
    }
    None
}

/// The page that the pairs of a query ask for.
pub fn page_of(pairs: &Vec<QueryPair>) -> (page: (u64, u64))
    ensures
        (page.0 as nat, page.1 as nat) == page_asked(urls::query_pairs(pairs@)),
{
    let offset: u64 = match number_named(pairs, "offset") {
        Some(offset) => offset,
        None => 0,
    };
    let limit: u64 = match number_named(pairs, "limit") {
        Some(limit) => if limit < 1 {
            1
        } else if limit > 500 {
            500
        } else {
            limit
        },
        None => 200,
    };
    (offset, limit)
}

/// The page that a query asks for.
pub fn run_query(query: Option<&str>) -> (page: (u64, u64))
    ensures
        (page.0 as nat, page.1 as nat) == page_asked(
            urls::form_pairs(
                match query {
                    Some(query) => query@,
                    None => ""@,
                },
            ),
        ),
{
    let query = match query {
        Some(query) => query,
        None => "",
    };
    page_of(&urls::read_query(query))
}

// ---------------------------------------------------------------------------------------------
// The address
// ---------------------------------------------------------------------------------------------

/// Where the dashboard is served.
#[derive(Debug)]
pub struct DashboardBind {
    host: String,
    port: u16,
    warning: Option<&'static str>,
}

/// What the contracts say of where the dashboard is served.
pub struct BindModel {
    pub host: Seq<char>,
    pub port: u16,
    pub warned: bool,
}

impl View for DashboardBind {
    type V = BindModel;

    closed spec fn view(&self) -> BindModel {
        BindModel { host: self.host@, port: self.port, warned: self.warning is Some }
    }
}

impl DashboardBind {
    #[verifier::type_invariant]
    spec fn warns_plainly(self) -> bool {
        self.warning matches Some(warning) ==> warning@ == NON_LOOPBACK_WARNING@
    }

    pub fn host(&self) -> (host: &str)
        ensures
            host@ == self@.host,
    {
        self.host.as_str()
    }

    pub fn port(&self) -> (port: u16)
        ensures
            port == self@.port,
    {
        self.port
    }

    pub fn warning(&self) -> (warning: Option<&'static str>)
        ensures
            warning is Some <==> self@.warned,
            warning matches Some(warning) ==> warning@ == NON_LOOPBACK_WARNING@,
    {
        proof {
            use_type_invariant(self);
        }
        self.warning
    }
}

/// Why the dashboard is not served.
#[derive(Debug)]
pub enum DashboardBindError {
    InvalidPort,
    NonLoopbackRequiresAcknowledgement { host: String },
}

impl DashboardBindError {
    pub open spec fn text(self) -> Seq<char> {
        match self {
            DashboardBindError::InvalidPort => "dashboard port must be between 1 and 65535"@,
            DashboardBindError::NonLoopbackRequiresAcknowledgement { host } => "dashboard host "@
                + host@
                + " is not loopback; pass --allow-non-loopback to acknowledge that the title and entity API has no authentication"@,
        }
    }

    /// The text shown for the error.
    pub fn message(&self) -> (out: String)
        ensures
            out@ == self.text(),
    {
        match self {
            DashboardBindError::InvalidPort => {
                "dashboard port must be between 1 and 65535".to_owned()
            },
            DashboardBindError::NonLoopbackRequiresAcknowledgement { host } => {
                let mut out = "dashboard host ".to_owned();
                out.append(host.as_str());
                out.append(
                    " is not loopback; pass --allow-non-loopback to acknowledge that the title and entity API has no authentication",
                );
                out
            },
        }
    }
}

/// The host that is bound to.
pub open spec fn host_chosen(host: Option<Seq<char>>) -> Seq<char> {
    match host {
        Some(host) => host,
        None => DEFAULT_DASHBOARD_HOST@,
    }
}

/// The port that is bound to.
pub open spec fn port_chosen(port: Option<u32>) -> u32 {
    match port {
        Some(port) => port,
        None => DEFAULT_DASHBOARD_PORT as u32,
    }
}

/// Whether a host is the machine itself. `loopback_address` says whether it is written as an
/// address that is.
pub open spec fn is_local(host: Seq<char>, loopback_address: bool) -> bool {
    text::lower(host) == "localhost"@ || loopback_address
}

/// Where the dashboard is served. `loopback_address` says whether the host is written as an
/// address of the machine itself.
pub fn dashboard_bind(
    host: Option<&str>,
    port: Option<u32>,
    allow_non_loopback: bool,
    loopback_address: bool,
) -> (result: Result<DashboardBind, DashboardBindError>)
    ensures
        ({
            let chosen = host_chosen(text::opt_str(host));
            let number = port_chosen(port);
            let local = is_local(chosen, loopback_address);
            if !(1 <= number <= 65_535) {
                result matches Err(DashboardBindError::InvalidPort)
            } else if !local && !allow_non_loopback {
                result matches Err(
                    DashboardBindError::NonLoopbackRequiresAcknowledgement { host: named },
                ) && named@ == chosen
            } else {
                result matches Ok(bind) && bind@.host == chosen && bind@.port == number
                    && bind@.warned == !local
            }
        }),
{
    let host = match host {
        Some(host) => host,
        None => DEFAULT_DASHBOARD_HOST,
    };
    let number: u32 = match port {
        Some(port) => port,
        None => DEFAULT_DASHBOARD_PORT as u32,
    };
    if number < 1 || number > 65_535 {
        return Err(DashboardBindError::InvalidPort);
    }
    let local = text::same(text::lower_str(host).as_str(), "localhost") || loopback_address;
    if !local && !allow_non_loopback {
        return Err(
            DashboardBindError::NonLoopbackRequiresAcknowledgement { host: host.to_owned() },
        );
    }
    Ok(
        DashboardBind {
            host: host.to_owned(),
            port: number as u16,
            warning: if local {
                None
            } else {
                Some(NON_LOOPBACK_WARNING)
            },
        },
    )
}

// ---------------------------------------------------------------------------------------------
// The page
// ---------------------------------------------------------------------------------------------

/// The page before its styles.
pub const PAGE_HEAD: &'static str =
    "<!doctype html>\n<html lang=\"en\">\n<head>\n  <meta charset=\"utf-8\">\n  <meta name=\"viewport\" content=\"width=device-width, initial-scale=1\">\n  <meta name=\"color-scheme\" content=\"light dark\">\n  <title>Intake Monitor</title>\n  <script>\n    try {\n      const stored = localStorage.getItem(\"im-theme\")\n      document.documentElement.dataset.theme = stored === \"light\" || stored === \"dark\"\n        ? stored\n        : matchMedia(\"(prefers-color-scheme: light)\").matches ? \"light\" : \"dark\"\n    } catch {\n      document.documentElement.dataset.theme = \"dark\"\n    }\n  </script>\n  <style>";

/// The page between its styles and its script.
pub const PAGE_BODY: &'static str =
    "</style>\n</head>\n<body>\n  <div id=\"root\"></div>\n  <script type=\"module\">";

/// The page behind its script.
pub const PAGE_TAIL: &'static str = "</script>\n</body>\n</html>";

/// The page of the dashboard, with its styles and its script.
pub fn dashboard_page(styles: &str, script: &str) -> (page: String)
    ensures
        page@ == PAGE_HEAD@ + styles@ + PAGE_BODY@ + script@ + PAGE_TAIL@,
{
    let mut page = PAGE_HEAD.to_owned();
    page.append(styles);
    page.append(PAGE_BODY);
    page.append(script);
    page.append(PAGE_TAIL);
    page
}

// ---------------------------------------------------------------------------------------------
// Laws
// ---------------------------------------------------------------------------------------------

/// The open, the handled and the failed events of an overview are all of its events.
pub proof fn law_overview_adds_up(shown: DashboardSnapshot, records: SnapshotRecords, now: i64)
    requires
        overviews(shown, records, now),
    ensures
        shown.open + shown.handled + shown.counts.failed == shown.total,
        shown.attention <= shown.total,
{
}

/// No text of an error reaches the dashboard: one of eight fixed wordings stands for it.
pub proof fn law_errors_are_worded(error: Option<Seq<char>>)
    ensures
        error is None <==> error_shown(error) is None,
        error is Some ==> seq![
            "Authentication failed"@,
            "Rate limited"@,
            "Request timed out"@,
            "Connection reset"@,
            "Resource not found (404)"@,
            "Model unavailable"@,
            "Triage interrupted"@,
            "Operation failed"@,
        ].contains(error_shown(error)->0),
{
    let all = seq![
        "Authentication failed"@,
        "Rate limited"@,
        "Request timed out"@,
        "Connection reset"@,
        "Resource not found (404)"@,
        "Model unavailable"@,
        "Triage interrupted"@,
        "Operation failed"@,
    ];
    assert(all.contains(all[0]) && all.contains(all[1]) && all.contains(all[2]) && all.contains(
        all[3],
    ) && all.contains(all[4]) && all.contains(all[5]) && all.contains(all[6]) && all.contains(
        all[7],
    ));
}

/// Whatever a query asks for, a page holds between one and five hundred entries.
pub proof fn law_pages_are_bounded(pairs: Seq<(Seq<char>, Seq<char>)>)
    ensures
        1 <= page_asked(pairs).1 <= 500,
        page_asked(pairs).0 <= MAX_SAFE_INTEGER,
    decreases pairs.len(),
{
    if pairs.len() > 0 && pairs.last().0 != "offset"@ {
        law_pages_are_bounded(pairs.drop_last());
    }
}

proof fn lemma_listed_sources(sources: Seq<SourceStatus>, k: int)
    ensures
        forall|i: int|
            0 <= i < listed_sources(sources).len() ==> sources.contains(
                #[trigger] listed_sources(sources)[i],
            ) && listed_sources(sources)[i].source@ != "manual-injection"@,
        0 <= k < sources.len() && sources[k].source@ != "manual-injection"@ ==> listed_sources(
            sources,
        ).contains(sources[k]),
    decreases sources.len(),
{
    if sources.len() > 0 {
        let front = sources.drop_last();
        let before = listed_sources(front);
        let all = listed_sources(sources);
        lemma_listed_sources(front, k);
        assert(sources[sources.len() - 1] == sources.last());
        assert forall|i: int| 0 <= i < all.len() implies sources.contains(#[trigger] all[i])
            && all[i].source@ != "manual-injection"@ by {
            if i < before.len() {
                assert(all[i] == before[i]);
                let j = choose|j: int| 0 <= j < front.len() && front[j] == before[i];
                assert(sources[j] == all[i]);
            }
        }
        if 0 <= k < sources.len() && sources[k].source@ != "manual-injection"@ {
            if k < front.len() {
                assert(front[k] == sources[k]);
                let j = choose|j: int| 0 <= j < before.len() && before[j] == sources[k];
                assert(all[j] == sources[k]);
            } else {
                assert(all[all.len() - 1] == sources[k]);
            }
        }
    }
}

/// The overview counts the events of the store: by status, those that are open, those that need
/// attention and those that are handled, and all of them.
pub proof fn law_overviews_count_the_store(
    shown: DashboardSnapshot,
    records: SnapshotRecords,
    store: StoreModel,
    now: i64,
)
    requires
        reads_overview(records, store),
        overviews(shown, records, now),
    ensures
        shown.counts.pending == count_status(store.events, EventStatus::Pending),
        shown.counts.processing == count_status(store.events, EventStatus::Processing),
        shown.counts.retryable == count_status(store.events, EventStatus::Retryable),
        shown.counts.succeeded == count_status(store.events, EventStatus::Succeeded),
        shown.counts.failed == count_status(store.events, EventStatus::Failed),
        shown.counts.ignored == count_status(store.events, EventStatus::Ignored),
        shown.total == store.events.len(),
        shown.open == count_status(store.events, EventStatus::Pending) + count_status(
            store.events,
            EventStatus::Processing,
        ) + count_status(store.events, EventStatus::Retryable),
        shown.attention == count_status(store.events, EventStatus::Retryable) + count_status(
            store.events,
            EventStatus::Failed,
        ),
        shown.handled == count_status(store.events, EventStatus::Succeeded) + count_status(
            store.events,
            EventStatus::Ignored,
        ),
        text::opt_text(shown.generated_at) == rfc3339(now),
{
    law_counts_add_up(store.events);
    assert(counted(records.counts@, EventStatus::Pending) == count_status(
        store.events,
        EventStatus::Pending,
    ));
    assert(counted(records.counts@, EventStatus::Processing) == count_status(
        store.events,
        EventStatus::Processing,
    ));
    assert(counted(records.counts@, EventStatus::Retryable) == count_status(
        store.events,
        EventStatus::Retryable,
    ));
    assert(counted(records.counts@, EventStatus::Succeeded) == count_status(
        store.events,
        EventStatus::Succeeded,
    ));
    assert(counted(records.counts@, EventStatus::Failed) == count_status(
        store.events,
        EventStatus::Failed,
    ));
    assert(counted(records.counts@, EventStatus::Ignored) == count_status(
        store.events,
        EventStatus::Ignored,
    ));
}

/// The overview lists every source but the one of events that were queued by hand, and no other.
pub proof fn law_overviews_list_the_sources(
    shown: DashboardSnapshot,
    records: SnapshotRecords,
    now: i64,
    k: int,
)
    requires
        overviews(shown, records, now),
        0 <= k < records.sources@.len(),
    ensures
        records.sources@[k].source@ != "manual-injection"@ ==> exists|i: int|
            0 <= i < shown.sources@.len() && (#[trigger] shown.sources@[i]).source@
                == records.sources@[k].source@ && shown.sources@[i].updated_at@
                == records.sources@[k].updated_at@,
        forall|i: int|
            0 <= i < shown.sources@.len() ==> (#[trigger] shown.sources@[i]).source@
                != "manual-injection"@,
{
    let listed = listed_sources(records.sources@);
    lemma_listed_sources(records.sources@, k);
    assert forall|i: int| 0 <= i < shown.sources@.len() implies (
    #[trigger] shown.sources@[i]).source@ != "manual-injection"@ by {
        assert(shows_source(shown.sources@[i], listed[i]));
    }
    if records.sources@[k].source@ != "manual-injection"@ {
        let i = choose|i: int| 0 <= i < listed.len() && listed[i] == records.sources@[k];
        assert(shows_source(shown.sources@[i], listed[i]));
    }
}

/// Every event of the overview shows what the store holds of it: its number, status, title, kind
/// and source, how often it was tried, when it was observed, and what was done about it.
pub proof fn law_overviews_show_the_events(
    shown: DashboardSnapshot,
    records: SnapshotRecords,
    store: StoreModel,
    now: i64,
    k: int,
)
    requires
        reads_overview(records, store),
        overviews(shown, records, now),
        0 <= k < shown.events@.len(),
    ensures
        ({
            let places = latest_events(store.events, store.entities, 100);
            let event = store.events[places[k] as int];
            &&& shown.events@.len() == places.len()
            &&& shown.events@[k].id == event.id
            &&& shown.events@[k].status == event.status
            &&& shown.events@[k].attempt_count == event.attempt_count
            &&& shown.events@[k].occurred_at@ == event.occurred_at
            &&& rfc3339(event.observed_at) == Some(shown.events@[k].observed_at@)
            &&& event.source is Some ==> shown.events@[k].source@ == event.source->0
            &&& shown.events@[k].next_attempt_at is Some <==> event.next_attempt_at is Some
            &&& shown.events@[k].last_error is Some <==> event.last_error is Some
        }),
{
    assert(shows_event(shown.events@[k], records.events@[k]));
    let places = latest_events(store.events, store.entities, 100);
    assert(states(
        records.events@[k],
        store.events[places[k] as int],
        crate::database::readers::entity_of(store.entities, store.events[places[k] as int]),
    ));
}

/// A run shows its outcome; one without shows that it goes on while its event is worked on, and
/// otherwise that it was interrupted, at its last activity.
pub proof fn law_runs_show_their_state(
    shown: DashboardRun,
    summary: TriageRunSummary,
    event: EventRecord,
    steps: Seq<TriageStepRecord>,
)
    requires
        shows_run(shown, summary, event, steps),
    ensures
        shown.id == summary.run.id,
        shown.event_id == summary.run.event_id,
        shown.event_title@ == event.title@,
        shown.attempt == summary.run.attempt,
        shown.turn_count == summary.run.turn_count,
        shown.retry_count == summary.run.retry_count,
        shown.compaction_count == summary.run.compaction_count,
        summary.run.outcome is Some ==> shown.state@ == summary.run.outcome->0@,
        summary.run.outcome is None && event.status == EventStatus::Processing ==> shown.state@
            == "active"@ && shown.steps@.len() == steps.len(),
        summary.run.outcome is None && event.status != EventStatus::Processing ==> shown.state@
            == "interrupted"@ && shown.steps@.len() == 0,
        summary.run.ended_at is Some ==> shown.ended_at is Some && shown.ended_at->0@
            == summary.run.ended_at->0@,
        summary.run.ended_at is None && summary.run.outcome is None && event.status
            != EventStatus::Processing ==> shown.ended_at is Some && shown.ended_at->0@
            == summary.run.last_activity_at@,
        summary.run.ended_at is None && summary.run.outcome is None && event.status
            == EventStatus::Processing ==> shown.ended_at is None,
        shown.timeline_truncated <==> summary.step_count > shown.steps@.len(),
{
    reveal_strlit("active");
    reveal_strlit("interrupted");
    assert("active"@.len() == 6 && "interrupted"@.len() == 11);
}

/// A page begins where the last `offset` of the query says, or at the beginning, and has as many
/// entries as the last `limit` says within one and five hundred, or two hundred.
pub proof fn law_pages_are_as_asked(
    pairs: Seq<(Seq<char>, Seq<char>)>,
    name: Seq<char>,
    n: nat,
)
    requires
        n <= MAX_SAFE_INTEGER,
    ensures
        name == "offset"@ ==> page_asked(pairs.push((name, text::decimal(n)))) == (
            n,
            page_asked(pairs).1,
        ),
        name == "limit"@ ==> page_asked(pairs.push((name, text::decimal(n)))) == (
            page_asked(pairs).0,
            if n < 1 {
                1nat
            } else if n > 500 {
                500nat
            } else {
                n
            },
        ),
        name != "offset"@ && name != "limit"@ ==> page_asked(
            pairs.push((name, text::decimal(n))),
        ) == page_asked(pairs),
        page_asked(Seq::empty()) == (0nat, 200nat),
{
    text::law_decimals_read_back(n);
    assert(pairs.push((name, text::decimal(n))).drop_last() =~= pairs);
    reveal_strlit("offset");
    reveal_strlit("limit");
    assert("offset"@.len() == 6 && "limit"@.len() == 5);
}

} // verus!
