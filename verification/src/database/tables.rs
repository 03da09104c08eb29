//! The rows that the queue and the record of its runs are made of. Moments are given in
//! milliseconds after the epoch.
use vstd::prelude::*;

use crate::database::records::{
    ConclusionModel, DispatchTrigger, EventStatus, ReportedUsage, RunOutcome, TriageConclusion,
};
use crate::text;

verus! {

/// What the contracts say of a conclusion that may be there.
pub open spec fn opt_conclusion(conclusion: Option<TriageConclusion>) -> Option<ConclusionModel> {
    match conclusion {
        Some(conclusion) => Some(conclusion@),
        None => None,
    }
}

/// A row with a number of its own.
pub trait Row {
    spec fn key(&self) -> i64;

    fn row_id(&self) -> (id: i64)
        ensures
            id == self.key(),
    ;
}

/// Something that a source has reported events of.
#[derive(Clone, Debug, PartialEq, Eq)]
pub struct EntityRow {
    pub id: i64,
    pub source: String,
    pub external_id: String,
    pub kind: String,
    pub title: String,
    pub last_event_at: String,
    pub operational_metadata: String,
    pub handling_status: Option<String>,
    pub aven_ref: Option<String>,
    pub investigation_handle: Option<String>,
}

/// What the contracts say of such a row.
#[verifier::ext_equal]
pub struct EntityModel {
    pub id: i64,
    pub source: Seq<char>,
    pub external_id: Seq<char>,
    pub kind: Seq<char>,
    pub title: Seq<char>,
    pub last_event_at: Seq<char>,
    pub operational_metadata: Seq<char>,
    pub handling_status: Option<Seq<char>>,
    pub aven_ref: Option<Seq<char>>,
    pub investigation_handle: Option<Seq<char>>,
}

impl View for EntityRow {
    type V = EntityModel;

    open spec fn view(&self) -> EntityModel {
        EntityModel {
            id: self.id,
            source: self.source@,
            external_id: self.external_id@,
            kind: self.kind@,
            title: self.title@,
            last_event_at: self.last_event_at@,
            operational_metadata: self.operational_metadata@,
            handling_status: text::opt_text(self.handling_status),
            aven_ref: text::opt_text(self.aven_ref),
            investigation_handle: text::opt_text(self.investigation_handle),
        }
    }
}

impl Row for EntityRow {
    open spec fn key(&self) -> i64 {
        self.id
    }

    fn row_id(&self) -> (id: i64) {
        self.id
    }
}

/// What the contracts say of the rows.
pub open spec fn entity_models(rows: Seq<EntityRow>) -> Seq<EntityModel> {
    rows.map_values(|row: EntityRow| row@)
}

/// An event of the queue.
#[derive(Clone, Debug, PartialEq, Eq)]
pub struct EventRow {
    pub id: i64,
    pub entity_id: i64,
    pub source: Option<String>,
    pub revision_id: String,
    pub payload: Option<String>,
    pub occurred_at: String,
    pub observed_at: i64,
    pub updated_at: i64,
    pub status: EventStatus,
    pub attempt_count: u32,
    pub next_attempt_at: Option<i64>,
    pub last_error: Option<String>,
    pub next_dispatch_trigger: DispatchTrigger,
    pub next_dispatch_prior_run_id: Option<i64>,
}

/// What the contracts say of such a row.
#[verifier::ext_equal]
pub struct EventModel {
    pub id: i64,
    pub entity_id: i64,
    pub source: Option<Seq<char>>,
    pub revision_id: Seq<char>,
    pub payload: Option<Seq<char>>,
    pub occurred_at: Seq<char>,
    pub observed_at: i64,
    pub updated_at: i64,
    pub status: EventStatus,
    pub attempt_count: u32,
    pub next_attempt_at: Option<i64>,
    pub last_error: Option<Seq<char>>,
    pub next_dispatch_trigger: DispatchTrigger,
    pub next_dispatch_prior_run_id: Option<i64>,
}

impl View for EventRow {
    type V = EventModel;

    open spec fn view(&self) -> EventModel {
        EventModel {
            id: self.id,
            entity_id: self.entity_id,
            source: text::opt_text(self.source),
            revision_id: self.revision_id@,
            payload: text::opt_text(self.payload),
            occurred_at: self.occurred_at@,
            observed_at: self.observed_at,
            updated_at: self.updated_at,
            status: self.status,
            attempt_count: self.attempt_count,
            next_attempt_at: self.next_attempt_at,
            last_error: text::opt_text(self.last_error),
            next_dispatch_trigger: self.next_dispatch_trigger,
            next_dispatch_prior_run_id: self.next_dispatch_prior_run_id,
        }
    }
}

impl Row for EventRow {
    open spec fn key(&self) -> i64 {
        self.id
    }

    fn row_id(&self) -> (id: i64) {
        self.id
    }
}

/// What the contracts say of the rows.
pub open spec fn event_models(rows: Seq<EventRow>) -> Seq<EventModel> {
    rows.map_values(|row: EventRow| row@)
}

/// A triage run.
#[derive(Clone, Debug, PartialEq, Eq)]
pub struct RunRow {
    pub id: i64,
    pub event_id: i64,
    pub attempt: u32,
    pub started_at: i64,
    pub ended_at: Option<i64>,
    pub last_activity_at: i64,
    pub outcome: Option<RunOutcome>,
    pub termination_reason: Option<String>,
    pub failure_category: Option<String>,
    pub model_id: Option<String>,
    pub model_provider: Option<String>,
    pub thinking_level: Option<String>,
    pub context_window: Option<i64>,
    pub max_tokens: Option<i64>,
    pub telemetry_version: Option<i64>,
    pub telemetry_completeness: String,
    pub dispatch_sequence: Option<u64>,
    pub dispatch_trigger: Option<DispatchTrigger>,
    pub dispatch_prior_run_id: Option<i64>,
    pub dispatch_scheduled_for: Option<i64>,
    pub conclusion: Option<TriageConclusion>,
    pub turn_count: u64,
    pub retry_count: u64,
    pub compaction_count: u64,
}

/// What the contracts say of such a row.
#[verifier::ext_equal]
pub struct RunModel {
    pub id: i64,
    pub event_id: i64,
    pub attempt: u32,
    pub started_at: i64,
    pub ended_at: Option<i64>,
    pub last_activity_at: i64,
    pub outcome: Option<RunOutcome>,
    pub termination_reason: Option<Seq<char>>,
    pub failure_category: Option<Seq<char>>,
    pub model_id: Option<Seq<char>>,
    pub model_provider: Option<Seq<char>>,
    pub thinking_level: Option<Seq<char>>,
    pub context_window: Option<i64>,
    pub max_tokens: Option<i64>,
    pub telemetry_version: Option<i64>,
    pub telemetry_completeness: Seq<char>,
    pub dispatch_sequence: Option<u64>,
    pub dispatch_trigger: Option<DispatchTrigger>,
    pub dispatch_prior_run_id: Option<i64>,
    pub dispatch_scheduled_for: Option<i64>,
    pub conclusion: Option<ConclusionModel>,
    pub turn_count: u64,
    pub retry_count: u64,
    pub compaction_count: u64,
}

impl View for RunRow {
    type V = RunModel;

    open spec fn view(&self) -> RunModel {
        RunModel {
            id: self.id,
            event_id: self.event_id,
            attempt: self.attempt,
            started_at: self.started_at,
            ended_at: self.ended_at,
            last_activity_at: self.last_activity_at,
            outcome: self.outcome,
            termination_reason: text::opt_text(self.termination_reason),
            failure_category: text::opt_text(self.failure_category),
            model_id: text::opt_text(self.model_id),
            model_provider: text::opt_text(self.model_provider),
            thinking_level: text::opt_text(self.thinking_level),
            context_window: self.context_window,
            max_tokens: self.max_tokens,
            telemetry_version: self.telemetry_version,
            telemetry_completeness: self.telemetry_completeness@,
            dispatch_sequence: self.dispatch_sequence,
            dispatch_trigger: self.dispatch_trigger,
            dispatch_prior_run_id: self.dispatch_prior_run_id,
            dispatch_scheduled_for: self.dispatch_scheduled_for,
            conclusion: opt_conclusion(self.conclusion),
            turn_count: self.turn_count,
            retry_count: self.retry_count,
            compaction_count: self.compaction_count,
        }
    }
}

impl Row for RunRow {
    open spec fn key(&self) -> i64 {
        self.id
    }

    fn row_id(&self) -> (id: i64) {
        self.id
    }
}

/// What the contracts say of the rows.
pub open spec fn run_models(rows: Seq<RunRow>) -> Seq<RunModel> {
    rows.map_values(|row: RunRow| row@)
}

/// A turn of a run.
#[derive(Clone, Debug, PartialEq, Eq)]
pub struct TurnRow {
    pub id: i64,
    pub run_id: i64,
    pub ordinal: i64,
    pub started_at: i64,
    pub ended_at: Option<i64>,
    pub stop_reason: Option<String>,
    pub usage: ReportedUsage,
    pub context_tokens: Option<i64>,
    pub context_window: Option<i64>,
}

/// What the contracts say of such a row.
#[verifier::ext_equal]
pub struct TurnModel {
    pub id: i64,
    pub run_id: i64,
    pub ordinal: i64,
    pub started_at: i64,
    pub ended_at: Option<i64>,
    pub stop_reason: Option<Seq<char>>,
    pub usage: ReportedUsage,
    pub context_tokens: Option<i64>,
    pub context_window: Option<i64>,
}

impl View for TurnRow {
    type V = TurnModel;

    open spec fn view(&self) -> TurnModel {
        TurnModel {
            id: self.id,
            run_id: self.run_id,
            ordinal: self.ordinal,
            started_at: self.started_at,
            ended_at: self.ended_at,
            stop_reason: text::opt_text(self.stop_reason),
            usage: self.usage,
            context_tokens: self.context_tokens,
            context_window: self.context_window,
        }
    }
}

impl Row for TurnRow {
    open spec fn key(&self) -> i64 {
        self.id
    }

    fn row_id(&self) -> (id: i64) {
        self.id
    }
}

/// What the contracts say of the rows.
pub open spec fn turn_models(rows: Seq<TurnRow>) -> Seq<TurnModel> {
    rows.map_values(|row: TurnRow| row@)
}

/// A step of a run: a call of a tool, a compaction, or something the agent said or thought.
#[derive(Clone, Debug, PartialEq, Eq)]
pub struct StepRow {
    pub id: i64,
    pub run_id: i64,
    pub turn_id: Option<i64>,
    pub kind: String,
    pub label: String,
    pub summary: Option<String>,
    pub started_at: i64,
    pub ended_at: Option<i64>,
    pub outcome: Option<String>,
}

/// What the contracts say of such a row.
#[verifier::ext_equal]
pub struct StepModel {
    pub id: i64,
    pub run_id: i64,
    pub turn_id: Option<i64>,
    pub kind: Seq<char>,
    pub label: Seq<char>,
    pub summary: Option<Seq<char>>,
    pub started_at: i64,
    pub ended_at: Option<i64>,
    pub outcome: Option<Seq<char>>,
}

impl View for StepRow {
    type V = StepModel;

    open spec fn view(&self) -> StepModel {
        StepModel {
            id: self.id,
            run_id: self.run_id,
            turn_id: self.turn_id,
            kind: self.kind@,
            label: self.label@,
            summary: text::opt_text(self.summary),
            started_at: self.started_at,
            ended_at: self.ended_at,
            outcome: text::opt_text(self.outcome),
        }
    }
}

impl Row for StepRow {
    open spec fn key(&self) -> i64 {
        self.id
    }

    fn row_id(&self) -> (id: i64) {
        self.id
    }
}

/// What the contracts say of the rows.
pub open spec fn step_models(rows: Seq<StepRow>) -> Seq<StepModel> {
    rows.map_values(|row: StepRow| row@)
}

/// A retry of a completion.
#[derive(Clone, Debug, PartialEq, Eq)]
pub struct RetryRow {
    pub id: i64,
    pub run_id: i64,
    pub turn_id: Option<i64>,
    pub attempt: u32,
    pub max_attempts: u32,
    pub delay_ms: i64,
    pub started_at: i64,
    pub wait_ended_at: i64,
    pub ended_at: Option<i64>,
    pub outcome: Option<String>,
    pub error_category: Option<String>,
}

/// What the contracts say of such a row.
#[verifier::ext_equal]
pub struct RetryModel {
    pub id: i64,
    pub run_id: i64,
    pub turn_id: Option<i64>,
    pub attempt: u32,
    pub max_attempts: u32,
    pub delay_ms: i64,
    pub started_at: i64,
    pub wait_ended_at: i64,
    pub ended_at: Option<i64>,
    pub outcome: Option<Seq<char>>,
    pub error_category: Option<Seq<char>>,
}

impl View for RetryRow {
    type V = RetryModel;

    open spec fn view(&self) -> RetryModel {
        RetryModel {
            id: self.id,
            run_id: self.run_id,
            turn_id: self.turn_id,
            attempt: self.attempt,
            max_attempts: self.max_attempts,
            delay_ms: self.delay_ms,
            started_at: self.started_at,
            wait_ended_at: self.wait_ended_at,
            ended_at: self.ended_at,
            outcome: text::opt_text(self.outcome),
            error_category: text::opt_text(self.error_category),
        }
    }
}

impl Row for RetryRow {
    open spec fn key(&self) -> i64 {
        self.id
    }

    fn row_id(&self) -> (id: i64) {
        self.id
    }
}

/// What the contracts say of the rows.
pub open spec fn retry_models(rows: Seq<RetryRow>) -> Seq<RetryModel> {
    rows.map_values(|row: RetryRow| row@)
}

/// A compaction of the conversation.
#[derive(Clone, Debug, PartialEq, Eq)]
pub struct CompactionRow {
    pub id: i64,
    pub run_id: i64,
    pub turn_id: Option<i64>,
    pub reason: Option<String>,
    pub started_at: i64,
    pub ended_at: Option<i64>,
    pub outcome: Option<String>,
    pub aborted: Option<bool>,
    pub will_retry: Option<bool>,
    pub tokens_before: Option<i64>,
    pub estimated_tokens_after: Option<i64>,
    pub usage: ReportedUsage,
}

/// What the contracts say of such a row.
#[verifier::ext_equal]
pub struct CompactionModel {
    pub id: i64,
    pub run_id: i64,
    pub turn_id: Option<i64>,
    pub reason: Option<Seq<char>>,
    pub started_at: i64,
    pub ended_at: Option<i64>,
    pub outcome: Option<Seq<char>>,
    pub aborted: Option<bool>,
    pub will_retry: Option<bool>,
    pub tokens_before: Option<i64>,
    pub estimated_tokens_after: Option<i64>,
    pub usage: ReportedUsage,
}

impl View for CompactionRow {
    type V = CompactionModel;

    open spec fn view(&self) -> CompactionModel {
        CompactionModel {
            id: self.id,
            run_id: self.run_id,
            turn_id: self.turn_id,
            reason: text::opt_text(self.reason),
            started_at: self.started_at,
            ended_at: self.ended_at,
            outcome: text::opt_text(self.outcome),
            aborted: self.aborted,
            will_retry: self.will_retry,
            tokens_before: self.tokens_before,
            estimated_tokens_after: self.estimated_tokens_after,
            usage: self.usage,
        }
    }
}

impl Row for CompactionRow {
    open spec fn key(&self) -> i64 {
        self.id
    }

    fn row_id(&self) -> (id: i64) {
        self.id
    }
}

/// What the contracts say of the rows.
pub open spec fn compaction_models(rows: Seq<CompactionRow>) -> Seq<CompactionModel> {
    rows.map_values(|row: CompactionRow| row@)
}

/// A prompt of a run.
#[derive(Clone, Debug, PartialEq, Eq)]
pub struct PromptRow {
    pub run_id: i64,
    pub role: String,
    pub content: String,
    pub recorded_at: i64,
}

/// What the contracts say of such a row.
#[verifier::ext_equal]
pub struct PromptModel {
    pub run_id: i64,
    pub role: Seq<char>,
    pub content: Seq<char>,
    pub recorded_at: i64,
}

impl View for PromptRow {
    type V = PromptModel;

    open spec fn view(&self) -> PromptModel {
        PromptModel {
            run_id: self.run_id,
            role: self.role@,
            content: self.content@,
            recorded_at: self.recorded_at,
        }
    }
}

/// What the contracts say of the rows.
pub open spec fn prompt_models(rows: Seq<PromptRow>) -> Seq<PromptModel> {
    rows.map_values(|row: PromptRow| row@)
}

/// Something that a run has left behind.
#[derive(Clone, Debug, PartialEq, Eq)]
pub struct EffectRow {
    pub run_id: i64,
    pub effect_type: String,
    pub value: String,
    pub recorded_at: i64,
}

/// What the contracts say of such a row.
#[verifier::ext_equal]
pub struct EffectModel {
    pub run_id: i64,
    pub effect_type: Seq<char>,
    pub value: Seq<char>,
    pub recorded_at: i64,
}

impl View for EffectRow {
    type V = EffectModel;

    open spec fn view(&self) -> EffectModel {
        EffectModel {
            run_id: self.run_id,
            effect_type: self.effect_type@,
            value: self.value@,
            recorded_at: self.recorded_at,
        }
    }
}

/// What the contracts say of the rows.
pub open spec fn effect_models(rows: Seq<EffectRow>) -> Seq<EffectModel> {
    rows.map_values(|row: EffectRow| row@)
}

/// A command that ran for an event.
#[derive(Clone, Debug, PartialEq, Eq)]
pub struct CommandRow {
    pub event_id: i64,
    pub command: String,
    pub exit_code: i32,
    pub output_summary: String,
    pub created_at: i64,
}

/// What the contracts say of such a row.
#[verifier::ext_equal]
pub struct CommandModel {
    pub event_id: i64,
    pub command: Seq<char>,
    pub exit_code: i32,
    pub output_summary: Seq<char>,
    pub created_at: i64,
}

impl View for CommandRow {
    type V = CommandModel;

    open spec fn view(&self) -> CommandModel {
        CommandModel {
            event_id: self.event_id,
            command: self.command@,
            exit_code: self.exit_code,
            output_summary: self.output_summary@,
            created_at: self.created_at,
        }
    }
}

/// What the contracts say of the rows.
pub open spec fn command_models(rows: Seq<CommandRow>) -> Seq<CommandModel> {
    rows.map_values(|row: CommandRow| row@)
}

/// The state of a source.
#[derive(Clone, Debug, PartialEq, Eq)]
pub struct SourceRow {
    pub source: String,
    pub checkpoint: Option<String>,
    pub last_success_at: Option<i64>,
    pub last_error: Option<String>,
    pub updated_at: i64,
}

/// What the contracts say of such a row.
#[verifier::ext_equal]
pub struct SourceModel {
    pub source: Seq<char>,
    pub checkpoint: Option<Seq<char>>,
    pub last_success_at: Option<i64>,
    pub last_error: Option<Seq<char>>,
    pub updated_at: i64,
}

impl View for SourceRow {
    type V = SourceModel;

    open spec fn view(&self) -> SourceModel {
        SourceModel {
            source: self.source@,
            checkpoint: text::opt_text(self.checkpoint),
            last_success_at: self.last_success_at,
            last_error: text::opt_text(self.last_error),
            updated_at: self.updated_at,
        }
    }
}

/// What the contracts say of the rows.
pub open spec fn source_models(rows: Seq<SourceRow>) -> Seq<SourceModel> {
    rows.map_values(|row: SourceRow| row@)
}

/// What turns, steps, retries and compactions have in common: a number, the run they belong to,
/// and whether they are still open.
#[verifier::ext_equal]
pub struct SpanModel {
    pub id: i64,
    pub run_id: i64,
    pub open: bool,
}

/// A row for something that a run began and may have ended.
pub trait Span {
    spec fn span(&self) -> SpanModel;

    fn is_of(&self, run_id: i64) -> (b: bool)
        ensures
            b == (self.span().run_id == run_id),
    ;

    fn is_open(&self) -> (b: bool)
        ensures
            b == self.span().open,
    ;

    fn has_id(&self, id: i64) -> (b: bool)
        ensures
            b == (self.span().id == id),
    ;
}

impl Span for TurnRow {
    open spec fn span(&self) -> SpanModel {
        SpanModel { id: self.id, run_id: self.run_id, open: self.ended_at is None }
    }

    fn is_of(&self, run_id: i64) -> (b: bool) {
        self.run_id == run_id
    }

    fn is_open(&self) -> (b: bool) {
        self.ended_at.is_none()
    }

    fn has_id(&self, id: i64) -> (b: bool) {
        self.id == id
    }
}

/// What the rows have in common with others.
pub open spec fn turn_spans(rows: Seq<TurnModel>) -> Seq<SpanModel> {
    rows.map_values(
        |row: TurnModel|
            SpanModel { id: row.id, run_id: row.run_id, open: row.ended_at is None },
    )
}

impl Span for StepRow {
    open spec fn span(&self) -> SpanModel {
        SpanModel { id: self.id, run_id: self.run_id, open: self.ended_at is None }
    }

    fn is_of(&self, run_id: i64) -> (b: bool) {
        self.run_id == run_id
    }

    fn is_open(&self) -> (b: bool) {
        self.ended_at.is_none()
    }

    fn has_id(&self, id: i64) -> (b: bool) {
        self.id == id
    }
}

/// What the rows have in common with others.
pub open spec fn step_spans(rows: Seq<StepModel>) -> Seq<SpanModel> {
    rows.map_values(
        |row: StepModel|
            SpanModel { id: row.id, run_id: row.run_id, open: row.ended_at is None },
    )
}

impl Span for RetryRow {
    open spec fn span(&self) -> SpanModel {
        SpanModel { id: self.id, run_id: self.run_id, open: self.ended_at is None }
    }

    fn is_of(&self, run_id: i64) -> (b: bool) {
        self.run_id == run_id
    }

    fn is_open(&self) -> (b: bool) {
        self.ended_at.is_none()
    }

    fn has_id(&self, id: i64) -> (b: bool) {
        self.id == id
    }
}

/// What the rows have in common with others.
pub open spec fn retry_spans(rows: Seq<RetryModel>) -> Seq<SpanModel> {
    rows.map_values(
        |row: RetryModel|
            SpanModel { id: row.id, run_id: row.run_id, open: row.ended_at is None },
    )
}

impl Span for CompactionRow {
    open spec fn span(&self) -> SpanModel {
        SpanModel { id: self.id, run_id: self.run_id, open: self.ended_at is None }
    }

    fn is_of(&self, run_id: i64) -> (b: bool) {
        self.run_id == run_id
    }

    fn is_open(&self) -> (b: bool) {
        self.ended_at.is_none()
    }

    fn has_id(&self, id: i64) -> (b: bool) {
        self.id == id
    }
}

/// What the rows have in common with others.
pub open spec fn compaction_spans(rows: Seq<CompactionModel>) -> Seq<SpanModel> {
    rows.map_values(
        |row: CompactionModel|
            SpanModel { id: row.id, run_id: row.run_id, open: row.ended_at is None },
    )
}

/// How many rows belong to a run.
pub open spec fn count_of(spans: Seq<SpanModel>, run_id: i64) -> nat
    decreases spans.len(),
{
    if spans.len() == 0 {
        0
    } else if spans.last().run_id == run_id {
        count_of(spans.drop_last(), run_id) + 1
    } else {
        count_of(spans.drop_last(), run_id)
    }
}

/// How many open rows belong to a run.
pub open spec fn count_open(spans: Seq<SpanModel>, run_id: i64) -> nat
    decreases spans.len(),
{
    if spans.len() == 0 {
        0
    } else if spans.last().run_id == run_id && spans.last().open {
        count_open(spans.drop_last(), run_id) + 1
    } else {
        count_open(spans.drop_last(), run_id)
    }
}

/// Whether the row is the open one with this number that belongs to the run.
pub open spec fn hit(span: SpanModel, id: i64, run_id: i64) -> bool {
    span.id == id && span.run_id == run_id && span.open
}

/// How many open rows with this number belong to a run.
pub open spec fn count_hits(spans: Seq<SpanModel>, id: i64, run_id: i64) -> nat
    decreases spans.len(),
{
    if spans.len() == 0 {
        0
    } else if hit(spans.last(), id, run_id) {
        count_hits(spans.drop_last(), id, run_id) + 1
    } else {
        count_hits(spans.drop_last(), id, run_id)
    }
}

/// How many rows belong to a run.
pub fn rows_of<T: Span>(rows: &Vec<T>, run_id: i64) -> (n: usize)
    ensures
        n == count_of(rows@.map_values(|row: T| row.span()), run_id),
{
    let ghost spans = rows@.map_values(|row: T| row.span());
    let mut n: usize = 0;
    let mut i: usize = 0;
    while i < rows.len()
        invariant
            n <= i <= rows@.len(),
            spans == rows@.map_values(|row: T| row.span()),
            n == count_of(spans.take(i as int), run_id),
        decreases rows@.len() - i,
    {
        assert(spans.take(i + 1).drop_last() =~= spans.take(i as int));
        assert(spans.take(i + 1).last() == rows@[i as int].span());
        if rows[i].is_of(run_id) {
            n += 1;
        }
        i += 1;
    }
    assert(spans.take(i as int) =~= spans);
    n
}

/// How many open rows belong to a run.
pub fn open_rows_of<T: Span>(rows: &Vec<T>, run_id: i64) -> (n: usize)
    ensures
        n == count_open(rows@.map_values(|row: T| row.span()), run_id),
{
    let ghost spans = rows@.map_values(|row: T| row.span());
    let mut n: usize = 0;
    let mut i: usize = 0;
    while i < rows.len()
        invariant
            n <= i <= rows@.len(),
            spans == rows@.map_values(|row: T| row.span()),
            n == count_open(spans.take(i as int), run_id),
        decreases rows@.len() - i,
    {
        assert(spans.take(i + 1).drop_last() =~= spans.take(i as int));
        assert(spans.take(i + 1).last() == rows@[i as int].span());
        if rows[i].is_of(run_id) && rows[i].is_open() {
            n += 1;
        }
        i += 1;
    }
    assert(spans.take(i as int) =~= spans);
    n
}

/// How many open rows with this number belong to a run.
pub fn hits<T: Span>(rows: &Vec<T>, id: i64, run_id: i64) -> (n: usize)
    ensures
        n == count_hits(rows@.map_values(|row: T| row.span()), id, run_id),
{
    let ghost spans = rows@.map_values(|row: T| row.span());
    let mut n: usize = 0;
    let mut i: usize = 0;
    while i < rows.len()
        invariant
            n <= i <= rows@.len(),
            spans == rows@.map_values(|row: T| row.span()),
            n == count_hits(spans.take(i as int), id, run_id),
        decreases rows@.len() - i,
    {
        assert(spans.take(i + 1).drop_last() =~= spans.take(i as int));
        assert(spans.take(i + 1).last() == rows@[i as int].span());
        if rows[i].has_id(id) && rows[i].is_of(run_id) && rows[i].is_open() {
            n += 1;
        }
        i += 1;
    }
    assert(spans.take(i as int) =~= spans);
    n
}

/// Everything that is stored.
#[derive(Debug)]
pub struct Store {
    pub entities: Vec<EntityRow>,
    pub events: Vec<EventRow>,
    pub runs: Vec<RunRow>,
    pub turns: Vec<TurnRow>,
    pub steps: Vec<StepRow>,
    pub retries: Vec<RetryRow>,
    pub compactions: Vec<CompactionRow>,
    pub prompts: Vec<PromptRow>,
    pub effects: Vec<EffectRow>,
    pub commands: Vec<CommandRow>,
    pub sources: Vec<SourceRow>,
}

/// What the contracts say of what is stored.
#[verifier::ext_equal]
pub struct StoreModel {
    pub entities: Seq<EntityModel>,
    pub events: Seq<EventModel>,
    pub runs: Seq<RunModel>,
    pub turns: Seq<TurnModel>,
    pub steps: Seq<StepModel>,
    pub retries: Seq<RetryModel>,
    pub compactions: Seq<CompactionModel>,
    pub prompts: Seq<PromptModel>,
    pub effects: Seq<EffectModel>,
    pub commands: Seq<CommandModel>,
    pub sources: Seq<SourceModel>,
}

impl View for Store {
    type V = StoreModel;

    open spec fn view(&self) -> StoreModel {
        StoreModel {
            entities: entity_models(self.entities@),
            events: event_models(self.events@),
            runs: run_models(self.runs@),
            turns: turn_models(self.turns@),
            steps: step_models(self.steps@),
            retries: retry_models(self.retries@),
            compactions: compaction_models(self.compactions@),
            prompts: prompt_models(self.prompts@),
            effects: effect_models(self.effects@),
            commands: command_models(self.commands@),
            sources: source_models(self.sources@),
        }
    }
}

/// The largest of the numbers.
pub open spec fn largest(ids: Seq<i64>) -> i64
    recommends
        ids.len() > 0,
    decreases ids.len(),
{
    if ids.len() <= 1 {
        ids[0]
    } else {
        let before = largest(ids.drop_last());
        if ids.last() > before {
            ids.last()
        } else {
            before
        }
    }
}

/// The number of the next row: one more than the largest, and one where there is no row yet.
/// None where the numbers are used up.
pub open spec fn fresh(ids: Seq<i64>) -> Option<i64> {
    if ids.len() == 0 {
        Some(1)
    } else if largest(ids) == i64::MAX {
        None
    } else {
        Some((largest(ids) + 1) as i64)
    }
}

/// The number of the next row.
pub fn fresh_id<T: Row>(rows: &Vec<T>) -> (id: Option<i64>)
    ensures
        id == fresh(rows@.map_values(|row: T| row.key())),
{
    let ghost ids = rows@.map_values(|row: T| row.key());
    if rows.len() == 0 {
        return Some(1);
    }
    let mut most: i64 = rows[0].row_id();
    let mut i: usize = 1;
    assert(ids.take(1)[0] == ids[0]);
    while i < rows.len()
        invariant
            1 <= i <= rows@.len(),
            ids == rows@.map_values(|row: T| row.key()),
            most == largest(ids.take(i as int)),
        decreases rows@.len() - i,
    {
        assert(ids.take(i + 1).drop_last() =~= ids.take(i as int));
        assert(ids.take(i + 1).last() == ids[i as int]);
        let id = rows[i].row_id();
        if id > most {
            most = id;
        }
        i += 1;
    }
    assert(ids.take(i as int) =~= ids);
    if most == i64::MAX {
        None
    } else {
        Some(most + 1)
    }
}

/// The largest number is one of them, and none is larger.
pub proof fn lemma_largest(ids: Seq<i64>)
    requires
        ids.len() > 0,
    ensures
        ids.contains(largest(ids)),
        forall|i: int| 0 <= i < ids.len() ==> #[trigger] ids[i] <= largest(ids),
    decreases ids.len(),
{
    if ids.len() > 1 {
        let before = ids.drop_last();
        lemma_largest(before);
        let place = choose|i: int| 0 <= i < before.len() && before[i] == largest(before);
        assert(ids[place] == largest(before));
        assert(ids[ids.len() - 1] == ids.last());
        assert forall|i: int| 0 <= i < ids.len() implies #[trigger] ids[i] <= largest(ids) by {
            if i < before.len() {
                assert(before[i] <= largest(before));
            }
        }
    } else {
        assert(ids[0] == largest(ids));
    }
}

/// The number of a new row is none that is in use.
pub proof fn law_fresh_ids_are_new(ids: Seq<i64>)
    ensures
        fresh(ids) matches Some(id) ==> !ids.contains(id),
{
    if ids.len() > 0 {
        lemma_largest(ids);
    }
}

} // verus!
