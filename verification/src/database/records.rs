//! The records of the queue and of triage runs.
use vstd::prelude::*;

use crate::errors::ErrorCategory;
use crate::text;

verus! {

/// What kept a request to the database from being served.
#[derive(Debug)]
pub enum DatabaseError {
    ActorClosed,
    ActorStopped,
    FutureSchema { found: i64, supported: usize },
    MigrationGap { found: i64, position: usize },
    InvalidValue(String),
    UnknownEvent(i64),
    UnknownSpan,
    Json(String),
    Io(String),
    Sqlite(String),
    QueueOwnerBusy { database: String },
}

impl DatabaseError {
    pub open spec fn text(self) -> Seq<char> {
        match self {
            DatabaseError::ActorClosed => "database actor is unavailable"@,
            DatabaseError::ActorStopped => "database actor stopped before replying"@,
            DatabaseError::FutureSchema { found, supported } => "database schema version "@
                + text::signed_decimal(found as int) + " is newer than supported version "@
                + text::decimal(supported as nat),
            DatabaseError::MigrationGap { found, position } =>
                "database schema migrations must be contiguous from version 1; found "@
                + text::signed_decimal(found as int) + " at position "@ + text::decimal(
                position as nat,
            ),
            DatabaseError::InvalidValue(value) => "invalid database value: "@ + value@,
            DatabaseError::UnknownEvent(id) => "unknown event "@ + text::signed_decimal(id as int),
            DatabaseError::UnknownSpan => "unknown or closed telemetry span"@,
            DatabaseError::Json(message) => "database JSON error: "@ + message@,
            DatabaseError::Io(message) => "database I/O error: "@ + message@,
            DatabaseError::Sqlite(message) => "SQLite error: "@ + message@,
            DatabaseError::QueueOwnerBusy { database } =>
                "another intake watch or check owns the queue for "@ + database@,
        }
    }

    /// The text shown for the error.
    pub fn message(&self) -> (out: String)
        ensures
            out@ == self.text(),
    {
        match self {
            DatabaseError::ActorClosed => "database actor is unavailable".to_owned(),
            DatabaseError::ActorStopped => "database actor stopped before replying".to_owned(),
            DatabaseError::FutureSchema { found, supported } => {
                let mut out = "database schema version ".to_owned();
                out.append(text::signed_decimal_of(*found).as_str());
                out.append(" is newer than supported version ");
                out.append(text::decimal_of(*supported as u128).as_str());
                out
            },
            DatabaseError::MigrationGap { found, position } => {
                let mut out =
                    "database schema migrations must be contiguous from version 1; found ".to_owned();
                out.append(text::signed_decimal_of(*found).as_str());
                out.append(" at position ");
                out.append(text::decimal_of(*position as u128).as_str());
                out
            },
            DatabaseError::InvalidValue(value) => prefixed("invalid database value: ", value),
            DatabaseError::UnknownEvent(id) => {
                let mut out = "unknown event ".to_owned();
                out.append(text::signed_decimal_of(*id).as_str());
                out
            },
            DatabaseError::UnknownSpan => "unknown or closed telemetry span".to_owned(),
            DatabaseError::Json(message) => prefixed("database JSON error: ", message),
            DatabaseError::Io(message) => prefixed("database I/O error: ", message),
            DatabaseError::Sqlite(message) => prefixed("SQLite error: ", message),
            DatabaseError::QueueOwnerBusy { database } => {
                prefixed("another intake watch or check owns the queue for ", database)
            },
        }
    }
}

fn prefixed(prefix: &str, value: &String) -> (out: String)
    ensures
        out@ == prefix@ + value@,
{
    let mut out = prefix.to_owned();
    out.append(value.as_str());
    out
}

/// How far an event has come.
#[derive(Clone, Copy, Debug, PartialEq, Eq, Structural)]
pub enum EventStatus {
    Pending,
    Processing,
    Retryable,
    Succeeded,
    Failed,
    Ignored,
}

impl EventStatus {
    /// The name under which the status is stored.
    pub open spec fn name(self) -> Seq<char> {
        match self {
            EventStatus::Pending => "pending"@,
            EventStatus::Processing => "processing"@,
            EventStatus::Retryable => "retryable"@,
            EventStatus::Succeeded => "succeeded"@,
            EventStatus::Failed => "failed"@,
            EventStatus::Ignored => "ignored"@,
        }
    }

    /// The status with this name.
    pub open spec fn named(value: Seq<char>) -> Option<EventStatus> {
        if value == "pending"@ {
            Some(EventStatus::Pending)
        } else if value == "processing"@ {
            Some(EventStatus::Processing)
        } else if value == "retryable"@ {
            Some(EventStatus::Retryable)
        } else if value == "succeeded"@ {
            Some(EventStatus::Succeeded)
        } else if value == "failed"@ {
            Some(EventStatus::Failed)
        } else if value == "ignored"@ {
            Some(EventStatus::Ignored)
        } else {
            None
        }
    }

    /// The name under which the status is stored.
    pub fn as_str(self) -> (out: &'static str)
        ensures
            out@ == self.name(),
    {
        match self {
            EventStatus::Pending => "pending",
            EventStatus::Processing => "processing",
            EventStatus::Retryable => "retryable",
            EventStatus::Succeeded => "succeeded",
            EventStatus::Failed => "failed",
            EventStatus::Ignored => "ignored",
        }
    }

    /// Reads a stored status.
    pub fn parse(value: &str) -> (result: Result<EventStatus, DatabaseError>)
        ensures
            match result {
                Ok(status) => EventStatus::named(value@) == Some(status),
                Err(error) => EventStatus::named(value@) is None && (error matches
                    DatabaseError::InvalidValue(message) && message@ == "unknown event status "@
                    + value@),
            },
    {
        if text::same(value, "pending") {
            Ok(EventStatus::Pending)
        } else if text::same(value, "processing") {
            Ok(EventStatus::Processing)
        } else if text::same(value, "retryable") {
            Ok(EventStatus::Retryable)
        } else if text::same(value, "succeeded") {
            Ok(EventStatus::Succeeded)
        } else if text::same(value, "failed") {
            Ok(EventStatus::Failed)
        } else if text::same(value, "ignored") {
            Ok(EventStatus::Ignored)
        } else {
            let mut message = "unknown event status ".to_owned();
            message.append(value);
            Err(DatabaseError::InvalidValue(message))
        }
    }
}

/// An event of the queue with what is known of the entity it belongs to.
#[derive(Clone, Debug)]
pub struct EventRecord {
    pub id: i64,
    pub source: String,
    pub entity_id: String,
    pub revision_id: String,
    pub kind: String,
    pub title: String,
    pub payload: Option<String>,
    pub operational_metadata: String,
    pub occurred_at: String,
    pub observed_at: String,
    pub status: EventStatus,
    pub attempt_count: u32,
    pub next_attempt_at: Option<String>,
    pub last_error: Option<String>,
    pub aven_ref: Option<String>,
    pub investigation_handle: Option<String>,
}

/// How a source fared when it was polled last.
#[derive(Clone, Debug)]
pub struct SourceStatus {
    pub source: String,
    pub last_success_at: Option<String>,
    pub last_error: Option<String>,
    pub updated_at: String,
}

#[derive(Clone, Copy, Debug, PartialEq, Eq, Structural)]
pub struct RunId(pub i64);

#[derive(Clone, Copy, Debug, PartialEq, Eq, Structural)]
pub struct TurnId(pub i64);

#[derive(Clone, Copy, Debug, PartialEq, Eq, Structural)]
pub struct ToolId(pub i64);

#[derive(Clone, Copy, Debug, PartialEq, Eq, Structural)]
pub struct RetryId(pub i64);

#[derive(Clone, Copy, Debug, PartialEq, Eq, Structural)]
pub struct CompactionId(pub i64);

/// The tokens that a provider reported.
#[derive(Clone, Copy, Debug, PartialEq, Eq, Structural)]
pub struct ReportedUsage {
    pub input_tokens: Option<i64>,
    pub output_tokens: Option<i64>,
    pub cache_read_tokens: Option<i64>,
    pub cache_write_tokens: Option<i64>,
    pub reasoning_tokens: Option<i64>,
    pub total_tokens: Option<i64>,
}

impl Default for ReportedUsage {
    fn default() -> (usage: Self)
        ensures
            usage == (ReportedUsage {
                input_tokens: None,
                output_tokens: None,
                cache_read_tokens: None,
                cache_write_tokens: None,
                reasoning_tokens: None,
                total_tokens: None,
            }),
    {
        ReportedUsage {
            input_tokens: None,
            output_tokens: None,
            cache_read_tokens: None,
            cache_write_tokens: None,
            reasoning_tokens: None,
            total_tokens: None,
        }
    }
}

/// The tokens that a completion used. All zero says that the provider reported nothing.
#[derive(Clone, Copy, Debug, PartialEq, Eq, Structural)]
pub struct Usage {
    pub input_tokens: u64,
    pub output_tokens: u64,
    pub total_tokens: u64,
    pub cached_input_tokens: u64,
    pub cache_creation_input_tokens: u64,
    pub tool_use_prompt_tokens: u64,
    pub reasoning_tokens: u64,
}

impl Usage {
    pub open spec fn reported(self) -> bool {
        self.input_tokens != 0 || self.output_tokens != 0 || self.total_tokens != 0
            || self.cached_input_tokens != 0 || self.cache_creation_input_tokens != 0
            || self.tool_use_prompt_tokens != 0 || self.reasoning_tokens != 0
    }

    /// Whether any value is not zero.
    pub fn has_values(&self) -> (b: bool)
        ensures
            b == self.reported(),
    {
        self.input_tokens != 0 || self.output_tokens != 0 || self.total_tokens != 0
            || self.cached_input_tokens != 0 || self.cache_creation_input_tokens != 0
            || self.tool_use_prompt_tokens != 0 || self.reasoning_tokens != 0
    }
}

/// The number, or the largest one that can be stored.
pub open spec fn clamped(value: nat) -> i64 {
    if value <= i64::MAX {
        value as i64
    } else {
        i64::MAX
    }
}

pub fn saturating_i64(value: u64) -> (out: i64)
    ensures
        out == clamped(value as nat),
{
    if value <= i64::MAX as u64 {
        value as i64
    } else {
        i64::MAX
    }
}

/// The usage as it is stored.
pub open spec fn usage_record(usage: Usage) -> ReportedUsage {
    ReportedUsage {
        input_tokens: Some(clamped(usage.input_tokens as nat)),
        output_tokens: Some(clamped(usage.output_tokens as nat)),
        cache_read_tokens: Some(clamped(usage.cached_input_tokens as nat)),
        cache_write_tokens: Some(clamped(usage.cache_creation_input_tokens as nat)),
        reasoning_tokens: Some(clamped(usage.reasoning_tokens as nat)),
        total_tokens: Some(clamped(usage.total_tokens as nat)),
    }
}

/// What is stored of a usage: nothing where the provider reported nothing.
pub fn reported_usage(usage: Option<&Usage>, provider_reported: bool) -> (out: Option<
    ReportedUsage,
>)
    ensures
        out == (match usage {
            Some(usage) => if provider_reported || usage.reported() {
                Some(usage_record(*usage))
            } else {
                None
            },
            None => None,
        }),
{
    match usage {
        None => None,
        Some(usage) => {
            if !provider_reported && !usage.has_values() {
                return None;
            }
            Some(
                ReportedUsage {
                    input_tokens: Some(saturating_i64(usage.input_tokens)),
                    output_tokens: Some(saturating_i64(usage.output_tokens)),
                    cache_read_tokens: Some(saturating_i64(usage.cached_input_tokens)),
                    cache_write_tokens: Some(saturating_i64(usage.cache_creation_input_tokens)),
                    reasoning_tokens: Some(saturating_i64(usage.reasoning_tokens)),
                    total_tokens: Some(saturating_i64(usage.total_tokens)),
                },
            )
        },
    }
}

/// What is known of the model that a run uses.
#[derive(Clone, Debug)]
pub struct RunMetadata {
    pub model_id: Option<String>,
    pub model_provider: Option<String>,
    pub thinking_level: Option<String>,
    pub context_window: Option<i64>,
    pub max_tokens: Option<i64>,
}

impl Default for RunMetadata {
    fn default() -> (metadata: Self)
        ensures
            metadata.model_id is None,
            metadata.model_provider is None,
            metadata.thinking_level is None,
            metadata.context_window is None,
            metadata.max_tokens is None,
    {
        RunMetadata {
            model_id: None,
            model_provider: None,
            thinking_level: None,
            context_window: None,
            max_tokens: None,
        }
    }
}

#[derive(Clone, Copy, Debug, PartialEq, Eq, Structural)]
pub enum RunOutcome {
    Succeeded,
    Failed,
    Interrupted,
}

impl RunOutcome {
    pub open spec fn name(self) -> Seq<char> {
        match self {
            RunOutcome::Succeeded => "succeeded"@,
            RunOutcome::Failed => "failed"@,
            RunOutcome::Interrupted => "interrupted"@,
        }
    }

    pub fn as_str(self) -> (out: &'static str)
        ensures
            out@ == self.name(),
    {
        match self {
            RunOutcome::Succeeded => "succeeded",
            RunOutcome::Failed => "failed",
            RunOutcome::Interrupted => "interrupted",
        }
    }
}

#[derive(Clone, Copy, Debug, PartialEq, Eq, Structural)]
pub enum SpanOutcome {
    Succeeded,
    Failed,
    Aborted,
    Interrupted,
}

impl SpanOutcome {
    pub open spec fn name(self) -> Seq<char> {
        match self {
            SpanOutcome::Succeeded => "succeeded"@,
            SpanOutcome::Failed => "failed"@,
            SpanOutcome::Aborted => "aborted"@,
            SpanOutcome::Interrupted => "interrupted"@,
        }
    }

    pub fn as_str(self) -> (out: &'static str)
        ensures
            out@ == self.name(),
    {
        match self {
            SpanOutcome::Succeeded => "succeeded",
            SpanOutcome::Failed => "failed",
            SpanOutcome::Aborted => "aborted",
            SpanOutcome::Interrupted => "interrupted",
        }
    }
}

#[derive(Clone, Debug)]
pub struct TurnFinish {
    pub stop_reason: Option<String>,
    pub usage: Option<ReportedUsage>,
    pub context_tokens: Option<i64>,
    pub context_window: Option<i64>,
}

#[derive(Clone, Copy, Debug, PartialEq, Eq, Structural)]
pub struct RetryStart {
    pub attempt: u32,
    pub max_attempts: u32,
    pub delay_ms: u64,
    pub error_category: Option<ErrorCategory>,
}

#[derive(Clone, Copy, Debug, PartialEq, Eq, Structural)]
pub struct CompactionFinish {
    pub outcome: SpanOutcome,
    pub aborted: bool,
    pub will_retry: bool,
    pub tokens_before: Option<i64>,
    pub estimated_tokens_after: Option<i64>,
    pub usage: Option<ReportedUsage>,
}

/// What triage decided about an event.
#[derive(Clone, Copy, Debug, PartialEq, Eq, Structural)]
pub enum TriageDecision {
    ActionTaken,
    NoAction,
    NeedsFollowUp,
    Blocked,
    Failed,
    Canceled,
    TimedOut,
    TurnLimit,
}

impl TriageDecision {
    /// The name under which the decision is stored.
    pub open spec fn name(self) -> Seq<char> {
        match self {
            TriageDecision::ActionTaken => "action_taken"@,
            TriageDecision::NoAction => "no_action"@,
            TriageDecision::NeedsFollowUp => "needs_follow_up"@,
            TriageDecision::Blocked => "blocked"@,
            TriageDecision::Failed => "failed"@,
            TriageDecision::Canceled => "canceled"@,
            TriageDecision::TimedOut => "timed_out"@,
            TriageDecision::TurnLimit => "turn_limit"@,
        }
    }

    /// The name under which the decision is stored.
    pub fn as_str(self) -> (out: &'static str)
        ensures
            out@ == self.name(),
    {
        match self {
            TriageDecision::ActionTaken => "action_taken",
            TriageDecision::NoAction => "no_action",
            TriageDecision::NeedsFollowUp => "needs_follow_up",
            TriageDecision::Blocked => "blocked",
            TriageDecision::Failed => "failed",
            TriageDecision::Canceled => "canceled",
            TriageDecision::TimedOut => "timed_out",
            TriageDecision::TurnLimit => "turn_limit",
        }
    }
}

/// Who drew a conclusion.
#[derive(Clone, Copy, Debug, PartialEq, Eq, Structural)]
pub enum ConclusionSource {
    Model,
    Derived,
    Unavailable,
}

/// Why an event was handed to triage.
#[derive(Clone, Copy, Debug, PartialEq, Eq, Structural)]
pub enum DispatchTrigger {
    Initial,
    Revision,
    BackoffRetry,
    RecoveryRetry,
    OperatorRetry,
    ManualInjection,
    SupersedingClaim,
    Unknown,
}

impl DispatchTrigger {
    /// The name under which the trigger is stored.
    pub open spec fn name(self) -> Seq<char> {
        match self {
            DispatchTrigger::Initial => "initial"@,
            DispatchTrigger::Revision => "revision"@,
            DispatchTrigger::BackoffRetry => "backoff_retry"@,
            DispatchTrigger::RecoveryRetry => "recovery_retry"@,
            DispatchTrigger::OperatorRetry => "operator_retry"@,
            DispatchTrigger::ManualInjection => "manual_injection"@,
            DispatchTrigger::SupersedingClaim => "superseding_claim"@,
            DispatchTrigger::Unknown => "unknown"@,
        }
    }

    /// The trigger with this name.
    pub open spec fn named(value: Seq<char>) -> Option<DispatchTrigger> {
        if value == "initial"@ {
            Some(DispatchTrigger::Initial)
        } else if value == "revision"@ {
            Some(DispatchTrigger::Revision)
        } else if value == "backoff_retry"@ {
            Some(DispatchTrigger::BackoffRetry)
        } else if value == "recovery_retry"@ {
            Some(DispatchTrigger::RecoveryRetry)
        } else if value == "operator_retry"@ {
            Some(DispatchTrigger::OperatorRetry)
        } else if value == "manual_injection"@ {
            Some(DispatchTrigger::ManualInjection)
        } else if value == "superseding_claim"@ {
            Some(DispatchTrigger::SupersedingClaim)
        } else if value == "unknown"@ {
            Some(DispatchTrigger::Unknown)
        } else {
            None
        }
    }

    /// The name under which the trigger is stored.
    pub fn as_str(self) -> (out: &'static str)
        ensures
            out@ == self.name(),
    {
        match self {
            DispatchTrigger::Initial => "initial",
            DispatchTrigger::Revision => "revision",
            DispatchTrigger::BackoffRetry => "backoff_retry",
            DispatchTrigger::RecoveryRetry => "recovery_retry",
            DispatchTrigger::OperatorRetry => "operator_retry",
            DispatchTrigger::ManualInjection => "manual_injection",
            DispatchTrigger::SupersedingClaim => "superseding_claim",
            DispatchTrigger::Unknown => "unknown",
        }
    }

    /// Reads a stored trigger.
    pub fn parse(value: &str) -> (result: Result<DispatchTrigger, DatabaseError>)
        ensures
            match result {
                Ok(trigger) => DispatchTrigger::named(value@) == Some(trigger),
                Err(error) => DispatchTrigger::named(value@) is None && (error matches
                    DatabaseError::InvalidValue(message) && message@
                    == "unknown dispatch trigger "@ + value@),
            },
    {
        if text::same(value, "initial") {
            Ok(DispatchTrigger::Initial)
        } else if text::same(value, "revision") {
            Ok(DispatchTrigger::Revision)
        } else if text::same(value, "backoff_retry") {
            Ok(DispatchTrigger::BackoffRetry)
        } else if text::same(value, "recovery_retry") {
            Ok(DispatchTrigger::RecoveryRetry)
        } else if text::same(value, "operator_retry") {
            Ok(DispatchTrigger::OperatorRetry)
        } else if text::same(value, "manual_injection") {
            Ok(DispatchTrigger::ManualInjection)
        } else if text::same(value, "superseding_claim") {
            Ok(DispatchTrigger::SupersedingClaim)
        } else if text::same(value, "unknown") {
            Ok(DispatchTrigger::Unknown)
        } else {
            let mut message = "unknown dispatch trigger ".to_owned();
            message.append(value);
            Err(DatabaseError::InvalidValue(message))
        }
    }
}

/// What a triage run came to.
#[derive(Clone, Debug, PartialEq, Eq)]
pub struct TriageConclusion {
    pub decision: TriageDecision,
    pub summary: String,
    pub evidence: Vec<String>,
    pub actions: Vec<String>,
    pub outcome: String,
    pub follow_up: Option<String>,
    pub source: ConclusionSource,
}

/// What the contracts say of a conclusion.
#[verifier::ext_equal]
pub struct ConclusionModel {
    pub decision: TriageDecision,
    pub summary: Seq<char>,
    pub evidence: Seq<Seq<char>>,
    pub actions: Seq<Seq<char>>,
    pub outcome: Seq<char>,
    pub follow_up: Option<Seq<char>>,
    pub source: ConclusionSource,
}

impl View for TriageConclusion {
    type V = ConclusionModel;

    open spec fn view(&self) -> ConclusionModel {
        ConclusionModel {
            decision: self.decision,
            summary: self.summary@,
            evidence: text::texts(self.evidence@),
            actions: text::texts(self.actions@),
            outcome: self.outcome@,
            follow_up: text::opt_text(self.follow_up),
            source: self.source,
        }
    }
}

/// How a run ended.
#[derive(Clone, Debug)]
pub struct RunFinish {
    pub outcome: RunOutcome,
    pub termination_reason: String,
    pub failure_category: Option<ErrorCategory>,
    pub recording_complete: bool,
}

#[derive(Clone, Debug)]
pub struct TriageRunRecord {
    pub id: i64,
    pub event_id: i64,
    pub attempt: u32,
    pub started_at: String,
    pub ended_at: Option<String>,
    pub last_activity_at: String,
    pub outcome: Option<String>,
    pub termination_reason: Option<String>,
    pub failure_category: Option<String>,
    pub model_id: Option<String>,
    pub model_provider: Option<String>,
    pub thinking_level: Option<String>,
    pub context_window: Option<i64>,
    pub max_tokens: Option<i64>,
    pub telemetry_version: Option<i64>,
    pub telemetry_completeness: String,
    pub dispatch_sequence: Option<u32>,
    pub dispatch_trigger: Option<DispatchTrigger>,
    pub dispatch_prior_run_id: Option<i64>,
    pub dispatch_scheduled_for: Option<String>,
    pub conclusion: Option<TriageConclusion>,
    pub turn_count: u32,
    pub retry_count: u32,
    pub compaction_count: u32,
}

#[derive(Clone, Debug)]
pub struct TriageStepRecord {
    pub id: i64,
    pub turn_id: Option<i64>,
    pub turn_ordinal: Option<i64>,
    pub kind: String,
    pub label: String,
    pub summary: Option<String>,
    pub started_at: String,
    pub ended_at: Option<String>,
    pub outcome: Option<String>,
}

#[derive(Clone, Debug)]
pub struct TriageRunSummary {
    pub run: TriageRunRecord,
    pub step_count: usize,
}

/// A turn of a run. Its cost is kept apart.
#[derive(Clone, Debug)]
pub struct TriageTurnRecord {
    pub id: i64,
    pub ordinal: i64,
    pub started_at: String,
    pub ended_at: Option<String>,
    pub stop_reason: Option<String>,
    pub input_tokens: Option<i64>,
    pub output_tokens: Option<i64>,
    pub cache_read_tokens: Option<i64>,
    pub cache_write_tokens: Option<i64>,
    pub reasoning_tokens: Option<i64>,
    pub total_tokens: Option<i64>,
    pub context_tokens: Option<i64>,
    pub context_window: Option<i64>,
}

#[derive(Clone, Debug)]
pub struct TriageRetryRecord {
    pub id: i64,
    pub turn_id: Option<i64>,
    pub attempt: i64,
    pub max_attempts: i64,
    pub delay_ms: i64,
    pub started_at: String,
    pub wait_ended_at: String,
    pub ended_at: Option<String>,
    pub outcome: Option<String>,
    pub error_category: Option<String>,
}

/// A compaction of a run. Its cost is kept apart.
#[derive(Clone, Debug)]
pub struct TriageCompactionRecord {
    pub id: i64,
    pub turn_id: Option<i64>,
    pub reason: Option<String>,
    pub started_at: String,
    pub ended_at: Option<String>,
    pub outcome: Option<String>,
    pub aborted: Option<bool>,
    pub will_retry: Option<bool>,
    pub tokens_before: Option<i64>,
    pub estimated_tokens_after: Option<i64>,
    pub input_tokens: Option<i64>,
    pub output_tokens: Option<i64>,
    pub cache_read_tokens: Option<i64>,
    pub cache_write_tokens: Option<i64>,
    pub reasoning_tokens: Option<i64>,
    pub total_tokens: Option<i64>,
}

#[derive(Clone, Debug)]
pub struct TriageRunPromptRecord {
    pub role: String,
    pub content: String,
    pub recorded_at: String,
}

#[derive(Clone, Debug)]
pub struct TriageEffectRecord {
    pub effect_type: String,
    pub value: String,
    pub recorded_at: String,
}

// ---------------------------------------------------------------------------------------------
// Time
// ---------------------------------------------------------------------------------------------

/// How `chrono` writes the moment so many milliseconds after the epoch: RFC 3339 in UTC with
/// milliseconds. None where the moment lies outside of what it can represent.
pub uninterp spec fn rfc3339(milliseconds: i64) -> Option<Seq<char>>;

/// The moment, in milliseconds after the epoch, that `chrono` reads from an RFC 3339 text.
pub uninterp spec fn rfc3339_millis(value: Seq<char>) -> Option<i64>;

/// The first moment that can be represented.
pub const FIRST_MOMENT: i64 = -8_334_601_228_800_000;

/// The last moment that can be represented.
pub const LAST_MOMENT: i64 = 8_210_266_876_799_999;

/// The moments of the years 0000 to 9999, which RFC 3339 can write.
pub open spec fn writable(milliseconds: i64) -> bool {
    -62167219200000 <= milliseconds < 253402300800000
}

/// `chrono::DateTime::to_rfc3339_opts` with milliseconds, on the moment that
/// `DateTime::from_timestamp_millis` gives. For the years 0000 to 9999 there is such a moment,
/// and `DateTime::parse_from_rfc3339` reads it back.
#[verifier::external_body]
pub(crate) fn format_timestamp(milliseconds: i64) -> (out: Option<String>)
    ensures
        text::opt_text(out) == rfc3339(milliseconds),
        writable(milliseconds) ==> (out matches Some(out) && rfc3339_millis(out@) == Some(
            milliseconds,
        )),
{
    chrono::DateTime::from_timestamp_millis(milliseconds)
        .map(|moment| moment.to_rfc3339_opts(chrono::SecondsFormat::Millis, true))
}

/// `chrono::DateTime::parse_from_rfc3339`: the moment in milliseconds after the epoch. It lies in
/// the range that `chrono::DateTime` has, from `NaiveDateTime::MIN` to `NaiveDateTime::MAX`.
#[verifier::external_body]
pub(crate) fn parse_timestamp(value: &str) -> (out: Option<i64>)
    ensures
        out == rfc3339_millis(value@),
        out matches Some(moment) ==> FIRST_MOMENT <= moment <= LAST_MOMENT,
{
    chrono::DateTime::parse_from_rfc3339(value).ok().map(|moment| moment.timestamp_millis())
}

/// The moment as it is stored. None where it cannot be represented.
pub fn timestamp(milliseconds: i64) -> (out: Option<String>)
    ensures
        text::opt_text(out) == rfc3339(milliseconds),
        writable(milliseconds) ==> (out matches Some(out) && rfc3339_millis(out@) == Some(
            milliseconds,
        )),
{
    format_timestamp(milliseconds)
}

/// The moment that a stored text stands for.
pub fn moment(value: &str) -> (out: Option<i64>)
    ensures
        out == rfc3339_millis(value@),
        out matches Some(moment) ==> FIRST_MOMENT <= moment <= LAST_MOMENT,
{
    parse_timestamp(value)
}

// ---------------------------------------------------------------------------------------------
// Laws
// ---------------------------------------------------------------------------------------------

/// A stored status reads back as the status that was stored.
pub proof fn law_status_round_trip(status: EventStatus)
    ensures
        EventStatus::named(status.name()) == Some(status),
{
    reveal_strlit("pending");
    reveal_strlit("processing");
    reveal_strlit("retryable");
    reveal_strlit("succeeded");
    reveal_strlit("failed");
    reveal_strlit("ignored");
    assert("pending"@.len() == 7 && "processing"@.len() == 10 && "retryable"@.len() == 9);
    assert("succeeded"@.len() == 9 && "failed"@.len() == 6 && "ignored"@.len() == 7);
    assert("pending"@[0] == 'p' && "ignored"@[0] == 'i');
    assert("retryable"@[0] == 'r' && "succeeded"@[0] == 's');
}

/// A stored trigger reads back as the trigger that was stored.
pub proof fn law_trigger_round_trip(trigger: DispatchTrigger)
    ensures
        DispatchTrigger::named(trigger.name()) == Some(trigger),
{
    reveal_strlit("initial");
    reveal_strlit("revision");
    reveal_strlit("backoff_retry");
    reveal_strlit("recovery_retry");
    reveal_strlit("operator_retry");
    reveal_strlit("manual_injection");
    reveal_strlit("superseding_claim");
    reveal_strlit("unknown");
    assert("initial"@.len() == 7 && "revision"@.len() == 8 && "backoff_retry"@.len() == 13);
    assert("recovery_retry"@.len() == 14 && "operator_retry"@.len() == 14);
    assert("manual_injection"@.len() == 16 && "superseding_claim"@.len() == 17);
    assert("unknown"@.len() == 7);
    assert("initial"@[0] == 'i' && "unknown"@[0] == 'u');
    assert("recovery_retry"@[0] == 'r' && "operator_retry"@[0] == 'o');
}

} // verus!
