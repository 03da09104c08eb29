//! What can go wrong in triage, and how it is classified.
use vstd::prelude::*;

use crate::agent::context::ProjectionError;
use crate::config::ConfigError;
use crate::database::records::DatabaseError;
use crate::errors::{classify_message, contains_one, holds_one, message_category, ErrorCategory};
use crate::text;

verus! {

/// The part of the provider that a completion failed in.
#[derive(Clone, Copy, Debug, PartialEq, Eq, Structural)]
pub enum FailureKind {
    Http,
    Json,
    Url,
    Request,
    Response,
    Provider,
    ProviderResponse,
}

/// A completion that failed.
#[derive(Debug)]
pub struct ProviderFailure {
    pub kind: FailureKind,
    /// The text shown for the failure.
    pub display: String,
    /// What the provider itself said, where it said something.
    pub message: String,
    /// The HTTP status of the reply, where there was one.
    pub status: Option<u16>,
    /// The error code in the body of the reply, where there was one.
    pub code: Option<String>,
}

/// Whether the conversation was too long for the model.
pub open spec fn context_limited(failure: ProviderFailure) -> bool {
    holds_one(
        text::lower(failure.display@),
        seq!["context_length_exceeded"@, "context limit"@, "maximum context"@],
    ) || text::opt_text(failure.code) == Some("context_length_exceeded"@)
}

/// Whether the conversation was too long for the model.
pub fn is_context_limit(failure: &ProviderFailure) -> (b: bool)
    ensures
        b == context_limited(*failure),
{
    let words: [&str; 3] = ["context_length_exceeded", "context limit", "maximum context"];
    assert(words@.map_values(|n: &str| n@) =~= seq![
        "context_length_exceeded"@,
        "context limit"@,
        "maximum context"@,
    ]);
    contains_one(&text::lower_chars(&text::chars_of(failure.display.as_str())), &words)
        || text::is_text(&failure.code, "context_length_exceeded")
}

/// The category of a completion that failed: by its status, and else by its wording.
pub open spec fn failure_category(failure: ProviderFailure) -> ErrorCategory {
    if failure.status == Some(401u16) || failure.status == Some(403u16) {
        ErrorCategory::Authentication
    } else if failure.status == Some(404u16) {
        ErrorCategory::NotFound
    } else if failure.status == Some(408u16) || failure.status == Some(504u16) {
        ErrorCategory::Timeout
    } else if failure.status == Some(429u16) {
        ErrorCategory::RateLimit
    } else if context_limited(failure) {
        ErrorCategory::ContextLimit
    } else {
        message_category(failure.display@)
    }
}

/// The category of a completion that failed.
pub fn completion_category(failure: &ProviderFailure) -> (category: ErrorCategory)
    ensures
        category == failure_category(*failure),
{
    let status: u16 = match failure.status {
        Some(status) => status,
        None => 0,
    };
    let known = failure.status.is_some();
    if known && (status == 401 || status == 403) {
        ErrorCategory::Authentication
    } else if known && status == 404 {
        ErrorCategory::NotFound
    } else if known && (status == 408 || status == 504) {
        ErrorCategory::Timeout
    } else if known && status == 429 {
        ErrorCategory::RateLimit
    } else if is_context_limit(failure) {
        ErrorCategory::ContextLimit
    } else {
        classify_message(failure.display.as_str())
    }
}

/// What ended the run of an agent.
#[derive(Debug)]
pub enum EngineError {
    /// The run itself failed; whether because it took too many turns.
    Prompt { max_turns: bool, message: String },
    Completion(ProviderFailure),
    ContextLimit(String),
    Cancelled,
    Projection(ProjectionError),
    Serialization(String),
    Observer(ObserverError),
    RecordingFailure,
    NoSafeCompactionBoundary,
    EmptyCompactionSummary,
}

/// What went wrong while a run was observed.
#[derive(Debug)]
pub enum ObserverError {
    Telemetry(String),
    Serialization(String),
}

impl EngineError {
    pub open spec fn reason(self) -> Seq<char> {
        match self {
            EngineError::ContextLimit(_) => "context_limit"@,
            EngineError::Cancelled => "cancelled"@,
            _ => "error"@,
        }
    }

    /// The reason that is recorded for the turn that failed.
    pub fn turn_reason(&self) -> (out: &'static str)
        ensures
            out@ == self.reason(),
    {
        match self {
            EngineError::ContextLimit(_) => "context_limit",
            EngineError::Cancelled => "cancelled",
            _ => "error",
        }
    }
}

/// What ended a run that was driven step by step.
#[derive(Debug)]
pub enum DriverError {
    Prompt { max_turns: bool, message: String },
    Completion(ProviderFailure),
    ContextLimit(String),
    Cancelled,
    Projection(ProjectionError),
    Telemetry(String),
    Serialization(String),
    NoSafeCompactionBoundary,
    EmptyCompactionSummary,
    RecordingFailure,
}

/// The driver's error for what ended a run.
pub open spec fn driver_error_of(error: EngineError) -> DriverError {
    match error {
        EngineError::Prompt { max_turns, message } => DriverError::Prompt { max_turns, message },
        EngineError::Completion(failure) => DriverError::Completion(failure),
        EngineError::ContextLimit(message) => DriverError::ContextLimit(message),
        EngineError::Cancelled => DriverError::Cancelled,
        EngineError::Projection(error) => DriverError::Projection(error),
        EngineError::Serialization(message) => DriverError::Serialization(message),
        EngineError::Observer(ObserverError::Telemetry(message)) => DriverError::Telemetry(message),
        EngineError::Observer(ObserverError::Serialization(message)) => DriverError::Serialization(
            message,
        ),
        EngineError::RecordingFailure => DriverError::RecordingFailure,
        EngineError::NoSafeCompactionBoundary => DriverError::NoSafeCompactionBoundary,
        EngineError::EmptyCompactionSummary => DriverError::EmptyCompactionSummary,
    }
}

impl DriverError {
    /// The driver's error for what ended a run.
    pub fn from_engine(error: EngineError) -> (out: DriverError)
        ensures
            out == driver_error_of(error),
    {
        match error {
            EngineError::Prompt { max_turns, message } => {
                DriverError::Prompt { max_turns, message }
            },
            EngineError::Completion(failure) => DriverError::Completion(failure),
            EngineError::ContextLimit(message) => DriverError::ContextLimit(message),
            EngineError::Cancelled => DriverError::Cancelled,
            EngineError::Projection(error) => DriverError::Projection(error),
            EngineError::Serialization(message) => DriverError::Serialization(message),
            EngineError::Observer(ObserverError::Telemetry(message)) => {
                DriverError::Telemetry(message)
            },
            EngineError::Observer(ObserverError::Serialization(message)) => {
                DriverError::Serialization(message)
            },
            EngineError::RecordingFailure => DriverError::RecordingFailure,
            EngineError::NoSafeCompactionBoundary => DriverError::NoSafeCompactionBoundary,
            EngineError::EmptyCompactionSummary => DriverError::EmptyCompactionSummary,
        }
    }

    pub open spec fn text(self) -> Seq<char> {
        match self {
            DriverError::Prompt { max_turns, message } => "agent run failed: "@ + message@,
            DriverError::Completion(failure) => "provider completion failed: "@
                + failure.display@,
            DriverError::ContextLimit(message) => "context limit: "@ + message@,
            DriverError::Cancelled => "agent run was canceled"@,
            DriverError::Projection(_) =>
                "history projection failed: canonical history diverged before the compaction watermark"@,
            DriverError::Telemetry(message) => "telemetry database failed: "@ + message@,
            DriverError::Serialization(message) => "agent state serialization failed: "@
                + message@,
            DriverError::NoSafeCompactionBoundary => "history has no safe compaction boundary"@,
            DriverError::EmptyCompactionSummary =>
                "compaction response contained no summary text"@,
            DriverError::RecordingFailure => "tool telemetry recording failed"@,
        }
    }

    /// The text shown for the error.
    pub fn message(&self) -> (out: String)
        ensures
            out@ == self.text(),
    {
        match self {
            DriverError::Prompt { max_turns: _, message } => labelled("agent run failed: ", message),
            DriverError::Completion(failure) => {
                labelled("provider completion failed: ", &failure.display)
            },
            DriverError::ContextLimit(message) => labelled("context limit: ", message),
            DriverError::Cancelled => "agent run was canceled".to_owned(),
            DriverError::Projection(_) => {
                "history projection failed: canonical history diverged before the compaction watermark".to_owned()
            },
            DriverError::Telemetry(message) => labelled("telemetry database failed: ", message),
            DriverError::Serialization(message) => {
                labelled("agent state serialization failed: ", message)
            },
            DriverError::NoSafeCompactionBoundary => {
                "history has no safe compaction boundary".to_owned()
            },
            DriverError::EmptyCompactionSummary => {
                "compaction response contained no summary text".to_owned()
            },
            DriverError::RecordingFailure => "tool telemetry recording failed".to_owned(),
        }
    }
}

fn labelled(label: &str, value: &String) -> (out: String)
    ensures
        out@ == label@ + value@,
{
    let mut out = label.to_owned();
    out.append(value.as_str());
    out
}

/// What ended the triage of an event.
#[derive(Debug)]
pub enum TriageError {
    UnavailableEvent,
    SkillValidation(String),
    Configuration(String),
    WallTimeout,
    Cancelled,
    RecordingFailure,
    ContextLimit(String),
    NoSafeCompactionBoundary,
    Driver(DriverError),
    Completion(ProviderFailure),
    Prompt { max_turns: bool, message: String },
    Projection(ProjectionError),
    Database(DatabaseError),
    Config(ConfigError),
    Io(String),
    Json(String),
    Other(String),
}

/// The error of a run for what ended its engine.
pub open spec fn triage_error_of(error: EngineError) -> TriageError {
    match error {
        EngineError::Prompt { max_turns, message } => TriageError::Prompt { max_turns, message },
        EngineError::Completion(failure) => TriageError::Completion(failure),
        EngineError::ContextLimit(message) => TriageError::ContextLimit(message),
        EngineError::Cancelled => TriageError::Cancelled,
        EngineError::Projection(error) => TriageError::Projection(error),
        EngineError::Serialization(message) => TriageError::Json(message),
        EngineError::Observer(ObserverError::Telemetry(message)) => TriageError::Other(message),
        EngineError::Observer(ObserverError::Serialization(message)) => TriageError::Json(message),
        EngineError::RecordingFailure => TriageError::RecordingFailure,
        EngineError::NoSafeCompactionBoundary => TriageError::NoSafeCompactionBoundary,
        EngineError::EmptyCompactionSummary => TriageError::Driver(
            DriverError::EmptyCompactionSummary,
        ),
    }
}

impl TriageError {
    /// The error of a run for what ended its engine.
    pub fn from_engine(error: EngineError) -> (out: TriageError)
        ensures
            out == triage_error_of(error),
    {
        match error {
            EngineError::Prompt { max_turns, message } => {
                TriageError::Prompt { max_turns, message }
            },
            EngineError::Completion(failure) => TriageError::Completion(failure),
            EngineError::ContextLimit(message) => TriageError::ContextLimit(message),
            EngineError::Cancelled => TriageError::Cancelled,
            EngineError::Projection(error) => TriageError::Projection(error),
            EngineError::Serialization(message) => TriageError::Json(message),
            EngineError::Observer(ObserverError::Telemetry(message)) => {
                TriageError::Other(message)
            },
            EngineError::Observer(ObserverError::Serialization(message)) => {
                TriageError::Json(message)
            },
            EngineError::RecordingFailure => TriageError::RecordingFailure,
            EngineError::NoSafeCompactionBoundary => TriageError::NoSafeCompactionBoundary,
            EngineError::EmptyCompactionSummary => {
                TriageError::Driver(DriverError::EmptyCompactionSummary)
            },
        }
    }

    pub open spec fn category_of(self) -> ErrorCategory {
        match self {
            TriageError::WallTimeout => ErrorCategory::Timeout,
            TriageError::Cancelled => ErrorCategory::Aborted,
            TriageError::ContextLimit(_) => ErrorCategory::ContextLimit,
            TriageError::Completion(failure) => failure_category(failure),
            TriageError::Prompt { max_turns: true, .. } => ErrorCategory::TurnLimit,
            TriageError::Other(message) => {
                let category = message_category(message@);
                if category == ErrorCategory::Authentication || category
                    == ErrorCategory::NotFound {
                    category
                } else {
                    ErrorCategory::Unknown
                }
            },
            _ => ErrorCategory::Unknown,
        }
    }

    /// The category of the error.
    pub fn category(&self) -> (category: ErrorCategory)
        ensures
            category == self.category_of(),
    {
        match self {
            TriageError::WallTimeout => ErrorCategory::Timeout,
            TriageError::Cancelled => ErrorCategory::Aborted,
            TriageError::ContextLimit(_) => ErrorCategory::ContextLimit,
            TriageError::Completion(failure) => completion_category(failure),
            TriageError::Prompt { max_turns, message: _ } => {
                if *max_turns {
                    ErrorCategory::TurnLimit
                } else {
                    ErrorCategory::Unknown
                }
            },
            TriageError::Other(message) => {
                let category = classify_message(message.as_str());
                if category == ErrorCategory::Authentication || category
                    == ErrorCategory::NotFound {
                    category
                } else {
                    ErrorCategory::Unknown
                }
            },
            _ => ErrorCategory::Unknown,
        }
    }

    /// The reason that is recorded for the end of the run.
    pub fn termination_reason(&self) -> (out: &'static str)
        ensures
            out@ == termination_of(self.category_of()),
    {
        match self.category() {
            ErrorCategory::Timeout => "wall_timeout",
            ErrorCategory::TurnLimit => "turn_limit",
            ErrorCategory::Aborted => "aborted",
            ErrorCategory::ContextLimit => "context_limit",
            ErrorCategory::ModelUnavailable => "model_error",
            ErrorCategory::Authentication => "model_error",
            ErrorCategory::RateLimit => "model_error",
            ErrorCategory::Connection => "model_error",
            ErrorCategory::NotFound => "model_error",
            _ => "failed",
        }
    }

    pub open spec fn text(self) -> Seq<char> {
        match self {
            TriageError::UnavailableEvent => "event content is unavailable for triage"@,
            TriageError::SkillValidation(message) => "skill validation failed: "@ + message@,
            TriageError::Configuration(message) => "triage configuration failed: "@ + message@,
            TriageError::WallTimeout => "triage exceeded its wall-clock limit"@,
            TriageError::Cancelled => "triage was canceled"@,
            TriageError::RecordingFailure => "triage telemetry recording failed"@,
            TriageError::ContextLimit(message) => "context limit: "@ + message@,
            TriageError::NoSafeCompactionBoundary => "history has no safe compaction boundary"@,
            TriageError::Driver(error) => error.text(),
            TriageError::Completion(failure) => "provider completion failed: "@
                + failure.display@,
            TriageError::Prompt { max_turns, message } => message@,
            TriageError::Projection(_) =>
                "canonical history diverged before the compaction watermark"@,
            TriageError::Database(error) => error.text(),
            TriageError::Config(error) => error.text(),
            TriageError::Io(message) => message@,
            TriageError::Json(message) => message@,
            TriageError::Other(message) => message@,
        }
    }

    /// The text shown for the error.
    pub fn message(&self) -> (out: String)
        ensures
            out@ == self.text(),
    {
        match self {
            TriageError::UnavailableEvent => "event content is unavailable for triage".to_owned(),
            TriageError::SkillValidation(message) => {
                labelled("skill validation failed: ", message)
            },
            TriageError::Configuration(message) => {
                labelled("triage configuration failed: ", message)
            },
            TriageError::WallTimeout => "triage exceeded its wall-clock limit".to_owned(),
            TriageError::Cancelled => "triage was canceled".to_owned(),
            TriageError::RecordingFailure => "triage telemetry recording failed".to_owned(),
            TriageError::ContextLimit(message) => labelled("context limit: ", message),
            TriageError::NoSafeCompactionBoundary => {
                "history has no safe compaction boundary".to_owned()
            },
            TriageError::Driver(error) => error.message(),
            TriageError::Completion(failure) => {
                labelled("provider completion failed: ", &failure.display)
            },
            TriageError::Prompt { max_turns: _, message } => message.clone(),
            TriageError::Projection(error) => error.message(),
            TriageError::Database(error) => error.message(),
            TriageError::Config(error) => error.message(),
            TriageError::Io(message) => message.clone(),
            TriageError::Json(message) => message.clone(),
            TriageError::Other(message) => message.clone(),
        }
    }
}

/// The reason that is recorded for the end of a run with an error of the category.
pub open spec fn termination_of(category: ErrorCategory) -> Seq<char> {
    match category {
        ErrorCategory::Timeout => "wall_timeout"@,
        ErrorCategory::TurnLimit => "turn_limit"@,
        ErrorCategory::Aborted => "aborted"@,
        ErrorCategory::ContextLimit => "context_limit"@,
        ErrorCategory::ModelUnavailable => "model_error"@,
        ErrorCategory::Authentication => "model_error"@,
        ErrorCategory::RateLimit => "model_error"@,
        ErrorCategory::Connection => "model_error"@,
        ErrorCategory::NotFound => "model_error"@,
        _ => "failed"@,
    }
}

/// The status of a reply decides the category of its failure before its words do.
pub proof fn law_statuses_decide_categories(failure: ProviderFailure)
    ensures
        failure.status == Some(401u16) || failure.status == Some(403u16) ==> failure_category(
            failure,
        ) == ErrorCategory::Authentication,
        failure.status == Some(404u16) ==> failure_category(failure) == ErrorCategory::NotFound,
        failure.status == Some(408u16) || failure.status == Some(504u16) ==> failure_category(
            failure,
        ) == ErrorCategory::Timeout,
        failure.status == Some(429u16) ==> failure_category(failure) == ErrorCategory::RateLimit,
        failure.status != Some(401u16) && failure.status != Some(403u16) && failure.status
            != Some(404u16) && failure.status != Some(408u16) && failure.status != Some(504u16)
            && failure.status != Some(429u16) && failure.code is Some && failure.code->0@
            == "context_length_exceeded"@ ==> failure_category(failure)
            == ErrorCategory::ContextLimit,
{
}

/// What is recorded as the reason for which a run ended agrees with its category: the limits of
/// time, of turns and of the context, a cancellation, a failure of the model, and any other.
pub proof fn law_reasons_follow_categories(category: ErrorCategory)
    ensures
        termination_of(category) == "wall_timeout"@ <==> category == ErrorCategory::Timeout,
        termination_of(category) == "turn_limit"@ <==> category == ErrorCategory::TurnLimit,
        termination_of(category) == "aborted"@ <==> category == ErrorCategory::Aborted,
        termination_of(category) == "context_limit"@ <==> category == ErrorCategory::ContextLimit,
        termination_of(category) == "model_error"@ <==> (category
            == ErrorCategory::ModelUnavailable || category == ErrorCategory::Authentication
            || category == ErrorCategory::RateLimit || category == ErrorCategory::Connection
            || category == ErrorCategory::NotFound),
        termination_of(category) == "failed"@ <==> (category == ErrorCategory::Interrupted
            || category == ErrorCategory::ToolFailure || category == ErrorCategory::Unknown),
{
    reveal_strlit("wall_timeout");
    reveal_strlit("turn_limit");
    reveal_strlit("aborted");
    reveal_strlit("context_limit");
    reveal_strlit("model_error");
    reveal_strlit("failed");
    assert("wall_timeout"@.len() == 12 && "turn_limit"@.len() == 10 && "aborted"@.len() == 7
        && "context_limit"@.len() == 13 && "model_error"@.len() == 11 && "failed"@.len() == 6);
}

/// What ends the engine decides the category of its run: the limits of turns and of the context
/// and a cancellation keep theirs, and a failed completion has that of its failure.
pub proof fn law_engine_errors_keep_their_category(error: EngineError)
    ensures
        error is Cancelled ==> triage_error_of(error).category_of() == ErrorCategory::Aborted,
        error is ContextLimit ==> triage_error_of(error).category_of()
            == ErrorCategory::ContextLimit,
        error matches EngineError::Completion(failure) ==> triage_error_of(error).category_of()
            == failure_category(failure),
        error matches EngineError::Prompt { max_turns, .. } ==> (triage_error_of(
            error,
        ).category_of() == ErrorCategory::TurnLimit <==> max_turns),
        error is Projection || error is Serialization || error is RecordingFailure
            || error is NoSafeCompactionBoundary || error is EmptyCompactionSummary
            ==> triage_error_of(error).category_of() == ErrorCategory::Unknown,
{
}

} // verus!
