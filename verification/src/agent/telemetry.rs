//! What is recorded of the retries and compactions of a run, and the state of a run that was
//! canceled.
use vstd::prelude::*;

use crate::agent::driver::SpanFinish;
use crate::database::records::{clamped, saturating_i64, Usage};
use crate::text;

verus! {

/// The last state of a run, kept for the case that it is canceled.
#[derive(Debug)]
pub struct CancellationTelemetry {
    state: Option<String>,
}

impl View for CancellationTelemetry {
    type V = Option<Seq<char>>;

    closed spec fn view(&self) -> Option<Seq<char>> {
        text::opt_text(self.state)
    }
}

impl Default for CancellationTelemetry {
    fn default() -> (telemetry: Self)
        ensures
            telemetry@ is None,
    {
        CancellationTelemetry { state: None }
    }
}

impl CancellationTelemetry {
    /// Keeps the state of a run, as it is written, in place of an earlier one.
    pub fn checkpoint(&mut self, serialized: String)
        ensures
            final(self)@ == Some(serialized@),
    {
        self.state = Some(serialized);
    }

    /// The last state of the run, where one was kept.
    pub fn serialized_state(&self) -> (state: Option<String>)
        ensures
            text::opt_text(state) == self@,
    {
        text::copy_opt(&self.state)
    }
}

/// What is recorded of a retry.
#[derive(Debug, PartialEq, Eq)]
pub struct RetryRow {
    pub scope: String,
    pub attempt: i64,
    pub reason: String,
    pub delay_ms: i64,
    pub outcome: String,
}

/// What is recorded of a compaction.
#[derive(Debug, PartialEq, Eq)]
pub struct CompactionRow {
    pub reason: String,
    pub source_message_count: i64,
    pub input_tokens: Option<i64>,
    pub output_tokens: Option<i64>,
    pub outcome: String,
}

/// The outcome that is recorded for the end of a retry or a compaction.
pub open spec fn outcome_of(finish: SpanFinish) -> Seq<char> {
    match finish {
        SpanFinish::Completed => "completed"@,
        SpanFinish::Failed => "failed"@,
        SpanFinish::Interrupted => "interrupted"@,
    }
}

/// The outcome that is recorded for the end of a retry or a compaction.
pub fn span_outcome(finish: SpanFinish) -> (out: &'static str)
    ensures
        out@ == outcome_of(finish),
{
    match finish {
        SpanFinish::Completed => "completed",
        SpanFinish::Failed => "failed",
        SpanFinish::Interrupted => "interrupted",
    }
}

impl RetryRow {
    /// The row of a retry that has begun.
    pub fn start(scope: &str, attempt: u64, reason: &str, delay_ms: u64) -> (row: Self)
        ensures
            row.scope@ == scope@,
            row.attempt == clamped(attempt as nat),
            row.reason@ == reason@,
            row.delay_ms == clamped(delay_ms as nat),
            row.outcome@ == "open"@,
    {
        RetryRow {
            scope: scope.to_owned(),
            attempt: saturating_i64(attempt),
            reason: reason.to_owned(),
            delay_ms: saturating_i64(delay_ms),
            outcome: "open".to_owned(),
        }
    }

    /// Records the end of the retry. A row that is no longer open stays as it is.
    pub fn finish(&mut self, finish: SpanFinish)
        ensures
            final(self).scope == old(self).scope,
            final(self).attempt == old(self).attempt,
            final(self).reason == old(self).reason,
            final(self).delay_ms == old(self).delay_ms,
            final(self).outcome@ == (if old(self).outcome@ == "open"@ {
                outcome_of(finish)
            } else {
                old(self).outcome@
            }),
    {
        if text::same(self.outcome.as_str(), "open") {
            self.outcome = span_outcome(finish).to_owned();
        }
    }
}

/// The tokens that are recorded: none where the provider reported no usage.
pub open spec fn recorded_tokens(usage: Option<Usage>) -> (Option<i64>, Option<i64>) {
    match usage {
        Some(usage) => if usage.reported() {
            (
                Some(clamped(usage.input_tokens as nat)),
                Some(clamped(usage.output_tokens as nat)),
            )
        } else {
            (None, None)
        },
        None => (None, None),
    }
}

impl CompactionRow {
    /// The row of a compaction that has begun.
    pub fn start(reason: &str, source_message_count: u64) -> (row: Self)
        ensures
            row.reason@ == reason@,
            row.source_message_count == clamped(source_message_count as nat),
            row.input_tokens is None,
            row.output_tokens is None,
            row.outcome@ == "open"@,
    {
        CompactionRow {
            reason: reason.to_owned(),
            source_message_count: saturating_i64(source_message_count),
            input_tokens: None,
            output_tokens: None,
            outcome: "open".to_owned(),
        }
    }

    /// Records the end of the compaction and the usage that the provider reported for it. A row
    /// that is no longer open stays as it is.
    pub fn finish(&mut self, finish: SpanFinish, usage: Option<Usage>)
        ensures
            final(self).reason == old(self).reason,
            final(self).source_message_count == old(self).source_message_count,
            old(self).outcome@ != "open"@ ==> {
                &&& final(self).outcome@ == old(self).outcome@
                &&& final(self).input_tokens == old(self).input_tokens
                &&& final(self).output_tokens == old(self).output_tokens
            },
            old(self).outcome@ == "open"@ ==> {
                &&& final(self).outcome@ == outcome_of(finish)
                &&& (final(self).input_tokens, final(self).output_tokens) == recorded_tokens(
                    if finish is Interrupted {
                        None
                    } else {
                        usage
                    },
                )
            },
    {
        if text::same(self.outcome.as_str(), "open") {
            self.outcome = span_outcome(finish).to_owned();
            self.input_tokens = None;
            self.output_tokens = None;
            if let (Some(usage), false) = (usage, matches!(finish, SpanFinish::Interrupted)) {
                if usage.has_values() {
                    self.input_tokens = Some(saturating_i64(usage.input_tokens));
                    self.output_tokens = Some(saturating_i64(usage.output_tokens));
                }
            }
        }
    }
}

} // verus!
