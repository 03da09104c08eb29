//! The requests that change what is stored, and what holds of it whatever is requested.
use vstd::prelude::*;

use crate::database::queue::{
    attempts_left, claimed, event_place, handled_entities, ignored, ignored_count, joined,
    last_run, next_claim, next_try, retried, retried_count, stale_count, succeeded, with_claim,
    with_recovery, with_run,
};
use crate::database::records::{
    clamped, CompactionFinish, CompactionId, DatabaseError, RetryId, RetryStart, RunFinish, RunId,
    RunMetadata, SpanOutcome, ToolId, TriageConclusion, TurnFinish, TurnId, FIRST_MOMENT,
    LAST_MOMENT,
};
use crate::database::runs::{
    compacted, compaction_step, described, ended_retry, ended_step, ended_turn, finished_end, full,
    last_ordinal, new_compaction, new_retry, next_step, tool_step, touched_runs, turn_number,
    with_compaction, with_ended_runs, with_prompt, with_retry, with_step, with_turn, word_step,
};
use crate::database::sources::{
    with_command, with_failure, with_items, with_success, Refusal, ReportedItem,
};
use crate::database::tables::{
    compaction_spans, count_hits, fresh, opt_conclusion, retry_spans, step_spans, turn_spans,
    CompactionModel, EventModel, RetryModel, RunModel, StepModel, Store, StoreModel, TurnModel,
};
use crate::errors::ErrorCategory;
use crate::text;

verus! {

/// A request that changes what is stored.
#[derive(Debug)]
pub enum WriteOperation {
    SourceSucceeded {
        source: String,
        checkpoint: String,
        items: Vec<ReportedItem>,
        observed_at: i64,
    },
    SourceFailed { source: String, error: String, now: i64 },
    ClaimNext { now: i64 },
    RecoverInterrupted { stale_before: i64, now: i64 },
    StartRun { event_id: i64, attempt: u32, now: i64 },
    SetRunMetadata { run_id: RunId, metadata: RunMetadata, now: i64 },
    RecordPrompt { run_id: RunId, role: String, content: String, now: i64 },
    StartTurn { run_id: RunId, now: i64 },
    FinishTurn { run_id: RunId, turn_id: TurnId, finish: TurnFinish, now: i64 },
    StartTool {
        run_id: RunId,
        turn_id: Option<TurnId>,
        name: String,
        summary: Option<String>,
        now: i64,
    },
    FinishTool { run_id: RunId, tool_id: ToolId, outcome: SpanOutcome, now: i64 },
    StartRetry { run_id: RunId, turn_id: Option<TurnId>, retry: RetryStart, now: i64 },
    FinishRetry {
        run_id: RunId,
        retry_id: RetryId,
        outcome: SpanOutcome,
        error_category: Option<ErrorCategory>,
        now: i64,
    },
    StartCompaction { run_id: RunId, turn_id: Option<TurnId>, reason: String, now: i64 },
    FinishCompaction {
        run_id: RunId,
        compaction_id: CompactionId,
        finish: CompactionFinish,
        now: i64,
    },
    RecordAssistantText { run_id: RunId, turn_id: Option<TurnId>, words: String, now: i64 },
    RecordReasoning { run_id: RunId, turn_id: Option<TurnId>, summary: Option<String>, now: i64 },
    FinishRun {
        run_id: RunId,
        finish: RunFinish,
        conclusion: Option<TriageConclusion>,
        now: i64,
    },
    Succeed { event_id: i64, now: i64 },
    Fail {
        event_id: i64,
        error: String,
        max_attempts: u32,
        retry_base_seconds: u64,
        now: i64,
    },
    Retry { event_id: i64, now: i64 },
    Ignore { event_id: i64, now: i64 },
    RecordCommand { event_id: i64, executable: String, exit_code: i32, output: String, now: i64 },
}

/// The answer to a request.
#[derive(Debug)]
pub enum WriteReply {
    Done,
    Count(usize),
    Claimed(Option<i64>),
    /// The number of what has begun.
    Started(i64),
    Changed(bool),
}

/// Why a request is refused.
pub enum Fault {
    UnknownEvent(i64),
    UnknownSpan,
    Full,
    Json(Seq<char>),
    Invalid(Seq<char>),
}

/// What the contracts say of the answer to a request.
pub enum Outcome {
    Done,
    Count(nat),
    Claimed(Option<i64>),
    Started(i64),
    Changed(bool),
    Refused(Fault),
}

/// Whether the result is the one that the contracts speak of.
pub open spec fn answers(result: Result<WriteReply, DatabaseError>, outcome: Outcome) -> bool {
    match outcome {
        Outcome::Done => result matches Ok(WriteReply::Done),
        Outcome::Count(n) => result matches Ok(WriteReply::Count(count)) && count == n,
        Outcome::Claimed(id) => result matches Ok(WriteReply::Claimed(claimed)) && claimed == id,
        Outcome::Started(id) => result matches Ok(WriteReply::Started(started)) && started == id,
        Outcome::Changed(b) => result matches Ok(WriteReply::Changed(changed)) && changed == b,
        Outcome::Refused(Fault::UnknownEvent(id)) => result matches Err(
            DatabaseError::UnknownEvent(event),
        ) && event == id,
        Outcome::Refused(Fault::UnknownSpan) => result matches Err(DatabaseError::UnknownSpan),
        Outcome::Refused(Fault::Full) => result matches Err(error) && full(error),
        Outcome::Refused(Fault::Json(expected)) => result matches Err(DatabaseError::Json(message))
            && message@ == expected,
        Outcome::Refused(Fault::Invalid(expected)) => result matches Err(
            DatabaseError::InvalidValue(message),
        ) && message@ == expected,
    }
}

/// Whether the moments that a request leads to can be represented.
pub open spec fn fits(store: StoreModel, operation: WriteOperation) -> bool {
    match operation {
        WriteOperation::StartRetry { retry, now, .. } => now + clamped(retry.delay_ms as nat)
            <= LAST_MOMENT,
        WriteOperation::Fail { event_id, max_attempts, retry_base_seconds, now, .. } => {
            &&& FIRST_MOMENT <= now
            &&& joined(store, event_id) matches Some((event, _)) ==> (next_try(
                event,
                max_attempts,
                retry_base_seconds,
                now,
            ) matches Some(moment) ==> moment <= LAST_MOMENT)
        },
        _ => true,
    }
}

/// What is stored after a request, and the answer to it.
pub open spec fn served(store: StoreModel, operation: WriteOperation) -> (StoreModel, Outcome) {
    match operation {
        WriteOperation::SourceSucceeded { source, checkpoint, items, observed_at } => {
            match with_items(store, source@, items@, observed_at) {
                Ok((after, inserted)) => (
                    StoreModel {
                        sources: with_success(
                            store.sources,
                            source@,
                            checkpoint@,
                            observed_at,
                        ),
                        ..after
                    },
                    Outcome::Count(inserted),
                ),
                Err(Refusal::Json(message)) => (store, Outcome::Refused(Fault::Json(message))),
                Err(Refusal::Full) => (store, Outcome::Refused(Fault::Full)),
            }
        },
        WriteOperation::SourceFailed { source, error, now } => (
            StoreModel {
                sources: with_failure(
                    store.sources,
                    source@,
                    text::byte_prefix(error@, 4096),
                    now,
                ),
                ..store
            },
            Outcome::Done,
        ),
        WriteOperation::ClaimNext { now } => match next_claim(
            store.events,
            now,
            store.events.len() as int,
        ) {
            None => (store, Outcome::Claimed(None)),
            Some(i) => if attempts_left(store.events, store.events[i].id) {
                (with_claim(store, i, now), Outcome::Claimed(Some(store.events[i].id)))
            } else {
                (store, Outcome::Refused(Fault::Invalid("attempt count is out of range"@)))
            },
        },
        WriteOperation::RecoverInterrupted { stale_before, now } => (
            with_recovery(store, stale_before, now),
            Outcome::Count(stale_count(store.events, stale_before)),
        ),
        WriteOperation::StartRun { event_id, attempt, now } => match event_place(
            store.events,
            event_id,
            0,
        ) {
            None => (store, Outcome::Refused(Fault::UnknownEvent(event_id))),
            Some(i) => match fresh(store.runs.map_values(|run: RunModel| run.id)) {
                Some(id) => (with_run(store, i, id, attempt, now), Outcome::Started(id)),
                None => (store, Outcome::Refused(Fault::Full)),
            },
        },
        WriteOperation::SetRunMetadata { run_id, metadata, now } => (
            StoreModel {
                runs: store.runs.map_values(
                    |run: RunModel| described(run, run_id.0, metadata, now),
                ),
                ..store
            },
            Outcome::Done,
        ),
        WriteOperation::RecordPrompt { run_id, role, content, now } => if role@ == "system"@
            || role@ == "user"@ {
            (
                StoreModel {
                    prompts: with_prompt(store.prompts, run_id.0, role@, content@, now),
                    runs: touched_runs(store.runs, run_id.0, now),
                    ..store
                },
                Outcome::Done,
            )
        } else {
            (store, Outcome::Refused(Fault::Invalid("unknown prompt role "@ + role@)))
        },
        WriteOperation::StartTurn { run_id, now } => match fresh(
            store.turns.map_values(|turn: TurnModel| turn.id),
        ) {
            Some(id) => if last_ordinal(store.turns, run_id.0) == i64::MAX {
                (store, Outcome::Refused(Fault::Full))
            } else {
                (with_turn(store, id, run_id.0, now), Outcome::Started(id))
            },
            None => (store, Outcome::Refused(Fault::Full)),
        },
        WriteOperation::FinishTurn { run_id, turn_id, finish, now } => {
            let turns = store.turns.map_values(
                |turn: TurnModel| ended_turn(turn, turn_id.0, run_id.0, finish, now),
            );
            if count_hits(turn_spans(store.turns), turn_id.0, run_id.0) == 1 {
                (
                    StoreModel {
                        turns,
                        runs: touched_runs(store.runs, run_id.0, now),
                        ..store
                    },
                    Outcome::Done,
                )
            } else {
                (StoreModel { turns, ..store }, Outcome::Refused(Fault::UnknownSpan))
            }
        },
        WriteOperation::StartTool { run_id, turn_id, name, summary, now } => match next_step(
            store,
        ) {
            Some(id) => (
                with_step(
                    store,
                    tool_step(
                        id,
                        run_id.0,
                        turn_number(turn_id),
                        name@,
                        text::opt_text(summary),
                        now,
                    ),
                    now,
                ),
                Outcome::Started(id),
            ),
            None => (store, Outcome::Refused(Fault::Full)),
        },
        WriteOperation::FinishTool { run_id, tool_id, outcome, now } => {
            let steps = store.steps.map_values(
                |step: StepModel| ended_step(step, tool_id.0, run_id.0, outcome, now),
            );
            if count_hits(step_spans(store.steps), tool_id.0, run_id.0) == 1 {
                (
                    StoreModel {
                        steps,
                        runs: touched_runs(store.runs, run_id.0, now),
                        ..store
                    },
                    Outcome::Done,
                )
            } else {
                (StoreModel { steps, ..store }, Outcome::Refused(Fault::UnknownSpan))
            }
        },
        WriteOperation::StartRetry { run_id, turn_id, retry, now } => match fresh(
            store.retries.map_values(|row: RetryModel| row.id),
        ) {
            Some(id) => (
                with_retry(
                    store,
                    new_retry(id, run_id.0, turn_number(turn_id), retry, now),
                    now,
                ),
                Outcome::Started(id),
            ),
            None => (store, Outcome::Refused(Fault::Full)),
        },
        WriteOperation::FinishRetry { run_id, retry_id, outcome, error_category, now } => {
            let retries = store.retries.map_values(
                |retry: RetryModel|
                    ended_retry(retry, retry_id.0, run_id.0, outcome, error_category, now),
            );
            if count_hits(retry_spans(store.retries), retry_id.0, run_id.0) == 1 {
                (
                    StoreModel {
                        retries,
                        runs: touched_runs(store.runs, run_id.0, now),
                        ..store
                    },
                    Outcome::Done,
                )
            } else {
                (StoreModel { retries, ..store }, Outcome::Refused(Fault::UnknownSpan))
            }
        },
        WriteOperation::StartCompaction { run_id, turn_id, reason, now } => match (
            fresh(store.compactions.map_values(|row: CompactionModel| row.id)),
            next_step(store),
        ) {
            (Some(id), Some(step)) => (
                with_compaction(
                    store,
                    new_compaction(id, run_id.0, turn_number(turn_id), reason@, now),
                    compaction_step(step, run_id.0, turn_number(turn_id), now),
                    now,
                ),
                Outcome::Started(id),
            ),
            _ => (store, Outcome::Refused(Fault::Full)),
        },
        WriteOperation::FinishCompaction { run_id, compaction_id, finish, now } => {
            if count_hits(compaction_spans(store.compactions), compaction_id.0, run_id.0) == 1 {
                (compacted(store, compaction_id.0, run_id.0, finish, now), Outcome::Done)
            } else {
                (store, Outcome::Refused(Fault::UnknownSpan))
            }
        },
        WriteOperation::RecordAssistantText { run_id, turn_id, words, now } => match next_step(
            store,
        ) {
            Some(id) => (
                with_step(
                    store,
                    word_step(
                        id,
                        run_id.0,
                        turn_number(turn_id),
                        "message"@,
                        "assistant"@,
                        Some(words@),
                        now,
                    ),
                    now,
                ),
                Outcome::Done,
            ),
            None => (store, Outcome::Refused(Fault::Full)),
        },
        WriteOperation::RecordReasoning { run_id, turn_id, summary, now } => match next_step(
            store,
        ) {
            Some(id) => (
                with_step(
                    store,
                    word_step(
                        id,
                        run_id.0,
                        turn_number(turn_id),
                        "thinking"@,
                        "thinking"@,
                        text::opt_text(summary),
                        now,
                    ),
                    now,
                ),
                Outcome::Done,
            ),
            None => (store, Outcome::Refused(Fault::Full)),
        },
        WriteOperation::FinishRun { run_id, finish, conclusion, now } => (
            with_ended_runs(
                store,
                seq![run_id.0],
                finished_end(store, run_id.0, finish, opt_conclusion(conclusion)),
                now,
            ),
            Outcome::Done,
        ),
        WriteOperation::Succeed { event_id, now } => (
            StoreModel {
                events: store.events.map_values(
                    |event: EventModel| succeeded(event, event_id, now),
                ),
                entities: handled_entities(store, event_id, "succeeded"@),
                ..store
            },
            Outcome::Done,
        ),
        WriteOperation::Fail { event_id, error, max_attempts, retry_base_seconds, now } => {
            match joined(store, event_id) {
                None => (store, Outcome::Refused(Fault::UnknownEvent(event_id))),
                Some((event, _)) => (
                    crate::database::queue::with_failure(
                        store,
                        event_id,
                        error@,
                        next_try(event, max_attempts, retry_base_seconds, now),
                        now,
                    ),
                    Outcome::Done,
                ),
            }
        },
        WriteOperation::Retry { event_id, now } => {
            let changed = retried_count(store.events, event_id) == 1;
            (
                StoreModel {
                    events: store.events.map_values(
                        |event: EventModel|
                            retried(event, event_id, last_run(store.runs, event_id), now),
                    ),
                    entities: if changed {
                        handled_entities(store, event_id, "retryable"@)
                    } else {
                        store.entities
                    },
                    ..store
                },
                Outcome::Changed(changed),
            )
        },
        WriteOperation::Ignore { event_id, now } => {
            let changed = ignored_count(store.events, event_id) == 1;
            (
                StoreModel {
                    events: store.events.map_values(
                        |event: EventModel| ignored(event, event_id, now),
                    ),
                    entities: if changed {
                        handled_entities(store, event_id, "ignored"@)
                    } else {
                        store.entities
                    },
                    ..store
                },
                Outcome::Changed(changed),
            )
        },
        WriteOperation::RecordCommand { event_id, executable, exit_code, output, now } => (
            with_command(store, event_id, executable@, exit_code, output@, now),
            Outcome::Done,
        ),
    }
}

fn done(result: Result<(), DatabaseError>) -> (out: Result<WriteReply, DatabaseError>)
    ensures
        match result {
            Ok(_) => out matches Ok(WriteReply::Done),
            Err(error) => out == Err::<WriteReply, DatabaseError>(error),
        },
{
    match result {
        Ok(()) => Ok(WriteReply::Done),
        Err(error) => Err(error),
    }
}

impl Store {
    /// Serves a request that changes what is stored. The moments that it leads to have to be
    /// ones that can be represented.
    pub fn dispatch_write(&mut self, operation: WriteOperation) -> (result: Result<
        WriteReply,
        DatabaseError,
    >)
        requires
            fits(old(self)@, operation),
        ensures
            answers(result, served(old(self)@, operation).1),
            final(self)@ == served(old(self)@, operation).0,
    {
        match operation {
            WriteOperation::SourceSucceeded { source, checkpoint, items, observed_at } => {
                match self.source_succeeded(
                    source.as_str(),
                    checkpoint.as_str(),
                    &items,
                    observed_at,
                ) {
                    Ok(inserted) => Ok(WriteReply::Count(inserted)),
                    Err(error) => Err(error),
                }
            },
            WriteOperation::SourceFailed { source, error, now } => {
                self.source_failed(source.as_str(), error.as_str(), now);
                Ok(WriteReply::Done)
            },
            WriteOperation::ClaimNext { now } => match self.claim_next(now) {
                Ok(id) => Ok(WriteReply::Claimed(id)),
                Err(error) => Err(error),
            },
            WriteOperation::RecoverInterrupted { stale_before, now } => {
                Ok(WriteReply::Count(self.recover_interrupted(stale_before, now)))
            },
            WriteOperation::StartRun { event_id, attempt, now } => {
                match self.start_run(event_id, attempt, now) {
                    Ok(run) => Ok(WriteReply::Started(run.0)),
                    Err(error) => Err(error),
                }
            },
            WriteOperation::SetRunMetadata { run_id, metadata, now } => {
                self.set_run_metadata(run_id, &metadata, now);
                Ok(WriteReply::Done)
            },
            WriteOperation::RecordPrompt { run_id, role, content, now } => {
                done(self.record_prompt(run_id, role.as_str(), content.as_str(), now))
            },
            WriteOperation::StartTurn { run_id, now } => match self.start_turn(run_id, now) {
                Ok(turn) => Ok(WriteReply::Started(turn.0)),
                Err(error) => Err(error),
            },
            WriteOperation::FinishTurn { run_id, turn_id, finish, now } => {
                done(self.finish_turn(run_id, turn_id, &finish, now))
            },
            WriteOperation::StartTool { run_id, turn_id, name, summary, now } => {
                match self.start_tool(run_id, turn_id, name.as_str(), &summary, now) {
                    Ok(tool) => Ok(WriteReply::Started(tool.0)),
                    Err(error) => Err(error),
                }
            },
            WriteOperation::FinishTool { run_id, tool_id, outcome, now } => {
                done(self.finish_tool(run_id, tool_id, outcome, now))
            },
            WriteOperation::StartRetry { run_id, turn_id, retry, now } => {
                match self.start_retry(run_id, turn_id, retry, now) {
                    Ok(number) => Ok(WriteReply::Started(number.0)),
                    Err(error) => Err(error),
                }
            },
            WriteOperation::FinishRetry { run_id, retry_id, outcome, error_category, now } => {
                done(self.finish_retry(run_id, retry_id, outcome, error_category, now))
            },
            WriteOperation::StartCompaction { run_id, turn_id, reason, now } => {
                match self.start_compaction(run_id, turn_id, reason.as_str(), now) {
                    Ok(number) => Ok(WriteReply::Started(number.0)),
                    Err(error) => Err(error),
                }
            },
            WriteOperation::FinishCompaction { run_id, compaction_id, finish, now } => {
                done(self.finish_compaction(run_id, compaction_id, &finish, now))
            },
            WriteOperation::RecordAssistantText { run_id, turn_id, words, now } => {
                done(self.record_assistant_text(run_id, turn_id, words.as_str(), now))
            },
            WriteOperation::RecordReasoning { run_id, turn_id, summary, now } => {
                done(self.record_reasoning(run_id, turn_id, &summary, now))
            },
            WriteOperation::FinishRun { run_id, finish, conclusion, now } => {
                self.finish_run(run_id, &finish, conclusion, now);
                Ok(WriteReply::Done)
            },
            WriteOperation::Succeed { event_id, now } => {
                self.succeed(event_id, now);
                Ok(WriteReply::Done)
            },
            WriteOperation::Fail { event_id, error, max_attempts, retry_base_seconds, now } => {
                done(self.fail(event_id, error.as_str(), max_attempts, retry_base_seconds, now))
            },
            WriteOperation::Retry { event_id, now } => {
                Ok(WriteReply::Changed(self.retry(event_id, now)))
            },
            WriteOperation::Ignore { event_id, now } => {
                Ok(WriteReply::Changed(self.ignore(event_id, now)))
            },
            WriteOperation::RecordCommand { event_id, executable, exit_code, output, now } => {
                self.record_command(
                    event_id,
                    executable.as_str(),
                    exit_code,
                    output.as_str(),
                    now,
                );
                Ok(WriteReply::Done)
            },
        }
    }

    /// Whether the moments that a request leads to can be represented.
    pub fn can_serve(&self, operation: &WriteOperation) -> (b: bool)
        ensures
            b == fits(self@, *operation),
    {
        match operation {
            WriteOperation::StartRetry { run_id: _, turn_id: _, retry, now } => {
                *now as i128 + crate::database::records::saturating_i64(retry.delay_ms) as i128
                    <= LAST_MOMENT as i128
            },
            WriteOperation::Fail { event_id, error: _, max_attempts, retry_base_seconds, now } => {
                if *now < FIRST_MOMENT {
                    return false;
                }
                match crate::database::queue::find_event(&self.events, *event_id) {
                    None => true,
                    Some(i) => {
                        assert(self@.events[i as int] == self.events@[i as int]@);
                        if crate::database::queue::find_entity(
                            &self.entities,
                            self.events[i].entity_id,
                        ).is_none() {
                            return true;
                        }
                        let attempts = self.events[i].attempt_count;
                        if attempts >= *max_attempts {
                            return true;
                        }
                        let delay = crate::database::records::saturating_i64(
                            crate::database::queue::backoff_seconds(attempts, *retry_base_seconds),
                        );
                        *now as i128 + delay as i128 * 1000 <= LAST_MOMENT as i128
                    },
                }
            },
            _ => true,
        }
    }
}

} // verus!
