//! What each request does to the record of a run.
use vstd::prelude::*;

use crate::database::operations::{served, Fault, Outcome, WriteOperation};
use crate::database::records::{
    CompactionFinish, CompactionId, ConclusionSource, RetryId, RetryStart, RunFinish, RunId,
    RunMetadata, RunOutcome, SpanOutcome, ToolId, TriageConclusion, TriageDecision, TurnFinish,
    TurnId,
};
use crate::database::runs::{last_compacting, last_ordinal, open_count};
use crate::database::tables::{
    compaction_spans, count_hits, count_of, count_open, fresh, law_fresh_ids_are_new, lemma_largest,
    retry_spans, step_spans, turn_spans, CompactionModel, RetryModel, RunModel, SpanModel,
    StepModel, StoreModel, TurnModel,
};
use crate::errors::ErrorCategory;
use crate::text;

verus! {

/// Whether the rows have numbers of their own.
pub open spec fn distinct(spans: Seq<SpanModel>) -> bool {
    forall|a: int, b: int|
        0 <= a < b < spans.len() ==> (#[trigger] spans[a]).id != (#[trigger] spans[b]).id
}

proof fn lemma_hits(spans: Seq<SpanModel>, id: i64, run_id: i64)
    requires
        distinct(spans),
    ensures
        count_hits(spans, id, run_id) <= 1,
        count_hits(spans, id, run_id) == 1 <==> exists|k: int|
            0 <= k < spans.len() && (#[trigger] spans[k]).id == id && spans[k].run_id == run_id
                && spans[k].open,
    decreases spans.len(),
{
    if spans.len() > 0 {
        let front = spans.drop_last();
        let last = spans.len() - 1;
        assert forall|a: int, b: int| 0 <= a < b < front.len() implies (#[trigger] front[a]).id != (
        #[trigger] front[b]).id by {
            assert(spans[a].id != spans[b].id);
        }
        lemma_hits(front, id, run_id);
        assert(spans[last] == spans.last());
        if count_hits(front, id, run_id) == 1 {
            let k = choose|k: int|
                0 <= k < front.len() && (#[trigger] front[k]).id == id && front[k].run_id == run_id
                    && front[k].open;
            assert(spans[k].id != spans[last].id);
            assert(spans[k] == front[k]);
        } else {
            assert forall|k: int|
                0 <= k < last && (#[trigger] spans[k]).id == id && spans[k].run_id
                    == run_id implies !spans[k].open by {
                assert(front[k] == spans[k]);
            }
        }
    }
}

/// The runs when something happened in one of them: only its last activity changes.
pub open spec fn touches(was: Seq<RunModel>, is: Seq<RunModel>, run_id: i64, now: i64) -> bool {
    &&& is.len() == was.len()
    &&& forall|r: int|
        0 <= r < was.len() ==> (#[trigger] is[r]) == (if was[r].id == run_id {
            RunModel { last_activity_at: now, ..was[r] }
        } else {
            was[r]
        })
}

// ---------------------------------------------------------------------------------------------
// The model and the prompts
// ---------------------------------------------------------------------------------------------

/// A run holds what was last said of its model, each part in its own place; no other run does.
pub proof fn law_runs_hold_their_model(
    store: StoreModel,
    run_id: RunId,
    metadata: RunMetadata,
    now: i64,
    r: int,
)
    requires
        0 <= r < store.runs.len(),
    ensures
        ({
            let (after, outcome) = served(
                store,
                WriteOperation::SetRunMetadata { run_id, metadata, now },
            );
            let was = store.runs[r];
            let is = after.runs[r];
            &&& outcome == Outcome::Done
            &&& after.runs.len() == store.runs.len()
            &&& after.events == store.events
            &&& after.turns == store.turns
            &&& was.id != run_id.0 ==> is == was
            &&& was.id == run_id.0 ==> {
                &&& is.model_id == text::opt_text(metadata.model_id)
                &&& is.model_provider == text::opt_text(metadata.model_provider)
                &&& is.thinking_level == text::opt_text(metadata.thinking_level)
                &&& is.context_window == metadata.context_window
                &&& is.max_tokens == metadata.max_tokens
                &&& is.last_activity_at == now
                &&& is.event_id == was.event_id
                &&& is.attempt == was.attempt
                &&& is.started_at == was.started_at
                &&& is.ended_at == was.ended_at
                &&& is.outcome == was.outcome
                &&& is.conclusion == was.conclusion
                &&& is.turn_count == was.turn_count
            }
        }),
{
}

/// After a prompt is recorded, the run has it: every prompt of the run and the role holds this
/// content, there is one, and every other prompt stays. A role that is neither that of the system
/// nor that of the user is refused and changes nothing.
pub proof fn law_prompts_are_kept(
    store: StoreModel,
    run_id: RunId,
    role: String,
    content: String,
    now: i64,
)
    ensures
        ({
            let (after, outcome) = served(
                store,
                WriteOperation::RecordPrompt { run_id, role, content, now },
            );
            if role@ == "system"@ || role@ == "user"@ {
                &&& outcome == Outcome::Done
                &&& exists|q: int|
                    0 <= q < after.prompts.len() && (#[trigger] after.prompts[q]).run_id
                        == run_id.0 && after.prompts[q].role == role@
                &&& forall|q: int|
                    0 <= q < after.prompts.len() && (#[trigger] after.prompts[q]).run_id
                        == run_id.0 && after.prompts[q].role == role@ ==> after.prompts[q].content
                        == content@ && after.prompts[q].recorded_at == now
                &&& forall|q: int|
                    0 <= q < store.prompts.len() ==> (#[trigger] after.prompts[q]).run_id
                        == store.prompts[q].run_id && after.prompts[q].role
                        == store.prompts[q].role && (store.prompts[q].run_id != run_id.0
                        || store.prompts[q].role != role@ ==> after.prompts[q]
                        == store.prompts[q])
                &&& after.prompts.len() == store.prompts.len() + (if exists|q: int|
                    0 <= q < store.prompts.len() && (#[trigger] store.prompts[q]).run_id
                        == run_id.0 && store.prompts[q].role == role@ {
                    0int
                } else {
                    1int
                })
                &&& after.events == store.events
            } else {
                &&& outcome is Refused
                &&& after == store
            }
        }),
{
    let after = served(store, WriteOperation::RecordPrompt { run_id, role, content, now }).0;
    if role@ == "system"@ || role@ == "user"@ {
        if exists|q: int|
            0 <= q < store.prompts.len() && (#[trigger] store.prompts[q]).run_id == run_id.0
                && store.prompts[q].role == role@ {
            let q = choose|q: int|
                0 <= q < store.prompts.len() && (#[trigger] store.prompts[q]).run_id == run_id.0
                    && store.prompts[q].role == role@;
            assert(after.prompts[q].run_id == run_id.0);
        } else {
            assert(after.prompts[store.prompts.len() as int].run_id == run_id.0);
        }
    }
}

// ---------------------------------------------------------------------------------------------
// Turns
// ---------------------------------------------------------------------------------------------

proof fn lemma_last_ordinal(turns: Seq<TurnModel>, run_id: i64)
    ensures
        last_ordinal(turns, run_id) >= 0,
        last_ordinal(turns, run_id) == 0 || exists|k: int|
            0 <= k < turns.len() && (#[trigger] turns[k]).run_id == run_id && turns[k].ordinal
                == last_ordinal(turns, run_id),
        forall|k: int|
            0 <= k < turns.len() && (#[trigger] turns[k]).run_id == run_id ==> turns[k].ordinal
                <= last_ordinal(turns, run_id),
    decreases turns.len(),
{
    if turns.len() > 0 {
        let front = turns.drop_last();
        lemma_last_ordinal(front, run_id);
        assert(turns[turns.len() - 1] == turns.last());
        if last_ordinal(front, run_id) != 0 {
            let k = choose|k: int|
                0 <= k < front.len() && (#[trigger] front[k]).run_id == run_id && front[k].ordinal
                    == last_ordinal(front, run_id);
            assert(turns[k] == front[k]);
        }
        assert forall|k: int| 0 <= k < turns.len() && (#[trigger] turns[k]).run_id == run_id implies turns[k].ordinal
            <= last_ordinal(turns, run_id) by {
            if k < front.len() {
                assert(front[k] == turns[k]);
            }
        }
    }
}

proof fn lemma_new_number<T>(rows: Seq<T>, id_of: spec_fn(T) -> i64)
    ensures
        match fresh(rows.map_values(id_of)) {
            Some(id) => forall|k: int| 0 <= k < rows.len() ==> id_of(#[trigger] rows[k]) != id,
            None => exists|k: int| 0 <= k < rows.len() && id_of(#[trigger] rows[k]) == i64::MAX,
        },
{
    let ids = rows.map_values(id_of);
    law_fresh_ids_are_new(ids);
    match fresh(ids) {
        Some(id) => {
            assert forall|k: int| 0 <= k < rows.len() implies id_of(#[trigger] rows[k]) != id by {
                assert(ids[k] == id_of(rows[k]));
                assert(ids.contains(ids[k]));
            }
        },
        None => {
            lemma_largest(ids);
            let k = choose|k: int| 0 <= k < ids.len() && ids[k] == i64::MAX;
            assert(id_of(rows[k]) == i64::MAX);
        },
    }
}

/// A turn that begins has a number that no turn had and the next ordinal of its run, which counts
/// from one; it is open and nothing is known of its usage. The run counts its turns, and nothing
/// else changes.
#[verifier::rlimit(40)]
pub proof fn law_turns_are_counted(store: StoreModel, run_id: RunId, now: i64, r: int)
    requires
        0 <= r < store.runs.len(),
        store.turns.len() < u32::MAX,
    ensures
        ({
            let (after, outcome) = served(store, WriteOperation::StartTurn { run_id, now });
            match outcome {
                Outcome::Started(id) => {
                    let turn = after.turns.last();
                    &&& after.turns.drop_last() == store.turns
                    &&& turn.id == id
                    &&& turn.run_id == run_id.0
                    &&& turn.started_at == now
                    &&& turn.ended_at is None
                    &&& turn.stop_reason is None
                    &&& turn.context_tokens is None
                    &&& turn.context_window is None
                    &&& turn.usage.input_tokens is None && turn.usage.output_tokens is None
                        && turn.usage.cache_read_tokens is None
                        && turn.usage.cache_write_tokens is None
                        && turn.usage.reasoning_tokens is None && turn.usage.total_tokens is None
                    &&& forall|k: int|
                        0 <= k < store.turns.len() ==> (#[trigger] store.turns[k]).id != id
                    &&& forall|k: int|
                        0 <= k < store.turns.len() && (#[trigger] store.turns[k]).run_id
                            == run_id.0 ==> store.turns[k].ordinal < turn.ordinal
                    &&& turn.ordinal == 1 || exists|k: int|
                        0 <= k < store.turns.len() && (#[trigger] store.turns[k]).run_id
                            == run_id.0 && store.turns[k].ordinal + 1 == turn.ordinal
                    &&& store.runs[r].id == run_id.0 ==> after.runs[r].last_activity_at == now
                        && after.runs[r].ended_at == store.runs[r].ended_at
                    &&& store.runs[r].id != run_id.0 ==> after.runs[r] == store.runs[r]
                    &&& after.steps == store.steps
                    &&& after.events == store.events
                },
                _ => outcome == Outcome::Refused(Fault::Full) && after == store,
            }
        }),
{
    let operation = WriteOperation::StartTurn { run_id, now };
    let after = served(store, operation).0;
    lemma_last_ordinal(store.turns, run_id.0);
    lemma_new_number(store.turns, |turn: TurnModel| turn.id);
    assert(seq![run_id.0].contains(store.runs[r].id) <==> store.runs[r].id == run_id.0) by {
        assert(seq![run_id.0][0] == run_id.0);
    }
    if served(store, operation).1 is Started {
        assert(after.turns.drop_last() =~= store.turns);
    }
}

proof fn lemma_count_none(spans: Seq<SpanModel>, run_id: i64)
    requires
        forall|k: int| 0 <= k < spans.len() ==> (#[trigger] spans[k]).run_id != run_id,
    ensures
        count_of(spans, run_id) == 0,
    decreases spans.len(),
{
    if spans.len() > 0 {
        let front = spans.drop_last();
        assert forall|k: int| 0 <= k < front.len() implies (#[trigger] front[k]).run_id
            != run_id by {
            assert(front[k] == spans[k]);
        }
        lemma_count_none(front, run_id);
        assert(spans[spans.len() - 1].run_id != run_id);
    }
}

proof fn lemma_count_bound(spans: Seq<SpanModel>, run_id: i64)
    ensures
        count_of(spans, run_id) <= spans.len(),
    decreases spans.len(),
{
    if spans.len() > 0 {
        lemma_count_bound(spans.drop_last(), run_id);
    }
}

/// The turns of a run are counted one by one: the first makes one, and each further one makes one
/// more.
#[verifier::rlimit(40)]
pub proof fn law_each_turn_counts_once(store: StoreModel, run_id: RunId, now: i64, r: int)
    requires
        0 <= r < store.runs.len(),
        store.runs[r].id == run_id.0,
        store.turns.len() < u32::MAX,
    ensures
        ({
            let operation = WriteOperation::StartTurn { run_id, now };
            let (once, first) = served(store, operation);
            let (twice, second) = served(once, operation);
            &&& first is Started && (forall|k: int|
                0 <= k < store.turns.len() ==> (#[trigger] store.turns[k]).run_id != run_id.0)
                ==> once.runs[r].turn_count == 1
            &&& first is Started && second is Started ==> twice.runs[r].turn_count
                == once.runs[r].turn_count + 1
        }),
{
    let operation = WriteOperation::StartTurn { run_id, now };
    let once = served(store, operation).0;
    let twice = served(once, operation).0;
    assert(seq![run_id.0].contains(run_id.0)) by {
        assert(seq![run_id.0][0] == run_id.0);
    }
    lemma_count_bound(turn_spans(store.turns), run_id.0);
    if served(store, operation).1 is Started {
        assert(turn_spans(once.turns).drop_last() =~= turn_spans(store.turns));
        assert(turn_spans(once.turns).last().run_id == run_id.0);
        if forall|k: int|
            0 <= k < store.turns.len() ==> (#[trigger] store.turns[k]).run_id != run_id.0 {
            lemma_count_none(turn_spans(store.turns), run_id.0);
        }
        if served(once, operation).1 is Started {
            assert(turn_spans(twice.turns).drop_last() =~= turn_spans(once.turns));
            assert(turn_spans(twice.turns).last().run_id == run_id.0);
        }
    }
}

/// An open turn of the run that is ended holds how it ended: a known reason as it is and no other,
/// and the usage that was reported. Every other turn stays. A turn that is not open, is of another
/// run or is not there is refused, and nothing changes.
pub proof fn law_ended_turns_hold_their_end(
    store: StoreModel,
    run_id: RunId,
    turn_id: TurnId,
    finish: TurnFinish,
    now: i64,
    k: int,
)
    requires
        distinct(turn_spans(store.turns)),
        0 <= k < store.turns.len(),
    ensures
        ({
            let (after, outcome) = served(
                store,
                WriteOperation::FinishTurn { run_id, turn_id, finish, now },
            );
            let was = store.turns[k];
            let is = after.turns[k];
            &&& after.turns.len() == store.turns.len()
            &&& if was.id == turn_id.0 && was.run_id == run_id.0 && was.ended_at is None {
                &&& outcome == Outcome::Done
                &&& is.ended_at == Some(now)
                &&& is.id == was.id
                &&& is.run_id == was.run_id
                &&& is.ordinal == was.ordinal
                &&& is.started_at == was.started_at
                &&& is.context_tokens == finish.context_tokens
                &&& is.context_window == finish.context_window
                &&& finish.usage matches Some(usage) ==> is.usage == usage
                &&& finish.usage is None ==> is.usage.input_tokens is None
                    && is.usage.output_tokens is None && is.usage.total_tokens is None
                    && is.usage.cache_read_tokens is None && is.usage.cache_write_tokens is None
                    && is.usage.reasoning_tokens is None
                &&& match finish.stop_reason {
                    Some(reason) => if reason@ == "stop"@ || reason@ == "length"@ || reason@
                        == "toolUse"@ || reason@ == "error"@ || reason@ == "aborted"@ {
                        is.stop_reason == Some(reason@)
                    } else {
                        is.stop_reason is None
                    },
                    None => is.stop_reason is None,
                }
            } else {
                is == was
            }
            &&& outcome != Outcome::Done ==> outcome == Outcome::Refused(Fault::UnknownSpan)
                && after.runs == store.runs
            &&& outcome == Outcome::Done ==> exists|i: int|
                0 <= i < store.turns.len() && (#[trigger] store.turns[i]).id == turn_id.0
                    && store.turns[i].run_id == run_id.0 && store.turns[i].ended_at is None
        }),
{
    let spans = turn_spans(store.turns);
    lemma_hits(spans, turn_id.0, run_id.0);
    assert(spans[k].id == store.turns[k].id);
    if exists|i: int|
        0 <= i < spans.len() && (#[trigger] spans[i]).id == turn_id.0 && spans[i].run_id == run_id.0
            && spans[i].open {
        let i = choose|i: int|
            0 <= i < spans.len() && (#[trigger] spans[i]).id == turn_id.0 && spans[i].run_id
                == run_id.0 && spans[i].open;
        assert(store.turns[i].id == turn_id.0);
    }
}

// ---------------------------------------------------------------------------------------------
// Steps
// ---------------------------------------------------------------------------------------------

/// A call of a tool that begins has a number that no step had, stands in the run and the turn that
/// were named, and is open. A plain name is kept. Nothing else changes but the activity of the run.
pub proof fn law_tool_calls_are_recorded(
    store: StoreModel,
    run_id: RunId,
    turn_id: Option<TurnId>,
    name: String,
    summary: Option<String>,
    now: i64,
)
    ensures
        ({
            let (after, outcome) = served(
                store,
                WriteOperation::StartTool { run_id, turn_id, name, summary, now },
            );
            match outcome {
                Outcome::Started(id) => {
                    let step = after.steps.last();
                    &&& after.steps.drop_last() == store.steps
                    &&& forall|k: int|
                        0 <= k < store.steps.len() ==> (#[trigger] store.steps[k]).id != id
                    &&& step.id == id
                    &&& step.run_id == run_id.0
                    &&& turn_id matches Some(turn) ==> step.turn_id == Some(turn.0)
                    &&& turn_id is None ==> step.turn_id is None
                    &&& step.kind == "tool"@
                    &&& step.started_at == now
                    &&& step.ended_at is None
                    &&& step.outcome is None
                    &&& step.summary is Some <==> summary is Some
                    &&& 0 < name@.len() <= 80 && ('a' <= name@[0] <= 'z' || 'A' <= name@[0] <= 'Z')
                        && (forall|i: int|
                        0 <= i < name@.len() ==> {
                            let c = #[trigger] name@[i];
                            'a' <= c <= 'z' || 'A' <= c <= 'Z' || '0' <= c <= '9' || c == '_' || c
                                == '.' || c == ':' || c == '-'
                        }) ==> step.label == name@
                    &&& (exists|i: int|
                        0 <= i < name@.len() && {
                            let c = #[trigger] name@[i];
                            !('a' <= c <= 'z' || 'A' <= c <= 'Z' || '0' <= c <= '9' || c == '_' || c
                                == '.' || c == ':' || c == '-')
                        }) ==> step.label == "tool"@
                    &&& touches(store.runs, after.runs, run_id.0, now)
                    &&& after.turns == store.turns
                    &&& after.events == store.events
                },
                _ => outcome == Outcome::Refused(Fault::Full) && after == store,
            }
        }),
{
    let operation = WriteOperation::StartTool { run_id, turn_id, name, summary, now };
    let after = served(store, operation).0;
    lemma_new_number(store.steps, |step: StepModel| step.id);
    if served(store, operation).1 is Started {
        assert(after.steps.drop_last() =~= store.steps);
    }
    if forall|i: int|
        0 <= i < name@.len() ==> {
            let c = #[trigger] name@[i];
            'a' <= c <= 'z' || 'A' <= c <= 'Z' || '0' <= c <= '9' || c == '_' || c == '.' || c
                == ':' || c == '-'
        } {
        assert forall|i: int| 0 <= i < name@.len() implies (#[trigger] name@[i] as u32)
            < 0x80 by {}
        text::lemma_byte_len_ascii(name@);
    }
}

/// An open call of the run that is ended holds how it ended; every other step stays. One that is
/// not open, is of another run or is not there is refused, and nothing changes.
pub proof fn law_ended_tool_calls_hold_their_end(
    store: StoreModel,
    run_id: RunId,
    tool_id: ToolId,
    outcome: SpanOutcome,
    now: i64,
    k: int,
)
    requires
        distinct(step_spans(store.steps)),
        0 <= k < store.steps.len(),
    ensures
        ({
            let (after, answer) = served(
                store,
                WriteOperation::FinishTool { run_id, tool_id, outcome, now },
            );
            let was = store.steps[k];
            let is = after.steps[k];
            &&& after.steps.len() == store.steps.len()
            &&& if was.id == tool_id.0 && was.run_id == run_id.0 && was.ended_at is None {
                &&& answer == Outcome::Done
                &&& is.ended_at == Some(now)
                &&& is.outcome == Some(
                    match outcome {
                        SpanOutcome::Succeeded => "succeeded"@,
                        SpanOutcome::Failed => "failed"@,
                        SpanOutcome::Aborted => "aborted"@,
                        SpanOutcome::Interrupted => "interrupted"@,
                    },
                )
                &&& is.id == was.id
                &&& is.run_id == was.run_id
                &&& is.turn_id == was.turn_id
                &&& is.kind == was.kind
                &&& is.label == was.label
                &&& is.summary == was.summary
                &&& is.started_at == was.started_at
            } else {
                is == was
            }
            &&& answer != Outcome::Done ==> answer == Outcome::Refused(Fault::UnknownSpan)
                && after.runs == store.runs
            &&& answer == Outcome::Done ==> touches(store.runs, after.runs, run_id.0, now)
                && exists|i: int|
                0 <= i < store.steps.len() && (#[trigger] store.steps[i]).id == tool_id.0
                    && store.steps[i].run_id == run_id.0 && store.steps[i].ended_at is None
        }),
{
    let spans = step_spans(store.steps);
    lemma_hits(spans, tool_id.0, run_id.0);
    assert(spans[k].id == store.steps[k].id);
    if exists|i: int|
        0 <= i < spans.len() && (#[trigger] spans[i]).id == tool_id.0 && spans[i].run_id == run_id.0
            && spans[i].open {
        let i = choose|i: int|
            0 <= i < spans.len() && (#[trigger] spans[i]).id == tool_id.0 && spans[i].run_id
                == run_id.0 && spans[i].open;
        assert(store.steps[i].id == tool_id.0);
    }
}

/// What the agent says and what it thinks are steps that have ended when they are recorded, each
/// under its own kind.
pub proof fn law_words_are_recorded(
    store: StoreModel,
    run_id: RunId,
    turn_id: Option<TurnId>,
    words: String,
    summary: Option<String>,
    now: i64,
)
    ensures
        ({
            let (after, outcome) = served(
                store,
                WriteOperation::RecordAssistantText { run_id, turn_id, words, now },
            );
            let step = after.steps.last();
            if outcome == Outcome::Done {
                &&& after.steps.drop_last() == store.steps
                &&& step.run_id == run_id.0
                &&& turn_id matches Some(turn) ==> step.turn_id == Some(turn.0)
                &&& turn_id is None ==> step.turn_id is None
                &&& step.kind == "message"@
                &&& step.label == "assistant"@
                &&& step.summary is Some
                &&& step.summary->0.len() <= 1001
                &&& step.started_at == now
                &&& step.ended_at == Some(now)
                &&& step.outcome == Some("succeeded"@)
                &&& touches(store.runs, after.runs, run_id.0, now)
            } else {
                outcome == Outcome::Refused(Fault::Full) && after == store
            }
        }),
        ({
            let (after, outcome) = served(
                store,
                WriteOperation::RecordReasoning { run_id, turn_id, summary, now },
            );
            let step = after.steps.last();
            if outcome == Outcome::Done {
                &&& after.steps.drop_last() == store.steps
                &&& step.run_id == run_id.0
                &&& turn_id matches Some(turn) ==> step.turn_id == Some(turn.0)
                &&& turn_id is None ==> step.turn_id is None
                &&& step.kind == "thinking"@
                &&& step.label == "thinking"@
                &&& step.summary is Some <==> summary is Some
                &&& step.started_at == now
                &&& step.ended_at == Some(now)
                &&& step.outcome == Some("succeeded"@)
                &&& touches(store.runs, after.runs, run_id.0, now)
            } else {
                outcome == Outcome::Refused(Fault::Full) && after == store
            }
        }),
{
    let said = served(
        store,
        WriteOperation::RecordAssistantText { run_id, turn_id, words, now },
    );
    let thought = served(store, WriteOperation::RecordReasoning { run_id, turn_id, summary, now });
    if said.1 == Outcome::Done {
        assert(said.0.steps.drop_last() =~= store.steps);
    }
    if thought.1 == Outcome::Done {
        assert(thought.0.steps.drop_last() =~= store.steps);
    }
}

// ---------------------------------------------------------------------------------------------
// Retries and compactions
// ---------------------------------------------------------------------------------------------

/// The name under which a category is stored, spelled out.
pub open spec fn category_word(category: ErrorCategory) -> Seq<char> {
    match category {
        ErrorCategory::Authentication => "authentication"@,
        ErrorCategory::RateLimit => "rate_limit"@,
        ErrorCategory::Timeout => "timeout"@,
        ErrorCategory::Connection => "connection"@,
        ErrorCategory::NotFound => "not_found"@,
        ErrorCategory::ModelUnavailable => "model_unavailable"@,
        ErrorCategory::ContextLimit => "context_limit"@,
        ErrorCategory::TurnLimit => "turn_limit"@,
        ErrorCategory::Aborted => "aborted"@,
        ErrorCategory::Interrupted => "interrupted"@,
        ErrorCategory::ToolFailure => "tool_failure"@,
        ErrorCategory::Unknown => "unknown"@,
    }
}

/// A retry that begins holds its attempt, how many there may be, its delay, when the wait is over
/// and why; it is open, and the run counts it.
pub proof fn law_retries_are_recorded(
    store: StoreModel,
    run_id: RunId,
    turn_id: Option<TurnId>,
    retry: RetryStart,
    now: i64,
)
    requires
        retry.delay_ms <= 1_000_000_000_000,
        0 <= now <= 253402300799999,
    ensures
        ({
            let (after, outcome) = served(
                store,
                WriteOperation::StartRetry { run_id, turn_id, retry, now },
            );
            match outcome {
                Outcome::Started(id) => {
                    let row = after.retries.last();
                    &&& after.retries.drop_last() == store.retries
                    &&& forall|k: int|
                        0 <= k < store.retries.len() ==> (#[trigger] store.retries[k]).id != id
                    &&& row.id == id
                    &&& row.run_id == run_id.0
                    &&& turn_id matches Some(turn) ==> row.turn_id == Some(turn.0)
                    &&& turn_id is None ==> row.turn_id is None
                    &&& row.attempt == retry.attempt
                    &&& row.max_attempts == retry.max_attempts
                    &&& row.delay_ms == retry.delay_ms
                    &&& row.started_at == now
                    &&& row.wait_ended_at == now + retry.delay_ms
                    &&& row.ended_at is None
                    &&& row.outcome is None
                    &&& row.error_category == (match retry.error_category {
                        Some(category) => Some(category_word(category)),
                        None => None,
                    })
                    &&& after.turns == store.turns
                    &&& after.steps == store.steps
                    &&& after.events == store.events
                },
                _ => outcome == Outcome::Refused(Fault::Full) && after == store,
            }
        }),
{
    let operation = WriteOperation::StartRetry { run_id, turn_id, retry, now };
    let after = served(store, operation).0;
    lemma_new_number(store.retries, |row: RetryModel| row.id);
    if served(store, operation).1 is Started {
        assert(after.retries.drop_last() =~= store.retries);
    }
}

/// The retries of a run are counted one by one: the first makes one, and each further one makes
/// one more.
#[verifier::rlimit(40)]
#[verifier::spinoff_prover]
pub proof fn law_each_retry_counts_once(
    store: StoreModel,
    run_id: RunId,
    turn_id: Option<TurnId>,
    retry: RetryStart,
    now: i64,
    r: int,
)
    requires
        0 <= r < store.runs.len(),
        store.runs[r].id == run_id.0,
        store.retries.len() < u32::MAX,
    ensures
        ({
            let operation = WriteOperation::StartRetry { run_id, turn_id, retry, now };
            let (once, first) = served(store, operation);
            let (twice, second) = served(once, operation);
            &&& first is Started && (forall|k: int|
                0 <= k < store.retries.len() ==> (#[trigger] store.retries[k]).run_id != run_id.0)
                ==> once.runs[r].retry_count == 1
            &&& first is Started && second is Started ==> twice.runs[r].retry_count
                == once.runs[r].retry_count + 1
        }),
{
    assert(seq![run_id.0].contains(run_id.0)) by {
        assert(seq![run_id.0][0] == run_id.0);
    }
    lemma_count_bound(retry_spans(store.retries), run_id.0);
    let operation = WriteOperation::StartRetry { run_id, turn_id, retry, now };
    let (once, first) = served(store, operation);
    if first is Started {
        assert(retry_spans(once.retries).drop_last() =~= retry_spans(store.retries));
        assert(retry_spans(once.retries).last().run_id == run_id.0);
        assert(once.runs[r].retry_count == count_of(retry_spans(store.retries), run_id.0) + 1);
        if forall|k: int|
            0 <= k < store.retries.len() ==> (#[trigger] store.retries[k]).run_id != run_id.0 {
            lemma_count_none(retry_spans(store.retries), run_id.0);
        }
        let (twice, second) = served(once, operation);
        if second is Started {
            assert(retry_spans(twice.retries).drop_last() =~= retry_spans(once.retries));
            assert(retry_spans(twice.retries).last().run_id == run_id.0);
        }
    }
}

/// The compactions of a run are counted one by one: the first makes one, and each further one makes
/// one more.
#[verifier::rlimit(40)]
#[verifier::spinoff_prover]
pub proof fn law_each_compaction_counts_once(
    store: StoreModel,
    run_id: RunId,
    turn_id: Option<TurnId>,
    reason: String,
    now: i64,
    r: int,
)
    requires
        0 <= r < store.runs.len(),
        store.runs[r].id == run_id.0,
        store.compactions.len() < u32::MAX,
    ensures
        ({
            let operation = WriteOperation::StartCompaction { run_id, turn_id, reason, now };
            let (once, first) = served(store, operation);
            let (twice, second) = served(once, operation);
            &&& first is Started && (forall|k: int|
                0 <= k < store.compactions.len() ==> (#[trigger] store.compactions[k]).run_id != run_id.0)
                ==> once.runs[r].compaction_count == 1
            &&& first is Started && second is Started ==> twice.runs[r].compaction_count
                == once.runs[r].compaction_count + 1
        }),
{
    assert(seq![run_id.0].contains(run_id.0)) by {
        assert(seq![run_id.0][0] == run_id.0);
    }
    lemma_count_bound(compaction_spans(store.compactions), run_id.0);
    let operation = WriteOperation::StartCompaction { run_id, turn_id, reason, now };
    let (once, first) = served(store, operation);
    if first is Started {
        assert(compaction_spans(once.compactions).drop_last() =~= compaction_spans(store.compactions));
        assert(compaction_spans(once.compactions).last().run_id == run_id.0);
        assert(once.runs[r].compaction_count == count_of(compaction_spans(store.compactions), run_id.0) + 1);
        if forall|k: int|
            0 <= k < store.compactions.len() ==> (#[trigger] store.compactions[k]).run_id != run_id.0 {
            lemma_count_none(compaction_spans(store.compactions), run_id.0);
        }
        let (twice, second) = served(once, operation);
        if second is Started {
            assert(compaction_spans(twice.compactions).drop_last() =~= compaction_spans(once.compactions));
            assert(compaction_spans(twice.compactions).last().run_id == run_id.0);
        }
    }
}

/// An open retry of the run that is ended holds how it ended, and why where that is said; where it
/// is not, it keeps the reason it had. Every other retry stays.
pub proof fn law_ended_retries_hold_their_end(
    store: StoreModel,
    run_id: RunId,
    retry_id: RetryId,
    outcome: SpanOutcome,
    error_category: Option<ErrorCategory>,
    now: i64,
    k: int,
)
    requires
        distinct(retry_spans(store.retries)),
        0 <= k < store.retries.len(),
    ensures
        ({
            let (after, answer) = served(
                store,
                WriteOperation::FinishRetry { run_id, retry_id, outcome, error_category, now },
            );
            let was = store.retries[k];
            let is = after.retries[k];
            &&& after.retries.len() == store.retries.len()
            &&& if was.id == retry_id.0 && was.run_id == run_id.0 && was.ended_at is None {
                &&& answer == Outcome::Done
                &&& is.ended_at == Some(now)
                &&& is.outcome == Some(
                    match outcome {
                        SpanOutcome::Succeeded => "succeeded"@,
                        SpanOutcome::Failed => "failed"@,
                        SpanOutcome::Aborted => "aborted"@,
                        SpanOutcome::Interrupted => "interrupted"@,
                    },
                )
                &&& is.error_category == (match error_category {
                    Some(category) => Some(category_word(category)),
                    None => was.error_category,
                })
                &&& is.attempt == was.attempt
                &&& is.max_attempts == was.max_attempts
                &&& is.delay_ms == was.delay_ms
                &&& is.wait_ended_at == was.wait_ended_at
                &&& is.started_at == was.started_at
                &&& is.run_id == was.run_id
                &&& is.turn_id == was.turn_id
                &&& is.id == was.id
            } else {
                is == was
            }
            &&& answer != Outcome::Done ==> answer == Outcome::Refused(Fault::UnknownSpan)
                && after.runs == store.runs
            &&& answer == Outcome::Done ==> touches(store.runs, after.runs, run_id.0, now)
                && exists|i: int|
                0 <= i < store.retries.len() && (#[trigger] store.retries[i]).id == retry_id.0
                    && store.retries[i].run_id == run_id.0 && store.retries[i].ended_at is None
        }),
{
    let spans = retry_spans(store.retries);
    lemma_hits(spans, retry_id.0, run_id.0);
    assert(spans[k].id == store.retries[k].id);
    if exists|i: int|
        0 <= i < spans.len() && (#[trigger] spans[i]).id == retry_id.0 && spans[i].run_id
            == run_id.0 && spans[i].open {
        let i = choose|i: int|
            0 <= i < spans.len() && (#[trigger] spans[i]).id == retry_id.0 && spans[i].run_id
                == run_id.0 && spans[i].open;
        assert(store.retries[i].id == retry_id.0);
    }
}

/// A compaction that begins holds its reason and is open, and so is the step that stands for it.
#[verifier::rlimit(40)]
pub proof fn law_compactions_are_recorded(
    store: StoreModel,
    run_id: RunId,
    turn_id: Option<TurnId>,
    reason: String,
    now: i64,
)
    ensures
        ({
            let (after, outcome) = served(
                store,
                WriteOperation::StartCompaction { run_id, turn_id, reason, now },
            );
            match outcome {
                Outcome::Started(id) => {
                    let row = after.compactions.last();
                    let step = after.steps.last();
                    &&& after.compactions.drop_last() == store.compactions
                    &&& forall|k: int|
                        0 <= k < store.compactions.len() ==> (#[trigger] store.compactions[k]).id
                            != id
                    &&& row.id == id
                    &&& row.run_id == run_id.0
                    &&& turn_id matches Some(turn) ==> row.turn_id == Some(turn.0) && step.turn_id
                        == Some(turn.0)
                    &&& turn_id is None ==> row.turn_id is None && step.turn_id is None
                    &&& row.reason == Some(reason@)
                    &&& row.started_at == now
                    &&& row.ended_at is None
                    &&& row.outcome is None
                    &&& row.aborted is None
                    &&& row.will_retry is None
                    &&& row.tokens_before is None
                    &&& row.estimated_tokens_after is None
                    &&& after.steps.drop_last() == store.steps
                    &&& forall|k: int|
                        0 <= k < store.steps.len() ==> (#[trigger] store.steps[k]).id != step.id
                    &&& step.run_id == run_id.0
                    &&& step.kind == "compaction"@
                    &&& step.label == "compaction"@
                    &&& step.summary is None
                    &&& step.started_at == now
                    &&& step.ended_at is None
                    &&& step.outcome is None
                    &&& after.turns == store.turns
                    &&& after.retries == store.retries
                    &&& after.events == store.events
                },
                _ => outcome == Outcome::Refused(Fault::Full) && after == store,
            }
        }),
{
    let operation = WriteOperation::StartCompaction { run_id, turn_id, reason, now };
    let after = served(store, operation).0;
    lemma_new_number(store.compactions, |row: CompactionModel| row.id);
    lemma_new_number(store.steps, |step: StepModel| step.id);
    if served(store, operation).1 is Started {
        assert(after.compactions.drop_last() =~= store.compactions);
        assert(after.steps.drop_last() =~= store.steps);
    }
}

proof fn lemma_last_compacting(steps: Seq<StepModel>, run_id: i64)
    ensures
        match last_compacting(steps, run_id) {
            Some(id) => (exists|k: int|
                0 <= k < steps.len() && (#[trigger] steps[k]).id == id && steps[k].run_id == run_id
                    && steps[k].kind == "compaction"@ && steps[k].ended_at is None) && forall|
                k: int,
            |
                0 <= k < steps.len() && (#[trigger] steps[k]).run_id == run_id && steps[k].kind
                    == "compaction"@ && steps[k].ended_at is None ==> steps[k].id <= id,
            None => forall|k: int|
                0 <= k < steps.len() ==> !((#[trigger] steps[k]).run_id == run_id && steps[k].kind
                    == "compaction"@ && steps[k].ended_at is None),
        },
    decreases steps.len(),
{
    if steps.len() > 0 {
        let front = steps.drop_last();
        lemma_last_compacting(front, run_id);
        assert(steps[steps.len() - 1] == steps.last());
        if let Some(id) = last_compacting(front, run_id) {
            let k = choose|k: int|
                0 <= k < front.len() && (#[trigger] front[k]).id == id && front[k].run_id == run_id
                    && front[k].kind == "compaction"@ && front[k].ended_at is None;
            assert(steps[k] == front[k]);
        }
        assert forall|k: int|
            0 <= k < steps.len() && (#[trigger] steps[k]).run_id == run_id && steps[k].kind
                == "compaction"@ && steps[k].ended_at is None implies last_compacting(
            steps,
            run_id,
        ) is Some && steps[k].id <= last_compacting(steps, run_id)->0 by {
            if k < front.len() {
                assert(front[k] == steps[k]);
            }
        }
    }
}

/// An open compaction of the run that is ended holds how it ended, whether it was aborted, whether
/// another attempt follows, and the figures that were reported. Every other compaction stays. One
/// that is not open, is of another run or is not there is refused, and nothing changes.
#[verifier::rlimit(40)]
pub proof fn law_ended_compactions_hold_their_end(
    store: StoreModel,
    run_id: RunId,
    compaction_id: CompactionId,
    finish: CompactionFinish,
    now: i64,
    k: int,
)
    requires
        distinct(compaction_spans(store.compactions)),
        0 <= k < store.compactions.len(),
    ensures
        ({
            let (after, answer) = served(
                store,
                WriteOperation::FinishCompaction { run_id, compaction_id, finish, now },
            );
            let was = store.compactions[k];
            let is = after.compactions[k];
            &&& if was.id == compaction_id.0 && was.run_id == run_id.0 && was.ended_at is None {
                &&& answer == Outcome::Done
                &&& is.ended_at == Some(now)
                &&& is.outcome == Some(
                    match finish.outcome {
                        SpanOutcome::Succeeded => "succeeded"@,
                        SpanOutcome::Failed => "failed"@,
                        SpanOutcome::Aborted => "aborted"@,
                        SpanOutcome::Interrupted => "interrupted"@,
                    },
                )
                &&& is.aborted == Some(finish.aborted)
                &&& is.will_retry == Some(finish.will_retry)
                &&& is.tokens_before == finish.tokens_before
                &&& is.estimated_tokens_after == finish.estimated_tokens_after
                &&& finish.usage matches Some(usage) ==> is.usage == usage
                &&& finish.usage is None ==> is.usage.input_tokens is None
                    && is.usage.output_tokens is None && is.usage.total_tokens is None
                    && is.usage.cache_read_tokens is None && is.usage.cache_write_tokens is None
                    && is.usage.reasoning_tokens is None
                &&& is.id == was.id
                &&& is.run_id == was.run_id
                &&& is.turn_id == was.turn_id
                &&& is.reason == was.reason
                &&& is.started_at == was.started_at
            } else {
                is == was
            }
            &&& answer != Outcome::Done ==> answer == Outcome::Refused(Fault::UnknownSpan)
                && after == store
            &&& answer == Outcome::Done ==> touches(store.runs, after.runs, run_id.0, now)
                && exists|i: int|
                0 <= i < store.compactions.len() && (#[trigger] store.compactions[i]).id
                    == compaction_id.0 && store.compactions[i].run_id == run_id.0
                    && store.compactions[i].ended_at is None
        }),
{
    let spans = compaction_spans(store.compactions);
    lemma_hits(spans, compaction_id.0, run_id.0);
    assert(spans[k].id == store.compactions[k].id);
    if exists|i: int|
        0 <= i < spans.len() && (#[trigger] spans[i]).id == compaction_id.0 && spans[i].run_id
            == run_id.0 && spans[i].open {
        let i = choose|i: int|
            0 <= i < spans.len() && (#[trigger] spans[i]).id == compaction_id.0 && spans[i].run_id
                == run_id.0 && spans[i].open;
        assert(store.compactions[i].id == compaction_id.0);
    }
}

/// With a compaction ends the step that stands for it: of the open steps for a compaction of the
/// run the last one, with success exactly if the compaction had it. Every other step stays.
pub proof fn law_compactions_close_their_step(
    store: StoreModel,
    run_id: RunId,
    compaction_id: CompactionId,
    finish: CompactionFinish,
    now: i64,
    k: int,
)
    requires
        distinct(step_spans(store.steps)),
        0 <= k < store.steps.len(),
        served(
            store,
            WriteOperation::FinishCompaction { run_id, compaction_id, finish, now },
        ).1 == Outcome::Done,
    ensures
        ({
            let after = served(
                store,
                WriteOperation::FinishCompaction { run_id, compaction_id, finish, now },
            ).0;
            let was = store.steps[k];
            let is = after.steps[k];
            let last = was.run_id == run_id.0 && was.kind == "compaction"@ && was.ended_at is None
                && forall|i: int|
                0 <= i < store.steps.len() && (#[trigger] store.steps[i]).run_id == run_id.0
                    && store.steps[i].kind == "compaction"@ && store.steps[i].ended_at is None
                    ==> store.steps[i].id <= was.id;
            &&& after.steps.len() == store.steps.len()
            &&& last ==> is.ended_at == Some(now) && is.outcome == Some(
                if finish.outcome == SpanOutcome::Succeeded {
                    "succeeded"@
                } else {
                    "failed"@
                },
            ) && is.id == was.id && is.kind == was.kind && is.started_at == was.started_at
            &&& !last ==> is == was
        }),
{
    lemma_last_compacting(store.steps, run_id.0);
    let spans = step_spans(store.steps);
    if let Some(id) = last_compacting(store.steps, run_id.0) {
        let i = choose|i: int|
            0 <= i < store.steps.len() && (#[trigger] store.steps[i]).id == id
                && store.steps[i].run_id == run_id.0 && store.steps[i].kind == "compaction"@
                && store.steps[i].ended_at is None;
        if store.steps[k].id == id && i != k {
            if i < k {
                assert(spans[i].id != spans[k].id);
            } else {
                assert(spans[k].id != spans[i].id);
            }
        }
        assert(store.steps[i].id <= id);
    }
}

// ---------------------------------------------------------------------------------------------
// The end of a run
// ---------------------------------------------------------------------------------------------

/// A run that is ended holds how, when and why it ended: a known reason as it is, and any other as
/// a failure. Its conclusion is the one that was handed in. Its record is complete exactly if it
/// was recorded completely, it was not interrupted and it left nothing open. A run that had ended
/// keeps its end, and every other run stays as it is.
#[verifier::rlimit(40)]
pub proof fn law_ended_runs_hold_their_end(
    store: StoreModel,
    run_id: RunId,
    finish: RunFinish,
    conclusion: Option<TriageConclusion>,
    now: i64,
    r: int,
)
    requires
        0 <= r < store.runs.len(),
    ensures
        ({
            let (after, outcome) = served(
                store,
                WriteOperation::FinishRun { run_id, finish, conclusion, now },
            );
            let was = store.runs[r];
            let is = after.runs[r];
            let reason = finish.termination_reason@;
            &&& outcome == Outcome::Done
            &&& after.runs.len() == store.runs.len()
            &&& was.id != run_id.0 ==> is == was
            &&& is.id == was.id
            &&& is.event_id == was.event_id
            &&& is.attempt == was.attempt
            &&& is.started_at == was.started_at
            &&& is.model_id == was.model_id
            &&& is.dispatch_trigger == was.dispatch_trigger
            &&& was.ended_at is Some ==> is.ended_at == was.ended_at && is.outcome == was.outcome
                && is.conclusion == was.conclusion && is.termination_reason
                == was.termination_reason && is.failure_category == was.failure_category
            &&& was.id == run_id.0 && was.ended_at is None ==> {
                &&& is.ended_at == Some(now)
                &&& is.last_activity_at == now
                &&& is.outcome == Some(finish.outcome)
                &&& is.termination_reason == Some(
                    if reason == "completed"@ || reason == "failed"@ || reason == "model_error"@
                        || reason == "wall_timeout"@ || reason == "turn_limit"@ || reason
                        == "aborted"@ || reason == "context_limit"@ || reason == "process_exit"@
                        || reason == "superseded_attempt"@ {
                        reason
                    } else {
                        "failed"@
                    },
                )
                &&& is.failure_category == (match finish.failure_category {
                    Some(category) => Some(category_word(category)),
                    None => None,
                })
                &&& is.conclusion is Some
                &&& conclusion matches Some(given) ==> is.conclusion->0 == given@
                &&& conclusion is None ==> is.conclusion->0.source == ConclusionSource::Derived
                    && is.conclusion->0.decision == (match finish.outcome {
                    RunOutcome::Succeeded => TriageDecision::NoAction,
                    RunOutcome::Interrupted => TriageDecision::Canceled,
                    RunOutcome::Failed => if finish.failure_category == Some(
                        ErrorCategory::Timeout,
                    ) {
                        TriageDecision::TimedOut
                    } else if finish.failure_category == Some(ErrorCategory::TurnLimit) {
                        TriageDecision::TurnLimit
                    } else {
                        TriageDecision::Failed
                    },
                })
                &&& is.telemetry_completeness == (if finish.recording_complete && finish.outcome
                    != RunOutcome::Interrupted && (forall|k: int|
                    0 <= k < store.turns.len() && (#[trigger] store.turns[k]).run_id == run_id.0
                        ==> store.turns[k].ended_at is Some) && (forall|k: int|
                    0 <= k < store.steps.len() && (#[trigger] store.steps[k]).run_id == run_id.0
                        ==> store.steps[k].ended_at is Some) && (forall|k: int|
                    0 <= k < store.retries.len() && (#[trigger] store.retries[k]).run_id
                        == run_id.0 ==> store.retries[k].ended_at is Some) && (forall|k: int|
                    0 <= k < store.compactions.len() && (#[trigger] store.compactions[k]).run_id
                        == run_id.0 ==> store.compactions[k].ended_at is Some) {
                    "complete"@
                } else {
                    "partial"@
                })
            }
            &&& after.events == store.events
            &&& after.entities == store.entities
        }),
{
    let ids = seq![run_id.0];
    assert(ids.contains(store.runs[r].id) <==> store.runs[r].id == run_id.0) by {
        assert(ids[0] == run_id.0);
    }
    let reason = finish.termination_reason@;
    let known = crate::database::rules::termination_reasons();
    assert(known.contains(reason) <==> (reason == "completed"@ || reason == "failed"@ || reason
        == "model_error"@ || reason == "wall_timeout"@ || reason == "turn_limit"@ || reason
        == "aborted"@ || reason == "context_limit"@ || reason == "process_exit"@ || reason
        == "superseded_attempt"@)) by {
        assert(known[0] == "completed"@ && known[1] == "failed"@ && known[2] == "model_error"@
            && known[3] == "wall_timeout"@ && known[4] == "turn_limit"@ && known[5] == "aborted"@
            && known[6] == "context_limit"@ && known[7] == "process_exit"@ && known[8]
            == "superseded_attempt"@);
    }
    lemma_nothing_open(store, run_id.0);
}

proof fn lemma_open_count(spans: Seq<SpanModel>, run_id: i64)
    ensures
        count_open(spans, run_id) == 0 <==> forall|k: int|
            0 <= k < spans.len() ==> !((#[trigger] spans[k]).run_id == run_id && spans[k].open),
    decreases spans.len(),
{
    if spans.len() > 0 {
        let front = spans.drop_last();
        lemma_open_count(front, run_id);
        assert(spans[spans.len() - 1] == spans.last());
        assert forall|k: int| 0 <= k < front.len() implies #[trigger] spans[k] == front[k] by {}
        if count_open(spans, run_id) != 0 && count_open(front, run_id) != 0 {
            let k = choose|k: int|
                0 <= k < front.len() && (#[trigger] front[k]).run_id == run_id && front[k].open;
            assert(spans[k] == front[k]);
        }
    }
}

proof fn lemma_nothing_open(store: StoreModel, run_id: i64)
    ensures
        open_count(store, run_id) == 0 <==> (forall|k: int|
            0 <= k < store.turns.len() && (#[trigger] store.turns[k]).run_id == run_id
                ==> store.turns[k].ended_at is Some) && (forall|k: int|
            0 <= k < store.steps.len() && (#[trigger] store.steps[k]).run_id == run_id
                ==> store.steps[k].ended_at is Some) && (forall|k: int|
            0 <= k < store.retries.len() && (#[trigger] store.retries[k]).run_id == run_id
                ==> store.retries[k].ended_at is Some) && (forall|k: int|
            0 <= k < store.compactions.len() && (#[trigger] store.compactions[k]).run_id == run_id
                ==> store.compactions[k].ended_at is Some),
{
    let turns = turn_spans(store.turns);
    let steps = step_spans(store.steps);
    let retries = retry_spans(store.retries);
    let compactions = compaction_spans(store.compactions);
    lemma_open_count(turns, run_id);
    lemma_open_count(steps, run_id);
    lemma_open_count(retries, run_id);
    lemma_open_count(compactions, run_id);
    assert(count_open(turns, run_id) == 0 <==> forall|k: int|
        0 <= k < store.turns.len() && (#[trigger] store.turns[k]).run_id == run_id
            ==> store.turns[k].ended_at is Some) by {
        assert forall|k: int| 0 <= k < turns.len() implies (#[trigger] turns[k]).run_id
            == store.turns[k].run_id && turns[k].open == store.turns[k].ended_at is None by {}
        assert forall|k: int| 0 <= k < store.turns.len() implies turns[k].run_id == (
        #[trigger] store.turns[k]).run_id by {}
    }
    assert(count_open(steps, run_id) == 0 <==> forall|k: int|
        0 <= k < store.steps.len() && (#[trigger] store.steps[k]).run_id == run_id
            ==> store.steps[k].ended_at is Some) by {
        assert forall|k: int| 0 <= k < steps.len() implies (#[trigger] steps[k]).run_id
            == store.steps[k].run_id && steps[k].open == store.steps[k].ended_at is None by {}
        assert forall|k: int| 0 <= k < store.steps.len() implies steps[k].run_id == (
        #[trigger] store.steps[k]).run_id by {}
    }
    assert(count_open(retries, run_id) == 0 <==> forall|k: int|
        0 <= k < store.retries.len() && (#[trigger] store.retries[k]).run_id == run_id
            ==> store.retries[k].ended_at is Some) by {
        assert forall|k: int| 0 <= k < retries.len() implies (#[trigger] retries[k]).run_id
            == store.retries[k].run_id && retries[k].open == store.retries[k].ended_at is None by {}
        assert forall|k: int| 0 <= k < store.retries.len() implies retries[k].run_id == (
        #[trigger] store.retries[k]).run_id by {}
    }
    assert(count_open(compactions, run_id) == 0 <==> forall|k: int|
        0 <= k < store.compactions.len() && (#[trigger] store.compactions[k]).run_id == run_id
            ==> store.compactions[k].ended_at is Some) by {
        assert forall|k: int| 0 <= k < compactions.len() implies (
        #[trigger] compactions[k]).run_id == store.compactions[k].run_id && compactions[k].open
            == store.compactions[k].ended_at is None by {}
        assert forall|k: int| 0 <= k < store.compactions.len() implies compactions[k].run_id == (
        #[trigger] store.compactions[k]).run_id by {}
    }
}

/// What a run leaves open when it ends is closed then: its open turns, steps, retries and
/// compactions, as interrupted. What had ended, and what belongs to other runs, stays.
pub proof fn law_ended_runs_close_what_is_open(
    store: StoreModel,
    run_id: RunId,
    finish: RunFinish,
    conclusion: Option<TriageConclusion>,
    now: i64,
)
    ensures
        ({
            let after = served(
                store,
                WriteOperation::FinishRun { run_id, finish, conclusion, now },
            ).0;
            &&& after.turns.len() == store.turns.len()
            &&& forall|k: int|
                0 <= k < store.turns.len() ==> (#[trigger] after.turns[k]) == (
                if store.turns[k].run_id == run_id.0 && store.turns[k].ended_at is None {
                    TurnModel {
                        ended_at: Some(now),
                        stop_reason: Some("aborted"@),
                        ..store.turns[k]
                    }
                } else {
                    store.turns[k]
                })
            &&& after.steps.len() == store.steps.len()
            &&& forall|k: int|
                0 <= k < store.steps.len() ==> (#[trigger] after.steps[k]) == (
                if store.steps[k].run_id == run_id.0 && store.steps[k].ended_at is None {
                    StepModel {
                        ended_at: Some(now),
                        outcome: Some("interrupted"@),
                        ..store.steps[k]
                    }
                } else {
                    store.steps[k]
                })
            &&& after.retries.len() == store.retries.len()
            &&& forall|k: int|
                0 <= k < store.retries.len() ==> (#[trigger] after.retries[k]) == (
                if store.retries[k].run_id == run_id.0 && store.retries[k].ended_at is None {
                    RetryModel {
                        ended_at: Some(now),
                        outcome: Some("interrupted"@),
                        ..store.retries[k]
                    }
                } else {
                    store.retries[k]
                })
            &&& after.compactions.len() == store.compactions.len()
            &&& forall|k: int|
                0 <= k < store.compactions.len() ==> (#[trigger] after.compactions[k]) == (
                if store.compactions[k].run_id == run_id.0
                    && store.compactions[k].ended_at is None {
                    CompactionModel {
                        ended_at: Some(now),
                        outcome: Some("interrupted"@),
                        ..store.compactions[k]
                    }
                } else {
                    store.compactions[k]
                })
        }),
{
    let ids = seq![run_id.0];
    assert(ids[0] == run_id.0);
    assert forall|id: i64| #[trigger] ids.contains(id) <==> id == run_id.0 by {}
}

} // verus!
