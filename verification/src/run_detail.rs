//! What is shown of a run: its figures, its timeline, and what it belongs to.
use vstd::prelude::*;

use crate::database::order::in_order;
use crate::database::queue::{is_out_of_range, joined, moments_fit, states};
use crate::database::readers::{
    compaction_keys, compactions_read, effect_keys, effects_read, prompt_keys, prompts_read,
    retries_read, retry_keys, run_keys, run_place, run_problem, runs_read, states_compaction,
    states_run, states_turn, step_keys, steps_read, tells, turn_keys, turns_read,
};
use crate::database::records::{
    moment, rfc3339, rfc3339_millis, timestamp, DatabaseError, EventRecord, EventStatus,
    ReportedUsage, RunId, TriageCompactionRecord, TriageEffectRecord, TriageRetryRecord,
    TriageRunPromptRecord, TriageRunRecord, TriageStepRecord, TriageTurnRecord,
};
use crate::database::sources::{item_metadata, metadata_kept};
use crate::database::tables::{Store, StoreModel};
use crate::json;
use crate::protocol::IntakeItem;
use crate::run_durations::{
    opt_millis, partition_durations, partitioned, run_intervals, DurationMetrics,
};
use crate::text;
use crate::urls::{safe_url, shown_url, split_url, url_parts};

verus! {

// ---------------------------------------------------------------------------------------------
// Usage
// ---------------------------------------------------------------------------------------------

/// A figure that turns and compactions report.
#[derive(Clone, Copy, Debug, PartialEq, Eq, Structural)]
pub enum TokenKind {
    Input,
    Output,
    CacheRead,
    CacheWrite,
    Reasoning,
    Total,
}

/// The figure of a turn.
pub open spec fn turn_tokens(turn: TriageTurnRecord, kind: TokenKind) -> Option<i64> {
    match kind {
        TokenKind::Input => turn.input_tokens,
        TokenKind::Output => turn.output_tokens,
        TokenKind::CacheRead => turn.cache_read_tokens,
        TokenKind::CacheWrite => turn.cache_write_tokens,
        TokenKind::Reasoning => turn.reasoning_tokens,
        TokenKind::Total => turn.total_tokens,
    }
}

/// The figure of a compaction.
pub open spec fn compaction_tokens(
    compaction: TriageCompactionRecord,
    kind: TokenKind,
) -> Option<i64> {
    match kind {
        TokenKind::Input => compaction.input_tokens,
        TokenKind::Output => compaction.output_tokens,
        TokenKind::CacheRead => compaction.cache_read_tokens,
        TokenKind::CacheWrite => compaction.cache_write_tokens,
        TokenKind::Reasoning => compaction.reasoning_tokens,
        TokenKind::Total => compaction.total_tokens,
    }
}

/// The figures of all turns and compactions.
pub open spec fn reported_tokens(
    turns: Seq<TriageTurnRecord>,
    compactions: Seq<TriageCompactionRecord>,
    kind: TokenKind,
) -> Seq<Option<i64>> {
    turns.map_values(|turn: TriageTurnRecord| turn_tokens(turn, kind)) + compactions.map_values(
        |compaction: TriageCompactionRecord| compaction_tokens(compaction, kind),
    )
}

/// The sum of the figures that are there.
pub open spec fn token_sum(values: Seq<Option<i64>>) -> int
    decreases values.len(),
{
    if values.len() == 0 {
        0
    } else {
        token_sum(values.drop_last()) + (match values.last() {
            Some(value) => value as int,
            None => 0,
        })
    }
}

/// Whether a figure is there.
pub open spec fn any_reported(values: Seq<Option<i64>>) -> bool {
    exists|i: int| 0 <= i < values.len() && (#[trigger] values[i]) is Some
}

/// The sum of the figures, where one is there.
pub open spec fn nullable_sum(values: Seq<Option<i64>>) -> Option<i64> {
    if any_reported(values) {
        Some(token_sum(values) as i64)
    } else {
        None
    }
}

/// Whether the figures can be added up, one after the other.
pub open spec fn addable(values: Seq<Option<i64>>) -> bool {
    forall|n: int|
        0 <= n <= values.len() ==> i64::MIN <= token_sum(#[trigger] values.take(n)) <= i64::MAX
}

/// Whether the figures of the run can be added up.
pub open spec fn usage_adds_up(
    turns: Seq<TriageTurnRecord>,
    compactions: Seq<TriageCompactionRecord>,
) -> bool {
    &&& addable(reported_tokens(turns, compactions, TokenKind::Input))
    &&& addable(reported_tokens(turns, compactions, TokenKind::Output))
    &&& addable(reported_tokens(turns, compactions, TokenKind::CacheRead))
    &&& addable(reported_tokens(turns, compactions, TokenKind::CacheWrite))
    &&& addable(reported_tokens(turns, compactions, TokenKind::Reasoning))
    &&& addable(reported_tokens(turns, compactions, TokenKind::Total))
}

fn collect_tokens(
    turns: &Vec<TriageTurnRecord>,
    compactions: &Vec<TriageCompactionRecord>,
    kind: TokenKind,
) -> (values: Vec<Option<i64>>)
    ensures
        values@ == reported_tokens(turns@, compactions@, kind),
{
    let mut values: Vec<Option<i64>> = Vec::new();
    let mut i: usize = 0;
    while i < turns.len()
        invariant
            i <= turns@.len(),
            values@.len() == i,
            forall|k: int| 0 <= k < i ==> #[trigger] values@[k] == turn_tokens(turns@[k], kind),
        decreases turns@.len() - i,
    {
        values.push(
            match kind {
                TokenKind::Input => turns[i].input_tokens,
                TokenKind::Output => turns[i].output_tokens,
                TokenKind::CacheRead => turns[i].cache_read_tokens,
                TokenKind::CacheWrite => turns[i].cache_write_tokens,
                TokenKind::Reasoning => turns[i].reasoning_tokens,
                TokenKind::Total => turns[i].total_tokens,
            },
        );
        i += 1;
    }
    let mut j: usize = 0;
    while j < compactions.len()
        invariant
            j <= compactions@.len(),
            values@.len() == turns@.len() + j,
            forall|k: int|
                0 <= k < turns@.len() ==> #[trigger] values@[k] == turn_tokens(turns@[k], kind),
            forall|k: int|
                turns@.len() <= k < turns@.len() + j ==> #[trigger] values@[k]
                    == compaction_tokens(compactions@[k - turns@.len()], kind),
        decreases compactions@.len() - j,
    {
        values.push(
            match kind {
                TokenKind::Input => compactions[j].input_tokens,
                TokenKind::Output => compactions[j].output_tokens,
                TokenKind::CacheRead => compactions[j].cache_read_tokens,
                TokenKind::CacheWrite => compactions[j].cache_write_tokens,
                TokenKind::Reasoning => compactions[j].reasoning_tokens,
                TokenKind::Total => compactions[j].total_tokens,
            },
        );
        j += 1;
    }
    assert(values@ =~= reported_tokens(turns@, compactions@, kind));
    values
}

/// Whether the figures can be added up.
fn is_addable(values: &Vec<Option<i64>>) -> (b: bool)
    ensures
        b == addable(values@),
{
    let mut sum: i64 = 0;
    let mut i: usize = 0;
    assert(values@.take(0) =~= Seq::empty());
    while i < values.len()
        invariant
            i <= values@.len(),
            sum == token_sum(values@.take(i as int)),
            forall|n: int|
                0 <= n <= i ==> i64::MIN <= token_sum(#[trigger] values@.take(n)) <= i64::MAX,
        decreases values@.len() - i,
    {
        assert(values@.take(i + 1).drop_last() =~= values@.take(i as int));
        assert(values@.take(i + 1).last() == values@[i as int]);
        if let Some(value) = values[i] {
            match sum.checked_add(value) {
                Some(next) => {
                    sum = next;
                },
                None => {
                    return false;
                },
            }
        }
        i += 1;
    }
    true
}

fn nullable_i64_sum(values: &Vec<Option<i64>>) -> (sum: Option<i64>)
    requires
        addable(values@),
    ensures
        sum == nullable_sum(values@),
{
    let mut sum: i64 = 0;
    let mut any = false;
    let mut i: usize = 0;
    while i < values.len()
        invariant
            i <= values@.len(),
            addable(values@),
            sum == token_sum(values@.take(i as int)),
            any == any_reported(values@.take(i as int)),
        decreases values@.len() - i,
    {
        assert(values@.take(i + 1).drop_last() =~= values@.take(i as int));
        assert(values@.take(i + 1).last() == values@[i as int]);
        assert(i64::MIN <= token_sum(values@.take(i + 1)) <= i64::MAX);
        if let Some(value) = values[i] {
            sum = sum + value;
            any = true;
            assert(values@.take(i + 1)[i as int] is Some);
        }
        proof {
            if any_reported(values@.take(i as int)) {
                let k = choose|k: int|
                    0 <= k < values@.take(i as int).len() && (#[trigger] values@.take(
                        i as int,
                    )[k]) is Some;
                assert(values@.take(i + 1)[k] is Some);
            }
            if any_reported(values@.take(i + 1)) && values@[i as int] is None {
                let k = choose|k: int|
                    0 <= k < values@.take(i + 1).len() && (#[trigger] values@.take(i + 1)[k]) is Some;
                assert(values@.take(i as int)[k] is Some);
            }
        }
        i += 1;
    }
    assert(values@.take(i as int) =~= values@);
    if any {
        Some(sum)
    } else {
        None
    }
}

/// Whether the figures of the run can be added up.
pub fn can_add_usage(
    turns: &Vec<TriageTurnRecord>,
    compactions: &Vec<TriageCompactionRecord>,
) -> (b: bool)
    ensures
        b == usage_adds_up(turns@, compactions@),
{
    is_addable(&collect_tokens(turns, compactions, TokenKind::Input)) && is_addable(
        &collect_tokens(turns, compactions, TokenKind::Output),
    ) && is_addable(&collect_tokens(turns, compactions, TokenKind::CacheRead)) && is_addable(
        &collect_tokens(turns, compactions, TokenKind::CacheWrite),
    ) && is_addable(&collect_tokens(turns, compactions, TokenKind::Reasoning)) && is_addable(
        &collect_tokens(turns, compactions, TokenKind::Total),
    )
}

/// The tokens that were used. What they cost is kept apart.
#[derive(Clone, Copy, Debug, PartialEq, Eq, Structural)]
pub struct UsageMetrics {
    pub input_tokens: Option<i64>,
    pub output_tokens: Option<i64>,
    pub cache_read_tokens: Option<i64>,
    pub cache_write_tokens: Option<i64>,
    pub reasoning_tokens: Option<i64>,
    pub total_tokens: Option<i64>,
}

/// The tokens that a run has used.
pub open spec fn run_usage(
    turns: Seq<TriageTurnRecord>,
    compactions: Seq<TriageCompactionRecord>,
) -> UsageMetrics {
    UsageMetrics {
        input_tokens: nullable_sum(reported_tokens(turns, compactions, TokenKind::Input)),
        output_tokens: nullable_sum(reported_tokens(turns, compactions, TokenKind::Output)),
        cache_read_tokens: nullable_sum(reported_tokens(turns, compactions, TokenKind::CacheRead)),
        cache_write_tokens: nullable_sum(
            reported_tokens(turns, compactions, TokenKind::CacheWrite),
        ),
        reasoning_tokens: nullable_sum(reported_tokens(turns, compactions, TokenKind::Reasoning)),
        total_tokens: nullable_sum(reported_tokens(turns, compactions, TokenKind::Total)),
    }
}

fn sum_usage(turns: &Vec<TriageTurnRecord>, compactions: &Vec<TriageCompactionRecord>) -> (usage:
    UsageMetrics)
    requires
        usage_adds_up(turns@, compactions@),
    ensures
        usage == run_usage(turns@, compactions@),
{
    UsageMetrics {
        input_tokens: nullable_i64_sum(&collect_tokens(turns, compactions, TokenKind::Input)),
        output_tokens: nullable_i64_sum(&collect_tokens(turns, compactions, TokenKind::Output)),
        cache_read_tokens: nullable_i64_sum(
            &collect_tokens(turns, compactions, TokenKind::CacheRead),
        ),
        cache_write_tokens: nullable_i64_sum(
            &collect_tokens(turns, compactions, TokenKind::CacheWrite),
        ),
        reasoning_tokens: nullable_i64_sum(
            &collect_tokens(turns, compactions, TokenKind::Reasoning),
        ),
        total_tokens: nullable_i64_sum(&collect_tokens(turns, compactions, TokenKind::Total)),
    }
}

// ---------------------------------------------------------------------------------------------
// Figures
// ---------------------------------------------------------------------------------------------

/// The figures of a run. Shares and costs are kept apart.
#[derive(Clone, Copy, Debug, PartialEq, Eq, Structural)]
pub struct RunMetrics {
    pub duration_ms: DurationMetrics,
    pub tool_call_count: Option<usize>,
    pub failed_tool_count: Option<usize>,
    pub turn_count: Option<usize>,
    pub retry_count: Option<usize>,
    pub compaction_count: Option<usize>,
    pub usage: UsageMetrics,
    pub peak_context_tokens: Option<i64>,
    pub source_lag_ms: Option<i64>,
    pub queue_wait_ms: Option<i64>,
}

/// Whether the step is a call of a tool.
pub open spec fn tool_call(step: TriageStepRecord) -> bool {
    step.kind@ == "tool"@
}

/// How many of the steps are calls of tools.
pub open spec fn tool_calls(steps: Seq<TriageStepRecord>) -> nat
    decreases steps.len(),
{
    if steps.len() == 0 {
        0
    } else if tool_call(steps.last()) {
        tool_calls(steps.drop_last()) + 1
    } else {
        tool_calls(steps.drop_last())
    }
}

/// How many of the steps are calls of tools that failed.
pub open spec fn failed_tool_calls(steps: Seq<TriageStepRecord>) -> nat
    decreases steps.len(),
{
    if steps.len() == 0 {
        0
    } else if tool_call(steps.last()) && text::opt_text(steps.last().outcome) == Some("failed"@) {
        failed_tool_calls(steps.drop_last()) + 1
    } else {
        failed_tool_calls(steps.drop_last())
    }
}

fn count_tools(steps: &Vec<TriageStepRecord>) -> (counts: (usize, usize))
    ensures
        counts.0 == tool_calls(steps@),
        counts.1 == failed_tool_calls(steps@),
{
    let mut calls: usize = 0;
    let mut failed: usize = 0;
    let mut i: usize = 0;
    while i < steps.len()
        invariant
            calls <= i <= steps@.len(),
            failed <= i,
            calls == tool_calls(steps@.take(i as int)),
            failed == failed_tool_calls(steps@.take(i as int)),
        decreases steps@.len() - i,
    {
        assert(steps@.take(i + 1).drop_last() =~= steps@.take(i as int));
        if text::same(steps[i].kind.as_str(), "tool") {
            calls += 1;
            if text::is_text(&steps[i].outcome, "failed") {
                failed += 1;
            }
        }
        i += 1;
    }
    assert(steps@.take(i as int) =~= steps@);
    (calls, failed)
}

/// The largest number of tokens in the context of a turn.
pub open spec fn peak_context(turns: Seq<TriageTurnRecord>) -> Option<i64>
    decreases turns.len(),
{
    if turns.len() == 0 {
        None
    } else {
        match (peak_context(turns.drop_last()), turns.last().context_tokens) {
            (Some(before), Some(tokens)) => Some(
                if tokens > before {
                    tokens
                } else {
                    before
                },
            ),
            (Some(before), None) => Some(before),
            (None, tokens) => tokens,
        }
    }
}

fn find_peak(turns: &Vec<TriageTurnRecord>) -> (peak: Option<i64>)
    ensures
        peak == peak_context(turns@),
{
    let mut peak: Option<i64> = None;
    let mut i: usize = 0;
    while i < turns.len()
        invariant
            i <= turns@.len(),
            peak == peak_context(turns@.take(i as int)),
        decreases turns@.len() - i,
    {
        assert(turns@.take(i + 1).drop_last() =~= turns@.take(i as int));
        match (peak, turns[i].context_tokens) {
            (Some(before), Some(tokens)) => {
                if tokens > before {
                    peak = Some(tokens);
                }
            },
            (Some(_), None) => {},
            (None, tokens) => {
                peak = tokens;
            },
        }
        i += 1;
    }
    assert(turns@.take(i as int) =~= turns@);
    peak
}

/// The milliseconds between two moments; none where one of them is none, and never less than
/// zero.
pub open spec fn elapsed_ms(from: Seq<char>, to: Seq<char>) -> Option<i64> {
    match (rfc3339_millis(to), rfc3339_millis(from)) {
        (Some(to), Some(from)) => Some(
            if to > from {
                (to - from) as i64
            } else {
                0
            },
        ),
        _ => None,
    }
}

/// The milliseconds between two moments.
pub fn elapsed(from: &str, to: &str) -> (out: Option<i64>)
    ensures
        out == elapsed_ms(from@, to@),
{
    match (moment(to), moment(from)) {
        (Some(to), Some(from)) => Some(
            if to > from {
                to - from
            } else {
                0
            },
        ),
        _ => None,
    }
}

/// When the run started.
pub open spec fn run_start(run: TriageRunRecord) -> i64 {
    match rfc3339_millis(run.started_at@) {
        Some(moment) => moment,
        None => 0,
    }
}

/// The text of the moment at which the run ended: its end, else its last activity where it has an
/// outcome, else now.
pub open spec fn run_stop_text(run: TriageRunRecord, now: i64) -> Option<Seq<char>> {
    match run.ended_at {
        Some(ended_at) => Some(ended_at@),
        None => if run.outcome is Some {
            Some(run.last_activity_at@)
        } else {
            rfc3339(now)
        },
    }
}

/// When the run ended.
pub open spec fn run_stop(run: TriageRunRecord, now: i64) -> i64 {
    match opt_millis(run_stop_text(run, now)) {
        Some(moment) => moment,
        None => run_start(run),
    }
}

/// Whether enough was recorded of the run for figures.
pub open spec fn recorded(run: TriageRunRecord) -> bool {
    run.telemetry_completeness@ != "legacy"@
}

/// The wall time of a run of which no more is known.
pub open spec fn wall_only(start: i64, end: i64) -> DurationMetrics {
    DurationMetrics {
        wall: if end > start {
            (end - start) as i64
        } else {
            0
        },
        setup: None,
        thinking: None,
        tool: None,
        compaction: None,
        retry_wait: None,
        gaps: None,
        finalization: None,
    }
}

/// The figures of a run.
pub fn run_metrics(
    run: &TriageRunRecord,
    event: &EventRecord,
    steps: &Vec<TriageStepRecord>,
    turns: &Vec<TriageTurnRecord>,
    retries: &Vec<TriageRetryRecord>,
    compactions: &Vec<TriageCompactionRecord>,
    now: i64,
) -> (metrics: RunMetrics)
    requires
        usage_adds_up(turns@, compactions@),
    ensures
        metrics.duration_ms == (if recorded(*run) {
            partitioned(
                run_intervals(
                    *run,
                    steps@,
                    turns@,
                    retries@,
                    compactions@,
                    run_start(*run),
                    run_stop(*run, now),
                ),
                run_start(*run),
                run_stop(*run, now),
            )
        } else {
            wall_only(run_start(*run), run_stop(*run, now))
        }),
        recorded(*run) ==> {
            &&& metrics.tool_call_count matches Some(n) && n == tool_calls(steps@)
            &&& metrics.failed_tool_count matches Some(n) && n == failed_tool_calls(steps@)
            &&& metrics.turn_count matches Some(n) && n == turns@.len()
            &&& metrics.retry_count matches Some(n) && n == retries@.len()
            &&& metrics.compaction_count matches Some(n) && n == compactions@.len()
        },
        !recorded(*run) ==> {
            &&& metrics.tool_call_count is None
            &&& metrics.failed_tool_count is None
            &&& metrics.turn_count is None
            &&& metrics.retry_count is None
            &&& metrics.compaction_count is None
        },
        metrics.usage == run_usage(turns@, compactions@),
        metrics.peak_context_tokens == peak_context(turns@),
        metrics.source_lag_ms == elapsed_ms(event.occurred_at@, run.started_at@),
        metrics.queue_wait_ms == elapsed_ms(event.observed_at@, run.started_at@),
{
    let start = match moment(run.started_at.as_str()) {
        Some(moment) => moment,
        None => 0,
    };
    let stop = match &run.ended_at {
        Some(ended_at) => moment(ended_at.as_str()),
        None => if run.outcome.is_some() {
            moment(run.last_activity_at.as_str())
        } else {
            match timestamp(now) {
                Some(active) => moment(active.as_str()),
                None => None,
            }
        },
    };
    let end = match stop {
        Some(moment) => moment,
        None => start,
    };
    assert(start == run_start(*run));
    assert(end == run_stop(*run, now));
    let complete_enough = !text::same(run.telemetry_completeness.as_str(), "legacy");
    let duration_ms = if complete_enough {
        partition_durations(run, steps, turns, retries, compactions, start, end)
    } else {
        DurationMetrics {
            wall: if end > start {
                end - start
            } else {
                0
            },
            setup: None,
            thinking: None,
            tool: None,
            compaction: None,
            retry_wait: None,
            gaps: None,
            finalization: None,
        }
    };
    let (calls, failed) = count_tools(steps);
    RunMetrics {
        duration_ms,
        tool_call_count: if complete_enough {
            Some(calls)
        } else {
            None
        },
        failed_tool_count: if complete_enough {
            Some(failed)
        } else {
            None
        },
        turn_count: if complete_enough {
            Some(turns.len())
        } else {
            None
        },
        retry_count: if complete_enough {
            Some(retries.len())
        } else {
            None
        },
        compaction_count: if complete_enough {
            Some(compactions.len())
        } else {
            None
        },
        usage: sum_usage(turns, compactions),
        peak_context_tokens: find_peak(turns),
        source_lag_ms: elapsed(event.occurred_at.as_str(), run.started_at.as_str()),
        queue_wait_ms: elapsed(event.observed_at.as_str(), run.started_at.as_str()),
    }
}

// ---------------------------------------------------------------------------------------------
// The timeline
// ---------------------------------------------------------------------------------------------

/// An entry of the timeline.
#[derive(Clone, Debug)]
pub enum TimelineEntry {
    Turn {
        id: i64,
        ordinal: i64,
        started_at: String,
        ended_at: Option<String>,
        state: String,
        stop_reason: Option<String>,
        usage: UsageMetrics,
        context_tokens: Option<i64>,
        context_window: Option<i64>,
    },
    Span {
        id: i64,
        turn_ordinal: Option<i64>,
        kind: String,
        label: String,
        summary: Option<String>,
        started_at: String,
        ended_at: Option<String>,
        state: String,
    },
    Retry {
        id: i64,
        turn_ordinal: Option<i64>,
        attempt: i64,
        max_attempts: i64,
        delay_ms: i64,
        started_at: String,
        wait_ended_at: String,
        ended_at: Option<String>,
        state: String,
        error_category: Option<String>,
    },
    Compaction {
        id: i64,
        turn_ordinal: Option<i64>,
        reason: Option<String>,
        started_at: String,
        ended_at: Option<String>,
        state: String,
        aborted: Option<bool>,
        will_retry: Option<bool>,
        tokens_before: Option<i64>,
        estimated_tokens_after: Option<i64>,
        total_tokens: Option<i64>,
    },
}

/// What all entries have: the place in the order of kinds, the number, the start, the end and the
/// state.
pub struct EntryHead {
    pub order: nat,
    pub id: i64,
    pub started_at: Seq<char>,
    pub ended_at: Option<Seq<char>>,
    pub state: Seq<char>,
}

/// What the contracts say of what an entry has beside that.
pub enum EntryBody {
    Turn {
        ordinal: i64,
        stop_reason: Option<Seq<char>>,
        usage: UsageMetrics,
        context_tokens: Option<i64>,
        context_window: Option<i64>,
    },
    Span {
        turn_ordinal: Option<i64>,
        kind: Seq<char>,
        label: Seq<char>,
        summary: Option<Seq<char>>,
    },
    Retry {
        turn_ordinal: Option<i64>,
        attempt: i64,
        max_attempts: i64,
        delay_ms: i64,
        wait_ended_at: Seq<char>,
        error_category: Option<Seq<char>>,
    },
    Compaction {
        turn_ordinal: Option<i64>,
        reason: Option<Seq<char>>,
        aborted: Option<bool>,
        will_retry: Option<bool>,
        tokens_before: Option<i64>,
        estimated_tokens_after: Option<i64>,
        total_tokens: Option<i64>,
    },
}

/// What the contracts say of an entry.
pub struct EntryModel {
    pub head: EntryHead,
    pub body: EntryBody,
}

impl View for TimelineEntry {
    type V = EntryModel;

    open spec fn view(&self) -> EntryModel {
        match *self {
            TimelineEntry::Turn {
                id,
                ordinal,
                started_at,
                ended_at,
                state,
                stop_reason,
                usage,
                context_tokens,
                context_window,
            } => EntryModel {
                head: EntryHead {
                    order: 0,
                    id,
                    started_at: started_at@,
                    ended_at: text::opt_text(ended_at),
                    state: state@,
                },
                body: EntryBody::Turn {
                    ordinal,
                    stop_reason: text::opt_text(stop_reason),
                    usage,
                    context_tokens,
                    context_window,
                },
            },
            TimelineEntry::Span {
                id,
                turn_ordinal,
                kind,
                label,
                summary,
                started_at,
                ended_at,
                state,
            } => EntryModel {
                head: EntryHead {
                    order: 1,
                    id,
                    started_at: started_at@,
                    ended_at: text::opt_text(ended_at),
                    state: state@,
                },
                body: EntryBody::Span {
                    turn_ordinal,
                    kind: kind@,
                    label: label@,
                    summary: text::opt_text(summary),
                },
            },
            TimelineEntry::Retry {
                id,
                turn_ordinal,
                attempt,
                max_attempts,
                delay_ms,
                started_at,
                wait_ended_at,
                ended_at,
                state,
                error_category,
            } => EntryModel {
                head: EntryHead {
                    order: 2,
                    id,
                    started_at: started_at@,
                    ended_at: text::opt_text(ended_at),
                    state: state@,
                },
                body: EntryBody::Retry {
                    turn_ordinal,
                    attempt,
                    max_attempts,
                    delay_ms,
                    wait_ended_at: wait_ended_at@,
                    error_category: text::opt_text(error_category),
                },
            },
            TimelineEntry::Compaction {
                id,
                turn_ordinal,
                reason,
                started_at,
                ended_at,
                state,
                aborted,
                will_retry,
                tokens_before,
                estimated_tokens_after,
                total_tokens,
            } => EntryModel {
                head: EntryHead {
                    order: 3,
                    id,
                    started_at: started_at@,
                    ended_at: text::opt_text(ended_at),
                    state: state@,
                },
                body: EntryBody::Compaction {
                    turn_ordinal,
                    reason: text::opt_text(reason),
                    aborted,
                    will_retry,
                    tokens_before,
                    estimated_tokens_after,
                    total_tokens,
                },
            },
        }
    }
}

/// What the contracts say of entries.
pub open spec fn entry_models(entries: Seq<TimelineEntry>) -> Seq<EntryModel> {
    entries.map_values(|entry: TimelineEntry| entry@)
}

/// The end of the run, where it has an outcome.
pub open spec fn terminal_end(run: TriageRunRecord) -> Option<Seq<char>> {
    if run.outcome is Some {
        text::opt_text(run.ended_at)
    } else {
        None
    }
}

/// The first text that is there.
pub open spec fn first_text(a: Option<Seq<char>>, b: Option<Seq<char>>) -> Option<Seq<char>> {
    match a {
        Some(_) => a,
        None => b,
    }
}

/// The state of a turn.
pub open spec fn turn_state(run: TriageRunRecord, turn: TriageTurnRecord) -> Seq<char> {
    if run.outcome is Some && text::opt_text(turn.stop_reason) == Some("aborted"@) {
        "interrupted"@
    } else if turn.ended_at is Some {
        "completed"@
    } else if run.outcome is Some {
        "interrupted"@
    } else {
        "active"@
    }
}

/// The state of something with an outcome.
pub open spec fn span_state(run: TriageRunRecord, outcome: Option<Seq<char>>) -> Seq<char> {
    match outcome {
        Some(outcome) => outcome,
        None => if run.outcome is Some {
            "interrupted"@
        } else {
            "active"@
        },
    }
}

/// The tokens of a turn.
pub open spec fn turn_usage(turn: TriageTurnRecord) -> UsageMetrics {
    UsageMetrics {
        input_tokens: turn.input_tokens,
        output_tokens: turn.output_tokens,
        cache_read_tokens: turn.cache_read_tokens,
        cache_write_tokens: turn.cache_write_tokens,
        reasoning_tokens: turn.reasoning_tokens,
        total_tokens: turn.total_tokens,
    }
}

/// The ordinal of the turn with this number: of the last one, were there several.
pub open spec fn ordinal_of(turns: Seq<TriageTurnRecord>, turn_id: Option<i64>) -> Option<i64>
    decreases turns.len(),
{
    if turns.len() == 0 {
        None
    } else if turn_id == Some(turns.last().id) {
        Some(turns.last().ordinal)
    } else {
        ordinal_of(turns.drop_last(), turn_id)
    }
}

/// The entry for a turn.
pub open spec fn turn_entry(run: TriageRunRecord, turn: TriageTurnRecord) -> EntryModel {
    EntryModel {
        head: EntryHead {
            order: 0,
            id: turn.id,
            started_at: turn.started_at@,
            ended_at: first_text(text::opt_text(turn.ended_at), terminal_end(run)),
            state: turn_state(run, turn),
        },
        body: EntryBody::Turn {
            ordinal: turn.ordinal,
            stop_reason: text::opt_text(turn.stop_reason),
            usage: turn_usage(turn),
            context_tokens: turn.context_tokens,
            context_window: turn.context_window,
        },
    }
}

/// The entry for a step.
pub open spec fn step_entry(run: TriageRunRecord, step: TriageStepRecord) -> EntryModel {
    EntryModel {
        head: EntryHead {
            order: 1,
            id: step.id,
            started_at: step.started_at@,
            ended_at: first_text(text::opt_text(step.ended_at), terminal_end(run)),
            state: span_state(run, text::opt_text(step.outcome)),
        },
        body: EntryBody::Span {
            turn_ordinal: step.turn_ordinal,
            kind: step.kind@,
            label: step.label@,
            summary: text::opt_text(step.summary),
        },
    }
}

/// The entry for a retry.
pub open spec fn retry_entry(
    run: TriageRunRecord,
    turns: Seq<TriageTurnRecord>,
    retry: TriageRetryRecord,
) -> EntryModel {
    EntryModel {
        head: EntryHead {
            order: 2,
            id: retry.id,
            started_at: retry.started_at@,
            ended_at: first_text(text::opt_text(retry.ended_at), terminal_end(run)),
            state: span_state(run, text::opt_text(retry.outcome)),
        },
        body: EntryBody::Retry {
            turn_ordinal: ordinal_of(turns, retry.turn_id),
            attempt: retry.attempt,
            max_attempts: retry.max_attempts,
            delay_ms: retry.delay_ms,
            wait_ended_at: retry.wait_ended_at@,
            error_category: text::opt_text(retry.error_category),
        },
    }
}

/// The entry for a compaction.
pub open spec fn compaction_entry(
    run: TriageRunRecord,
    turns: Seq<TriageTurnRecord>,
    compaction: TriageCompactionRecord,
) -> EntryModel {
    EntryModel {
        head: EntryHead {
            order: 3,
            id: compaction.id,
            started_at: compaction.started_at@,
            ended_at: first_text(text::opt_text(compaction.ended_at), terminal_end(run)),
            state: span_state(run, text::opt_text(compaction.outcome)),
        },
        body: EntryBody::Compaction {
            turn_ordinal: ordinal_of(turns, compaction.turn_id),
            reason: text::opt_text(compaction.reason),
            aborted: compaction.aborted,
            will_retry: compaction.will_retry,
            tokens_before: compaction.tokens_before,
            estimated_tokens_after: compaction.estimated_tokens_after,
            total_tokens: compaction.total_tokens,
        },
    }
}

/// The entries for the steps. Those for compactions have entries of their own.
pub open spec fn step_entries(run: TriageRunRecord, steps: Seq<TriageStepRecord>) -> Seq<EntryModel>
    decreases steps.len(),
{
    if steps.len() == 0 {
        Seq::empty()
    } else if steps.last().kind@ == "compaction"@ {
        step_entries(run, steps.drop_last())
    } else {
        step_entries(run, steps.drop_last()).push(step_entry(run, steps.last()))
    }
}

/// All entries, kind by kind.
pub open spec fn all_entries(
    run: TriageRunRecord,
    steps: Seq<TriageStepRecord>,
    turns: Seq<TriageTurnRecord>,
    retries: Seq<TriageRetryRecord>,
    compactions: Seq<TriageCompactionRecord>,
) -> Seq<EntryModel> {
    turns.map_values(|turn: TriageTurnRecord| turn_entry(run, turn)) + step_entries(run, steps)
        + retries.map_values(|retry: TriageRetryRecord| retry_entry(run, turns, retry))
        + compactions.map_values(
        |compaction: TriageCompactionRecord| compaction_entry(run, turns, compaction),
    )
}

/// Whether the first entry comes before the second one or at the same place: by start, then by
/// kind, then by number.
pub open spec fn entry_le(a: EntryHead, b: EntryHead) -> bool {
    if a.started_at != b.started_at {
        text::text_le(a.started_at, b.started_at)
    } else if a.order != b.order {
        a.order < b.order
    } else {
        a.id <= b.id
    }
}

/// Where an entry goes among the first entries of a list: behind the last that does not come
/// behind it.
pub open spec fn entry_place(list: Seq<EntryModel>, entry: EntryModel, n: int) -> int
    decreases n,
{
    if n <= 0 || n > list.len() {
        0
    } else if entry_le(list[n - 1].head, entry.head) {
        n
    } else {
        entry_place(list, entry, n - 1)
    }
}

/// The entries in order. Those at the same place keep theirs.
pub open spec fn sorted_entries(list: Seq<EntryModel>) -> Seq<EntryModel>
    decreases list.len(),
{
    if list.len() == 0 {
        Seq::empty()
    } else {
        let before = sorted_entries(list.drop_last());
        before.insert(entry_place(before, list.last(), before.len() as int), list.last())
    }
}

impl TimelineEntry {
    fn order(&self) -> (order: u8)
        ensures
            order == self@.head.order,
    {
        match self {
            TimelineEntry::Turn { .. } => 0,
            TimelineEntry::Span { .. } => 1,
            TimelineEntry::Retry { .. } => 2,
            TimelineEntry::Compaction { .. } => 3,
        }
    }

    fn number(&self) -> (id: i64)
        ensures
            id == self@.head.id,
    {
        match self {
            TimelineEntry::Turn { id, .. } => *id,
            TimelineEntry::Span { id, .. } => *id,
            TimelineEntry::Retry { id, .. } => *id,
            TimelineEntry::Compaction { id, .. } => *id,
        }
    }

    fn start(&self) -> (started_at: &str)
        ensures
            started_at@ == self@.head.started_at,
    {
        match self {
            TimelineEntry::Turn { started_at, .. } => started_at.as_str(),
            TimelineEntry::Span { started_at, .. } => started_at.as_str(),
            TimelineEntry::Retry { started_at, .. } => started_at.as_str(),
            TimelineEntry::Compaction { started_at, .. } => started_at.as_str(),
        }
    }
}

fn is_entry_le(a: &TimelineEntry, b: &TimelineEntry) -> (le: bool)
    ensures
        le == entry_le(a@.head, b@.head),
{
    if !text::same(a.start(), b.start()) {
        text::is_text_le(a.start(), b.start())
    } else if a.order() != b.order() {
        a.order() < b.order()
    } else {
        a.number() <= b.number()
    }
}

fn insert_entry(list: &mut Vec<TimelineEntry>, entry: TimelineEntry)
    ensures
        entry_models(final(list)@) == entry_models(old(list)@).insert(
            entry_place(entry_models(old(list)@), entry@, old(list)@.len() as int),
            entry@,
        ),
{
    let ghost models = entry_models(list@);
    let mut i: usize = list.len();
    while i > 0 && !is_entry_le(&list[i - 1], &entry)
        invariant
            i <= list@.len(),
            models == entry_models(list@),
            entry_place(models, entry@, list@.len() as int) == entry_place(
                models,
                entry@,
                i as int,
            ),
        decreases i,
    {
        assert(models[i - 1] == list@[i - 1]@);
        i -= 1;
    }
    proof {
        if i > 0 {
            assert(models[i - 1] == list@[i - 1]@);
        }
    }
    list.insert(i, entry);
    assert(entry_models(list@) =~= models.insert(i as int, entry@));
}

fn copy_first(a: &Option<String>, b: &Option<String>) -> (out: Option<String>)
    ensures
        text::opt_text(out) == first_text(text::opt_text(*a), text::opt_text(*b)),
{
    match a {
        Some(_) => text::copy_opt(a),
        None => text::copy_opt(b),
    }
}

fn state_of(run: &TriageRunRecord, outcome: &Option<String>) -> (out: String)
    ensures
        out@ == span_state(*run, text::opt_text(*outcome)),
{
    match outcome {
        Some(outcome) => outcome.as_str().to_owned(),
        None => if run.outcome.is_some() {
            "interrupted".to_owned()
        } else {
            "active".to_owned()
        },
    }
}

fn find_ordinal(turns: &Vec<TriageTurnRecord>, turn_id: Option<i64>) -> (ordinal: Option<i64>)
    ensures
        ordinal == ordinal_of(turns@, turn_id),
{
    let mut i: usize = turns.len();
    assert(turns@.take(i as int) =~= turns@);
    while i > 0
        invariant
            i <= turns@.len(),
            ordinal_of(turns@, turn_id) == ordinal_of(turns@.take(i as int), turn_id),
        decreases i,
    {
        assert(turns@.take(i as int).drop_last() =~= turns@.take(i - 1));
        assert(turns@.take(i as int).last() == turns@[i - 1]);
        if let Some(id) = turn_id {
            if turns[i - 1].id == id {
                return Some(turns[i - 1].ordinal);
            }
        }
        i -= 1;
    }
    None
}

/// The entries of the timeline, in order.
pub fn timeline_entries(
    run: &TriageRunRecord,
    steps: &Vec<TriageStepRecord>,
    turns: &Vec<TriageTurnRecord>,
    retries: &Vec<TriageRetryRecord>,
    compactions: &Vec<TriageCompactionRecord>,
) -> (entries: Vec<TimelineEntry>)
    ensures
        entry_models(entries@) == sorted_entries(
            all_entries(*run, steps@, turns@, retries@, compactions@),
        ),
{
    let terminal = if run.outcome.is_some() {
        text::copy_opt(&run.ended_at)
    } else {
        None
    };
    assert(text::opt_text(terminal) == terminal_end(*run));
    let ghost turn_list = turns@.map_values(|turn: TriageTurnRecord| turn_entry(*run, turn));
    let ghost step_list = step_entries(*run, steps@);
    let ghost retry_list = retries@.map_values(
        |retry: TriageRetryRecord| retry_entry(*run, turns@, retry),
    );
    let ghost compaction_list = compactions@.map_values(
        |compaction: TriageCompactionRecord| compaction_entry(*run, turns@, compaction),
    );
    let mut entries: Vec<TimelineEntry> = Vec::new();
    let mut i: usize = 0;
    assert(entry_models(entries@) =~= sorted_entries(turn_list.take(0)));
    while i < turns.len()
        invariant
            i <= turns@.len(),
            text::opt_text(terminal) == terminal_end(*run),
            turn_list == turns@.map_values(|turn: TriageTurnRecord| turn_entry(*run, turn)),
            entry_models(entries@) == sorted_entries(turn_list.take(i as int)),
        decreases turns@.len() - i,
    {
        let turn = &turns[i];
        let state = if run.outcome.is_some() && text::is_text(&turn.stop_reason, "aborted") {
            "interrupted"
        } else if turn.ended_at.is_some() {
            "completed"
        } else if run.outcome.is_some() {
            "interrupted"
        } else {
            "active"
        };
        let entry = TimelineEntry::Turn {
            id: turn.id,
            ordinal: turn.ordinal,
            started_at: turn.started_at.as_str().to_owned(),
            ended_at: copy_first(&turn.ended_at, &terminal),
            state: state.to_owned(),
            stop_reason: text::copy_opt(&turn.stop_reason),
            usage: UsageMetrics {
                input_tokens: turn.input_tokens,
                output_tokens: turn.output_tokens,
                cache_read_tokens: turn.cache_read_tokens,
                cache_write_tokens: turn.cache_write_tokens,
                reasoning_tokens: turn.reasoning_tokens,
                total_tokens: turn.total_tokens,
            },
            context_tokens: turn.context_tokens,
            context_window: turn.context_window,
        };
        assert(turn_list.take(i + 1).drop_last() =~= turn_list.take(i as int));
        assert(turn_list.take(i + 1).last() == entry@);
        insert_entry(&mut entries, entry);
        i += 1;
    }
    assert(turn_list.take(i as int) =~= turn_list);
    let mut j: usize = 0;
    assert(steps@.take(0) =~= Seq::empty());
    assert(turn_list + step_entries(*run, steps@.take(0)) =~= turn_list);
    while j < steps.len()
        invariant
            j <= steps@.len(),
            text::opt_text(terminal) == terminal_end(*run),
            entry_models(entries@) == sorted_entries(
                turn_list + step_entries(*run, steps@.take(j as int)),
            ),
        decreases steps@.len() - j,
    {
        assert(steps@.take(j + 1).drop_last() =~= steps@.take(j as int));
        let step = &steps[j];
        if !text::same(step.kind.as_str(), "compaction") {
            let entry = TimelineEntry::Span {
                id: step.id,
                turn_ordinal: step.turn_ordinal,
                kind: step.kind.as_str().to_owned(),
                label: step.label.as_str().to_owned(),
                summary: text::copy_opt(&step.summary),
                started_at: step.started_at.as_str().to_owned(),
                ended_at: copy_first(&step.ended_at, &terminal),
                state: state_of(run, &step.outcome),
            };
            let ghost longer = turn_list + step_entries(*run, steps@.take(j + 1));
            assert(longer.drop_last() =~= turn_list + step_entries(*run, steps@.take(j as int)));
            assert(longer.last() == entry@);
            insert_entry(&mut entries, entry);
        }
        j += 1;
    }
    assert(steps@.take(j as int) =~= steps@);
    let ghost first_two = turn_list + step_list;
    let mut k: usize = 0;
    assert(first_two + retry_list.take(0) =~= first_two);
    while k < retries.len()
        invariant
            k <= retries@.len(),
            text::opt_text(terminal) == terminal_end(*run),
            retry_list == retries@.map_values(
                |retry: TriageRetryRecord| retry_entry(*run, turns@, retry),
            ),
            entry_models(entries@) == sorted_entries(first_two + retry_list.take(k as int)),
        decreases retries@.len() - k,
    {
        let retry = &retries[k];
        let entry = TimelineEntry::Retry {
            id: retry.id,
            turn_ordinal: find_ordinal(turns, retry.turn_id),
            attempt: retry.attempt,
            max_attempts: retry.max_attempts,
            delay_ms: retry.delay_ms,
            started_at: retry.started_at.as_str().to_owned(),
            wait_ended_at: retry.wait_ended_at.as_str().to_owned(),
            ended_at: copy_first(&retry.ended_at, &terminal),
            state: state_of(run, &retry.outcome),
            error_category: text::copy_opt(&retry.error_category),
        };
        let ghost longer = first_two + retry_list.take(k + 1);
        assert(longer.drop_last() =~= first_two + retry_list.take(k as int));
        assert(longer.last() == entry@);
        insert_entry(&mut entries, entry);
        k += 1;
    }
    assert(retry_list.take(k as int) =~= retry_list);
    let ghost first_three = first_two + retry_list;
    let mut m: usize = 0;
    assert(first_three + compaction_list.take(0) =~= first_three);
    while m < compactions.len()
        invariant
            m <= compactions@.len(),
            text::opt_text(terminal) == terminal_end(*run),
            compaction_list == compactions@.map_values(
                |compaction: TriageCompactionRecord| compaction_entry(*run, turns@, compaction),
            ),
            entry_models(entries@) == sorted_entries(
                first_three + compaction_list.take(m as int),
            ),
        decreases compactions@.len() - m,
    {
        let compaction = &compactions[m];
        let entry = TimelineEntry::Compaction {
            id: compaction.id,
            turn_ordinal: find_ordinal(turns, compaction.turn_id),
            reason: text::copy_opt(&compaction.reason),
            started_at: compaction.started_at.as_str().to_owned(),
            ended_at: copy_first(&compaction.ended_at, &terminal),
            state: state_of(run, &compaction.outcome),
            aborted: compaction.aborted,
            will_retry: compaction.will_retry,
            tokens_before: compaction.tokens_before,
            estimated_tokens_after: compaction.estimated_tokens_after,
            total_tokens: compaction.total_tokens,
        };
        let ghost longer = first_three + compaction_list.take(m + 1);
        assert(longer.drop_last() =~= first_three + compaction_list.take(m as int));
        assert(longer.last() == entry@);
        insert_entry(&mut entries, entry);
        m += 1;
    }
    assert(compaction_list.take(m as int) =~= compaction_list);
    entries
}

// ---------------------------------------------------------------------------------------------
// Pages
// ---------------------------------------------------------------------------------------------

/// The largest offset of a page.
pub const MAX_OFFSET: u64 = 9_007_199_254_740_991;

/// Which part of a timeline is shown.
#[derive(Clone, Copy, Debug, PartialEq, Eq, Structural)]
pub struct TimelinePage {
    pub offset: u64,
    pub limit: u64,
    pub returned: u64,
    pub total: u64,
    pub has_more: bool,
    pub next_offset: Option<u64>,
}

/// A part of a timeline.
#[derive(Clone, Debug)]
pub struct Timeline {
    pub entries: Vec<TimelineEntry>,
    pub page: TimelinePage,
}

/// The offset that is served.
pub open spec fn page_offset(offset: u64) -> u64 {
    if offset < MAX_OFFSET {
        offset
    } else {
        MAX_OFFSET
    }
}

/// The number of entries that are served at most.
pub open spec fn page_limit(limit: u64) -> u64 {
    if limit < 1 {
        1
    } else if limit > 500 {
        500
    } else {
        limit
    }
}

/// The first place behind the page.
pub open spec fn page_end(total: nat, offset: u64, limit: u64) -> nat {
    let start = page_offset(offset);
    if start >= total {
        start as nat
    } else if start + page_limit(limit) < total {
        (start + page_limit(limit)) as nat
    } else {
        total
    }
}

/// The entries on the page.
pub open spec fn page_entries(entries: Seq<EntryModel>, offset: u64, limit: u64) -> Seq<EntryModel> {
    if page_offset(offset) >= entries.len() {
        Seq::empty()
    } else {
        entries.subrange(page_offset(offset) as int, page_end(entries.len(), offset, limit) as int)
    }
}

/// The page of a timeline from the offset on.
pub fn paginate(entries: Vec<TimelineEntry>, offset: u64, limit: u64) -> (timeline: Timeline)
    ensures
        entry_models(timeline.entries@) == page_entries(entry_models(entries@), offset, limit),
        ({
            let end = page_end(entries@.len(), offset, limit);
            let page = timeline.page;
            &&& page.offset == page_offset(offset)
            &&& page.limit == page_limit(limit)
            &&& page.returned == timeline.entries@.len()
            &&& page.total == entries@.len()
            &&& page.has_more == (end < entries@.len())
            &&& page.next_offset == (if end < entries@.len() {
                Some(end as u64)
            } else {
                None
            })
        }),
{
    let ghost all = entry_models(entries@);
    let start = if offset < MAX_OFFSET {
        offset
    } else {
        MAX_OFFSET
    };
    let most = if limit < 1 {
        1
    } else if limit > 500 {
        500
    } else {
        limit
    };
    let total = entries.len() as u64;
    let mut list = entries;
    if start >= total {
        let page = TimelinePage {
            offset: start,
            limit: most,
            returned: 0,
            total,
            has_more: false,
            next_offset: None,
        };
        let empty: Vec<TimelineEntry> = Vec::new();
        assert(entry_models(empty@) =~= Seq::empty());
        return Timeline { entries: empty, page };
    }
    let end = if total - start > most {
        start + most
    } else {
        total
    };
    list.truncate(end as usize);
    let shown = list.split_off(start as usize);
    assert(entry_models(shown@) =~= all.subrange(start as int, end as int));
    let returned = shown.len() as u64;
    Timeline {
        entries: shown,
        page: TimelinePage {
            offset: start,
            limit: most,
            returned,
            total,
            has_more: end < total,
            next_offset: if end < total {
                Some(end)
            } else {
                None
            },
        },
    }
}

// ---------------------------------------------------------------------------------------------
// The event
// ---------------------------------------------------------------------------------------------

/// What may be shown of the URL in the metadata of an event.
pub open spec fn event_url(event: EventRecord) -> Option<Seq<char>> {
    match json::pointed_text(event.operational_metadata@, "/url"@) {
        Some(value) => shown_url(url_parts(value)),
        None => None,
    }
}

/// What may be shown of the URL in the metadata of an event.
pub fn safe_event_url(event: &EventRecord) -> (url: Option<String>)
    ensures
        text::opt_text(url) == event_url(*event),
{
    match json::text_at(event.operational_metadata.as_str(), "/url") {
        Some(value) => safe_url(split_url(value.as_str())),
        None => None,
    }
}

/// Of an event that a source reported, the URL that may be shown is that of the URL that was
/// reported.
pub proof fn law_reported_urls_are_shown(item: IntakeItem, event: EventRecord)
    requires
        metadata_kept(item),
        json::object_text(item_metadata(item)) == Ok::<Seq<char>, Seq<char>>(
            event.operational_metadata@,
        ),
    ensures
        event_url(event) == (match item.url {
            Some(url) => shown_url(url_parts(url@)),
            None => None,
        }),
{
}

/// What is shown of an event.
#[derive(Clone, Debug)]
pub struct EventProjection {
    pub id: i64,
    pub source: String,
    pub entity_id: String,
    pub kind: String,
    pub title: String,
    pub url: Option<String>,
    pub occurred_at: String,
    pub observed_at: String,
    pub status: EventStatus,
    pub aven_ref: Option<String>,
    pub investigation_handle: Option<String>,
}

/// Whether this is what is shown of the event.
pub open spec fn shows_event(shown: EventProjection, event: EventRecord) -> bool {
    &&& shown.id == event.id
    &&& shown.source@ == event.source@
    &&& shown.entity_id@ == event.entity_id@
    &&& shown.kind@ == event.kind@
    &&& shown.title@ == event.title@
    &&& text::opt_text(shown.url) == event_url(event)
    &&& shown.occurred_at@ == event.occurred_at@
    &&& shown.observed_at@ == event.observed_at@
    &&& shown.status == event.status
    &&& text::opt_text(shown.aven_ref) == text::opt_text(event.aven_ref)
    &&& text::opt_text(shown.investigation_handle) == text::opt_text(event.investigation_handle)
}

/// What is shown of an event.
pub fn event_projection(event: &EventRecord) -> (shown: EventProjection)
    ensures
        shows_event(shown, *event),
{
    EventProjection {
        id: event.id,
        source: event.source.as_str().to_owned(),
        entity_id: event.entity_id.as_str().to_owned(),
        kind: event.kind.as_str().to_owned(),
        title: event.title.as_str().to_owned(),
        url: safe_event_url(event),
        occurred_at: event.occurred_at.as_str().to_owned(),
        observed_at: event.observed_at.as_str().to_owned(),
        status: event.status,
        aven_ref: text::copy_opt(&event.aven_ref),
        investigation_handle: text::copy_opt(&event.investigation_handle),
    }
}

// ---------------------------------------------------------------------------------------------
// The run
// ---------------------------------------------------------------------------------------------

/// Whether the run is shown as interrupted: it has no outcome, and its event is not being worked
/// on.
pub open spec fn abandoned(run: TriageRunRecord, event: EventRecord) -> bool {
    run.outcome is None && event.status != EventStatus::Processing
}

/// Whether `shown` is the run as it is shown: an abandoned one ended with its last activity.
pub open spec fn displays(
    shown: TriageRunRecord,
    run: TriageRunRecord,
    event: EventRecord,
) -> bool {
    if abandoned(run, event) {
        &&& text::opt_text(shown.outcome) == Some("interrupted"@)
        &&& text::opt_text(shown.ended_at) == first_text(
            text::opt_text(run.ended_at),
            Some(run.last_activity_at@),
        )
        &&& shown == (TriageRunRecord { outcome: shown.outcome, ended_at: shown.ended_at, ..run })
    } else {
        shown == run
    }
}

/// The run as it is shown.
pub fn display_run(run: TriageRunRecord, event: &EventRecord) -> (shown: TriageRunRecord)
    ensures
        displays(shown, run, *event),
{
    let mut shown = run;
    if shown.outcome.is_none() && event.status != EventStatus::Processing {
        if shown.ended_at.is_none() {
            shown.ended_at = Some(shown.last_activity_at.as_str().to_owned());
        }
        shown.outcome = Some("interrupted".to_owned());
    }
    shown
}

/// What is shown of the model of a run.
#[derive(Clone, Debug)]
pub struct ModelProjection {
    pub id: Option<String>,
    pub provider: Option<String>,
    pub thinking_level: Option<String>,
    pub context_window: Option<i64>,
    pub max_tokens: Option<i64>,
}

/// What is shown of the record of a run.
#[derive(Clone, Debug)]
pub struct TelemetryProjection {
    pub schema_version: Option<i64>,
    pub completeness: String,
}

/// What is shown of a run.
#[derive(Clone, Debug)]
pub struct RunProjection {
    pub id: i64,
    pub event_id: i64,
    pub attempt: u32,
    pub started_at: String,
    pub ended_at: Option<String>,
    pub last_activity_at: String,
    pub state: String,
    pub termination_reason: Option<String>,
    pub failure_category: Option<String>,
    pub model: ModelProjection,
    pub telemetry: TelemetryProjection,
}

/// The state of a run: its outcome, where it has one.
pub open spec fn run_state(outcome: Option<Seq<char>>) -> Seq<char> {
    match outcome {
        Some(outcome) => outcome,
        None => "active"@,
    }
}

fn state_or_active(outcome: &Option<String>) -> (state: String)
    ensures
        state@ == run_state(text::opt_text(*outcome)),
{
    match outcome {
        Some(outcome) => outcome.as_str().to_owned(),
        None => "active".to_owned(),
    }
}

/// Whether this is what is shown of the run.
pub open spec fn shows_run(shown: RunProjection, run: TriageRunRecord) -> bool {
    &&& shown.id == run.id
    &&& shown.event_id == run.event_id
    &&& shown.attempt == run.attempt
    &&& shown.started_at@ == run.started_at@
    &&& text::opt_text(shown.ended_at) == text::opt_text(run.ended_at)
    &&& shown.last_activity_at@ == run.last_activity_at@
    &&& shown.state@ == run_state(text::opt_text(run.outcome))
    &&& text::opt_text(shown.termination_reason) == text::opt_text(run.termination_reason)
    &&& text::opt_text(shown.failure_category) == text::opt_text(run.failure_category)
    &&& text::opt_text(shown.model.id) == text::opt_text(run.model_id)
    &&& text::opt_text(shown.model.provider) == text::opt_text(run.model_provider)
    &&& text::opt_text(shown.model.thinking_level) == text::opt_text(run.thinking_level)
    &&& shown.model.context_window == run.context_window
    &&& shown.model.max_tokens == run.max_tokens
    &&& shown.telemetry.schema_version == run.telemetry_version
    &&& shown.telemetry.completeness@ == run.telemetry_completeness@
}

/// What is shown of a run.
pub fn run_projection(run: &TriageRunRecord) -> (shown: RunProjection)
    ensures
        shows_run(shown, *run),
{
    RunProjection {
        id: run.id,
        event_id: run.event_id,
        attempt: run.attempt,
        started_at: run.started_at.as_str().to_owned(),
        ended_at: text::copy_opt(&run.ended_at),
        last_activity_at: run.last_activity_at.as_str().to_owned(),
        state: state_or_active(&run.outcome),
        termination_reason: text::copy_opt(&run.termination_reason),
        failure_category: text::copy_opt(&run.failure_category),
        model: ModelProjection {
            id: text::copy_opt(&run.model_id),
            provider: text::copy_opt(&run.model_provider),
            thinking_level: text::copy_opt(&run.thinking_level),
            context_window: run.context_window,
            max_tokens: run.max_tokens,
        },
        telemetry: TelemetryProjection {
            schema_version: run.telemetry_version,
            completeness: run.telemetry_completeness.as_str().to_owned(),
        },
    }
}

/// What is shown of another run of the event.
#[derive(Clone, Debug)]
pub struct SiblingAttempt {
    pub id: i64,
    pub attempt: u32,
    pub started_at: String,
    pub ended_at: Option<String>,
    pub state: String,
    pub failure_category: Option<String>,
    pub telemetry_completeness: String,
}

/// Whether this is what is shown of another run of the event.
pub open spec fn shows_sibling(
    shown: SiblingAttempt,
    run: TriageRunRecord,
    event: EventRecord,
) -> bool {
    &&& shown.id == run.id
    &&& shown.attempt == run.attempt
    &&& shown.started_at@ == run.started_at@
    &&& text::opt_text(shown.ended_at) == (if abandoned(run, event) {
        first_text(text::opt_text(run.ended_at), Some(run.last_activity_at@))
    } else {
        text::opt_text(run.ended_at)
    })
    &&& shown.state@ == (if abandoned(run, event) {
        "interrupted"@
    } else {
        run_state(text::opt_text(run.outcome))
    })
    &&& text::opt_text(shown.failure_category) == text::opt_text(run.failure_category)
    &&& shown.telemetry_completeness@ == run.telemetry_completeness@
}

fn show_siblings(runs: Vec<TriageRunRecord>, event: &EventRecord) -> (shown: Vec<SiblingAttempt>)
    ensures
        shown@.len() == runs@.len(),
        forall|i: int|
            0 <= i < runs@.len() ==> shows_sibling(#[trigger] shown@[i], runs@[i], *event),
{
    let ghost all = runs@;
    let mut rest = runs;
    let mut shown: Vec<SiblingAttempt> = Vec::new();
    while rest.len() > 0
        invariant
            shown@.len() <= all.len(),
            rest@ == all.skip(shown@.len() as int),
            forall|i: int|
                0 <= i < shown@.len() ==> shows_sibling(#[trigger] shown@[i], all[i], *event),
        decreases rest@.len(),
    {
        let ghost n = shown@.len() as int;
        assert(rest@[0] == all[n]);
        let run = rest.remove(0);
        assert(rest@ =~= all.skip(n + 1));
        let run = display_run(run, event);
        shown.push(
            SiblingAttempt {
                id: run.id,
                attempt: run.attempt,
                state: state_or_active(&run.outcome),
                started_at: run.started_at,
                ended_at: run.ended_at,
                failure_category: run.failure_category,
                telemetry_completeness: run.telemetry_completeness,
            },
        );
    }
    shown
}

/// What is shown of something that a run has left behind.
#[derive(Clone, Debug)]
pub struct EffectProjection {
    pub effect_type: String,
    pub value: String,
    pub recorded_at: String,
}

fn show_effects(effects: Vec<TriageEffectRecord>) -> (shown: Vec<EffectProjection>)
    ensures
        shown@.len() == effects@.len(),
        forall|i: int|
            0 <= i < effects@.len() ==> {
                &&& (#[trigger] shown@[i]).effect_type == effects@[i].effect_type
                &&& shown@[i].value == effects@[i].value
                &&& shown@[i].recorded_at == effects@[i].recorded_at
            },
{
    let ghost all = effects@;
    let mut rest = effects;
    let mut shown: Vec<EffectProjection> = Vec::new();
    while rest.len() > 0
        invariant
            shown@.len() <= all.len(),
            rest@ == all.skip(shown@.len() as int),
            forall|i: int|
                0 <= i < shown@.len() ==> {
                    &&& (#[trigger] shown@[i]).effect_type == all[i].effect_type
                    &&& shown@[i].value == all[i].value
                    &&& shown@[i].recorded_at == all[i].recorded_at
                },
        decreases rest@.len(),
    {
        let ghost n = shown@.len() as int;
        assert(rest@[0] == all[n]);
        let effect = rest.remove(0);
        assert(rest@ =~= all.skip(n + 1));
        shown.push(
            EffectProjection {
                effect_type: effect.effect_type,
                value: effect.value,
                recorded_at: effect.recorded_at,
            },
        );
    }
    shown
}

/// What is shown of a prompt.
#[derive(Clone, Debug)]
pub struct PromptProjection {
    pub role: String,
    pub content: String,
    pub recorded_at: String,
}

fn show_prompts(prompts: Vec<TriageRunPromptRecord>) -> (shown: Vec<PromptProjection>)
    ensures
        shown@.len() == prompts@.len(),
        forall|i: int|
            0 <= i < prompts@.len() ==> {
                &&& (#[trigger] shown@[i]).role == prompts@[i].role
                &&& shown@[i].content == prompts@[i].content
                &&& shown@[i].recorded_at == prompts@[i].recorded_at
            },
{
    let ghost all = prompts@;
    let mut rest = prompts;
    let mut shown: Vec<PromptProjection> = Vec::new();
    while rest.len() > 0
        invariant
            shown@.len() <= all.len(),
            rest@ == all.skip(shown@.len() as int),
            forall|i: int|
                0 <= i < shown@.len() ==> {
                    &&& (#[trigger] shown@[i]).role == all[i].role
                    &&& shown@[i].content == all[i].content
                    &&& shown@[i].recorded_at == all[i].recorded_at
                },
        decreases rest@.len(),
    {
        let ghost n = shown@.len() as int;
        assert(rest@[0] == all[n]);
        let prompt = rest.remove(0);
        assert(rest@ =~= all.skip(n + 1));
        shown.push(
            PromptProjection {
                role: prompt.role,
                content: prompt.content,
                recorded_at: prompt.recorded_at,
            },
        );
    }
    shown
}

/// The limits of a run.
#[derive(Clone, Copy, Debug, PartialEq, Eq, Structural)]
pub struct RunLimits {
    pub max_turns: Option<u32>,
    pub wall_timeout_ms: Option<u64>,
    pub model_context_window: Option<i64>,
    pub model_max_tokens: Option<i64>,
}

/// Which part of the timeline is shown, what the limits of a run are, and what time it is.
#[derive(Clone, Copy, Debug, PartialEq, Eq, Structural)]
pub struct RunDetailOptions {
    pub offset: u64,
    pub limit: u64,
    pub max_turns: Option<u32>,
    pub wall_timeout_ms: Option<u64>,
    pub now: i64,
}

impl RunDetailOptions {
    /// The first page, without limits.
    pub fn at(now: i64) -> (options: Self)
        ensures
            options == (RunDetailOptions {
                offset: 0,
                limit: 200,
                max_turns: None,
                wall_timeout_ms: None,
                now,
            }),
    {
        RunDetailOptions { offset: 0, limit: 200, max_turns: None, wall_timeout_ms: None, now }
    }
}

/// Everything that is recorded of a run.
#[derive(Debug)]
pub struct RunRecords {
    pub run: TriageRunRecord,
    pub event: EventRecord,
    pub steps: Vec<TriageStepRecord>,
    pub turns: Vec<TriageTurnRecord>,
    pub retries: Vec<TriageRetryRecord>,
    pub compactions: Vec<TriageCompactionRecord>,
    pub siblings: Vec<TriageRunRecord>,
    pub effects: Vec<TriageEffectRecord>,
    pub prompts: Vec<TriageRunPromptRecord>,
}

/// What is shown of a run.
#[derive(Clone, Debug)]
pub struct RunDetail {
    pub generated_at: Option<String>,
    pub run: RunProjection,
    pub event: EventProjection,
    pub sibling_attempts: Vec<SiblingAttempt>,
    pub metrics: RunMetrics,
    pub effects: Vec<EffectProjection>,
    pub prompts: Vec<PromptProjection>,
    pub limits: RunLimits,
    pub timeline: Timeline,
}

/// Whether the figures are those of the run.
pub open spec fn measures(metrics: RunMetrics, run: TriageRunRecord, records: RunRecords, now: i64) -> bool {
    &&& metrics.duration_ms == (if recorded(run) {
        partitioned(
            run_intervals(
                run,
                records.steps@,
                records.turns@,
                records.retries@,
                records.compactions@,
                run_start(run),
                run_stop(run, now),
            ),
            run_start(run),
            run_stop(run, now),
        )
    } else {
        wall_only(run_start(run), run_stop(run, now))
    })
    &&& recorded(run) ==> {
        &&& metrics.tool_call_count matches Some(n) && n == tool_calls(records.steps@)
        &&& metrics.failed_tool_count matches Some(n) && n == failed_tool_calls(records.steps@)
        &&& metrics.turn_count matches Some(n) && n == records.turns@.len()
        &&& metrics.retry_count matches Some(n) && n == records.retries@.len()
        &&& metrics.compaction_count matches Some(n) && n == records.compactions@.len()
    }
    &&& !recorded(run) ==> {
        &&& metrics.tool_call_count is None
        &&& metrics.failed_tool_count is None
        &&& metrics.turn_count is None
        &&& metrics.retry_count is None
        &&& metrics.compaction_count is None
    }
    &&& metrics.usage == run_usage(records.turns@, records.compactions@)
    &&& metrics.peak_context_tokens == peak_context(records.turns@)
    &&& metrics.source_lag_ms == elapsed_ms(records.event.occurred_at@, run.started_at@)
    &&& metrics.queue_wait_ms == elapsed_ms(records.event.observed_at@, run.started_at@)
}

/// Whether the detail is that of the run, which is shown as `run`.
pub open spec fn details(
    detail: RunDetail,
    run: TriageRunRecord,
    records: RunRecords,
    options: RunDetailOptions,
) -> bool {
    let entries = sorted_entries(
        all_entries(
            run,
            records.steps@,
            records.turns@,
            records.retries@,
            records.compactions@,
        ),
    );
    let end = page_end(entries.len(), options.offset, options.limit);
    &&& text::opt_text(detail.generated_at) == rfc3339(options.now)
    &&& shows_run(detail.run, run)
    &&& shows_event(detail.event, records.event)
    &&& detail.sibling_attempts@.len() == records.siblings@.len()
    &&& forall|i: int|
        0 <= i < records.siblings@.len() ==> shows_sibling(
            #[trigger] detail.sibling_attempts@[i],
            records.siblings@[i],
            records.event,
        )
    &&& measures(detail.metrics, run, records, options.now)
    &&& detail.effects@.len() == records.effects@.len()
    &&& forall|i: int|
        0 <= i < records.effects@.len() ==> {
            &&& (#[trigger] detail.effects@[i]).effect_type == records.effects@[i].effect_type
            &&& detail.effects@[i].value == records.effects@[i].value
            &&& detail.effects@[i].recorded_at == records.effects@[i].recorded_at
        }
    &&& detail.prompts@.len() == records.prompts@.len()
    &&& forall|i: int|
        0 <= i < records.prompts@.len() ==> {
            &&& (#[trigger] detail.prompts@[i]).role == records.prompts@[i].role
            &&& detail.prompts@[i].content == records.prompts@[i].content
            &&& detail.prompts@[i].recorded_at == records.prompts@[i].recorded_at
        }
    &&& detail.limits == (RunLimits {
        max_turns: options.max_turns,
        wall_timeout_ms: options.wall_timeout_ms,
        model_context_window: run.context_window,
        model_max_tokens: run.max_tokens,
    })
    &&& entry_models(detail.timeline.entries@) == page_entries(
        entries,
        options.offset,
        options.limit,
    )
    &&& detail.timeline.page.offset == page_offset(options.offset)
    &&& detail.timeline.page.limit == page_limit(options.limit)
    &&& detail.timeline.page.returned == detail.timeline.entries@.len()
    &&& detail.timeline.page.total == entries.len()
    &&& detail.timeline.page.has_more == (end < entries.len())
    &&& detail.timeline.page.next_offset == (if end < entries.len() {
        Some(end as u64)
    } else {
        None
    })
}

/// Whether this is everything that the store holds of the run: the run, its event, and all that
/// was recorded of the run, each in its order; and all runs of the event.
pub open spec fn reads_records(records: RunRecords, store: StoreModel, id: i64) -> bool {
    &&& run_place(store.runs, id, 0) matches Some(place)
    &&& states_run(records.run, store.runs[place])
    &&& joined(store, store.runs[place].event_id) matches Some((event, entity))
    &&& states(records.event, event, entity)
    &&& steps_read(
        Ok(records.steps),
        store.steps,
        store.turns,
        in_order(step_keys(store.steps, id)),
    )
    &&& turns_read(Ok(records.turns), store.turns, in_order(turn_keys(store.turns, id)))
    &&& retries_read(Ok(records.retries), store.retries, in_order(retry_keys(store.retries, id)))
    &&& compactions_read(
        Ok(records.compactions),
        store.compactions,
        in_order(compaction_keys(store.compactions, id)),
    )
    &&& runs_read(Ok(records.siblings), store.runs, in_order(run_keys(store.runs, event.id)))
    &&& effects_read(Ok(records.effects), store.effects, in_order(effect_keys(store.effects, id)))
    &&& prompts_read(Ok(records.prompts), store.prompts, in_order(prompt_keys(store.prompts, id)))
}

/// The figure that is stored.
pub open spec fn stored_tokens(usage: ReportedUsage, kind: TokenKind) -> Option<i64> {
    match kind {
        TokenKind::Input => usage.input_tokens,
        TokenKind::Output => usage.output_tokens,
        TokenKind::CacheRead => usage.cache_read_tokens,
        TokenKind::CacheWrite => usage.cache_write_tokens,
        TokenKind::Reasoning => usage.reasoning_tokens,
        TokenKind::Total => usage.total_tokens,
    }
}

/// The figures of all turns and compactions of the run that the store holds.
pub open spec fn run_tokens(store: StoreModel, id: i64, kind: TokenKind) -> Seq<Option<i64>> {
    in_order(turn_keys(store.turns, id)).map_values(
        |place: usize| stored_tokens(store.turns[place as int].usage, kind),
    ) + in_order(compaction_keys(store.compactions, id)).map_values(
        |place: usize| stored_tokens(store.compactions[place as int].usage, kind),
    )
}

/// Whether the figures of the run that the store holds can be added up.
pub open spec fn stored_usage_adds_up(store: StoreModel, id: i64) -> bool {
    &&& addable(run_tokens(store, id, TokenKind::Input))
    &&& addable(run_tokens(store, id, TokenKind::Output))
    &&& addable(run_tokens(store, id, TokenKind::CacheRead))
    &&& addable(run_tokens(store, id, TokenKind::CacheWrite))
    &&& addable(run_tokens(store, id, TokenKind::Reasoning))
    &&& addable(run_tokens(store, id, TokenKind::Total))
}

/// The figures that are read of a run are those that the store holds: they can be added up
/// exactly if those can.
pub proof fn law_stored_usage_is_read(records: RunRecords, store: StoreModel, id: i64)
    requires
        reads_records(records, store, id),
    ensures
        forall|kind: TokenKind| #[trigger]
            reported_tokens(records.turns@, records.compactions@, kind) == run_tokens(
                store,
                id,
                kind,
            ),
        usage_adds_up(records.turns@, records.compactions@) == stored_usage_adds_up(store, id),
{
    let turns = in_order(turn_keys(store.turns, id));
    let compactions = in_order(compaction_keys(store.compactions, id));
    assert forall|kind: TokenKind| #[trigger]
        reported_tokens(records.turns@, records.compactions@, kind) == run_tokens(
        store,
        id,
        kind,
    ) by {
        let read = reported_tokens(records.turns@, records.compactions@, kind);
        let held = run_tokens(store, id, kind);
        assert(read.len() == held.len());
        assert forall|i: int| 0 <= i < read.len() implies read[i] == held[i] by {
            if i < turns.len() {
                assert(states_turn(records.turns@[i], store.turns[turns[i] as int]));
            } else {
                let j = i - turns.len();
                assert(states_compaction(
                    records.compactions@[j],
                    store.compactions[compactions[j] as int],
                ));
            }
        }
        assert(read =~= held);
    }
}

/// Whether the store holds the run and its event.
pub open spec fn run_is_known(store: StoreModel, id: i64) -> bool {
    run_place(store.runs, id, 0) matches Some(place) && joined(
        store,
        store.runs[place].event_id,
    ) is Some
}

/// Whether the error is that of a reading that fails: of the run, of its event, or of something
/// that was recorded of it.
pub open spec fn fails_reading(error: DatabaseError, store: StoreModel, id: i64) -> bool {
    &&& run_place(store.runs, id, 0) matches Some(place)
    &&& {
        ||| run_problem(store.runs[place]) matches Some(problem) && tells(error, problem)
        ||| joined(store, store.runs[place].event_id) matches Some((event, _)) && {
            ||| !moments_fit(event) && is_out_of_range(error)
            ||| steps_read(
                Err(error),
                store.steps,
                store.turns,
                in_order(step_keys(store.steps, id)),
            )
            ||| turns_read(Err(error), store.turns, in_order(turn_keys(store.turns, id)))
            ||| retries_read(Err(error), store.retries, in_order(retry_keys(store.retries, id)))
            ||| compactions_read(
                Err(error),
                store.compactions,
                in_order(compaction_keys(store.compactions, id)),
            )
            ||| runs_read(Err(error), store.runs, in_order(run_keys(store.runs, event.id)))
            ||| effects_read(Err(error), store.effects, in_order(effect_keys(store.effects, id)))
            ||| prompts_read(Err(error), store.prompts, in_order(prompt_keys(store.prompts, id)))
        }
    }
}

/// Reads everything that is recorded of a run. None where the run or its event is not there.
pub fn run_records(database: &Store, run_id: RunId) -> (result: Result<
    Option<RunRecords>,
    DatabaseError,
>)
    ensures
        match result {
            Ok(Some(records)) => run_is_known(database@, run_id.0) && reads_records(
                records,
                database@,
                run_id.0,
            ),
            Ok(None) => !run_is_known(database@, run_id.0),
            Err(error) => fails_reading(error, database@, run_id.0),
        },
{
    let run = match database.triage_run(run_id)? {
        Some(run) => run,
        None => {
            return Ok(None);
        },
    };
    let event = match database.event(run.event_id)? {
        Some(event) => event,
        None => {
            return Ok(None);
        },
    };
    let steps = database.triage_run_steps(run_id)?;
    let turns = database.triage_run_turns(run_id)?;
    let retries = database.triage_run_retries(run_id)?;
    let compactions = database.triage_run_compactions(run_id)?;
    let siblings = database.triage_runs_for_event(event.id)?;
    let effects = database.triage_run_effects(run_id)?;
    let prompts = database.triage_run_prompts(run_id)?;
    Ok(
        Some(
            RunRecords {
                run,
                event,
                steps,
                turns,
                retries,
                compactions,
                siblings,
                effects,
                prompts,
            },
        ),
    )
}

/// What is shown of a run that the store holds.
pub fn run_detail(database: &Store, run_id: RunId, options: RunDetailOptions) -> (result: Result<
    Option<RunDetail>,
    DatabaseError,
>)
    requires
        stored_usage_adds_up(database@, run_id.0),
    ensures
        match result {
            Ok(Some(detail)) => exists|records: RunRecords, run: TriageRunRecord|
                reads_records(records, database@, run_id.0) && #[trigger] displays(
                    run,
                    records.run,
                    records.event,
                ) && #[trigger] details(detail, run, records, options),
            Ok(None) => !run_is_known(database@, run_id.0),
            Err(error) => fails_reading(error, database@, run_id.0),
        },
{
    match run_records(database, run_id)? {
        Some(records) => {
            let ghost read = records;
            proof {
                law_stored_usage_is_read(read, database@, run_id.0);
            }
            Ok(Some(detail_of(records, options)))
        },
        None => Ok(None),
    }
}

/// What is shown of a run, given everything that is recorded of it.
pub fn detail_of(records: RunRecords, options: RunDetailOptions) -> (detail: RunDetail)
    requires
        usage_adds_up(records.turns@, records.compactions@),
    ensures
        exists|run: TriageRunRecord| #[trigger]
            displays(run, records.run, records.event) && details(detail, run, records, options),
{
    let ghost all = records;
    let RunRecords {
        run,
        event,
        steps,
        turns,
        retries,
        compactions,
        siblings,
        effects,
        prompts,
    } = records;
    let run = display_run(run, &event);
    let metrics = run_metrics(&run, &event, &steps, &turns, &retries, &compactions, options.now);
    let entries = timeline_entries(&run, &steps, &turns, &retries, &compactions);
    let timeline = paginate(entries, options.offset, options.limit);
    let detail = RunDetail {
        generated_at: timestamp(options.now),
        run: run_projection(&run),
        event: event_projection(&event),
        sibling_attempts: show_siblings(siblings, &event),
        metrics,
        effects: show_effects(effects),
        prompts: show_prompts(prompts),
        limits: RunLimits {
            max_turns: options.max_turns,
            wall_timeout_ms: options.wall_timeout_ms,
            model_context_window: run.context_window,
            model_max_tokens: run.max_tokens,
        },
        timeline,
    };
    assert(displays(run, all.run, all.event) && details(detail, run, all, options));
    detail
}

// ---------------------------------------------------------------------------------------------
// Laws
// ---------------------------------------------------------------------------------------------

/// Whether no entry comes before one that stands in front of it.
pub open spec fn entries_in_order(list: Seq<EntryModel>) -> bool {
    forall|i: int, j: int|
        0 <= i < j < list.len() ==> entry_le(
            (#[trigger] list[i]).head,
            (#[trigger] list[j]).head,
        )
}

proof fn lemma_entry_order(a: EntryHead, b: EntryHead, c: EntryHead)
    ensures
        entry_le(a, b) || entry_le(b, a),
        entry_le(a, b) && entry_le(b, c) ==> entry_le(a, c),
{
    text::lemma_text_order(a.started_at, b.started_at, c.started_at);
    text::lemma_text_order(b.started_at, a.started_at, c.started_at);
    text::lemma_text_order(b.started_at, c.started_at, a.started_at);
}

proof fn lemma_entry_place(list: Seq<EntryModel>, entry: EntryModel, n: int)
    requires
        entries_in_order(list),
        0 <= n <= list.len(),
        forall|k: int| n <= k < list.len() ==> !entry_le((#[trigger] list[k]).head, entry.head),
    ensures
        0 <= entry_place(list, entry, n) <= n,
        forall|k: int|
            0 <= k < entry_place(list, entry, n) ==> entry_le(
                (#[trigger] list[k]).head,
                entry.head,
            ),
        forall|k: int|
            entry_place(list, entry, n) <= k < list.len() ==> !entry_le(
                (#[trigger] list[k]).head,
                entry.head,
            ),
    decreases n,
{
    if n > 0 {
        if entry_le(list[n - 1].head, entry.head) {
            assert forall|k: int| 0 <= k < n implies entry_le(
                (#[trigger] list[k]).head,
                entry.head,
            ) by {
                if k < n - 1 {
                    lemma_entry_order(list[k].head, list[n - 1].head, entry.head);
                }
            }
        } else {
            lemma_entry_place(list, entry, n - 1);
        }
    }
}

/// The timeline is in order and holds every entry, each as often as there was something to show.
pub proof fn law_timeline_is_sorted(list: Seq<EntryModel>)
    ensures
        entries_in_order(sorted_entries(list)),
        sorted_entries(list).to_multiset() == list.to_multiset(),
        sorted_entries(list).len() == list.len(),
    decreases list.len(),
{
    broadcast use vstd::seq_lib::group_to_multiset_ensures;

    if list.len() > 0 {
        let before = sorted_entries(list.drop_last());
        let entry = list.last();
        law_timeline_is_sorted(list.drop_last());
        lemma_entry_place(before, entry, before.len() as int);
        let place = entry_place(before, entry, before.len() as int);
        let after = before.insert(place, entry);
        assert forall|i: int, j: int| 0 <= i < j < after.len() implies entry_le(
            (#[trigger] after[i]).head,
            (#[trigger] after[j]).head,
        ) by {
            if i == place {
                lemma_entry_order(entry.head, before[j - 1].head, entry.head);
            } else if j != place {
                assert(after[i] == before[if i < place {
                    i
                } else {
                    i - 1
                }]);
                assert(after[j] == before[if j < place {
                    j
                } else {
                    j - 1
                }]);
            }
        }
        assert(after.remove(place) =~= before);
        vstd::seq_lib::to_multiset_remove(after, place);
        assert(after[place] == entry);
        assert(after.to_multiset().count(entry) > 0);
        assert(after.to_multiset() =~= before.to_multiset().insert(entry));
        assert(list =~= list.drop_last().push(entry));
        assert(list.drop_last().push(entry).to_multiset() =~= list.drop_last().to_multiset().insert(
            entry,
        ));
    } else {
        assert(sorted_entries(list) =~= list);
    }
}

/// Pages follow each other: a page that says that there is more is not empty, and the next one
/// begins where it ends. So reading page after page shows every entry once, in order.
pub proof fn law_pages_follow(entries: Seq<EntryModel>, offset: u64, limit: u64)
    requires
        page_end(entries.len(), offset, limit) < entries.len(),
        entries.len() <= MAX_OFFSET,
    ensures
        page_offset(offset) < page_end(entries.len(), offset, limit),
        ({
            let next = page_end(entries.len(), offset, limit) as u64;
            entries.subrange(page_offset(offset) as int, entries.len() as int) == page_entries(
                entries,
                offset,
                limit,
            ) + entries.subrange(page_offset(next) as int, entries.len() as int)
        }),
{
    let next = page_end(entries.len(), offset, limit) as u64;
    assert(page_offset(next) == next);
    assert(entries.subrange(page_offset(offset) as int, entries.len() as int) =~= page_entries(
        entries,
        offset,
        limit,
    ) + entries.subrange(next as int, entries.len() as int));
}

/// A turn that is recorded adds its figures to those of the run, each to its own sum; a figure that
/// was not reported adds nothing. A call of a tool adds one to the calls, and one that failed to the
/// failed calls too; no other step adds to them.
pub proof fn law_figures_add_up(
    turns: Seq<TriageTurnRecord>,
    turn: TriageTurnRecord,
    steps: Seq<TriageStepRecord>,
    step: TriageStepRecord,
)
    ensures
        ({
            let none = Seq::<TriageCompactionRecord>::empty();
            let was = run_usage(turns, none);
            let is = run_usage(turns.push(turn), none);
            &&& turn.input_tokens is None ==> is.input_tokens == was.input_tokens
            &&& turn.output_tokens is None ==> is.output_tokens == was.output_tokens
            &&& turn.cache_read_tokens is None ==> is.cache_read_tokens == was.cache_read_tokens
            &&& turn.cache_write_tokens is None ==> is.cache_write_tokens
                == was.cache_write_tokens
            &&& turn.reasoning_tokens is None ==> is.reasoning_tokens == was.reasoning_tokens
            &&& turn.total_tokens is None ==> is.total_tokens == was.total_tokens
            &&& turn.input_tokens is Some && was.input_tokens is None ==> is.input_tokens
                == turn.input_tokens
            &&& turn.output_tokens is Some && was.output_tokens is None ==> is.output_tokens
                == turn.output_tokens
            &&& turn.cache_read_tokens is Some && was.cache_read_tokens is None
                ==> is.cache_read_tokens == turn.cache_read_tokens
            &&& turn.cache_write_tokens is Some && was.cache_write_tokens is None
                ==> is.cache_write_tokens == turn.cache_write_tokens
            &&& turn.reasoning_tokens is Some && was.reasoning_tokens is None
                ==> is.reasoning_tokens == turn.reasoning_tokens
            &&& turn.total_tokens is Some && was.total_tokens is None ==> is.total_tokens
                == turn.total_tokens
        }),
        tool_calls(steps.push(step)) == tool_calls(steps) + (if step.kind@ == "tool"@ {
            1int
        } else {
            0int
        }),
        failed_tool_calls(steps.push(step)) == failed_tool_calls(steps) + (if step.kind@ == "tool"@
            && step.outcome is Some && step.outcome->0@ == "failed"@ {
            1int
        } else {
            0int
        }),
{
    assert(steps.push(step).drop_last() =~= steps);
    lemma_one_more_figure(turns, turn, TokenKind::Input);
    lemma_one_more_figure(turns, turn, TokenKind::Output);
    lemma_one_more_figure(turns, turn, TokenKind::CacheRead);
    lemma_one_more_figure(turns, turn, TokenKind::CacheWrite);
    lemma_one_more_figure(turns, turn, TokenKind::Reasoning);
    lemma_one_more_figure(turns, turn, TokenKind::Total);
}

proof fn lemma_nothing_reported(values: Seq<Option<i64>>)
    requires
        !any_reported(values),
    ensures
        token_sum(values) == 0,
    decreases values.len(),
{
    if values.len() > 0 {
        let front = values.drop_last();
        assert(values[values.len() - 1] is None);
        assert forall|i: int| 0 <= i < front.len() implies (#[trigger] front[i]) is None by {
            assert(front[i] == values[i]);
        }
        lemma_nothing_reported(front);
    }
}

proof fn lemma_one_more_figure(
    turns: Seq<TriageTurnRecord>,
    turn: TriageTurnRecord,
    kind: TokenKind,
)
    ensures
        ({
            let none = Seq::<TriageCompactionRecord>::empty();
            let was = nullable_sum(reported_tokens(turns, none, kind));
            let is = nullable_sum(reported_tokens(turns.push(turn), none, kind));
            &&& turn_tokens(turn, kind) is None ==> is == was
            &&& turn_tokens(turn, kind) is Some && was is None ==> is == turn_tokens(turn, kind)
        }),
{
    let none = Seq::<TriageCompactionRecord>::empty();
    let before = reported_tokens(turns, none, kind);
    let after = reported_tokens(turns.push(turn), none, kind);
    assert(after =~= before.push(turn_tokens(turn, kind)));
    assert(after.drop_last() =~= before);
    assert(after[after.len() - 1] == turn_tokens(turn, kind));
    if any_reported(before) {
        let i = choose|i: int| 0 <= i < before.len() && (#[trigger] before[i]) is Some;
        assert(after[i] is Some);
    } else {
        lemma_nothing_reported(before);
        assert forall|i: int| 0 <= i < before.len() implies (#[trigger] after[i]) is None by {
            assert(after[i] == before[i]);
        }
    }
}

/// The peak of the context is that of a turn, and no turn has a larger one.
pub proof fn law_peak_context(turns: Seq<TriageTurnRecord>)
    ensures
        match peak_context(turns) {
            Some(peak) => (exists|k: int|
                0 <= k < turns.len() && (#[trigger] turns[k]).context_tokens == Some(peak))
                && forall|k: int|
                0 <= k < turns.len() && (#[trigger] turns[k]).context_tokens is Some
                    ==> turns[k].context_tokens->0 <= peak,
            None => forall|k: int|
                0 <= k < turns.len() ==> (#[trigger] turns[k]).context_tokens is None,
        },
    decreases turns.len(),
{
    if turns.len() > 0 {
        let front = turns.drop_last();
        law_peak_context(front);
        assert(turns[turns.len() - 1] == turns.last());
        assert forall|k: int| 0 <= k < front.len() implies #[trigger] turns[k] == front[k] by {}
        if let Some(peak) = peak_context(front) {
            let k = choose|k: int|
                0 <= k < front.len() && (#[trigger] front[k]).context_tokens == Some(peak);
            assert(turns[k] == front[k]);
        }
    }
}

/// The time between two moments is what the second is later than the first, and zero where it is
/// not later.
pub proof fn law_elapsed_time(from: Seq<char>, to: Seq<char>)
    ensures
        rfc3339_millis(from) is None || rfc3339_millis(to) is None ==> elapsed_ms(
            from,
            to,
        ) is None,
        rfc3339_millis(from) is Some && rfc3339_millis(to) is Some ==> elapsed_ms(from, to) is Some,
        rfc3339_millis(from) is Some && rfc3339_millis(to) is Some && rfc3339_millis(to)->0
            <= rfc3339_millis(from)->0 ==> elapsed_ms(from, to) == Some(0i64),
        rfc3339_millis(from) is Some && rfc3339_millis(to) is Some && 0 <= rfc3339_millis(from)->0
            <= rfc3339_millis(to)->0 ==> rfc3339_millis(from)->0 + elapsed_ms(from, to)->0
            == rfc3339_millis(to)->0,
{
}

/// Every turn, retry and compaction of a run, and every step that does not stand for a compaction,
/// has its entry in the timeline, with its number, when it began, and its own figures.
pub proof fn law_entries_show_their_records(
    run: TriageRunRecord,
    turns: Seq<TriageTurnRecord>,
    turn: TriageTurnRecord,
    step: TriageStepRecord,
    retry: TriageRetryRecord,
    compaction: TriageCompactionRecord,
)
    ensures
        ({
            let entry = turn_entry(run, turn);
            &&& entry.head.id == turn.id
            &&& entry.head.started_at == turn.started_at@
            &&& turn.ended_at is Some ==> entry.head.ended_at == Some(turn.ended_at->0@)
            &&& turn.ended_at is Some && run.outcome is None ==> entry.head.state == "completed"@
            &&& turn.ended_at is None && run.outcome is None ==> entry.head.state == "active"@
                && entry.head.ended_at is None
            &&& turn.ended_at is None && run.outcome is Some ==> entry.head.state
                == "interrupted"@ && entry.head.ended_at == text::opt_text(run.ended_at)
            &&& entry.body matches EntryBody::Turn { ordinal, stop_reason, usage, context_tokens, context_window }
                && ordinal == turn.ordinal && stop_reason == text::opt_text(turn.stop_reason)
                && usage.input_tokens == turn.input_tokens && usage.output_tokens
                == turn.output_tokens && usage.cache_read_tokens == turn.cache_read_tokens
                && usage.cache_write_tokens == turn.cache_write_tokens && usage.reasoning_tokens
                == turn.reasoning_tokens && usage.total_tokens == turn.total_tokens
                && context_tokens == turn.context_tokens && context_window
                == turn.context_window
        }),
        ({
            let entry = step_entry(run, step);
            &&& entry.head.id == step.id
            &&& entry.head.started_at == step.started_at@
            &&& step.ended_at is Some ==> entry.head.ended_at == Some(step.ended_at->0@)
            &&& step.outcome is Some ==> entry.head.state == step.outcome->0@
            &&& step.outcome is None && run.outcome is None ==> entry.head.state == "active"@
            &&& step.outcome is None && run.outcome is Some ==> entry.head.state
                == "interrupted"@
            &&& entry.body matches EntryBody::Span { turn_ordinal, kind, label, summary }
                && turn_ordinal == step.turn_ordinal && kind == step.kind@ && label == step.label@
                && summary == text::opt_text(step.summary)
        }),
        ({
            let entry = retry_entry(run, turns, retry);
            &&& entry.head.id == retry.id
            &&& entry.head.started_at == retry.started_at@
            &&& retry.outcome is Some ==> entry.head.state == retry.outcome->0@
            &&& entry.body matches EntryBody::Retry { attempt, max_attempts, delay_ms, wait_ended_at, error_category, .. }
                && attempt == retry.attempt && max_attempts == retry.max_attempts && delay_ms
                == retry.delay_ms && wait_ended_at == retry.wait_ended_at@ && error_category
                == text::opt_text(retry.error_category)
        }),
        ({
            let entry = compaction_entry(run, turns, compaction);
            &&& entry.head.id == compaction.id
            &&& entry.head.started_at == compaction.started_at@
            &&& compaction.outcome is Some ==> entry.head.state == compaction.outcome->0@
            &&& entry.body matches EntryBody::Compaction { reason, aborted, will_retry, tokens_before, estimated_tokens_after, total_tokens, .. }
                && reason == text::opt_text(compaction.reason) && aborted == compaction.aborted
                && will_retry == compaction.will_retry && tokens_before
                == compaction.tokens_before && estimated_tokens_after
                == compaction.estimated_tokens_after && total_tokens == compaction.total_tokens
        }),
{
}

/// A page holds the entries from its offset on, as many as asked for within one and five hundred,
/// in their order.
pub proof fn law_pages_hold_their_entries(
    entries: Seq<EntryModel>,
    offset: u64,
    limit: u64,
    i: int,
)
    requires
        offset < entries.len() <= MAX_OFFSET,
        1 <= limit <= 500,
        0 <= i,
    ensures
        i < limit && offset + i < entries.len() ==> i < page_entries(entries, offset, limit).len()
            && page_entries(entries, offset, limit)[i] == entries[offset + i],
        page_entries(entries, offset, limit).len() <= limit,
        offset + limit <= entries.len() ==> page_entries(entries, offset, limit).len() == limit,
{
}

/// A run without an outcome whose event is no longer worked on is shown as interrupted, with its
/// last activity as its end; any other is shown as it is.
pub proof fn law_abandoned_runs_are_shown_as_interrupted(
    shown: TriageRunRecord,
    run: TriageRunRecord,
    event: EventRecord,
)
    requires
        displays(shown, run, event),
    ensures
        shown.id == run.id,
        shown.started_at == run.started_at,
        run.outcome is Some || event.status == EventStatus::Processing ==> shown == run,
        run.outcome is None && event.status != EventStatus::Processing ==> {
            &&& shown.outcome is Some
            &&& shown.outcome->0@ == "interrupted"@
            &&& shown.ended_at is Some
            &&& run.ended_at is None ==> shown.ended_at->0@ == run.last_activity_at@
            &&& run.ended_at is Some ==> shown.ended_at->0@ == run.ended_at->0@
        },
{
}

} // verus!
