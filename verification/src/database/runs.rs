//! The record of triage runs: their turns, steps, retries and compactions, and how they end.
use vstd::prelude::*;

use crate::database::records::{
    clamped, saturating_i64, CompactionFinish, CompactionId, ConclusionModel, ConclusionSource,
    DatabaseError, ReportedUsage, RetryId, RetryStart, RunFinish, RunId, RunMetadata, RunOutcome,
    SpanOutcome, ToolId, TriageConclusion, TriageDecision, TurnFinish, TurnId, LAST_MOMENT,
};
use crate::database::rules::{
    bounded_detail, detail, safe_stop_reason, safe_termination_reason, safe_tool_name, stop_reason,
    termination_reason, tool_name,
};
use crate::database::tables::{
    compaction_models, compaction_spans, count_hits, count_of, count_open, fresh, fresh_id, hits,
    open_rows_of, opt_conclusion, prompt_models, retry_models, retry_spans, rows_of, run_models,
    step_models, step_spans, turn_models, turn_spans, CompactionModel, CompactionRow, PromptModel,
    PromptRow, RetryModel, RetryRow, RunModel, RunRow, Span, StepModel, StepRow, Store, StoreModel,
    TurnModel, TurnRow,
};
use crate::errors::ErrorCategory;
use crate::text;

verus! {

/// Whether the error says that there are no more numbers for rows.
pub open spec fn full(error: DatabaseError) -> bool {
    error matches DatabaseError::Sqlite(message) && message@ == "database or disk is full"@
}

fn no_more_ids() -> (error: DatabaseError)
    ensures
        full(error),
{
    DatabaseError::Sqlite("database or disk is full".to_owned())
}

fn has_id(ids: &Vec<i64>, id: i64) -> (found: bool)
    ensures
        found == ids@.contains(id),
{
    let mut i: usize = 0;
    while i < ids.len()
        invariant
            i <= ids@.len(),
            forall|k: int| 0 <= k < i ==> ids@[k] != id,
        decreases ids@.len() - i,
    {
        if ids[i] == id {
            return true;
        }
        i += 1;
    }
    false
}

// ---------------------------------------------------------------------------------------------
// Runs
// ---------------------------------------------------------------------------------------------

/// The run, once something happened in the one with this number.
pub open spec fn touched(run: RunModel, id: i64, now: i64) -> RunModel {
    if run.id == id {
        RunModel { last_activity_at: now, ..run }
    } else {
        run
    }
}

/// The runs, once something happened in the one with this number.
pub open spec fn touched_runs(runs: Seq<RunModel>, id: i64, now: i64) -> Seq<RunModel> {
    runs.map_values(|run: RunModel| touched(run, id, now))
}

fn touch_run(rows: &mut Vec<RunRow>, id: i64, now: i64)
    ensures
        run_models(final(rows)@) == run_models(old(rows)@).map_values(
            |row: RunModel| touched(row, id, now),
        ),
{
    let mut i: usize = 0;
    while i < rows.len()
        invariant
            i <= rows@.len(),
            rows@.len() == old(rows)@.len(),
            forall|k: int|
                0 <= k < i ==> (#[trigger] rows@[k])@ == touched(old(rows)@[k]@, id, now),
            forall|k: int| i <= k < rows@.len() ==> #[trigger] rows@[k] == old(rows)@[k],
        decreases rows@.len() - i,
    {
        if rows[i].id == id {
            rows[i].last_activity_at = now;
        }
        i += 1;
    }
    assert(run_models(rows@) =~= run_models(old(rows)@).map_values(
        |row: RunModel| touched(row, id, now),
    ));
}

/// The run with what is known of its model.
pub open spec fn described(run: RunModel, id: i64, metadata: RunMetadata, now: i64) -> RunModel {
    if run.id == id {
        RunModel {
            model_id: text::opt_text(metadata.model_id),
            model_provider: text::opt_text(metadata.model_provider),
            thinking_level: text::opt_text(metadata.thinking_level),
            context_window: metadata.context_window,
            max_tokens: metadata.max_tokens,
            last_activity_at: now,
            ..run
        }
    } else {
        run
    }
}

fn describe_runs(rows: &mut Vec<RunRow>, id: i64, metadata: &RunMetadata, now: i64)
    ensures
        run_models(final(rows)@) == run_models(old(rows)@).map_values(
            |row: RunModel| described(row, id, *metadata, now),
        ),
{
    let mut i: usize = 0;
    while i < rows.len()
        invariant
            i <= rows@.len(),
            rows@.len() == old(rows)@.len(),
            forall|k: int|
                0 <= k < i ==> (#[trigger] rows@[k])@ == described(old(rows)@[k]@, id, *metadata, now),
            forall|k: int| i <= k < rows@.len() ==> #[trigger] rows@[k] == old(rows)@[k],
        decreases rows@.len() - i,
    {
        if rows[i].id == id {
            rows[i].model_id = text::copy_opt(&metadata.model_id);
            rows[i].model_provider = text::copy_opt(&metadata.model_provider);
            rows[i].thinking_level = text::copy_opt(&metadata.thinking_level);
            rows[i].context_window = metadata.context_window;
            rows[i].max_tokens = metadata.max_tokens;
            rows[i].last_activity_at = now;
        }
        i += 1;
    }
    assert(run_models(rows@) =~= run_models(old(rows)@).map_values(
        |row: RunModel| described(row, id, *metadata, now),
    ));
}

/// The run with the numbers of its turns, retries and compactions.
pub open spec fn recounted(run: RunModel, ids: Seq<i64>, store: StoreModel, now: i64) -> RunModel {
    if ids.contains(run.id) {
        RunModel {
            last_activity_at: now,
            turn_count: count_of(turn_spans(store.turns), run.id) as u64,
            retry_count: count_of(retry_spans(store.retries), run.id) as u64,
            compaction_count: count_of(compaction_spans(store.compactions), run.id) as u64,
            ..run
        }
    } else {
        run
    }
}

/// The store with the numbers of turns, retries and compactions in the runs.
pub open spec fn refreshed(store: StoreModel, ids: Seq<i64>, now: i64) -> StoreModel {
    StoreModel {
        runs: store.runs.map_values(|run: RunModel| recounted(run, ids, store, now)),
        ..store
    }
}

impl Store {
    /// Counts the turns, retries and compactions of the runs anew.
    fn refresh_counts(&mut self, ids: &Vec<i64>, now: i64)
        ensures
            final(self)@ == refreshed(old(self)@, ids@, now),
    {
        let ghost start = self@;
        let mut i: usize = 0;
        while i < self.runs.len()
            invariant
                i <= self.runs@.len(),
                start == old(self)@,
                self.runs@.len() == old(self).runs@.len(),
                self.entities == old(self).entities,
                self.events == old(self).events,
                self.turns == old(self).turns,
                self.steps == old(self).steps,
                self.retries == old(self).retries,
                self.compactions == old(self).compactions,
                self.prompts == old(self).prompts,
                self.effects == old(self).effects,
                self.commands == old(self).commands,
                self.sources == old(self).sources,
                forall|k: int|
                    0 <= k < i ==> (#[trigger] self.runs@[k])@ == recounted(
                        old(self).runs@[k]@,
                        ids@,
                        start,
                        now,
                    ),
                forall|k: int|
                    i <= k < self.runs@.len() ==> #[trigger] self.runs@[k] == old(self).runs@[k],
            decreases self.runs@.len() - i,
        {
            let id = self.runs[i].id;
            if has_id(ids, id) {
                assert(turn_spans(start.turns) =~= self.turns@.map_values(
                    |row: TurnRow| row.span(),
                ));
                assert(retry_spans(start.retries) =~= self.retries@.map_values(
                    |row: RetryRow| row.span(),
                ));
                assert(compaction_spans(start.compactions) =~= self.compactions@.map_values(
                    |row: CompactionRow| row.span(),
                ));
                self.runs[i].turn_count = rows_of(&self.turns, id) as u64;
                self.runs[i].retry_count = rows_of(&self.retries, id) as u64;
                self.runs[i].compaction_count = rows_of(&self.compactions, id) as u64;
                self.runs[i].last_activity_at = now;
            }
            i += 1;
        }
        assert(run_models(self.runs@) =~= start.runs.map_values(
            |run: RunModel| recounted(run, ids@, start, now),
        ));
    }

    /// Records what is known of the model of a run.
    pub fn set_run_metadata(&mut self, run_id: RunId, metadata: &RunMetadata, now: i64)
        ensures
            final(self)@ == (StoreModel {
                runs: old(self)@.runs.map_values(
                    |run: RunModel| described(run, run_id.0, *metadata, now),
                ),
                ..old(self)@
            }),
    {
        describe_runs(&mut self.runs, run_id.0, metadata, now);
    }
}

// ---------------------------------------------------------------------------------------------
// Prompts
// ---------------------------------------------------------------------------------------------

/// The prompt with new content, where it is the one of this run and role.
pub open spec fn reworded(
    prompt: PromptModel,
    run_id: i64,
    role: Seq<char>,
    content: Seq<char>,
    now: i64,
) -> PromptModel {
    if prompt.run_id == run_id && prompt.role == role {
        PromptModel { content, recorded_at: now, ..prompt }
    } else {
        prompt
    }
}

/// Whether there is a prompt of this run and role.
pub open spec fn prompted(prompts: Seq<PromptModel>, run_id: i64, role: Seq<char>) -> bool {
    exists|i: int|
        0 <= i < prompts.len() && (#[trigger] prompts[i]).run_id == run_id && prompts[i].role
            == role
}

/// The prompts once one is recorded: a run has one of each role.
pub open spec fn with_prompt(
    prompts: Seq<PromptModel>,
    run_id: i64,
    role: Seq<char>,
    content: Seq<char>,
    now: i64,
) -> Seq<PromptModel> {
    if prompted(prompts, run_id, role) {
        prompts.map_values(|prompt: PromptModel| reworded(prompt, run_id, role, content, now))
    } else {
        prompts.push(PromptModel { run_id, role, content, recorded_at: now })
    }
}

fn reword_prompts(rows: &mut Vec<PromptRow>, run_id: i64, role: &str, content: &str, now: i64)
    ensures
        prompt_models(final(rows)@) == prompt_models(old(rows)@).map_values(
            |row: PromptModel| reworded(row, run_id, role@, content@, now),
        ),
{
    let mut i: usize = 0;
    while i < rows.len()
        invariant
            i <= rows@.len(),
            rows@.len() == old(rows)@.len(),
            forall|k: int|
                0 <= k < i ==> (#[trigger] rows@[k])@ == reworded(old(rows)@[k]@, run_id, role@, content@, now),
            forall|k: int| i <= k < rows@.len() ==> #[trigger] rows@[k] == old(rows)@[k],
        decreases rows@.len() - i,
    {
        if rows[i].run_id == run_id && text::same(rows[i].role.as_str(), role) {
            rows[i].content = content.to_owned();
            rows[i].recorded_at = now;
        }
        i += 1;
    }
    assert(prompt_models(rows@) =~= prompt_models(old(rows)@).map_values(
        |row: PromptModel| reworded(row, run_id, role@, content@, now),
    ));
}

fn has_prompt(rows: &Vec<PromptRow>, run_id: i64, role: &str) -> (found: bool)
    ensures
        found == prompted(prompt_models(rows@), run_id, role@),
{
    let ghost models = prompt_models(rows@);
    let mut i: usize = 0;
    while i < rows.len()
        invariant
            i <= rows@.len(),
            models == prompt_models(rows@),
            forall|k: int|
                0 <= k < i ==> !((#[trigger] models[k]).run_id == run_id && models[k].role
                    == role@),
        decreases rows@.len() - i,
    {
        assert(models[i as int] == rows@[i as int]@);
        if rows[i].run_id == run_id && text::same(rows[i].role.as_str(), role) {
            return true;
        }
        i += 1;
    }
    false
}

impl Store {
    /// Records a prompt of a run. Its role is `system` or `user`.
    pub fn record_prompt(&mut self, run_id: RunId, role: &str, content: &str, now: i64) -> (result:
        Result<(), DatabaseError>)
        ensures
            if role@ == "system"@ || role@ == "user"@ {
                &&& result is Ok
                &&& final(self)@ == (StoreModel {
                    prompts: with_prompt(old(self)@.prompts, run_id.0, role@, content@, now),
                    runs: touched_runs(old(self)@.runs, run_id.0, now),
                    ..old(self)@
                })
            } else {
                &&& result matches Err(DatabaseError::InvalidValue(message)) && message@
                    == "unknown prompt role "@ + role@
                &&& final(self)@ == old(self)@
            },
    {
        if !text::same(role, "system") && !text::same(role, "user") {
            let mut message = "unknown prompt role ".to_owned();
            message.append(role);
            return Err(DatabaseError::InvalidValue(message));
        }
        if has_prompt(&self.prompts, run_id.0, role) {
            reword_prompts(&mut self.prompts, run_id.0, role, content, now);
        } else {
            let ghost before = self.prompts@;
            self.prompts.push(
                PromptRow {
                    run_id: run_id.0,
                    role: role.to_owned(),
                    content: content.to_owned(),
                    recorded_at: now,
                },
            );
            assert(prompt_models(self.prompts@) =~= prompt_models(before).push(
                self.prompts@.last()@,
            ));
        }
        touch_run(&mut self.runs, run_id.0, now);
        Ok(())
    }
}

// ---------------------------------------------------------------------------------------------
// Turns
// ---------------------------------------------------------------------------------------------

/// The largest ordinal among the first turns that belong to a run; zero where there is none.
pub open spec fn last_ordinal(turns: Seq<TurnModel>, run_id: i64) -> i64
    decreases turns.len(),
{
    if turns.len() == 0 {
        0
    } else {
        let before = last_ordinal(turns.drop_last(), run_id);
        if turns.last().run_id == run_id && turns.last().ordinal > before {
            turns.last().ordinal
        } else {
            before
        }
    }
}

fn ordinal_of(rows: &Vec<TurnRow>, run_id: i64) -> (ordinal: i64)
    ensures
        ordinal == last_ordinal(turn_models(rows@), run_id),
{
    let ghost models = turn_models(rows@);
    let mut most: i64 = 0;
    let mut i: usize = 0;
    while i < rows.len()
        invariant
            i <= rows@.len(),
            models == turn_models(rows@),
            most == last_ordinal(models.take(i as int), run_id),
        decreases rows@.len() - i,
    {
        assert(models.take(i + 1).drop_last() =~= models.take(i as int));
        assert(models.take(i + 1).last() == rows@[i as int]@);
        if rows[i].run_id == run_id && rows[i].ordinal > most {
            most = rows[i].ordinal;
        }
        i += 1;
    }
    assert(models.take(i as int) =~= models);
    most
}

/// A turn that has begun.
pub open spec fn new_turn(id: i64, run_id: i64, ordinal: i64, now: i64) -> TurnModel {
    TurnModel {
        id,
        run_id,
        ordinal,
        started_at: now,
        ended_at: None,
        stop_reason: None,
        usage: no_usage(),
        context_tokens: None,
        context_window: None,
    }
}

/// No usage.
pub open spec fn no_usage() -> ReportedUsage {
    ReportedUsage {
        input_tokens: None,
        output_tokens: None,
        cache_read_tokens: None,
        cache_write_tokens: None,
        reasoning_tokens: None,
        total_tokens: None,
    }
}

/// The usage that was reported.
pub open spec fn usage_of(usage: Option<ReportedUsage>) -> ReportedUsage {
    match usage {
        Some(usage) => usage,
        None => no_usage(),
    }
}

fn usage_or_none(usage: Option<ReportedUsage>) -> (out: ReportedUsage)
    ensures
        out == usage_of(usage),
{
    match usage {
        Some(usage) => usage,
        None => ReportedUsage::default(),
    }
}

/// The turn, once the open one with this number and run has ended.
pub open spec fn ended_turn(
    turn: TurnModel,
    id: i64,
    run_id: i64,
    finish: TurnFinish,
    now: i64,
) -> TurnModel {
    if turn.id == id && turn.run_id == run_id && turn.ended_at is None {
        TurnModel {
            ended_at: Some(now),
            stop_reason: stop_reason(text::opt_text(finish.stop_reason)),
            usage: usage_of(finish.usage),
            context_tokens: finish.context_tokens,
            context_window: finish.context_window,
            ..turn
        }
    } else {
        turn
    }
}

fn end_turns(rows: &mut Vec<TurnRow>, id: i64, run_id: i64, finish: &TurnFinish, now: i64)
    ensures
        turn_models(final(rows)@) == turn_models(old(rows)@).map_values(
            |row: TurnModel| ended_turn(row, id, run_id, *finish, now),
        ),
{
    let mut i: usize = 0;
    while i < rows.len()
        invariant
            i <= rows@.len(),
            rows@.len() == old(rows)@.len(),
            forall|k: int|
                0 <= k < i ==> (#[trigger] rows@[k])@ == ended_turn(old(rows)@[k]@, id, run_id, *finish, now),
            forall|k: int| i <= k < rows@.len() ==> #[trigger] rows@[k] == old(rows)@[k],
        decreases rows@.len() - i,
    {
        if rows[i].id == id && rows[i].run_id == run_id && rows[i].ended_at.is_none() {
            rows[i].ended_at = Some(now);
            rows[i].stop_reason = safe_stop_reason(&finish.stop_reason);
            rows[i].usage = usage_or_none(finish.usage);
            rows[i].context_tokens = finish.context_tokens;
            rows[i].context_window = finish.context_window;
        }
        i += 1;
    }
    assert(turn_models(rows@) =~= turn_models(old(rows)@).map_values(
        |row: TurnModel| ended_turn(row, id, run_id, *finish, now),
    ));
}

/// The store with a new turn of a run.
pub open spec fn with_turn(store: StoreModel, id: i64, run_id: i64, now: i64) -> StoreModel {
    refreshed(
        StoreModel {
            turns: store.turns.push(
                new_turn(id, run_id, (last_ordinal(store.turns, run_id) + 1) as i64, now),
            ),
            ..store
        },
        seq![run_id],
        now,
    )
}

impl Store {
    /// Records that a turn of a run has begun. Its ordinal is one more than the largest of the
    /// run's turns.
    pub fn start_turn(&mut self, run_id: RunId, now: i64) -> (result: Result<TurnId, DatabaseError>)
        ensures
            match fresh(old(self)@.turns.map_values(|turn: TurnModel| turn.id)) {
                Some(id) => if last_ordinal(old(self)@.turns, run_id.0) == i64::MAX {
                    &&& result matches Err(error) && full(error)
                    &&& final(self)@ == old(self)@
                } else {
                    &&& result matches Ok(turn) && turn.0 == id
                    &&& final(self)@ == with_turn(old(self)@, id, run_id.0, now)
                },
                None => {
                    &&& result matches Err(error) && full(error)
                    &&& final(self)@ == old(self)@
                },
            },
    {
        let ghost start = self@;
        assert(start.turns.map_values(|turn: TurnModel| turn.id) =~= self.turns@.map_values(
            |row: TurnRow| crate::database::tables::Row::key(&row),
        ));
        let id = match fresh_id(&self.turns) {
            Some(id) => id,
            None => {
                return Err(no_more_ids());
            },
        };
        let last = ordinal_of(&self.turns, run_id.0);
        if last == i64::MAX {
            return Err(no_more_ids());
        }
        let ghost before = self.turns@;
        self.turns.push(
            TurnRow {
                id,
                run_id: run_id.0,
                ordinal: last + 1,
                started_at: now,
                ended_at: None,
                stop_reason: None,
                usage: ReportedUsage::default(),
                context_tokens: None,
                context_window: None,
            },
        );
        assert(turn_models(self.turns@) =~= turn_models(before).push(self.turns@.last()@));
        let mut ids: Vec<i64> = Vec::new();
        ids.push(run_id.0);
        assert(ids@ =~= seq![run_id.0]);
        self.refresh_counts(&ids, now);
        Ok(TurnId(id))
    }

    /// Records that a turn has ended. It has to be an open one of the run.
    pub fn finish_turn(&mut self, run_id: RunId, turn_id: TurnId, finish: &TurnFinish, now: i64)
        -> (result: Result<(), DatabaseError>)
        ensures
            ({
                let turns = old(self)@.turns.map_values(
                    |turn: TurnModel| ended_turn(turn, turn_id.0, run_id.0, *finish, now),
                );
                if count_hits(turn_spans(old(self)@.turns), turn_id.0, run_id.0) == 1 {
                    &&& result is Ok
                    &&& final(self)@ == (StoreModel {
                        turns,
                        runs: touched_runs(old(self)@.runs, run_id.0, now),
                        ..old(self)@
                    })
                } else {
                    &&& result matches Err(DatabaseError::UnknownSpan)
                    &&& final(self)@ == (StoreModel { turns, ..old(self)@ })
                }
            }),
    {
        assert(turn_spans(self@.turns) =~= self.turns@.map_values(|row: TurnRow| row.span()));
        let changed = hits(&self.turns, turn_id.0, run_id.0);
        end_turns(&mut self.turns, turn_id.0, run_id.0, finish, now);
        if changed != 1 {
            return Err(DatabaseError::UnknownSpan);
        }
        touch_run(&mut self.runs, run_id.0, now);
        Ok(())
    }
}

// ---------------------------------------------------------------------------------------------
// Steps
// ---------------------------------------------------------------------------------------------

/// What is stored of a text that may be there.
pub open spec fn opt_detail(value: Option<Seq<char>>, limit: nat) -> Option<Seq<char>> {
    match value {
        Some(value) => Some(detail(value, limit)),
        None => None,
    }
}

fn bounded_opt(value: &Option<String>, limit: usize) -> (out: Option<String>)
    ensures
        text::opt_text(out) == opt_detail(text::opt_text(*value), limit as nat),
{
    match value {
        Some(value) => Some(bounded_detail(value.as_str(), limit)),
        None => None,
    }
}

/// The number of a turn that may be there.
pub open spec fn turn_number(turn_id: Option<TurnId>) -> Option<i64> {
    match turn_id {
        Some(turn) => Some(turn.0),
        None => None,
    }
}

fn number_of(turn_id: Option<TurnId>) -> (out: Option<i64>)
    ensures
        out == turn_number(turn_id),
{
    match turn_id {
        Some(turn) => Some(turn.0),
        None => None,
    }
}

/// The store with a new step.
pub open spec fn with_step(store: StoreModel, step: StepModel, now: i64) -> StoreModel {
    StoreModel {
        steps: store.steps.push(step),
        runs: touched_runs(store.runs, step.run_id, now),
        ..store
    }
}

/// The number of the next step.
pub open spec fn next_step(store: StoreModel) -> Option<i64> {
    fresh(store.steps.map_values(|step: StepModel| step.id))
}

/// A call of a tool that has begun.
pub open spec fn tool_step(
    id: i64,
    run_id: i64,
    turn_id: Option<i64>,
    name: Seq<char>,
    summary: Option<Seq<char>>,
    now: i64,
) -> StepModel {
    StepModel {
        id,
        run_id,
        turn_id,
        kind: "tool"@,
        label: tool_name(name),
        summary: opt_detail(summary, 4096),
        started_at: now,
        ended_at: None,
        outcome: None,
    }
}

/// Something that the agent said or thought.
pub open spec fn word_step(
    id: i64,
    run_id: i64,
    turn_id: Option<i64>,
    kind: Seq<char>,
    label: Seq<char>,
    summary: Option<Seq<char>>,
    now: i64,
) -> StepModel {
    StepModel {
        id,
        run_id,
        turn_id,
        kind,
        label,
        summary: opt_detail(summary, 1000),
        started_at: now,
        ended_at: Some(now),
        outcome: Some("succeeded"@),
    }
}

/// A step for a compaction that has begun.
pub open spec fn compaction_step(id: i64, run_id: i64, turn_id: Option<i64>, now: i64) -> StepModel {
    StepModel {
        id,
        run_id,
        turn_id,
        kind: "compaction"@,
        label: "compaction"@,
        summary: None,
        started_at: now,
        ended_at: None,
        outcome: None,
    }
}

/// The step, once the open one with this number and run has ended.
pub open spec fn ended_step(
    step: StepModel,
    id: i64,
    run_id: i64,
    outcome: SpanOutcome,
    now: i64,
) -> StepModel {
    if step.id == id && step.run_id == run_id && step.ended_at is None {
        StepModel { ended_at: Some(now), outcome: Some(outcome.name()), ..step }
    } else {
        step
    }
}

fn end_steps(rows: &mut Vec<StepRow>, id: i64, run_id: i64, outcome: SpanOutcome, now: i64)
    ensures
        step_models(final(rows)@) == step_models(old(rows)@).map_values(
            |row: StepModel| ended_step(row, id, run_id, outcome, now),
        ),
{
    let mut i: usize = 0;
    while i < rows.len()
        invariant
            i <= rows@.len(),
            rows@.len() == old(rows)@.len(),
            forall|k: int|
                0 <= k < i ==> (#[trigger] rows@[k])@ == ended_step(old(rows)@[k]@, id, run_id, outcome, now),
            forall|k: int| i <= k < rows@.len() ==> #[trigger] rows@[k] == old(rows)@[k],
        decreases rows@.len() - i,
    {
        if rows[i].id == id && rows[i].run_id == run_id && rows[i].ended_at.is_none() {
            rows[i].ended_at = Some(now);
            rows[i].outcome = Some(outcome.as_str().to_owned());
        }
        i += 1;
    }
    assert(step_models(rows@) =~= step_models(old(rows)@).map_values(
        |row: StepModel| ended_step(row, id, run_id, outcome, now),
    ));
}

impl Store {
    fn fresh_step(&self) -> (id: Option<i64>)
        ensures
            id == next_step(self@),
    {
        assert(self@.steps.map_values(|step: StepModel| step.id) =~= self.steps@.map_values(
            |row: StepRow| crate::database::tables::Row::key(&row),
        ));
        fresh_id(&self.steps)
    }

    fn add_step(&mut self, row: StepRow)
        ensures
            final(self)@ == (StoreModel { steps: old(self)@.steps.push(row@), ..old(self)@ }),
    {
        let ghost before = self.steps@;
        self.steps.push(row);
        assert(step_models(self.steps@) =~= step_models(before).push(row@));
    }

    /// Records that a call of a tool has begun.
    pub fn start_tool(
        &mut self,
        run_id: RunId,
        turn_id: Option<TurnId>,
        name: &str,
        summary: &Option<String>,
        now: i64,
    ) -> (result: Result<ToolId, DatabaseError>)
        ensures
            match next_step(old(self)@) {
                Some(id) => {
                    &&& result matches Ok(tool) && tool.0 == id
                    &&& final(self)@ == with_step(
                        old(self)@,
                        tool_step(
                            id,
                            run_id.0,
                            turn_number(turn_id),
                            name@,
                            text::opt_text(*summary),
                            now,
                        ),
                        now,
                    )
                },
                None => {
                    &&& result matches Err(error) && full(error)
                    &&& final(self)@ == old(self)@
                },
            },
    {
        let id = match self.fresh_step() {
            Some(id) => id,
            None => {
                return Err(no_more_ids());
            },
        };
        self.add_step(
            StepRow {
                id,
                run_id: run_id.0,
                turn_id: number_of(turn_id),
                kind: "tool".to_owned(),
                label: safe_tool_name(name),
                summary: bounded_opt(summary, 4096),
                started_at: now,
                ended_at: None,
                outcome: None,
            },
        );
        touch_run(&mut self.runs, run_id.0, now);
        Ok(ToolId(id))
    }

    /// Records that a call of a tool has ended. It has to be an open one of the run.
    pub fn finish_tool(&mut self, run_id: RunId, tool_id: ToolId, outcome: SpanOutcome, now: i64)
        -> (result: Result<(), DatabaseError>)
        ensures
            ({
                let steps = old(self)@.steps.map_values(
                    |step: StepModel| ended_step(step, tool_id.0, run_id.0, outcome, now),
                );
                if count_hits(step_spans(old(self)@.steps), tool_id.0, run_id.0) == 1 {
                    &&& result is Ok
                    &&& final(self)@ == (StoreModel {
                        steps,
                        runs: touched_runs(old(self)@.runs, run_id.0, now),
                        ..old(self)@
                    })
                } else {
                    &&& result matches Err(DatabaseError::UnknownSpan)
                    &&& final(self)@ == (StoreModel { steps, ..old(self)@ })
                }
            }),
    {
        assert(step_spans(self@.steps) =~= self.steps@.map_values(|row: StepRow| row.span()));
        let changed = hits(&self.steps, tool_id.0, run_id.0);
        end_steps(&mut self.steps, tool_id.0, run_id.0, outcome, now);
        if changed != 1 {
            return Err(DatabaseError::UnknownSpan);
        }
        touch_run(&mut self.runs, run_id.0, now);
        Ok(())
    }

    fn record_words(
        &mut self,
        run_id: RunId,
        turn_id: Option<TurnId>,
        kind: &str,
        label: &str,
        summary: Option<String>,
        now: i64,
    ) -> (result: Result<(), DatabaseError>)
        ensures
            match next_step(old(self)@) {
                Some(id) => {
                    &&& result is Ok
                    &&& final(self)@ == with_step(
                        old(self)@,
                        StepModel {
                            id,
                            run_id: run_id.0,
                            turn_id: turn_number(turn_id),
                            kind: kind@,
                            label: label@,
                            summary: text::opt_text(summary),
                            started_at: now,
                            ended_at: Some(now),
                            outcome: Some("succeeded"@),
                        },
                        now,
                    )
                },
                None => {
                    &&& result matches Err(error) && full(error)
                    &&& final(self)@ == old(self)@
                },
            },
    {
        let id = match self.fresh_step() {
            Some(id) => id,
            None => {
                return Err(no_more_ids());
            },
        };
        self.add_step(
            StepRow {
                id,
                run_id: run_id.0,
                turn_id: number_of(turn_id),
                kind: kind.to_owned(),
                label: label.to_owned(),
                summary,
                started_at: now,
                ended_at: Some(now),
                outcome: Some("succeeded".to_owned()),
            },
        );
        touch_run(&mut self.runs, run_id.0, now);
        Ok(())
    }

    /// Records something that the agent said.
    pub fn record_assistant_text(
        &mut self,
        run_id: RunId,
        turn_id: Option<TurnId>,
        words: &str,
        now: i64,
    ) -> (result: Result<(), DatabaseError>)
        ensures
            match next_step(old(self)@) {
                Some(id) => {
                    &&& result is Ok
                    &&& final(self)@ == with_step(
                        old(self)@,
                        word_step(
                            id,
                            run_id.0,
                            turn_number(turn_id),
                            "message"@,
                            "assistant"@,
                            Some(words@),
                            now,
                        ),
                        now,
                    )
                },
                None => {
                    &&& result matches Err(error) && full(error)
                    &&& final(self)@ == old(self)@
                },
            },
    {
        let summary = Some(bounded_detail(words, 1000));
        self.record_words(run_id, turn_id, "message", "assistant", summary, now)
    }

    /// Records something that the agent thought, where a summary of it was given.
    pub fn record_reasoning(
        &mut self,
        run_id: RunId,
        turn_id: Option<TurnId>,
        summary: &Option<String>,
        now: i64,
    ) -> (result: Result<(), DatabaseError>)
        ensures
            match next_step(old(self)@) {
                Some(id) => {
                    &&& result is Ok
                    &&& final(self)@ == with_step(
                        old(self)@,
                        word_step(
                            id,
                            run_id.0,
                            turn_number(turn_id),
                            "thinking"@,
                            "thinking"@,
                            text::opt_text(*summary),
                            now,
                        ),
                        now,
                    )
                },
                None => {
                    &&& result matches Err(error) && full(error)
                    &&& final(self)@ == old(self)@
                },
            },
    {
        let shown = bounded_opt(summary, 1000);
        self.record_words(run_id, turn_id, "thinking", "thinking", shown, now)
    }
}

// ---------------------------------------------------------------------------------------------
// Retries
// ---------------------------------------------------------------------------------------------

/// The name of a category that may be there.
pub open spec fn category_text(category: Option<ErrorCategory>) -> Option<Seq<char>> {
    match category {
        Some(category) => Some(category.name()),
        None => None,
    }
}

fn category_name(category: Option<ErrorCategory>) -> (out: Option<String>)
    ensures
        text::opt_text(out) == category_text(category),
{
    match category {
        Some(category) => Some(category.as_str().to_owned()),
        None => None,
    }
}

/// A retry that has begun: it waits for its delay.
pub open spec fn new_retry(
    id: i64,
    run_id: i64,
    turn_id: Option<i64>,
    retry: RetryStart,
    now: i64,
) -> RetryModel {
    RetryModel {
        id,
        run_id,
        turn_id,
        attempt: retry.attempt,
        max_attempts: retry.max_attempts,
        delay_ms: clamped(retry.delay_ms as nat),
        started_at: now,
        wait_ended_at: (now + clamped(retry.delay_ms as nat)) as i64,
        ended_at: None,
        outcome: None,
        error_category: category_text(retry.error_category),
    }
}

/// The retry, once the open one with this number and run has ended.
pub open spec fn ended_retry(
    retry: RetryModel,
    id: i64,
    run_id: i64,
    outcome: SpanOutcome,
    category: Option<ErrorCategory>,
    now: i64,
) -> RetryModel {
    if retry.id == id && retry.run_id == run_id && retry.ended_at is None {
        RetryModel {
            ended_at: Some(now),
            outcome: Some(outcome.name()),
            error_category: match category {
                Some(category) => Some(category.name()),
                None => retry.error_category,
            },
            ..retry
        }
    } else {
        retry
    }
}

fn end_retries(rows: &mut Vec<RetryRow>, id: i64, run_id: i64, outcome: SpanOutcome, category: Option<ErrorCategory>, now: i64)
    ensures
        retry_models(final(rows)@) == retry_models(old(rows)@).map_values(
            |row: RetryModel| ended_retry(row, id, run_id, outcome, category, now),
        ),
{
    let mut i: usize = 0;
    while i < rows.len()
        invariant
            i <= rows@.len(),
            rows@.len() == old(rows)@.len(),
            forall|k: int|
                0 <= k < i ==> (#[trigger] rows@[k])@ == ended_retry(old(rows)@[k]@, id, run_id, outcome, category, now),
            forall|k: int| i <= k < rows@.len() ==> #[trigger] rows@[k] == old(rows)@[k],
        decreases rows@.len() - i,
    {
        if rows[i].id == id && rows[i].run_id == run_id && rows[i].ended_at.is_none() {
            rows[i].ended_at = Some(now);
            rows[i].outcome = Some(outcome.as_str().to_owned());
            if let Some(category) = category {
                rows[i].error_category = Some(category.as_str().to_owned());
            }
        }
        i += 1;
    }
    assert(retry_models(rows@) =~= retry_models(old(rows)@).map_values(
        |row: RetryModel| ended_retry(row, id, run_id, outcome, category, now),
    ));
}

/// The store with a new retry.
pub open spec fn with_retry(store: StoreModel, retry: RetryModel, now: i64) -> StoreModel {
    refreshed(
        StoreModel { retries: store.retries.push(retry), ..store },
        seq![retry.run_id],
        now,
    )
}

impl Store {
    /// Records that a retry has begun. The end of its wait has to be a moment that can be
    /// represented.
    pub fn start_retry(
        &mut self,
        run_id: RunId,
        turn_id: Option<TurnId>,
        retry: RetryStart,
        now: i64,
    ) -> (result: Result<RetryId, DatabaseError>)
        requires
            now + clamped(retry.delay_ms as nat) <= LAST_MOMENT,
        ensures
            match fresh(old(self)@.retries.map_values(|row: RetryModel| row.id)) {
                Some(id) => {
                    &&& result matches Ok(number) && number.0 == id
                    &&& final(self)@ == with_retry(
                        old(self)@,
                        new_retry(id, run_id.0, turn_number(turn_id), retry, now),
                        now,
                    )
                },
                None => {
                    &&& result matches Err(error) && full(error)
                    &&& final(self)@ == old(self)@
                },
            },
    {
        assert(self@.retries.map_values(|row: RetryModel| row.id) =~= self.retries@.map_values(
            |row: RetryRow| crate::database::tables::Row::key(&row),
        ));
        let id = match fresh_id(&self.retries) {
            Some(id) => id,
            None => {
                return Err(no_more_ids());
            },
        };
        let delay_ms = saturating_i64(retry.delay_ms);
        let ghost before = self.retries@;
        self.retries.push(
            RetryRow {
                id,
                run_id: run_id.0,
                turn_id: number_of(turn_id),
                attempt: retry.attempt,
                max_attempts: retry.max_attempts,
                delay_ms,
                started_at: now,
                wait_ended_at: now + delay_ms,
                ended_at: None,
                outcome: None,
                error_category: category_name(retry.error_category),
            },
        );
        assert(retry_models(self.retries@) =~= retry_models(before).push(self.retries@.last()@));
        let mut ids: Vec<i64> = Vec::new();
        ids.push(run_id.0);
        assert(ids@ =~= seq![run_id.0]);
        self.refresh_counts(&ids, now);
        Ok(RetryId(id))
    }

    /// Records that a retry has ended. It has to be an open one of the run.
    pub fn finish_retry(
        &mut self,
        run_id: RunId,
        retry_id: RetryId,
        outcome: SpanOutcome,
        category: Option<ErrorCategory>,
        now: i64,
    ) -> (result: Result<(), DatabaseError>)
        ensures
            ({
                let retries = old(self)@.retries.map_values(
                    |retry: RetryModel|
                        ended_retry(retry, retry_id.0, run_id.0, outcome, category, now),
                );
                if count_hits(retry_spans(old(self)@.retries), retry_id.0, run_id.0) == 1 {
                    &&& result is Ok
                    &&& final(self)@ == (StoreModel {
                        retries,
                        runs: touched_runs(old(self)@.runs, run_id.0, now),
                        ..old(self)@
                    })
                } else {
                    &&& result matches Err(DatabaseError::UnknownSpan)
                    &&& final(self)@ == (StoreModel { retries, ..old(self)@ })
                }
            }),
    {
        assert(retry_spans(self@.retries) =~= self.retries@.map_values(
            |row: RetryRow| row.span(),
        ));
        let changed = hits(&self.retries, retry_id.0, run_id.0);
        end_retries(&mut self.retries, retry_id.0, run_id.0, outcome, category, now);
        if changed != 1 {
            return Err(DatabaseError::UnknownSpan);
        }
        touch_run(&mut self.runs, run_id.0, now);
        Ok(())
    }
}

// ---------------------------------------------------------------------------------------------
// Compactions
// ---------------------------------------------------------------------------------------------

/// A compaction that has begun.
pub open spec fn new_compaction(
    id: i64,
    run_id: i64,
    turn_id: Option<i64>,
    reason: Seq<char>,
    now: i64,
) -> CompactionModel {
    CompactionModel {
        id,
        run_id,
        turn_id,
        reason: Some(reason),
        started_at: now,
        ended_at: None,
        outcome: None,
        aborted: None,
        will_retry: None,
        tokens_before: None,
        estimated_tokens_after: None,
        usage: no_usage(),
    }
}

/// The compaction, once the open one with this number and run has ended.
pub open spec fn ended_compaction(
    compaction: CompactionModel,
    id: i64,
    run_id: i64,
    finish: CompactionFinish,
    now: i64,
) -> CompactionModel {
    if compaction.id == id && compaction.run_id == run_id && compaction.ended_at is None {
        CompactionModel {
            ended_at: Some(now),
            outcome: Some(finish.outcome.name()),
            aborted: Some(finish.aborted),
            will_retry: Some(finish.will_retry),
            tokens_before: finish.tokens_before,
            estimated_tokens_after: finish.estimated_tokens_after,
            usage: usage_of(finish.usage),
            ..compaction
        }
    } else {
        compaction
    }
}

fn end_compactions(rows: &mut Vec<CompactionRow>, id: i64, run_id: i64, finish: &CompactionFinish, now: i64)
    ensures
        compaction_models(final(rows)@) == compaction_models(old(rows)@).map_values(
            |row: CompactionModel| ended_compaction(row, id, run_id, *finish, now),
        ),
{
    let mut i: usize = 0;
    while i < rows.len()
        invariant
            i <= rows@.len(),
            rows@.len() == old(rows)@.len(),
            forall|k: int|
                0 <= k < i ==> (#[trigger] rows@[k])@ == ended_compaction(old(rows)@[k]@, id, run_id, *finish, now),
            forall|k: int| i <= k < rows@.len() ==> #[trigger] rows@[k] == old(rows)@[k],
        decreases rows@.len() - i,
    {
        if rows[i].id == id && rows[i].run_id == run_id && rows[i].ended_at.is_none() {
            rows[i].ended_at = Some(now);
            rows[i].outcome = Some(finish.outcome.as_str().to_owned());
            rows[i].aborted = Some(finish.aborted);
            rows[i].will_retry = Some(finish.will_retry);
            rows[i].tokens_before = finish.tokens_before;
            rows[i].estimated_tokens_after = finish.estimated_tokens_after;
            rows[i].usage = usage_or_none(finish.usage);
        }
        i += 1;
    }
    assert(compaction_models(rows@) =~= compaction_models(old(rows)@).map_values(
        |row: CompactionModel| ended_compaction(row, id, run_id, *finish, now),
    ));
}

/// Whether the step is an open one for a compaction of the run.
pub open spec fn compacting(step: StepModel, run_id: i64) -> bool {
    step.run_id == run_id && step.kind == "compaction"@ && step.ended_at is None
}

/// The largest number of an open step for a compaction of the run.
pub open spec fn last_compacting(steps: Seq<StepModel>, run_id: i64) -> Option<i64>
    decreases steps.len(),
{
    if steps.len() == 0 {
        None
    } else {
        let before = last_compacting(steps.drop_last(), run_id);
        if compacting(steps.last(), run_id) && (match before {
            Some(id) => steps.last().id > id,
            None => true,
        }) {
            Some(steps.last().id)
        } else {
            before
        }
    }
}

/// The step, once the one with this number has ended with a compaction.
pub open spec fn closed_step(
    step: StepModel,
    id: Option<i64>,
    succeeded: bool,
    now: i64,
) -> StepModel {
    if Some(step.id) == id {
        StepModel {
            ended_at: Some(now),
            outcome: Some(
                if succeeded {
                    "succeeded"@
                } else {
                    "failed"@
                },
            ),
            ..step
        }
    } else {
        step
    }
}

fn close_steps(rows: &mut Vec<StepRow>, id: i64, succeeded: bool, now: i64)
    ensures
        step_models(final(rows)@) == step_models(old(rows)@).map_values(
            |row: StepModel| closed_step(row, Some(id), succeeded, now),
        ),
{
    let mut i: usize = 0;
    while i < rows.len()
        invariant
            i <= rows@.len(),
            rows@.len() == old(rows)@.len(),
            forall|k: int|
                0 <= k < i ==> (#[trigger] rows@[k])@ == closed_step(old(rows)@[k]@, Some(id), succeeded, now),
            forall|k: int| i <= k < rows@.len() ==> #[trigger] rows@[k] == old(rows)@[k],
        decreases rows@.len() - i,
    {
        if rows[i].id == id {
            rows[i].ended_at = Some(now);
            rows[i].outcome = Some(
                if succeeded {
                    "succeeded".to_owned()
                } else {
                    "failed".to_owned()
                },
            );
        }
        i += 1;
    }
    assert(step_models(rows@) =~= step_models(old(rows)@).map_values(
        |row: StepModel| closed_step(row, Some(id), succeeded, now),
    ));
}

fn find_compacting(rows: &Vec<StepRow>, run_id: i64) -> (id: Option<i64>)
    ensures
        id == last_compacting(step_models(rows@), run_id),
{
    let ghost models = step_models(rows@);
    let mut found: Option<i64> = None;
    let mut i: usize = 0;
    while i < rows.len()
        invariant
            i <= rows@.len(),
            models == step_models(rows@),
            found == last_compacting(models.take(i as int), run_id),
        decreases rows@.len() - i,
    {
        assert(models.take(i + 1).drop_last() =~= models.take(i as int));
        assert(models.take(i + 1).last() == rows@[i as int]@);
        if rows[i].run_id == run_id && text::same(rows[i].kind.as_str(), "compaction")
            && rows[i].ended_at.is_none() {
            let larger = match found {
                Some(id) => rows[i].id > id,
                None => true,
            };
            if larger {
                found = Some(rows[i].id);
            }
        }
        i += 1;
    }
    assert(models.take(i as int) =~= models);
    found
}

/// The store with a new compaction and the step for it.
pub open spec fn with_compaction(
    store: StoreModel,
    compaction: CompactionModel,
    step: StepModel,
    now: i64,
) -> StoreModel {
    refreshed(
        StoreModel {
            compactions: store.compactions.push(compaction),
            steps: store.steps.push(step),
            ..store
        },
        seq![compaction.run_id],
        now,
    )
}

/// The store once a compaction has ended: with it, the last open step for one of the run.
pub open spec fn compacted(
    store: StoreModel,
    id: i64,
    run_id: i64,
    finish: CompactionFinish,
    now: i64,
) -> StoreModel {
    StoreModel {
        compactions: store.compactions.map_values(
            |row: CompactionModel| ended_compaction(row, id, run_id, finish, now),
        ),
        steps: store.steps.map_values(
            |step: StepModel|
                closed_step(
                    step,
                    last_compacting(store.steps, run_id),
                    finish.outcome == SpanOutcome::Succeeded,
                    now,
                ),
        ),
        runs: touched_runs(store.runs, run_id, now),
        ..store
    }
}

impl Store {
    /// Records that a compaction has begun.
    pub fn start_compaction(
        &mut self,
        run_id: RunId,
        turn_id: Option<TurnId>,
        reason: &str,
        now: i64,
    ) -> (result: Result<CompactionId, DatabaseError>)
        ensures
            match (
                fresh(old(self)@.compactions.map_values(|row: CompactionModel| row.id)),
                next_step(old(self)@),
            ) {
                (Some(id), Some(step)) => {
                    &&& result matches Ok(number) && number.0 == id
                    &&& final(self)@ == with_compaction(
                        old(self)@,
                        new_compaction(id, run_id.0, turn_number(turn_id), reason@, now),
                        compaction_step(step, run_id.0, turn_number(turn_id), now),
                        now,
                    )
                },
                _ => {
                    &&& result matches Err(error) && full(error)
                    &&& final(self)@ == old(self)@
                },
            },
    {
        assert(self@.compactions.map_values(|row: CompactionModel| row.id)
            =~= self.compactions@.map_values(
            |row: CompactionRow| crate::database::tables::Row::key(&row),
        ));
        let id = match fresh_id(&self.compactions) {
            Some(id) => id,
            None => {
                return Err(no_more_ids());
            },
        };
        let step = match self.fresh_step() {
            Some(step) => step,
            None => {
                return Err(no_more_ids());
            },
        };
        let ghost before = self.compactions@;
        self.compactions.push(
            CompactionRow {
                id,
                run_id: run_id.0,
                turn_id: number_of(turn_id),
                reason: Some(reason.to_owned()),
                started_at: now,
                ended_at: None,
                outcome: None,
                aborted: None,
                will_retry: None,
                tokens_before: None,
                estimated_tokens_after: None,
                usage: ReportedUsage::default(),
            },
        );
        assert(compaction_models(self.compactions@) =~= compaction_models(before).push(
            self.compactions@.last()@,
        ));
        self.add_step(
            StepRow {
                id: step,
                run_id: run_id.0,
                turn_id: number_of(turn_id),
                kind: "compaction".to_owned(),
                label: "compaction".to_owned(),
                summary: None,
                started_at: now,
                ended_at: None,
                outcome: None,
            },
        );
        let mut ids: Vec<i64> = Vec::new();
        ids.push(run_id.0);
        assert(ids@ =~= seq![run_id.0]);
        self.refresh_counts(&ids, now);
        Ok(CompactionId(id))
    }

    /// Records that a compaction has ended. It has to be an open one of the run; else nothing
    /// changes.
    pub fn finish_compaction(
        &mut self,
        run_id: RunId,
        compaction_id: CompactionId,
        finish: &CompactionFinish,
        now: i64,
    ) -> (result: Result<(), DatabaseError>)
        ensures
            if count_hits(
                compaction_spans(old(self)@.compactions),
                compaction_id.0,
                run_id.0,
            ) == 1 {
                &&& result is Ok
                &&& final(self)@ == compacted(
                    old(self)@,
                    compaction_id.0,
                    run_id.0,
                    *finish,
                    now,
                )
            } else {
                &&& result matches Err(DatabaseError::UnknownSpan)
                &&& final(self)@ == old(self)@
            },
    {
        let ghost start = self@;
        assert(compaction_spans(self@.compactions) =~= self.compactions@.map_values(
            |row: CompactionRow| row.span(),
        ));
        if hits(&self.compactions, compaction_id.0, run_id.0) != 1 {
            return Err(DatabaseError::UnknownSpan);
        }
        end_compactions(&mut self.compactions, compaction_id.0, run_id.0, finish, now);
        match find_compacting(&self.steps, run_id.0) {
            Some(id) => {
                close_steps(&mut self.steps, id, finish.outcome == SpanOutcome::Succeeded, now);
            },
            None => {
                assert(self@.steps =~= start.steps.map_values(
                    |step: StepModel|
                        closed_step(step, None, finish.outcome == SpanOutcome::Succeeded, now),
                ));
            },
        }
        touch_run(&mut self.runs, run_id.0, now);
        Ok(())
    }
}

// ---------------------------------------------------------------------------------------------
// The end of a run
// ---------------------------------------------------------------------------------------------

/// The step, once the open ones of the runs were interrupted.
pub open spec fn interrupted_step(step: StepModel, ids: Seq<i64>, now: i64) -> StepModel {
    if ids.contains(step.run_id) && step.ended_at is None {
        StepModel { ended_at: Some(now), outcome: Some("interrupted"@), ..step }
    } else {
        step
    }
}

/// The turn, once the open ones of the runs were interrupted.
pub open spec fn interrupted_turn(turn: TurnModel, ids: Seq<i64>, now: i64) -> TurnModel {
    if ids.contains(turn.run_id) && turn.ended_at is None {
        TurnModel { ended_at: Some(now), stop_reason: Some("aborted"@), ..turn }
    } else {
        turn
    }
}

/// The retry, once the open ones of the runs were interrupted.
pub open spec fn interrupted_retry(retry: RetryModel, ids: Seq<i64>, now: i64) -> RetryModel {
    if ids.contains(retry.run_id) && retry.ended_at is None {
        RetryModel { ended_at: Some(now), outcome: Some("interrupted"@), ..retry }
    } else {
        retry
    }
}

/// The compaction, once the open ones of the runs were interrupted.
pub open spec fn interrupted_compaction(
    compaction: CompactionModel,
    ids: Seq<i64>,
    now: i64,
) -> CompactionModel {
    if ids.contains(compaction.run_id) && compaction.ended_at is None {
        CompactionModel { ended_at: Some(now), outcome: Some("interrupted"@), ..compaction }
    } else {
        compaction
    }
}

fn interrupt_steps(rows: &mut Vec<StepRow>, ids: &Vec<i64>, now: i64)
    ensures
        step_models(final(rows)@) == step_models(old(rows)@).map_values(
            |row: StepModel| interrupted_step(row, ids@, now),
        ),
{
    let mut i: usize = 0;
    while i < rows.len()
        invariant
            i <= rows@.len(),
            rows@.len() == old(rows)@.len(),
            forall|k: int|
                0 <= k < i ==> (#[trigger] rows@[k])@ == interrupted_step(old(rows)@[k]@, ids@, now),
            forall|k: int| i <= k < rows@.len() ==> #[trigger] rows@[k] == old(rows)@[k],
        decreases rows@.len() - i,
    {
        if has_id(ids, rows[i].run_id) && rows[i].ended_at.is_none() {
            rows[i].ended_at = Some(now);
            rows[i].outcome = Some("interrupted".to_owned());
        }
        i += 1;
    }
    assert(step_models(rows@) =~= step_models(old(rows)@).map_values(
        |row: StepModel| interrupted_step(row, ids@, now),
    ));
}

fn interrupt_turns(rows: &mut Vec<TurnRow>, ids: &Vec<i64>, now: i64)
    ensures
        turn_models(final(rows)@) == turn_models(old(rows)@).map_values(
            |row: TurnModel| interrupted_turn(row, ids@, now),
        ),
{
    let mut i: usize = 0;
    while i < rows.len()
        invariant
            i <= rows@.len(),
            rows@.len() == old(rows)@.len(),
            forall|k: int|
                0 <= k < i ==> (#[trigger] rows@[k])@ == interrupted_turn(old(rows)@[k]@, ids@, now),
            forall|k: int| i <= k < rows@.len() ==> #[trigger] rows@[k] == old(rows)@[k],
        decreases rows@.len() - i,
    {
        if has_id(ids, rows[i].run_id) && rows[i].ended_at.is_none() {
            rows[i].ended_at = Some(now);
            rows[i].stop_reason = Some("aborted".to_owned());
        }
        i += 1;
    }
    assert(turn_models(rows@) =~= turn_models(old(rows)@).map_values(
        |row: TurnModel| interrupted_turn(row, ids@, now),
    ));
}

fn interrupt_retries(rows: &mut Vec<RetryRow>, ids: &Vec<i64>, now: i64)
    ensures
        retry_models(final(rows)@) == retry_models(old(rows)@).map_values(
            |row: RetryModel| interrupted_retry(row, ids@, now),
        ),
{
    let mut i: usize = 0;
    while i < rows.len()
        invariant
            i <= rows@.len(),
            rows@.len() == old(rows)@.len(),
            forall|k: int|
                0 <= k < i ==> (#[trigger] rows@[k])@ == interrupted_retry(old(rows)@[k]@, ids@, now),
            forall|k: int| i <= k < rows@.len() ==> #[trigger] rows@[k] == old(rows)@[k],
        decreases rows@.len() - i,
    {
        if has_id(ids, rows[i].run_id) && rows[i].ended_at.is_none() {
            rows[i].ended_at = Some(now);
            rows[i].outcome = Some("interrupted".to_owned());
        }
        i += 1;
    }
    assert(retry_models(rows@) =~= retry_models(old(rows)@).map_values(
        |row: RetryModel| interrupted_retry(row, ids@, now),
    ));
}

fn interrupt_compactions(rows: &mut Vec<CompactionRow>, ids: &Vec<i64>, now: i64)
    ensures
        compaction_models(final(rows)@) == compaction_models(old(rows)@).map_values(
            |row: CompactionModel| interrupted_compaction(row, ids@, now),
        ),
{
    let mut i: usize = 0;
    while i < rows.len()
        invariant
            i <= rows@.len(),
            rows@.len() == old(rows)@.len(),
            forall|k: int|
                0 <= k < i ==> (#[trigger] rows@[k])@ == interrupted_compaction(old(rows)@[k]@, ids@, now),
            forall|k: int| i <= k < rows@.len() ==> #[trigger] rows@[k] == old(rows)@[k],
        decreases rows@.len() - i,
    {
        if has_id(ids, rows[i].run_id) && rows[i].ended_at.is_none() {
            rows[i].ended_at = Some(now);
            rows[i].outcome = Some("interrupted".to_owned());
        }
        i += 1;
    }
    assert(compaction_models(rows@) =~= compaction_models(old(rows)@).map_values(
        |row: CompactionModel| interrupted_compaction(row, ids@, now),
    ));
}

/// The store, once everything that the runs left open is closed.
pub open spec fn closed_telemetry(store: StoreModel, ids: Seq<i64>, now: i64) -> StoreModel {
    StoreModel {
        steps: store.steps.map_values(|step: StepModel| interrupted_step(step, ids, now)),
        turns: store.turns.map_values(|turn: TurnModel| interrupted_turn(turn, ids, now)),
        retries: store.retries.map_values(|retry: RetryModel| interrupted_retry(retry, ids, now)),
        compactions: store.compactions.map_values(
            |row: CompactionModel| interrupted_compaction(row, ids, now),
        ),
        ..store
    }
}

/// How many turns, steps, retries and compactions a run has left open.
pub open spec fn open_count(store: StoreModel, run_id: i64) -> nat {
    count_open(step_spans(store.steps), run_id) + count_open(turn_spans(store.turns), run_id)
        + count_open(retry_spans(store.retries), run_id) + count_open(
        compaction_spans(store.compactions),
        run_id,
    )
}

/// The conclusion of a run that was interrupted.
pub open spec fn interrupted_conclusion() -> ConclusionModel {
    ConclusionModel {
        decision: TriageDecision::Canceled,
        summary: "Triage ended before the agent supplied a conclusion."@,
        evidence: Seq::empty(),
        actions: Seq::empty(),
        outcome: "The attempt was interrupted."@,
        follow_up: Some("Retry triage if this event still needs review."@),
        source: ConclusionSource::Derived,
    }
}

/// The conclusion that is recorded for a run that ended without one.
pub open spec fn plain_conclusion(outcome: RunOutcome, category: Option<ErrorCategory>) -> ConclusionModel {
    let (decision, summary, result, follow_up) = match outcome {
        RunOutcome::Succeeded => (
            TriageDecision::NoAction,
            "Triage completed without a model-authored conclusion."@,
            "The attempt completed successfully."@,
            None,
        ),
        RunOutcome::Interrupted => (
            TriageDecision::Canceled,
            "Triage ended before the agent supplied a conclusion."@,
            "The attempt was interrupted."@,
            Some("Retry triage if this event still needs review."@),
        ),
        RunOutcome::Failed => if category == Some(ErrorCategory::Timeout) {
            (
                TriageDecision::TimedOut,
                "Triage reached its time limit before the agent supplied a conclusion."@,
                "The attempt timed out."@,
                Some("Retry triage or review the recorded activity."@),
            )
        } else if category == Some(ErrorCategory::TurnLimit) {
            (
                TriageDecision::TurnLimit,
                "Triage reached its turn limit before the agent supplied a conclusion."@,
                "The attempt stopped at the configured turn limit."@,
                Some("Review the recorded activity before retrying."@),
            )
        } else {
            (
                TriageDecision::Failed,
                "Triage failed before the agent supplied a conclusion."@,
                "The attempt failed."@,
                Some("Review the failure category and recorded activity before retrying."@),
            )
        },
    };
    ConclusionModel {
        decision,
        summary,
        evidence: Seq::empty(),
        actions: Seq::empty(),
        outcome: result,
        follow_up,
        source: ConclusionSource::Derived,
    }
}

fn conclude(
    decision: TriageDecision,
    summary: &str,
    outcome: &str,
    follow_up: Option<&str>,
) -> (conclusion: TriageConclusion)
    ensures
        conclusion@ == (ConclusionModel {
            decision,
            summary: summary@,
            evidence: Seq::empty(),
            actions: Seq::empty(),
            outcome: outcome@,
            follow_up: text::opt_str(follow_up),
            source: ConclusionSource::Derived,
        }),
{
    let conclusion = TriageConclusion {
        decision,
        summary: summary.to_owned(),
        evidence: Vec::new(),
        actions: Vec::new(),
        outcome: outcome.to_owned(),
        follow_up: match follow_up {
            Some(line) => Some(line.to_owned()),
            None => None,
        },
        source: ConclusionSource::Derived,
    };
    assert(conclusion@.evidence =~= Seq::empty());
    assert(conclusion@.actions =~= Seq::empty());
    conclusion
}

/// The conclusion that is recorded for a run that ended without one.
pub fn fallback_conclusion(finish: &RunFinish) -> (conclusion: TriageConclusion)
    ensures
        conclusion@ == plain_conclusion(finish.outcome, finish.failure_category),
{
    match finish.outcome {
        RunOutcome::Succeeded => conclude(
            TriageDecision::NoAction,
            "Triage completed without a model-authored conclusion.",
            "The attempt completed successfully.",
            None,
        ),
        RunOutcome::Interrupted => conclude(
            TriageDecision::Canceled,
            "Triage ended before the agent supplied a conclusion.",
            "The attempt was interrupted.",
            Some("Retry triage if this event still needs review."),
        ),
        RunOutcome::Failed => match finish.failure_category {
            Some(ErrorCategory::Timeout) => conclude(
                TriageDecision::TimedOut,
                "Triage reached its time limit before the agent supplied a conclusion.",
                "The attempt timed out.",
                Some("Retry triage or review the recorded activity."),
            ),
            Some(ErrorCategory::TurnLimit) => conclude(
                TriageDecision::TurnLimit,
                "Triage reached its turn limit before the agent supplied a conclusion.",
                "The attempt stopped at the configured turn limit.",
                Some("Review the recorded activity before retrying."),
            ),
            _ => conclude(
                TriageDecision::Failed,
                "Triage failed before the agent supplied a conclusion.",
                "The attempt failed.",
                Some("Review the failure category and recorded activity before retrying."),
            ),
        },
    }
}

/// What is recorded at the end of a run.
pub struct RunEndModel {
    pub outcome: RunOutcome,
    pub reason: Seq<char>,
    pub category: Option<Seq<char>>,
    pub complete: bool,
    pub conclusion: ConclusionModel,
}

/// The run, once the open one with this number has ended.
pub open spec fn ended_run(run: RunModel, ids: Seq<i64>, end: RunEndModel, now: i64) -> RunModel {
    if ids.contains(run.id) && run.ended_at is None {
        RunModel {
            ended_at: Some(now),
            last_activity_at: now,
            outcome: Some(end.outcome),
            termination_reason: Some(end.reason),
            failure_category: end.category,
            telemetry_completeness: if end.complete {
                "complete"@
            } else {
                "partial"@
            },
            conclusion: Some(end.conclusion),
            ..run
        }
    } else {
        run
    }
}

/// What is recorded at the end of a run.
struct RunEnd {
    outcome: RunOutcome,
    reason: String,
    category: Option<String>,
    complete: bool,
    conclusion: TriageConclusion,
}

impl View for RunEnd {
    type V = RunEndModel;

    closed spec fn view(&self) -> RunEndModel {
        RunEndModel {
            outcome: self.outcome,
            reason: self.reason@,
            category: text::opt_text(self.category),
            complete: self.complete,
            conclusion: self.conclusion@,
        }
    }
}

/// A copy of a conclusion.
pub fn copy_conclusion(conclusion: &TriageConclusion) -> (out: TriageConclusion)
    ensures
        out@ == conclusion@,
{
    TriageConclusion {
        decision: conclusion.decision,
        summary: conclusion.summary.as_str().to_owned(),
        evidence: text::copy_all(&conclusion.evidence),
        actions: text::copy_all(&conclusion.actions),
        outcome: conclusion.outcome.as_str().to_owned(),
        follow_up: text::copy_opt(&conclusion.follow_up),
        source: conclusion.source,
    }
}

fn end_runs(rows: &mut Vec<RunRow>, ids: &Vec<i64>, end: &RunEnd, now: i64)
    ensures
        run_models(final(rows)@) == run_models(old(rows)@).map_values(
            |row: RunModel| ended_run(row, ids@, end@, now),
        ),
{
    let mut i: usize = 0;
    while i < rows.len()
        invariant
            i <= rows@.len(),
            rows@.len() == old(rows)@.len(),
            forall|k: int|
                0 <= k < i ==> (#[trigger] rows@[k])@ == ended_run(old(rows)@[k]@, ids@, end@, now),
            forall|k: int| i <= k < rows@.len() ==> #[trigger] rows@[k] == old(rows)@[k],
        decreases rows@.len() - i,
    {
        if has_id(ids, rows[i].id) && rows[i].ended_at.is_none() {
            rows[i].ended_at = Some(now);
            rows[i].last_activity_at = now;
            rows[i].outcome = Some(end.outcome);
            rows[i].termination_reason = Some(end.reason.as_str().to_owned());
            rows[i].failure_category = text::copy_opt(&end.category);
            rows[i].telemetry_completeness = if end.complete {
                "complete".to_owned()
            } else {
                "partial".to_owned()
            };
            rows[i].conclusion = Some(copy_conclusion(&end.conclusion));
        }
        i += 1;
    }
    assert(run_models(rows@) =~= run_models(old(rows)@).map_values(
        |row: RunModel| ended_run(row, ids@, end@, now),
    ));
}

/// The store, once the runs have ended so.
pub open spec fn with_ended_runs(
    store: StoreModel,
    ids: Seq<i64>,
    end: RunEndModel,
    now: i64,
) -> StoreModel {
    let counted = refreshed(closed_telemetry(store, ids, now), ids, now);
    StoreModel {
        runs: counted.runs.map_values(|run: RunModel| ended_run(run, ids, end, now)),
        ..counted
    }
}

/// What is recorded at the end of a run that was interrupted.
pub open spec fn interruption(reason: Seq<char>) -> RunEndModel {
    RunEndModel {
        outcome: RunOutcome::Interrupted,
        reason,
        category: Some("interrupted"@),
        complete: false,
        conclusion: interrupted_conclusion(),
    }
}

/// What is recorded at the end of a run. The record is complete where the run left nothing open,
/// was not interrupted, and was recorded completely.
pub open spec fn finished_end(
    store: StoreModel,
    run_id: i64,
    finish: RunFinish,
    conclusion: Option<ConclusionModel>,
) -> RunEndModel {
    RunEndModel {
        outcome: finish.outcome,
        reason: termination_reason(finish.termination_reason@),
        category: category_text(finish.failure_category),
        complete: open_count(store, run_id) == 0 && finish.outcome != RunOutcome::Interrupted
            && finish.recording_complete,
        conclusion: match conclusion {
            Some(conclusion) => conclusion,
            None => plain_conclusion(finish.outcome, finish.failure_category),
        },
    }
}

impl Store {
    fn close_open_telemetry(&mut self, ids: &Vec<i64>, now: i64)
        ensures
            final(self)@ == closed_telemetry(old(self)@, ids@, now),
    {
        interrupt_steps(&mut self.steps, ids, now);
        interrupt_turns(&mut self.turns, ids, now);
        interrupt_retries(&mut self.retries, ids, now);
        interrupt_compactions(&mut self.compactions, ids, now);
    }

    fn end_all(&mut self, ids: &Vec<i64>, end: &RunEnd, now: i64)
        ensures
            final(self)@ == with_ended_runs(old(self)@, ids@, end@, now),
    {
        self.close_open_telemetry(ids, now);
        self.refresh_counts(ids, now);
        end_runs(&mut self.runs, ids, end, now);
    }

    /// Ends the runs as interrupted, for a reason.
    pub(crate) fn interrupt_runs(&mut self, ids: &Vec<i64>, now: i64, reason: &str)
        ensures
            final(self)@ == with_ended_runs(old(self)@, ids@, interruption(reason@), now),
    {
        let end = RunEnd {
            outcome: RunOutcome::Interrupted,
            reason: reason.to_owned(),
            category: Some("interrupted".to_owned()),
            complete: false,
            conclusion: conclude(
                TriageDecision::Canceled,
                "Triage ended before the agent supplied a conclusion.",
                "The attempt was interrupted.",
                Some("Retry triage if this event still needs review."),
            ),
        };
        self.end_all(ids, &end, now);
    }

    /// Records the end of a run, with its conclusion where it has one. What it left open is
    /// closed, and a run that has ended before keeps its end.
    pub fn finish_run(
        &mut self,
        run_id: RunId,
        finish: &RunFinish,
        conclusion: Option<TriageConclusion>,
        now: i64,
    )
        ensures
            final(self)@ == with_ended_runs(
                old(self)@,
                seq![run_id.0],
                finished_end(old(self)@, run_id.0, *finish, opt_conclusion(conclusion)),
                now,
            ),
    {
        assert(turn_spans(self@.turns) =~= self.turns@.map_values(|row: TurnRow| row.span()));
        assert(step_spans(self@.steps) =~= self.steps@.map_values(|row: StepRow| row.span()));
        assert(retry_spans(self@.retries) =~= self.retries@.map_values(
            |row: RetryRow| row.span(),
        ));
        assert(compaction_spans(self@.compactions) =~= self.compactions@.map_values(
            |row: CompactionRow| row.span(),
        ));
        let nothing_open = open_rows_of(&self.steps, run_id.0) == 0 && open_rows_of(
            &self.turns,
            run_id.0,
        ) == 0 && open_rows_of(&self.retries, run_id.0) == 0 && open_rows_of(
            &self.compactions,
            run_id.0,
        ) == 0;
        let end = RunEnd {
            outcome: finish.outcome,
            reason: safe_termination_reason(finish.termination_reason.as_str()).to_owned(),
            category: category_name(finish.failure_category),
            complete: nothing_open && finish.outcome != RunOutcome::Interrupted
                && finish.recording_complete,
            conclusion: match conclusion {
                Some(conclusion) => conclusion,
                None => fallback_conclusion(finish),
            },
        };
        let mut ids: Vec<i64> = Vec::new();
        ids.push(run_id.0);
        assert(ids@ =~= seq![run_id.0]);
        self.end_all(&ids, &end, now);
    }
}

} // verus!
