//! What is read of what is stored: the rows that a question asks for, as they are handed out and
//! in their order.
use vstd::prelude::*;

use crate::database::order::{
    first_of, in_order, last_few, last_of, latest_first, put_in_order, Key,
};
use crate::database::queue::{
    entity_place, event_record, find_entity, is_out_of_range, moments_fit, states,
    write_moment, write_opt_moment, written_moment,
};
use crate::database::records::{
    rfc3339, DatabaseError, EventRecord, EventStatus, RunId, SourceStatus,
    TriageCompactionRecord, TriageEffectRecord, TriageRetryRecord, TriageRunPromptRecord,
    TriageRunRecord, TriageRunSummary, TriageStepRecord, TriageTurnRecord,
};
use crate::database::runs::copy_conclusion;
use crate::database::tables::{
    count_of, opt_conclusion, rows_of, source_models, step_spans, turn_models, CompactionModel,
    CompactionRow, EffectModel, EffectRow, EntityModel, EventModel, PromptModel, PromptRow,
    RetryModel, RetryRow, RunModel, RunRow, SourceModel, SourceRow, StepModel, StepRow, Store,
    TurnModel, TurnRow,
};
use crate::json;
use crate::text;

verus! {

// ---------------------------------------------------------------------------------------------
// Events
// ---------------------------------------------------------------------------------------------

/// What the events are ordered by: when they were observed. One whose entity is not there is not
/// shown.
pub open spec fn event_keys(events: Seq<EventModel>, entities: Seq<EntityModel>) -> Seq<
    Option<Key>,
> {
    events.map_values(
        |row: EventModel|
            if entity_place(entities, row.entity_id, 0) is Some {
                Some(Key { at: row.observed_at, id: row.id })
            } else {
                None
            },
    )
}

/// The places of the events that were observed last, the latest first.
pub open spec fn latest_events(
    events: Seq<EventModel>,
    entities: Seq<EntityModel>,
    limit: nat,
) -> Seq<usize> {
    first_of(in_order(event_keys(events, entities)).reverse(), limit)
}

/// The entity of an event.
pub open spec fn entity_of(entities: Seq<EntityModel>, event: EventModel) -> EntityModel
    recommends
        entity_place(entities, event.entity_id, 0) is Some,
{
    entities[entity_place(entities, event.entity_id, 0)->Some_0]
}

/// Whether the records are the events that were observed last, the latest first, or one of these
/// has a moment that cannot be written.
pub open spec fn events_read(
    result: Result<Vec<EventRecord>, DatabaseError>,
    events: Seq<EventModel>,
    entities: Seq<EntityModel>,
    limit: nat,
) -> bool {
    let shown = latest_events(events, entities, limit);
    match result {
        Ok(records) => {
            &&& records@.len() == shown.len()
            &&& forall|k: int|
                0 <= k < shown.len() ==> states(
                    #[trigger] records@[k],
                    events[shown[k] as int],
                    entity_of(entities, events[shown[k] as int]),
                )
        },
        Err(error) => {
            &&& exists|k: int|
                0 <= k < shown.len() && !moments_fit(events[#[trigger] shown[k] as int])
            &&& is_out_of_range(error)
        },
    }
}

/// Whether the event is still to be handled.
pub open spec fn is_open(status: EventStatus) -> bool {
    status == EventStatus::Pending || status == EventStatus::Processing || status
        == EventStatus::Retryable
}

/// When the first of the events that are still to be handled was observed.
pub open spec fn oldest_open(events: Seq<EventModel>) -> Option<i64>
    decreases events.len(),
{
    if events.len() == 0 {
        None
    } else {
        let before = oldest_open(events.drop_last());
        let last = events.last();
        if !is_open(last.status) {
            before
        } else {
            match before {
                Some(moment) => if last.observed_at < moment {
                    Some(last.observed_at)
                } else {
                    before
                },
                None => Some(last.observed_at),
            }
        }
    }
}

/// How many events have the status.
pub open spec fn count_status(events: Seq<EventModel>, status: EventStatus) -> nat
    decreases events.len(),
{
    if events.len() == 0 {
        0
    } else if events.last().status == status {
        count_status(events.drop_last(), status) + 1
    } else {
        count_status(events.drop_last(), status)
    }
}

/// The statuses, in the order in which their counts are given.
pub open spec fn statuses() -> Seq<EventStatus> {
    seq![
        EventStatus::Pending,
        EventStatus::Processing,
        EventStatus::Retryable,
        EventStatus::Succeeded,
        EventStatus::Failed,
        EventStatus::Ignored,
    ]
}

/// How many events have each of the statuses, without those that none has.
pub open spec fn status_counts(events: Seq<EventModel>, statuses: Seq<EventStatus>) -> Seq<
    (EventStatus, usize),
>
    decreases statuses.len(),
{
    if statuses.len() == 0 {
        Seq::empty()
    } else {
        let before = status_counts(events, statuses.drop_last());
        let count = count_status(events, statuses.last());
        if count == 0 {
            before
        } else {
            before.push((statuses.last(), count as usize))
        }
    }
}

impl Store {
    /// The events that were observed last, the latest first.
    pub fn list_events(&self, limit: usize) -> (result: Result<Vec<EventRecord>, DatabaseError>)
        ensures
            events_read(result, self@.events, self@.entities, limit as nat),
    {
        let total: usize = self.events.len();
        let mut keys: Vec<Option<Key>> = Vec::new();
        let mut i: usize = 0;
        while i < total
            invariant
                i <= total == self.events@.len(),
                keys@.len() == i,
                forall|k: int|
                    0 <= k < i ==> #[trigger] keys@[k] == event_keys(
                        self@.events,
                        self@.entities,
                    )[k],
            decreases total - i,
        {
            let event = &self.events[i];
            assert(self@.events[i as int] == event@);
            let key = if find_entity(&self.entities, event.entity_id).is_some() {
                Some(Key { at: event.observed_at, id: event.id })
            } else {
                None
            };
            keys.push(key);
            i += 1;
        }
        assert(keys@ =~= event_keys(self@.events, self@.entities));
        let order = put_in_order(&keys);
        let shown = latest_first(&order, limit);
        assert forall|k: int| 0 <= k < shown@.len() implies #[trigger] shown@[k] < total
            && keys@[shown@[k] as int] is Some by {
            assert(shown@[k] == order@[order@.len() - 1 - k]);
        }
        let count: usize = shown.len();
        let mut records: Vec<EventRecord> = Vec::new();
        let mut j: usize = 0;
        while j < count
            invariant
                j <= count == shown@.len(),
                total == self.events@.len() == keys@.len(),
                shown@ == latest_events(self@.events, self@.entities, limit as nat),
                keys@ == event_keys(self@.events, self@.entities),
                forall|k: int|
                    0 <= k < shown@.len() ==> #[trigger] shown@[k] < total
                        && keys@[shown@[k] as int] is Some,
                records@.len() == j,
                forall|k: int|
                    0 <= k < j ==> {
                        let event = self@.events[shown@[k] as int];
                        states(
                            #[trigger] records@[k],
                            event,
                            entity_of(self@.entities, event),
                        )
                    },
            decreases count - j,
        {
            let place = shown[j];
            let event = &self.events[place];
            assert(self@.events[place as int] == event@);
            assert(keys@[shown@[j as int] as int] is Some);
            if let Some(entity) = find_entity(&self.entities, event.entity_id) {
                assert(self@.entities[entity as int] == self.entities@[entity as int]@);
                let record = match event_record(event, &self.entities[entity]) {
                    Ok(record) => record,
                    Err(error) => {
                        assert(!moments_fit(self@.events[shown@[j as int] as int]));
                        return Err(error);
                    },
                };
                records.push(record);
            }
            j += 1;
        }
        Ok(records)
    }

    /// When the first of the events that are still to be handled was observed.
    pub fn oldest_open_event_at(&self) -> (result: Result<Option<String>, DatabaseError>)
        ensures
            match result {
                Ok(value) => written_moment(oldest_open(self@.events)) == Some(
                    text::opt_text(value),
                ),
                Err(error) => written_moment(oldest_open(self@.events)) is None
                    && is_out_of_range(error),
            },
    {
        let total: usize = self.events.len();
        let mut oldest: Option<i64> = None;
        let mut i: usize = 0;
        while i < total
            invariant
                i <= total == self.events@.len(),
                oldest == oldest_open(self@.events.take(i as int)),
            decreases total - i,
        {
            assert(self@.events.take(i + 1).drop_last() =~= self@.events.take(i as int));
            assert(self@.events.take(i + 1).last() == self.events@[i as int]@);
            let event = &self.events[i];
            let open = event.status == EventStatus::Pending || event.status
                == EventStatus::Processing || event.status == EventStatus::Retryable;
            if open {
                oldest = match oldest {
                    Some(moment) => if event.observed_at < moment {
                        Some(event.observed_at)
                    } else {
                        oldest
                    },
                    None => Some(event.observed_at),
                };
            }
            i += 1;
        }
        assert(self@.events.take(i as int) =~= self@.events);
        write_opt_moment(oldest)
    }

    /// How many events have the status.
    pub fn count_events(&self, status: EventStatus) -> (count: usize)
        ensures
            count == count_status(self@.events, status),
    {
        let total: usize = self.events.len();
        let mut count: usize = 0;
        let mut i: usize = 0;
        while i < total
            invariant
                i <= total == self.events@.len(),
                count <= i,
                count == count_status(self@.events.take(i as int), status),
            decreases total - i,
        {
            assert(self@.events.take(i + 1).drop_last() =~= self@.events.take(i as int));
            assert(self@.events.take(i + 1).last() == self.events@[i as int]@);
            if self.events[i].status == status {
                count += 1;
            }
            i += 1;
        }
        assert(self@.events.take(i as int) =~= self@.events);
        count
    }

    /// How many events have each of the statuses, without those that none has.
    pub fn status(&self) -> (counts: Vec<(EventStatus, usize)>)
        ensures
            counts@ == status_counts(self@.events, statuses()),
    {
        let all: Vec<EventStatus> = vec![
            EventStatus::Pending,
            EventStatus::Processing,
            EventStatus::Retryable,
            EventStatus::Succeeded,
            EventStatus::Failed,
            EventStatus::Ignored,
        ];
        assert(all@ =~= statuses());
        let total: usize = all.len();
        let mut counts: Vec<(EventStatus, usize)> = Vec::new();
        let mut i: usize = 0;
        assert(all@.take(0) =~= Seq::empty());
        while i < total
            invariant
                i <= total == all@.len(),
                counts@ == status_counts(self@.events, all@.take(i as int)),
            decreases total - i,
        {
            assert(all@.take(i + 1).drop_last() =~= all@.take(i as int));
            assert(all@.take(i + 1).last() == all@[i as int]);
            let count = self.count_events(all[i]);
            if count > 0 {
                counts.push((all[i], count));
            }
            i += 1;
        }
        assert(all@.take(i as int) =~= all@);
        counts
    }
}

// ---------------------------------------------------------------------------------------------
// Sources
// ---------------------------------------------------------------------------------------------

/// The first source with the name, from a place on.
pub open spec fn source_place(sources: Seq<SourceModel>, name: Seq<char>, from: int) -> Option<int>
    decreases sources.len() - from,
{
    if from < 0 || from >= sources.len() {
        None
    } else if sources[from].source == name {
        Some(from)
    } else {
        source_place(sources, name, from + 1)
    }
}

/// The checkpoint of a source: null where it has none.
pub open spec fn checkpoint_of(sources: Seq<SourceModel>, name: Seq<char>) -> Seq<char> {
    match source_place(sources, name, 0) {
        Some(i) => match sources[i].checkpoint {
            Some(checkpoint) => checkpoint,
            None => "null"@,
        },
        None => "null"@,
    }
}

/// The places with another one behind each whose source does not come later by name.
pub open spec fn placed_by_name(sources: Seq<SourceModel>, order: Seq<usize>, place: usize) -> Seq<
    usize,
>
    decreases order.len(),
{
    if order.len() == 0 || text::text_le(
        sources[order.last() as int].source,
        sources[place as int].source,
    ) {
        order.push(place)
    } else {
        placed_by_name(sources, order.drop_last(), place).push(order.last())
    }
}

/// The places of the first so many sources, in the order of their names.
pub open spec fn by_name(sources: Seq<SourceModel>, count: nat) -> Seq<usize>
    decreases count,
{
    if count == 0 {
        Seq::empty()
    } else {
        placed_by_name(sources, by_name(sources, (count - 1) as nat), (count - 1) as usize)
    }
}

/// Whether the record states how the source fared.
pub open spec fn states_source(record: SourceStatus, row: SourceModel) -> bool {
    &&& record.source@ == row.source
    &&& written_moment(row.last_success_at) == Some(text::opt_text(record.last_success_at))
    &&& text::opt_text(record.last_error) == row.last_error
    &&& rfc3339(row.updated_at) == Some(record.updated_at@)
}

/// Whether the moments of the row can be written.
pub open spec fn source_fits(row: SourceModel) -> bool {
    written_moment(row.last_success_at) is Some && rfc3339(row.updated_at) is Some
}

/// Whether the records say how the sources fared, in the order of their names, or one of these has
/// a moment that cannot be written.
pub open spec fn sources_read(
    result: Result<Vec<SourceStatus>, DatabaseError>,
    sources: Seq<SourceModel>,
) -> bool {
    let order = by_name(sources, sources.len());
    match result {
        Ok(records) => {
            &&& records@.len() == order.len()
            &&& forall|k: int|
                0 <= k < order.len() ==> states_source(
                    #[trigger] records@[k],
                    sources[order[k] as int],
                )
        },
        Err(error) => {
            &&& exists|k: int|
                0 <= k < order.len() && !source_fits(sources[#[trigger] order[k] as int])
            &&& is_out_of_range(error)
        },
    }
}

fn place_by_name(sources: &Vec<SourceRow>, order: &mut Vec<usize>, place: usize)
    requires
        place < sources@.len(),
        forall|k: int| 0 <= k < old(order)@.len() ==> #[trigger] old(order)@[k] < sources@.len(),
    ensures
        final(order)@ == placed_by_name(
            source_models(sources@),
            old(order)@,
            place,
        ),
        forall|k: int|
            0 <= k < final(order)@.len() ==> #[trigger] final(order)@[k] < sources@.len(),
{
    let ghost models = source_models(sources@);
    let ghost before = order@;
    let total: usize = order.len();
    let mut i: usize = total;
    assert(before.take(total as int) =~= before);
    assert(placed_by_name(models, before, place) =~= placed_by_name(
        models,
        before.take(i as int),
        place,
    ) + before.skip(i as int));
    while i > 0 && !text::is_text_le(
        sources[order[i - 1]].source.as_str(),
        sources[place].source.as_str(),
    )
        invariant
            i <= total == order@.len(),
            place < sources@.len(),
            forall|k: int| 0 <= k < order@.len() ==> #[trigger] order@[k] < sources@.len(),
            models == source_models(sources@),
            before == order@,
            before == old(order)@,
            placed_by_name(models, before, place) == placed_by_name(
                models,
                before.take(i as int),
                place,
            ) + before.skip(i as int),
        decreases i,
    {
        let ghost prefix = before.take(i as int);
        assert(prefix.last() == order@[i - 1]);
        assert(models[order@[i - 1] as int].source == sources@[order@[i - 1] as int].source@);
        assert(models[place as int].source == sources@[place as int].source@);
        assert(prefix.drop_last() =~= before.take(i - 1));
        assert(placed_by_name(models, prefix, place) + before.skip(i as int)
            =~= placed_by_name(models, before.take(i - 1), place) + before.skip(i - 1));
        i -= 1;
    }
    proof {
        let prefix = before.take(i as int);
        if i > 0 {
            assert(prefix.last() == order@[i - 1]);
            assert(models[order@[i - 1] as int].source == sources@[order@[i - 1] as int].source@);
            assert(models[place as int].source == sources@[place as int].source@);
        }
        assert(placed_by_name(models, prefix, place) == prefix.push(place));
    }
    order.insert(i, place);
    assert(order@ =~= before.take(i as int).push(place) + before.skip(i as int));
}

fn source_status(row: &SourceRow) -> (result: Result<SourceStatus, DatabaseError>)
    ensures
        match result {
            Ok(record) => source_fits(row@) && states_source(record, row@),
            Err(error) => !source_fits(row@) && is_out_of_range(error),
        },
{
    let last_success_at = write_opt_moment(row.last_success_at)?;
    let updated_at = write_moment(row.updated_at)?;
    Ok(
        SourceStatus {
            source: row.source.as_str().to_owned(),
            last_success_at,
            last_error: text::copy_opt(&row.last_error),
            updated_at,
        },
    )
}

impl Store {
    /// The checkpoint of a source, as JSON text.
    pub fn source_checkpoint(&self, source: &str) -> (result: Result<String, DatabaseError>)
        ensures
            match json::json_problem(checkpoint_of(self@.sources, source@)) {
                None => result matches Ok(checkpoint) && checkpoint@ == checkpoint_of(
                    self@.sources,
                    source@,
                ),
                Some(problem) => result matches Err(DatabaseError::Json(message)) && message@
                    == problem,
            },
    {
        let total: usize = self.sources.len();
        let mut found: Option<usize> = None;
        let mut i: usize = 0;
        while i < total && found.is_none()
            invariant
                i <= total == self.sources@.len(),
                found is None ==> source_place(self@.sources, source@, 0) == source_place(
                    self@.sources,
                    source@,
                    i as int,
                ),
                found matches Some(k) ==> k < total && source_place(self@.sources, source@, 0)
                    == Some(k as int),
            decreases total - i,
        {
            assert(self@.sources[i as int] == self.sources@[i as int]@);
            if text::same(self.sources[i].source.as_str(), source) {
                found = Some(i);
            }
            i += 1;
        }
        let checkpoint = match found {
            Some(k) => {
                assert(self@.sources[k as int] == self.sources@[k as int]@);
                match &self.sources[k].checkpoint {
                    Some(checkpoint) => checkpoint.as_str().to_owned(),
                    None => "null".to_owned(),
                }
            },
            None => "null".to_owned(),
        };
        match json::check_json(checkpoint.as_str()) {
            Ok(()) => Ok(checkpoint),
            Err(message) => Err(DatabaseError::Json(message)),
        }
    }

    /// How the sources fared, in the order of their names.
    pub fn source_statuses(&self) -> (result: Result<Vec<SourceStatus>, DatabaseError>)
        ensures
            sources_read(result, self@.sources),
    {
        let total: usize = self.sources.len();
        let mut order: Vec<usize> = Vec::new();
        let mut i: usize = 0;
        while i < total
            invariant
                i <= total == self.sources@.len(),
                order@ == by_name(self@.sources, i as nat),
                forall|k: int| 0 <= k < order@.len() ==> #[trigger] order@[k] < total,
            decreases total - i,
        {
            place_by_name(&self.sources, &mut order, i);
            i += 1;
        }
        let count: usize = order.len();
        let mut records: Vec<SourceStatus> = Vec::new();
        let mut j: usize = 0;
        while j < count
            invariant
                j <= count == order@.len(),
                total == self.sources@.len(),
                order@ == by_name(self@.sources, self@.sources.len()),
                forall|k: int| 0 <= k < order@.len() ==> #[trigger] order@[k] < total,
                records@.len() == j,
                forall|k: int|
                    0 <= k < j ==> states_source(
                        #[trigger] records@[k],
                        self@.sources[order@[k] as int],
                    ),
            decreases count - j,
        {
            let place = order[j];
            assert(self@.sources[place as int] == self.sources@[place as int]@);
            let record = match source_status(&self.sources[place]) {
                Ok(record) => record,
                Err(error) => {
                    assert(!source_fits(self@.sources[order@[j as int] as int]));
                    return Err(error);
                },
            };
            records.push(record);
            j += 1;
        }
        Ok(records)
    }
}

// ---------------------------------------------------------------------------------------------
// Runs
// ---------------------------------------------------------------------------------------------

/// What keeps a run from being handed out.
pub enum RunProblem {
    /// A moment cannot be written.
    Moment,
    /// A number is too large for its column.
    Count { value: u64, column: u8 },
}

/// What keeps the run from being handed out, if anything.
pub open spec fn run_problem(row: RunModel) -> Option<RunProblem> {
    if rfc3339(row.started_at) is None || written_moment(row.ended_at) is None || rfc3339(
        row.last_activity_at,
    ) is None || written_moment(row.dispatch_scheduled_for) is None {
        Some(RunProblem::Moment)
    } else if row.dispatch_sequence matches Some(value) && value > u32::MAX {
        Some(RunProblem::Count { value: row.dispatch_sequence->Some_0, column: 16 })
    } else if row.turn_count > u32::MAX {
        Some(RunProblem::Count { value: row.turn_count, column: 21 })
    } else if row.retry_count > u32::MAX {
        Some(RunProblem::Count { value: row.retry_count, column: 22 })
    } else if row.compaction_count > u32::MAX {
        Some(RunProblem::Count { value: row.compaction_count, column: 23 })
    } else {
        None
    }
}

/// Whether the error says what the problem is.
pub open spec fn tells(error: DatabaseError, problem: RunProblem) -> bool {
    match problem {
        RunProblem::Moment => is_out_of_range(error),
        RunProblem::Count { value, column } => error matches DatabaseError::Sqlite(message)
            && message@ == "Integer "@ + text::decimal(value as nat) + " out of range at index "@
            + text::decimal(column as nat),
    }
}

/// Whether the record states the run.
pub open spec fn states_run(record: TriageRunRecord, row: RunModel) -> bool {
    &&& record.id == row.id
    &&& record.event_id == row.event_id
    &&& record.attempt == row.attempt
    &&& rfc3339(row.started_at) == Some(record.started_at@)
    &&& written_moment(row.ended_at) == Some(text::opt_text(record.ended_at))
    &&& rfc3339(row.last_activity_at) == Some(record.last_activity_at@)
    &&& text::opt_text(record.outcome) == (match row.outcome {
        Some(outcome) => Some(outcome.name()),
        None => None,
    })
    &&& text::opt_text(record.termination_reason) == row.termination_reason
    &&& text::opt_text(record.failure_category) == row.failure_category
    &&& text::opt_text(record.model_id) == row.model_id
    &&& text::opt_text(record.model_provider) == row.model_provider
    &&& text::opt_text(record.thinking_level) == row.thinking_level
    &&& record.context_window == row.context_window
    &&& record.max_tokens == row.max_tokens
    &&& record.telemetry_version == row.telemetry_version
    &&& record.telemetry_completeness@ == row.telemetry_completeness
    &&& match (record.dispatch_sequence, row.dispatch_sequence) {
        (Some(number), Some(stored)) => number == stored,
        (None, None) => true,
        _ => false,
    }
    &&& record.dispatch_trigger == row.dispatch_trigger
    &&& record.dispatch_prior_run_id == row.dispatch_prior_run_id
    &&& written_moment(row.dispatch_scheduled_for) == Some(
        text::opt_text(record.dispatch_scheduled_for),
    )
    &&& opt_conclusion(record.conclusion) == row.conclusion
    &&& record.turn_count == row.turn_count
    &&& record.retry_count == row.retry_count
    &&& record.compaction_count == row.compaction_count
}

/// The number, where it fits its column.
fn fitting(value: u64, column: u8) -> (result: Result<u32, DatabaseError>)
    ensures
        match result {
            Ok(number) => number == value,
            Err(error) => value > u32::MAX && tells(error, RunProblem::Count { value, column }),
        },
{
    if value <= u32::MAX as u64 {
        return Ok(value as u32);
    }
    let mut message = "Integer ".to_owned();
    message.append(text::decimal_of(value as u128).as_str());
    message.append(" out of range at index ");
    message.append(text::decimal_of(column as u128).as_str());
    Err(DatabaseError::Sqlite(message))
}

fn run_record(row: &RunRow) -> (result: Result<TriageRunRecord, DatabaseError>)
    ensures
        match result {
            Ok(record) => run_problem(row@) is None && states_run(record, row@),
            Err(error) => run_problem(row@) matches Some(problem) && tells(error, problem),
        },
{
    let started_at = write_moment(row.started_at)?;
    let ended_at = write_opt_moment(row.ended_at)?;
    let last_activity_at = write_moment(row.last_activity_at)?;
    let dispatch_scheduled_for = write_opt_moment(row.dispatch_scheduled_for)?;
    let dispatch_sequence = match row.dispatch_sequence {
        Some(value) => Some(fitting(value, 16)?),
        None => None,
    };
    let turn_count = fitting(row.turn_count, 21)?;
    let retry_count = fitting(row.retry_count, 22)?;
    let compaction_count = fitting(row.compaction_count, 23)?;
    Ok(
        TriageRunRecord {
            id: row.id,
            event_id: row.event_id,
            attempt: row.attempt,
            started_at,
            ended_at,
            last_activity_at,
            outcome: match row.outcome {
                Some(outcome) => Some(outcome.as_str().to_owned()),
                None => None,
            },
            termination_reason: text::copy_opt(&row.termination_reason),
            failure_category: text::copy_opt(&row.failure_category),
            model_id: text::copy_opt(&row.model_id),
            model_provider: text::copy_opt(&row.model_provider),
            thinking_level: text::copy_opt(&row.thinking_level),
            context_window: row.context_window,
            max_tokens: row.max_tokens,
            telemetry_version: row.telemetry_version,
            telemetry_completeness: row.telemetry_completeness.as_str().to_owned(),
            dispatch_sequence,
            dispatch_trigger: row.dispatch_trigger,
            dispatch_prior_run_id: row.dispatch_prior_run_id,
            dispatch_scheduled_for,
            conclusion: match &row.conclusion {
                Some(conclusion) => Some(copy_conclusion(conclusion)),
                None => None,
            },
            turn_count,
            retry_count,
            compaction_count,
        },
    )
}

/// The first run with the number, from a place on.
pub open spec fn run_place(runs: Seq<RunModel>, id: i64, from: int) -> Option<int>
    decreases runs.len() - from,
{
    if from < 0 || from >= runs.len() {
        None
    } else if runs[from].id == id {
        Some(from)
    } else {
        run_place(runs, id, from + 1)
    }
}

/// The runs by when they began.
pub open spec fn begun_keys(runs: Seq<RunModel>) -> Seq<Option<Key>> {
    runs.map_values(|row: RunModel| Some(Key { at: row.started_at, id: row.id }))
}

/// The runs of an event are ordered by their numbers.
pub open spec fn run_keys(runs: Seq<RunModel>, event_id: i64) -> Seq<Option<Key>> {
    runs.map_values(
        |row: RunModel|
            if row.event_id == event_id {
                Some(Key { at: row.id, id: row.id })
            } else {
                None
            },
    )
}

/// Whether the records are the runs at the places, or the error says what keeps the first of them
/// that cannot be handed out.
pub open spec fn runs_read(
    result: Result<Vec<TriageRunRecord>, DatabaseError>,
    runs: Seq<RunModel>,
    shown: Seq<usize>,
) -> bool {
    match result {
        Ok(records) => {
            &&& records@.len() == shown.len()
            &&& forall|k: int|
                0 <= k < shown.len() ==> states_run(
                    #[trigger] records@[k],
                    runs[shown[k] as int],
                )
        },
        Err(error) => exists|k: int|
            first_unread(runs, shown, k) && tells(
                error,
                run_problem(runs[#[trigger] shown[k] as int])->Some_0,
            ),
    }
}

/// Whether the place is the first one of a run that cannot be handed out.
pub open spec fn first_unread(runs: Seq<RunModel>, shown: Seq<usize>, k: int) -> bool {
    &&& 0 <= k < shown.len()
    &&& run_problem(runs[shown[k] as int]) is Some
    &&& forall|j: int| 0 <= j < k ==> run_problem(runs[#[trigger] shown[j] as int]) is None
}

/// The places of the runs that began last, the latest first.
pub open spec fn latest_runs(runs: Seq<RunModel>, limit: nat) -> Seq<usize> {
    first_of(in_order(begun_keys(runs)).reverse(), limit)
}

/// Whether the summary states the run and the number of its steps.
pub open spec fn states_summary(
    summary: TriageRunSummary,
    row: RunModel,
    steps: Seq<StepModel>,
) -> bool {
    &&& states_run(summary.run, row)
    &&& summary.step_count == count_of(step_spans(steps), row.id)
}

/// Whether the summaries are those of the runs that began last, the latest first, or the error
/// says what keeps the first of these that cannot be handed out.
pub open spec fn summaries_read(
    result: Result<Vec<TriageRunSummary>, DatabaseError>,
    runs: Seq<RunModel>,
    steps: Seq<StepModel>,
    limit: nat,
) -> bool {
    let shown = latest_runs(runs, limit);
    match result {
        Ok(summaries) => {
            &&& summaries@.len() == shown.len()
            &&& forall|k: int|
                0 <= k < shown.len() ==> states_summary(
                    #[trigger] summaries@[k],
                    runs[shown[k] as int],
                    steps,
                )
        },
        Err(error) => exists|k: int|
            first_unread(runs, shown, k) && tells(
                error,
                run_problem(runs[#[trigger] shown[k] as int])->Some_0,
            ),
    }
}

impl Store {
    /// The run with this number.
    pub fn triage_run(&self, id: RunId) -> (result: Result<Option<TriageRunRecord>, DatabaseError>)
        ensures
            match run_place(self@.runs, id.0, 0) {
                None => result matches Ok(None),
                Some(place) => match run_problem(self@.runs[place]) {
                    None => result matches Ok(Some(record)) && states_run(
                        record,
                        self@.runs[place],
                    ),
                    Some(problem) => result matches Err(error) && tells(error, problem),
                },
            },
    {
        let total: usize = self.runs.len();
        let mut i: usize = 0;
        while i < total
            invariant
                i <= total == self.runs@.len(),
                run_place(self@.runs, id.0, 0) == run_place(self@.runs, id.0, i as int),
            decreases total - i,
        {
            assert(self@.runs[i as int] == self.runs@[i as int]@);
            if self.runs[i].id == id.0 {
                return match run_record(&self.runs[i]) {
                    Ok(record) => Ok(Some(record)),
                    Err(error) => Err(error),
                };
            }
            i += 1;
        }
        Ok(None)
    }

    fn run_records(&self, shown: &Vec<usize>) -> (result: Result<
        Vec<TriageRunRecord>,
        DatabaseError,
    >)
        requires
            forall|k: int| 0 <= k < shown@.len() ==> #[trigger] shown@[k] < self.runs@.len(),
        ensures
            runs_read(result, self@.runs, shown@),
    {
        let count: usize = shown.len();
        let mut records: Vec<TriageRunRecord> = Vec::new();
        let mut j: usize = 0;
        while j < count
            invariant
                j <= count == shown@.len(),
                forall|k: int| 0 <= k < shown@.len() ==> #[trigger] shown@[k] < self.runs@.len(),
                records@.len() == j,
                forall|k: int|
                    0 <= k < j ==> states_run(
                        #[trigger] records@[k],
                        self@.runs[shown@[k] as int],
                    ),
                forall|k: int|
                    0 <= k < j ==> run_problem(self@.runs[#[trigger] shown@[k] as int]) is None,
            decreases count - j,
        {
            let place = shown[j];
            assert(self@.runs[place as int] == self.runs@[place as int]@);
            let record = match run_record(&self.runs[place]) {
                Ok(record) => record,
                Err(error) => {
                    assert(first_unread(self@.runs, shown@, j as int));
                    assert(shown@[j as int] == place);
                    return Err(error);
                },
            };
            records.push(record);
            j += 1;
        }
        Ok(records)
    }

    /// The runs of an event, in the order of their numbers.
    pub fn triage_runs_for_event(&self, event_id: i64) -> (result: Result<
        Vec<TriageRunRecord>,
        DatabaseError,
    >)
        ensures
            runs_read(result, self@.runs, in_order(run_keys(self@.runs, event_id))),
    {
        let total: usize = self.runs.len();
        let mut keys: Vec<Option<Key>> = Vec::new();
        let mut i: usize = 0;
        while i < total
            invariant
                i <= total == self.runs@.len(),
                keys@.len() == i,
                forall|k: int|
                    0 <= k < i ==> #[trigger] keys@[k] == run_keys(self@.runs, event_id)[k],
            decreases total - i,
        {
            let row = &self.runs[i];
            assert(self@.runs[i as int] == row@);
            let key = if row.event_id == event_id {
                Some(Key { at: row.id, id: row.id })
            } else {
                None
            };
            keys.push(key);
            i += 1;
        }
        assert(keys@ =~= run_keys(self@.runs, event_id));
        self.run_records(&put_in_order(&keys))
    }

    /// The runs that began last, the latest first, each with the number of its steps.
    pub fn list_triage_run_summaries(&self, limit: usize) -> (result: Result<
        Vec<TriageRunSummary>,
        DatabaseError,
    >)
        ensures
            summaries_read(result, self@.runs, self@.steps, limit as nat),
    {
        let total: usize = self.runs.len();
        let mut keys: Vec<Option<Key>> = Vec::new();
        let mut i: usize = 0;
        while i < total
            invariant
                i <= total == self.runs@.len(),
                keys@.len() == i,
                forall|k: int| 0 <= k < i ==> #[trigger] keys@[k] == begun_keys(self@.runs)[k],
            decreases total - i,
        {
            assert(self@.runs[i as int] == self.runs@[i as int]@);
            keys.push(Some(Key { at: self.runs[i].started_at, id: self.runs[i].id }));
            i += 1;
        }
        assert(keys@ =~= begun_keys(self@.runs));
        let order = put_in_order(&keys);
        let shown = latest_first(&order, limit);
        assert forall|k: int| 0 <= k < shown@.len() implies #[trigger] shown@[k]
            < self.runs@.len() by {
            assert(shown@[k] == order@[order@.len() - 1 - k]);
        }
        let count: usize = shown.len();
        let mut summaries: Vec<TriageRunSummary> = Vec::new();
        let mut j: usize = 0;
        assert(self.steps@.map_values(|row: StepRow| crate::database::tables::Span::span(&row))
            =~= step_spans(self@.steps));
        while j < count
            invariant
                j <= count == shown@.len(),
                self.steps@.map_values(|row: StepRow| crate::database::tables::Span::span(&row))
                    == step_spans(self@.steps),
                forall|k: int| 0 <= k < shown@.len() ==> #[trigger] shown@[k] < self.runs@.len(),
                shown@ == first_of(in_order(begun_keys(self@.runs)).reverse(), limit as nat),
                summaries@.len() == j,
                forall|k: int|
                    0 <= k < j ==> {
                        let row = self@.runs[shown@[k] as int];
                        &&& states_run((#[trigger] summaries@[k]).run, row)
                        &&& summaries@[k].step_count == count_of(step_spans(self@.steps), row.id)
                    },
                forall|k: int|
                    0 <= k < j ==> run_problem(self@.runs[#[trigger] shown@[k] as int]) is None,
            decreases count - j,
        {
            let place = shown[j];
            assert(self@.runs[place as int] == self.runs@[place as int]@);
            let run = match run_record(&self.runs[place]) {
                Ok(run) => run,
                Err(error) => {
                    assert(first_unread(self@.runs, shown@, j as int));
                    assert(shown@[j as int] == place);
                    return Err(error);
                },
            };
            let step_count = rows_of(&self.steps, self.runs[place].id);
            summaries.push(TriageRunSummary { run, step_count });
            j += 1;
        }
        Ok(summaries)
    }
}

// ---------------------------------------------------------------------------------------------
// What a run is made of
// ---------------------------------------------------------------------------------------------

/// The first turn with the number, from a place on.
pub open spec fn turn_place(turns: Seq<TurnModel>, id: i64, from: int) -> Option<int>
    decreases turns.len() - from,
{
    if from < 0 || from >= turns.len() {
        None
    } else if turns[from].id == id {
        Some(from)
    } else {
        turn_place(turns, id, from + 1)
    }
}

/// The place in its run of the turn with the number. None where there is no such turn.
pub open spec fn ordinal_of(turns: Seq<TurnModel>, turn_id: Option<i64>) -> Option<i64> {
    match turn_id {
        None => None,
        Some(id) => match turn_place(turns, id, 0) {
            None => None,
            Some(place) => Some(turns[place].ordinal),
        },
    }
}

fn find_ordinal(turns: &Vec<TurnRow>, turn_id: Option<i64>) -> (ordinal: Option<i64>)
    ensures
        ordinal == ordinal_of(turn_models(turns@), turn_id),
{
    let id = match turn_id {
        None => {
            return None;
        },
        Some(id) => id,
    };
    let ghost models = turn_models(turns@);
    let mut i: usize = 0;
    while i < turns.len()
        invariant
            i <= turns@.len(),
            models == turn_models(turns@),
            turn_id == Some(id),
            turn_place(models, id, 0) == turn_place(models, id, i as int),
        decreases turns@.len() - i,
    {
        assert(models[i as int] == turns@[i as int]@);
        if turns[i].id == id {
            return Some(turns[i].ordinal);
        }
        i += 1;
    }
    None
}

/// The steps of a run are ordered by when they began.
pub open spec fn step_keys(rows: Seq<StepModel>, run_id: i64) -> Seq<Option<Key>> {
    rows.map_values(
        |row: StepModel|
            if row.run_id == run_id {
                Some(Key { at: row.started_at, id: row.id })
            } else {
                None
            },
    )
}

/// Whether the moments of the row can be written.
pub open spec fn step_fits(row: StepModel) -> bool {
    rfc3339(row.started_at) is Some && written_moment(row.ended_at) is Some
}

/// Whether the record states the step.
pub open spec fn states_step(
    record: TriageStepRecord,
    row: StepModel,
    turns: Seq<TurnModel>,
) -> bool {
    &&& record.id == row.id
    &&& record.turn_id == row.turn_id
    &&& record.turn_ordinal == ordinal_of(turns, row.turn_id)
    &&& record.kind@ == row.kind
    &&& record.label@ == row.label
    &&& text::opt_text(record.summary) == row.summary
    &&& rfc3339(row.started_at) == Some(record.started_at@)
    &&& written_moment(row.ended_at) == Some(text::opt_text(record.ended_at))
    &&& text::opt_text(record.outcome) == row.outcome
}

fn step_record(row: &StepRow, turns: &Vec<TurnRow>) -> (result: Result<
    TriageStepRecord,
    DatabaseError,
>)
    ensures
        match result {
            Ok(record) => step_fits(row@) && states_step(record, row@, turn_models(turns@)),
            Err(error) => !step_fits(row@) && is_out_of_range(error),
        },
{
    let started_at = write_moment(row.started_at)?;
    let ended_at = write_opt_moment(row.ended_at)?;
    Ok(
        TriageStepRecord {
            id: row.id,
            turn_id: row.turn_id,
            turn_ordinal: find_ordinal(turns, row.turn_id),
            kind: row.kind.as_str().to_owned(),
            label: row.label.as_str().to_owned(),
            summary: text::copy_opt(&row.summary),
            started_at,
            ended_at,
            outcome: text::copy_opt(&row.outcome),
        },
    )
}

/// Whether the records are the rows at the places, or one of these has a moment that cannot be
/// written.
pub open spec fn steps_read(
    result: Result<Vec<TriageStepRecord>, DatabaseError>,
    rows: Seq<StepModel>,
    turns: Seq<TurnModel>,
    shown: Seq<usize>,
) -> bool {
    match result {
        Ok(records) => {
            &&& records@.len() == shown.len()
            &&& forall|k: int|
                0 <= k < shown.len() ==> states_step(
                    #[trigger] records@[k],
                    rows[shown[k] as int],
                    turns,
                )
        },
        Err(error) => {
            &&& exists|k: int|
                0 <= k < shown.len() && !step_fits(rows[#[trigger] shown[k] as int])
            &&& is_out_of_range(error)
        },
    }
}

impl Store {
    fn ordered_steps(&self, run_id: i64) -> (order: Vec<usize>)
        ensures
            order@ == in_order(step_keys(self@.steps, run_id)),
            forall|k: int| 0 <= k < order@.len() ==> #[trigger] order@[k] < self.steps@.len(),
    {
        let total: usize = self.steps.len();
        let mut keys: Vec<Option<Key>> = Vec::new();
        let mut i: usize = 0;
        while i < total
            invariant
                i <= total == self.steps@.len(),
                keys@.len() == i,
                forall|k: int|
                    0 <= k < i ==> #[trigger] keys@[k] == step_keys(self@.steps, run_id)[k],
            decreases total - i,
        {
            let row = &self.steps[i];
            assert(self@.steps[i as int] == row@);
            let key = if row.run_id == run_id {
                Some(Key { at: row.started_at, id: row.id })
            } else {
                None
            };
            keys.push(key);
            i += 1;
        }
        assert(keys@ =~= step_keys(self@.steps, run_id));
        put_in_order(&keys)
    }

    fn step_records(&self, shown: &Vec<usize>) -> (result: Result<
        Vec<TriageStepRecord>,
        DatabaseError,
    >)
        requires
            forall|k: int| 0 <= k < shown@.len() ==> #[trigger] shown@[k] < self.steps@.len(),
        ensures
            steps_read(result, self@.steps, self@.turns, shown@),
    {
        let count: usize = shown.len();
        let mut records: Vec<TriageStepRecord> = Vec::new();
        let mut j: usize = 0;
        while j < count
            invariant
                j <= count == shown@.len(),
                forall|k: int| 0 <= k < shown@.len() ==> #[trigger] shown@[k] < self.steps@.len(),
                records@.len() == j,
                forall|k: int|
                    0 <= k < j ==> states_step(
                        #[trigger] records@[k],
                        self@.steps[shown@[k] as int],
                        self@.turns,
                    ),
            decreases count - j,
        {
            let place = shown[j];
            assert(self@.steps[place as int] == self.steps@[place as int]@);
            let record = match step_record(&self.steps[place], &self.turns) {
                Ok(record) => record,
                Err(error) => {
                    assert(!step_fits(self@.steps[shown@[j as int] as int]));
                    return Err(error);
                },
            };
            records.push(record);
            j += 1;
        }
        Ok(records)
    }

    /// The steps of a run, in their order.
    pub fn triage_run_steps(&self, run_id: RunId) -> (result: Result<
        Vec<TriageStepRecord>,
        DatabaseError,
    >)
        ensures
            steps_read(
                result,
                self@.steps,
                self@.turns,
                in_order(step_keys(self@.steps, run_id.0)),
            ),
    {
        self.step_records(&self.ordered_steps(run_id.0))
    }

    /// The last steps of a run, in their order.
    pub fn recent_triage_run_steps(&self, run_id: RunId, limit: usize) -> (result: Result<
        Vec<TriageStepRecord>,
        DatabaseError,
    >)
        ensures
            steps_read(
                result,
                self@.steps,
                self@.turns,
                last_of(in_order(step_keys(self@.steps, run_id.0)), limit as nat),
            ),
    {
        let order = self.ordered_steps(run_id.0);
        let shown = last_few(&order, limit);
        assert forall|k: int| 0 <= k < shown@.len() implies #[trigger] shown@[k]
            < self.steps@.len() by {
            let from = order@.len() - shown@.len();
            assert(shown@[k] == order@[from + k]);
        }
        self.step_records(&shown)
    }
}

/// The turns of a run are ordered by their places.
pub open spec fn turn_keys(rows: Seq<TurnModel>, run_id: i64) -> Seq<Option<Key>> {
    rows.map_values(
        |row: TurnModel|
            if row.run_id == run_id {
                Some(Key { at: row.ordinal, id: row.id })
            } else {
                None
            },
    )
}

/// Whether the moments of the row can be written.
pub open spec fn turn_fits(row: TurnModel) -> bool {
    rfc3339(row.started_at) is Some && written_moment(row.ended_at) is Some
}

/// Whether the record states the turn.
pub open spec fn states_turn(record: TriageTurnRecord, row: TurnModel) -> bool {
    &&& record.id == row.id
    &&& record.ordinal == row.ordinal
    &&& rfc3339(row.started_at) == Some(record.started_at@)
    &&& written_moment(row.ended_at) == Some(text::opt_text(record.ended_at))
    &&& text::opt_text(record.stop_reason) == row.stop_reason
    &&& record.input_tokens == row.usage.input_tokens
    &&& record.output_tokens == row.usage.output_tokens
    &&& record.cache_read_tokens == row.usage.cache_read_tokens
    &&& record.cache_write_tokens == row.usage.cache_write_tokens
    &&& record.reasoning_tokens == row.usage.reasoning_tokens
    &&& record.total_tokens == row.usage.total_tokens
    &&& record.context_tokens == row.context_tokens
    &&& record.context_window == row.context_window
}

fn turn_record(row: &TurnRow) -> (result: Result<TriageTurnRecord, DatabaseError>)
    ensures
        match result {
            Ok(record) => turn_fits(row@) && states_turn(record, row@),
            Err(error) => !turn_fits(row@) && is_out_of_range(error),
        },
{
    let started_at = write_moment(row.started_at)?;
    let ended_at = write_opt_moment(row.ended_at)?;
    Ok(
        TriageTurnRecord {
            id: row.id,
            ordinal: row.ordinal,
            started_at,
            ended_at,
            stop_reason: text::copy_opt(&row.stop_reason),
            input_tokens: row.usage.input_tokens,
            output_tokens: row.usage.output_tokens,
            cache_read_tokens: row.usage.cache_read_tokens,
            cache_write_tokens: row.usage.cache_write_tokens,
            reasoning_tokens: row.usage.reasoning_tokens,
            total_tokens: row.usage.total_tokens,
            context_tokens: row.context_tokens,
            context_window: row.context_window,
        },
    )
}

/// Whether the records are the rows at the places, or one of these has a moment that cannot be
/// written.
pub open spec fn turns_read(
    result: Result<Vec<TriageTurnRecord>, DatabaseError>,
    rows: Seq<TurnModel>,
    shown: Seq<usize>,
) -> bool {
    match result {
        Ok(records) => {
            &&& records@.len() == shown.len()
            &&& forall|k: int|
                0 <= k < shown.len() ==> states_turn(
                    #[trigger] records@[k],
                    rows[shown[k] as int],
                )
        },
        Err(error) => {
            &&& exists|k: int|
                0 <= k < shown.len() && !turn_fits(rows[#[trigger] shown[k] as int])
            &&& is_out_of_range(error)
        },
    }
}

impl Store {
    fn ordered_turns(&self, run_id: i64) -> (order: Vec<usize>)
        ensures
            order@ == in_order(turn_keys(self@.turns, run_id)),
            forall|k: int| 0 <= k < order@.len() ==> #[trigger] order@[k] < self.turns@.len(),
    {
        let total: usize = self.turns.len();
        let mut keys: Vec<Option<Key>> = Vec::new();
        let mut i: usize = 0;
        while i < total
            invariant
                i <= total == self.turns@.len(),
                keys@.len() == i,
                forall|k: int|
                    0 <= k < i ==> #[trigger] keys@[k] == turn_keys(self@.turns, run_id)[k],
            decreases total - i,
        {
            let row = &self.turns[i];
            assert(self@.turns[i as int] == row@);
            let key = if row.run_id == run_id {
                Some(Key { at: row.ordinal, id: row.id })
            } else {
                None
            };
            keys.push(key);
            i += 1;
        }
        assert(keys@ =~= turn_keys(self@.turns, run_id));
        put_in_order(&keys)
    }

    fn turn_records(&self, shown: &Vec<usize>) -> (result: Result<
        Vec<TriageTurnRecord>,
        DatabaseError,
    >)
        requires
            forall|k: int| 0 <= k < shown@.len() ==> #[trigger] shown@[k] < self.turns@.len(),
        ensures
            turns_read(result, self@.turns, shown@),
    {
        let count: usize = shown.len();
        let mut records: Vec<TriageTurnRecord> = Vec::new();
        let mut j: usize = 0;
        while j < count
            invariant
                j <= count == shown@.len(),
                forall|k: int| 0 <= k < shown@.len() ==> #[trigger] shown@[k] < self.turns@.len(),
                records@.len() == j,
                forall|k: int|
                    0 <= k < j ==> states_turn(
                        #[trigger] records@[k],
                        self@.turns[shown@[k] as int],
                    ),
            decreases count - j,
        {
            let place = shown[j];
            assert(self@.turns[place as int] == self.turns@[place as int]@);
            let record = match turn_record(&self.turns[place]) {
                Ok(record) => record,
                Err(error) => {
                    assert(!turn_fits(self@.turns[shown@[j as int] as int]));
                    return Err(error);
                },
            };
            records.push(record);
            j += 1;
        }
        Ok(records)
    }

    /// The turns of a run, in their order.
    pub fn triage_run_turns(&self, run_id: RunId) -> (result: Result<
        Vec<TriageTurnRecord>,
        DatabaseError,
    >)
        ensures
            turns_read(
                result,
                self@.turns,
                in_order(turn_keys(self@.turns, run_id.0)),
            ),
    {
        self.turn_records(&self.ordered_turns(run_id.0))
    }
}

/// The retries of a run are ordered by when they began.
pub open spec fn retry_keys(rows: Seq<RetryModel>, run_id: i64) -> Seq<Option<Key>> {
    rows.map_values(
        |row: RetryModel|
            if row.run_id == run_id {
                Some(Key { at: row.started_at, id: row.id })
            } else {
                None
            },
    )
}

/// Whether the moments of the row can be written.
pub open spec fn retry_fits(row: RetryModel) -> bool {
    rfc3339(row.started_at) is Some && rfc3339(row.wait_ended_at) is Some
        && written_moment(row.ended_at) is Some
}

/// Whether the record states the retry.
pub open spec fn states_retry(record: TriageRetryRecord, row: RetryModel) -> bool {
    &&& record.id == row.id
    &&& record.turn_id == row.turn_id
    &&& record.attempt == row.attempt
    &&& record.max_attempts == row.max_attempts
    &&& record.delay_ms == row.delay_ms
    &&& rfc3339(row.started_at) == Some(record.started_at@)
    &&& rfc3339(row.wait_ended_at) == Some(record.wait_ended_at@)
    &&& written_moment(row.ended_at) == Some(text::opt_text(record.ended_at))
    &&& text::opt_text(record.outcome) == row.outcome
    &&& text::opt_text(record.error_category) == row.error_category
}

fn retry_record(row: &RetryRow) -> (result: Result<TriageRetryRecord, DatabaseError>)
    ensures
        match result {
            Ok(record) => retry_fits(row@) && states_retry(record, row@),
            Err(error) => !retry_fits(row@) && is_out_of_range(error),
        },
{
    let started_at = write_moment(row.started_at)?;
    let wait_ended_at = write_moment(row.wait_ended_at)?;
    let ended_at = write_opt_moment(row.ended_at)?;
    Ok(
        TriageRetryRecord {
            id: row.id,
            turn_id: row.turn_id,
            attempt: row.attempt as i64,
            max_attempts: row.max_attempts as i64,
            delay_ms: row.delay_ms,
            started_at,
            wait_ended_at,
            ended_at,
            outcome: text::copy_opt(&row.outcome),
            error_category: text::copy_opt(&row.error_category),
        },
    )
}

/// Whether the records are the rows at the places, or one of these has a moment that cannot be
/// written.
pub open spec fn retries_read(
    result: Result<Vec<TriageRetryRecord>, DatabaseError>,
    rows: Seq<RetryModel>,
    shown: Seq<usize>,
) -> bool {
    match result {
        Ok(records) => {
            &&& records@.len() == shown.len()
            &&& forall|k: int|
                0 <= k < shown.len() ==> states_retry(
                    #[trigger] records@[k],
                    rows[shown[k] as int],
                )
        },
        Err(error) => {
            &&& exists|k: int|
                0 <= k < shown.len() && !retry_fits(rows[#[trigger] shown[k] as int])
            &&& is_out_of_range(error)
        },
    }
}

impl Store {
    fn ordered_retries(&self, run_id: i64) -> (order: Vec<usize>)
        ensures
            order@ == in_order(retry_keys(self@.retries, run_id)),
            forall|k: int| 0 <= k < order@.len() ==> #[trigger] order@[k] < self.retries@.len(),
    {
        let total: usize = self.retries.len();
        let mut keys: Vec<Option<Key>> = Vec::new();
        let mut i: usize = 0;
        while i < total
            invariant
                i <= total == self.retries@.len(),
                keys@.len() == i,
                forall|k: int|
                    0 <= k < i ==> #[trigger] keys@[k] == retry_keys(self@.retries, run_id)[k],
            decreases total - i,
        {
            let row = &self.retries[i];
            assert(self@.retries[i as int] == row@);
            let key = if row.run_id == run_id {
                Some(Key { at: row.started_at, id: row.id })
            } else {
                None
            };
            keys.push(key);
            i += 1;
        }
        assert(keys@ =~= retry_keys(self@.retries, run_id));
        put_in_order(&keys)
    }

    fn retry_records(&self, shown: &Vec<usize>) -> (result: Result<
        Vec<TriageRetryRecord>,
        DatabaseError,
    >)
        requires
            forall|k: int| 0 <= k < shown@.len() ==> #[trigger] shown@[k] < self.retries@.len(),
        ensures
            retries_read(result, self@.retries, shown@),
    {
        let count: usize = shown.len();
        let mut records: Vec<TriageRetryRecord> = Vec::new();
        let mut j: usize = 0;
        while j < count
            invariant
                j <= count == shown@.len(),
                forall|k: int| 0 <= k < shown@.len() ==> #[trigger] shown@[k] < self.retries@.len(),
                records@.len() == j,
                forall|k: int|
                    0 <= k < j ==> states_retry(
                        #[trigger] records@[k],
                        self@.retries[shown@[k] as int],
                    ),
            decreases count - j,
        {
            let place = shown[j];
            assert(self@.retries[place as int] == self.retries@[place as int]@);
            let record = match retry_record(&self.retries[place]) {
                Ok(record) => record,
                Err(error) => {
                    assert(!retry_fits(self@.retries[shown@[j as int] as int]));
                    return Err(error);
                },
            };
            records.push(record);
            j += 1;
        }
        Ok(records)
    }

    /// The retries of a run, in their order.
    pub fn triage_run_retries(&self, run_id: RunId) -> (result: Result<
        Vec<TriageRetryRecord>,
        DatabaseError,
    >)
        ensures
            retries_read(
                result,
                self@.retries,
                in_order(retry_keys(self@.retries, run_id.0)),
            ),
    {
        self.retry_records(&self.ordered_retries(run_id.0))
    }
}

/// The compactions of a run are ordered by when they began.
pub open spec fn compaction_keys(rows: Seq<CompactionModel>, run_id: i64) -> Seq<Option<Key>> {
    rows.map_values(
        |row: CompactionModel|
            if row.run_id == run_id {
                Some(Key { at: row.started_at, id: row.id })
            } else {
                None
            },
    )
}

/// Whether the moments of the row can be written.
pub open spec fn compaction_fits(row: CompactionModel) -> bool {
    rfc3339(row.started_at) is Some && written_moment(row.ended_at) is Some
}

/// Whether the record states the compaction.
pub open spec fn states_compaction(record: TriageCompactionRecord, row: CompactionModel) -> bool {
    &&& record.id == row.id
    &&& record.turn_id == row.turn_id
    &&& text::opt_text(record.reason) == row.reason
    &&& rfc3339(row.started_at) == Some(record.started_at@)
    &&& written_moment(row.ended_at) == Some(text::opt_text(record.ended_at))
    &&& text::opt_text(record.outcome) == row.outcome
    &&& record.aborted == row.aborted
    &&& record.will_retry == row.will_retry
    &&& record.tokens_before == row.tokens_before
    &&& record.estimated_tokens_after == row.estimated_tokens_after
    &&& record.input_tokens == row.usage.input_tokens
    &&& record.output_tokens == row.usage.output_tokens
    &&& record.cache_read_tokens == row.usage.cache_read_tokens
    &&& record.cache_write_tokens == row.usage.cache_write_tokens
    &&& record.reasoning_tokens == row.usage.reasoning_tokens
    &&& record.total_tokens == row.usage.total_tokens
}

fn compaction_record(row: &CompactionRow) -> (result: Result<TriageCompactionRecord, DatabaseError>)
    ensures
        match result {
            Ok(record) => compaction_fits(row@) && states_compaction(record, row@),
            Err(error) => !compaction_fits(row@) && is_out_of_range(error),
        },
{
    let started_at = write_moment(row.started_at)?;
    let ended_at = write_opt_moment(row.ended_at)?;
    Ok(
        TriageCompactionRecord {
            id: row.id,
            turn_id: row.turn_id,
            reason: text::copy_opt(&row.reason),
            started_at,
            ended_at,
            outcome: text::copy_opt(&row.outcome),
            aborted: row.aborted,
            will_retry: row.will_retry,
            tokens_before: row.tokens_before,
            estimated_tokens_after: row.estimated_tokens_after,
            input_tokens: row.usage.input_tokens,
            output_tokens: row.usage.output_tokens,
            cache_read_tokens: row.usage.cache_read_tokens,
            cache_write_tokens: row.usage.cache_write_tokens,
            reasoning_tokens: row.usage.reasoning_tokens,
            total_tokens: row.usage.total_tokens,
        },
    )
}

/// Whether the records are the rows at the places, or one of these has a moment that cannot be
/// written.
pub open spec fn compactions_read(
    result: Result<Vec<TriageCompactionRecord>, DatabaseError>,
    rows: Seq<CompactionModel>,
    shown: Seq<usize>,
) -> bool {
    match result {
        Ok(records) => {
            &&& records@.len() == shown.len()
            &&& forall|k: int|
                0 <= k < shown.len() ==> states_compaction(
                    #[trigger] records@[k],
                    rows[shown[k] as int],
                )
        },
        Err(error) => {
            &&& exists|k: int|
                0 <= k < shown.len() && !compaction_fits(rows[#[trigger] shown[k] as int])
            &&& is_out_of_range(error)
        },
    }
}

impl Store {
    fn ordered_compactions(&self, run_id: i64) -> (order: Vec<usize>)
        ensures
            order@ == in_order(compaction_keys(self@.compactions, run_id)),
            forall|k: int| 0 <= k < order@.len() ==> #[trigger] order@[k] < self.compactions@.len(),
    {
        let total: usize = self.compactions.len();
        let mut keys: Vec<Option<Key>> = Vec::new();
        let mut i: usize = 0;
        while i < total
            invariant
                i <= total == self.compactions@.len(),
                keys@.len() == i,
                forall|k: int|
                    0 <= k < i ==> #[trigger] keys@[k] == compaction_keys(
                        self@.compactions,
                        run_id,
                    )[k],
            decreases total - i,
        {
            let row = &self.compactions[i];
            assert(self@.compactions[i as int] == row@);
            let key = if row.run_id == run_id {
                Some(Key { at: row.started_at, id: row.id })
            } else {
                None
            };
            keys.push(key);
            i += 1;
        }
        assert(keys@ =~= compaction_keys(self@.compactions, run_id));
        put_in_order(&keys)
    }

    fn compaction_records(&self, shown: &Vec<usize>) -> (result: Result<
        Vec<TriageCompactionRecord>,
        DatabaseError,
    >)
        requires
            forall|k: int| 0 <= k < shown@.len() ==> #[trigger] shown@[k] < self.compactions@.len(),
        ensures
            compactions_read(result, self@.compactions, shown@),
    {
        let count: usize = shown.len();
        let mut records: Vec<TriageCompactionRecord> = Vec::new();
        let mut j: usize = 0;
        while j < count
            invariant
                j <= count == shown@.len(),
                forall|k: int|
                    0 <= k < shown@.len() ==> #[trigger] shown@[k] < self.compactions@.len(),
                records@.len() == j,
                forall|k: int|
                    0 <= k < j ==> states_compaction(
                        #[trigger] records@[k],
                        self@.compactions[shown@[k] as int],
                    ),
            decreases count - j,
        {
            let place = shown[j];
            assert(self@.compactions[place as int] == self.compactions@[place as int]@);
            let record = match compaction_record(&self.compactions[place]) {
                Ok(record) => record,
                Err(error) => {
                    assert(!compaction_fits(self@.compactions[shown@[j as int] as int]));
                    return Err(error);
                },
            };
            records.push(record);
            j += 1;
        }
        Ok(records)
    }

    /// The compactions of a run, in their order.
    pub fn triage_run_compactions(&self, run_id: RunId) -> (result: Result<
        Vec<TriageCompactionRecord>,
        DatabaseError,
    >)
        ensures
            compactions_read(
                result,
                self@.compactions,
                in_order(compaction_keys(self@.compactions, run_id.0)),
            ),
    {
        self.compaction_records(&self.ordered_compactions(run_id.0))
    }
}

/// The effects of a run are ordered by when they were recorded, then as they are stored.
pub open spec fn effect_keys(rows: Seq<EffectModel>, run_id: i64) -> Seq<Option<Key>> {
    rows.map_values(
        |row: EffectModel|
            if row.run_id == run_id {
                Some(Key { at: row.recorded_at, id: 0 })
            } else {
                None
            },
    )
}

/// Whether the moments of the row can be written.
pub open spec fn effect_fits(row: EffectModel) -> bool {
    rfc3339(row.recorded_at) is Some
}

/// Whether the record states the effect.
pub open spec fn states_effect(record: TriageEffectRecord, row: EffectModel) -> bool {
    &&& record.effect_type@ == row.effect_type
    &&& record.value@ == row.value
    &&& rfc3339(row.recorded_at) == Some(record.recorded_at@)
}

fn effect_record(row: &EffectRow) -> (result: Result<TriageEffectRecord, DatabaseError>)
    ensures
        match result {
            Ok(record) => effect_fits(row@) && states_effect(record, row@),
            Err(error) => !effect_fits(row@) && is_out_of_range(error),
        },
{
    let recorded_at = write_moment(row.recorded_at)?;
    Ok(
        TriageEffectRecord {
            effect_type: row.effect_type.as_str().to_owned(),
            value: row.value.as_str().to_owned(),
            recorded_at,
        },
    )
}

/// Whether the records are the rows at the places, or one of these has a moment that cannot be
/// written.
pub open spec fn effects_read(
    result: Result<Vec<TriageEffectRecord>, DatabaseError>,
    rows: Seq<EffectModel>,
    shown: Seq<usize>,
) -> bool {
    match result {
        Ok(records) => {
            &&& records@.len() == shown.len()
            &&& forall|k: int|
                0 <= k < shown.len() ==> states_effect(
                    #[trigger] records@[k],
                    rows[shown[k] as int],
                )
        },
        Err(error) => {
            &&& exists|k: int|
                0 <= k < shown.len() && !effect_fits(rows[#[trigger] shown[k] as int])
            &&& is_out_of_range(error)
        },
    }
}

impl Store {
    fn ordered_effects(&self, run_id: i64) -> (order: Vec<usize>)
        ensures
            order@ == in_order(effect_keys(self@.effects, run_id)),
            forall|k: int| 0 <= k < order@.len() ==> #[trigger] order@[k] < self.effects@.len(),
    {
        let total: usize = self.effects.len();
        let mut keys: Vec<Option<Key>> = Vec::new();
        let mut i: usize = 0;
        while i < total
            invariant
                i <= total == self.effects@.len(),
                keys@.len() == i,
                forall|k: int|
                    0 <= k < i ==> #[trigger] keys@[k] == effect_keys(self@.effects, run_id)[k],
            decreases total - i,
        {
            let row = &self.effects[i];
            assert(self@.effects[i as int] == row@);
            let key = if row.run_id == run_id {
                Some(Key { at: row.recorded_at, id: 0 })
            } else {
                None
            };
            keys.push(key);
            i += 1;
        }
        assert(keys@ =~= effect_keys(self@.effects, run_id));
        put_in_order(&keys)
    }

    fn effect_records(&self, shown: &Vec<usize>) -> (result: Result<
        Vec<TriageEffectRecord>,
        DatabaseError,
    >)
        requires
            forall|k: int| 0 <= k < shown@.len() ==> #[trigger] shown@[k] < self.effects@.len(),
        ensures
            effects_read(result, self@.effects, shown@),
    {
        let count: usize = shown.len();
        let mut records: Vec<TriageEffectRecord> = Vec::new();
        let mut j: usize = 0;
        while j < count
            invariant
                j <= count == shown@.len(),
                forall|k: int| 0 <= k < shown@.len() ==> #[trigger] shown@[k] < self.effects@.len(),
                records@.len() == j,
                forall|k: int|
                    0 <= k < j ==> states_effect(
                        #[trigger] records@[k],
                        self@.effects[shown@[k] as int],
                    ),
            decreases count - j,
        {
            let place = shown[j];
            assert(self@.effects[place as int] == self.effects@[place as int]@);
            let record = match effect_record(&self.effects[place]) {
                Ok(record) => record,
                Err(error) => {
                    assert(!effect_fits(self@.effects[shown@[j as int] as int]));
                    return Err(error);
                },
            };
            records.push(record);
            j += 1;
        }
        Ok(records)
    }

    /// The effects of a run, in their order.
    pub fn triage_run_effects(&self, run_id: RunId) -> (result: Result<
        Vec<TriageEffectRecord>,
        DatabaseError,
    >)
        ensures
            effects_read(
                result,
                self@.effects,
                in_order(effect_keys(self@.effects, run_id.0)),
            ),
    {
        self.effect_records(&self.ordered_effects(run_id.0))
    }
}

/// The prompts of a run are ordered as they are stored.
pub open spec fn prompt_keys(rows: Seq<PromptModel>, run_id: i64) -> Seq<Option<Key>> {
    rows.map_values(
        |row: PromptModel|
            if row.run_id == run_id {
                Some(Key { at: 0, id: 0 })
            } else {
                None
            },
    )
}

/// Whether the moments of the row can be written.
pub open spec fn prompt_fits(row: PromptModel) -> bool {
    rfc3339(row.recorded_at) is Some
}

/// Whether the record states the prompt.
pub open spec fn states_prompt(record: TriageRunPromptRecord, row: PromptModel) -> bool {
    &&& record.role@ == row.role
    &&& record.content@ == row.content
    &&& rfc3339(row.recorded_at) == Some(record.recorded_at@)
}

fn prompt_record(row: &PromptRow) -> (result: Result<TriageRunPromptRecord, DatabaseError>)
    ensures
        match result {
            Ok(record) => prompt_fits(row@) && states_prompt(record, row@),
            Err(error) => !prompt_fits(row@) && is_out_of_range(error),
        },
{
    let recorded_at = write_moment(row.recorded_at)?;
    Ok(
        TriageRunPromptRecord {
            role: row.role.as_str().to_owned(),
            content: row.content.as_str().to_owned(),
            recorded_at,
        },
    )
}

/// Whether the records are the rows at the places, or one of these has a moment that cannot be
/// written.
pub open spec fn prompts_read(
    result: Result<Vec<TriageRunPromptRecord>, DatabaseError>,
    rows: Seq<PromptModel>,
    shown: Seq<usize>,
) -> bool {
    match result {
        Ok(records) => {
            &&& records@.len() == shown.len()
            &&& forall|k: int|
                0 <= k < shown.len() ==> states_prompt(
                    #[trigger] records@[k],
                    rows[shown[k] as int],
                )
        },
        Err(error) => {
            &&& exists|k: int|
                0 <= k < shown.len() && !prompt_fits(rows[#[trigger] shown[k] as int])
            &&& is_out_of_range(error)
        },
    }
}

impl Store {
    fn ordered_prompts(&self, run_id: i64) -> (order: Vec<usize>)
        ensures
            order@ == in_order(prompt_keys(self@.prompts, run_id)),
            forall|k: int| 0 <= k < order@.len() ==> #[trigger] order@[k] < self.prompts@.len(),
    {
        let total: usize = self.prompts.len();
        let mut keys: Vec<Option<Key>> = Vec::new();
        let mut i: usize = 0;
        while i < total
            invariant
                i <= total == self.prompts@.len(),
                keys@.len() == i,
                forall|k: int|
                    0 <= k < i ==> #[trigger] keys@[k] == prompt_keys(self@.prompts, run_id)[k],
            decreases total - i,
        {
            let row = &self.prompts[i];
            assert(self@.prompts[i as int] == row@);
            let key = if row.run_id == run_id {
                Some(Key { at: 0, id: 0 })
            } else {
                None
            };
            keys.push(key);
            i += 1;
        }
        assert(keys@ =~= prompt_keys(self@.prompts, run_id));
        put_in_order(&keys)
    }

    fn prompt_records(&self, shown: &Vec<usize>) -> (result: Result<
        Vec<TriageRunPromptRecord>,
        DatabaseError,
    >)
        requires
            forall|k: int| 0 <= k < shown@.len() ==> #[trigger] shown@[k] < self.prompts@.len(),
        ensures
            prompts_read(result, self@.prompts, shown@),
    {
        let count: usize = shown.len();
        let mut records: Vec<TriageRunPromptRecord> = Vec::new();
        let mut j: usize = 0;
        while j < count
            invariant
                j <= count == shown@.len(),
                forall|k: int| 0 <= k < shown@.len() ==> #[trigger] shown@[k] < self.prompts@.len(),
                records@.len() == j,
                forall|k: int|
                    0 <= k < j ==> states_prompt(
                        #[trigger] records@[k],
                        self@.prompts[shown@[k] as int],
                    ),
            decreases count - j,
        {
            let place = shown[j];
            assert(self@.prompts[place as int] == self.prompts@[place as int]@);
            let record = match prompt_record(&self.prompts[place]) {
                Ok(record) => record,
                Err(error) => {
                    assert(!prompt_fits(self@.prompts[shown@[j as int] as int]));
                    return Err(error);
                },
            };
            records.push(record);
            j += 1;
        }
        Ok(records)
    }

    /// The prompts of a run, in their order.
    pub fn triage_run_prompts(&self, run_id: RunId) -> (result: Result<
        Vec<TriageRunPromptRecord>,
        DatabaseError,
    >)
        ensures
            prompts_read(
                result,
                self@.prompts,
                in_order(prompt_keys(self@.prompts, run_id.0)),
            ),
    {
        self.prompt_records(&self.ordered_prompts(run_id.0))
    }
}

// ---------------------------------------------------------------------------------------------
// Laws
// ---------------------------------------------------------------------------------------------

/// Whether the sources at the places come in the order of their names.
pub open spec fn named_in_order(sources: Seq<SourceModel>, order: Seq<usize>) -> bool {
    forall|i: int, j: int|
        0 <= i <= j < order.len() ==> text::text_le(
            sources[#[trigger] order[i] as int].source,
            sources[#[trigger] order[j] as int].source,
        )
}

proof fn lemma_placed_by_name(sources: Seq<SourceModel>, order: Seq<usize>, place: usize)
    requires
        named_in_order(sources, order),
    ensures
        named_in_order(sources, placed_by_name(sources, order, place)),
        placed_by_name(sources, order, place).to_multiset() == order.to_multiset().insert(place),
        forall|i: int|
            0 <= i < placed_by_name(sources, order, place).len() ==> #[trigger] placed_by_name(
                sources,
                order,
                place,
            )[i] == place || order.contains(placed_by_name(sources, order, place)[i]),
    decreases order.len(),
{
    broadcast use vstd::seq_lib::group_to_multiset_ensures;

    let out = placed_by_name(sources, order, place);
    let name = |p: usize| sources[p as int].source;
    if order.len() == 0 || text::text_le(name(order.last()), name(place)) {
        assert(out =~= order.push(place));
        assert forall|i: int| 0 <= i < out.len() implies #[trigger] out[i] == place
            || order.contains(out[i]) by {
            if i < order.len() {
                assert(order[i] == out[i]);
            }
        }
        assert forall|i: int, j: int| 0 <= i <= j < out.len() implies text::text_le(
            sources[#[trigger] out[i] as int].source,
            sources[#[trigger] out[j] as int].source,
        ) by {
            text::lemma_text_order(name(place), name(place), name(place));
            if j == order.len() && i < order.len() {
                assert(text::text_le(name(order[i]), name(order[order.len() - 1])));
                text::lemma_text_order(name(order[i]), name(order.last()), name(place));
            } else if j < order.len() {
                assert(text::text_le(name(order[i]), name(order[j])));
            }
        }
    } else {
        let shorter = order.drop_last();
        let inner = placed_by_name(sources, shorter, place);
        assert(named_in_order(sources, shorter)) by {
            assert forall|i: int, j: int| 0 <= i <= j < shorter.len() implies text::text_le(
                sources[#[trigger] shorter[i] as int].source,
                sources[#[trigger] shorter[j] as int].source,
            ) by {
                assert(text::text_le(name(order[i]), name(order[j])));
            }
        }
        lemma_placed_by_name(sources, shorter, place);
        text::lemma_text_order(name(place), name(order.last()), name(place));
        assert(order =~= shorter.push(order.last()));
        assert(out =~= inner.push(order.last()));
        assert forall|i: int| 0 <= i < out.len() implies #[trigger] out[i] == place
            || order.contains(out[i]) by {
            if i < inner.len() {
                assert(inner[i] == out[i]);
                if inner[i] != place {
                    let k = choose|k: int| 0 <= k < shorter.len() && shorter[k] == inner[i];
                    assert(order[k] == out[i]);
                }
            } else {
                assert(order[order.len() - 1] == out[i]);
            }
        }
        assert forall|i: int, j: int| 0 <= i <= j < out.len() implies text::text_le(
            sources[#[trigger] out[i] as int].source,
            sources[#[trigger] out[j] as int].source,
        ) by {
            text::lemma_text_order(name(order.last()), name(order.last()), name(place));
            if j < inner.len() {
                assert(text::text_le(name(inner[i]), name(inner[j])));
            } else if i < inner.len() {
                assert(inner[i] == out[i]);
                if inner[i] != place {
                    let k = choose|k: int| 0 <= k < shorter.len() && shorter[k] == inner[i];
                    assert(text::text_le(name(order[k]), name(order[order.len() - 1])));
                }
            }
        }
    }
}

/// The sources come in the order of their names, and each of them once.
pub proof fn law_sources_are_read_by_name(sources: Seq<SourceModel>, count: nat)
    requires
        count <= sources.len() <= usize::MAX,
    ensures
        named_in_order(sources, by_name(sources, count)),
        by_name(sources, count).to_multiset() == Seq::new(count, |i: int| i as usize).to_multiset(),
    decreases count,
{
    broadcast use vstd::seq_lib::group_to_multiset_ensures;

    if count > 0 {
        let fewer = (count - 1) as nat;
        law_sources_are_read_by_name(sources, fewer);
        lemma_placed_by_name(sources, by_name(sources, fewer), fewer as usize);
        assert(Seq::new(count, |i: int| i as usize) =~= Seq::new(fewer, |i: int| i as usize).push(
            fewer as usize,
        ));
    } else {
        assert(by_name(sources, count) =~= Seq::new(count, |i: int| i as usize));
    }
}

/// Every event has one of the six statuses, so their counts are all events.
pub proof fn law_counts_add_up(events: Seq<EventModel>)
    ensures
        count_status(events, EventStatus::Pending) + count_status(events, EventStatus::Processing)
            + count_status(events, EventStatus::Retryable) + count_status(
            events,
            EventStatus::Succeeded,
        ) + count_status(events, EventStatus::Failed) + count_status(events, EventStatus::Ignored)
            == events.len(),
    decreases events.len(),
{
    if events.len() > 0 {
        law_counts_add_up(events.drop_last());
    }
}

/// Something is still to be handled exactly where there is a moment since when it waits, and no
/// such event was observed before it.
pub proof fn law_oldest_open_event(events: Seq<EventModel>, i: int)
    requires
        0 <= i < events.len(),
        is_open(events[i].status),
    ensures
        oldest_open(events) matches Some(moment) && moment <= events[i].observed_at,
    decreases events.len(),
{
    if i < events.len() - 1 {
        assert(events.drop_last()[i] == events[i]);
        law_oldest_open_event(events.drop_last(), i);
    }
}

} // verus!
