//! What a read gives back of what was written.
use vstd::prelude::*;

use crate::database::intake_laws::{
    keyed, law_entities_hold_the_last_report, law_new_revisions_are_stored_as_reported,
    law_sources_hold_their_last_report,
};
use crate::database::operations::{served, Outcome, WriteOperation};
use crate::database::order::{in_order, law_every_row_is_read_once, lemma_in_order, Key};
use crate::database::queue::{entity_place, states};
use crate::database::readers::{
    begun_keys, checkpoint_of, count_status, effect_keys, event_keys, latest_events, latest_runs, oldest_open,
    prompt_keys, run_keys, run_place, source_place, states_compaction, states_effect, states_prompt,
    states_retry, states_run, states_source, states_step, states_summary, states_turn,
    status_counts, statuses, step_keys, turn_keys,
};
use crate::database::records::{
    rfc3339, CompactionFinish, CompactionId, EventRecord, EventStatus, RetryId, RetryStart,
    RunFinish, RunId, RunMetadata, RunOutcome, SourceStatus, SpanOutcome, TriageCompactionRecord,
    TriageConclusion, TriageEffectRecord, TriageRetryRecord, TriageRunPromptRecord, TriageRunRecord,
    TriageRunSummary, TriageStepRecord, TriageTurnRecord, ToolId, TurnFinish, TurnId,
};
use crate::database::run_laws::category_word;
use crate::database::sources::ReportedItem;
use crate::database::tables::{
    step_spans, EffectModel, EntityModel, EventModel, RunModel, SourceModel, StepModel, StoreModel,
    TurnModel,
};
use crate::errors::ErrorCategory;
use crate::text;

verus! {

// ---------------------------------------------------------------------------------------------
// Events
// ---------------------------------------------------------------------------------------------

/// What is read of a new event is what the source reported: the payload, the title, the revision,
/// the name of the entity, the source, and when it occurred and was observed.
pub proof fn law_reported_events_are_read_back(
    store: StoreModel,
    source: String,
    checkpoint: String,
    items: Vec<ReportedItem>,
    observed_at: i64,
    i: int,
)
    requires
        keyed(store),
        served(
            store,
            WriteOperation::SourceSucceeded { source, checkpoint, items, observed_at },
        ).1 is Count,
        0 <= i < items@.len(),
        forall|k: int, p: int|
            0 <= k < store.events.len() && 0 <= p < store.entities.len()
                && (#[trigger] store.entities[p]).external_id == items@[i].item.entity_id@ && (
            #[trigger] store.events[k]).entity_id == store.entities[p].id
                ==> store.events[k].revision_id != items@[i].item.revision_id@,
        forall|j: int|
            0 <= j < i ==> (#[trigger] items@[j]).item.entity_id@ != items@[i].item.entity_id@
                || items@[j].item.revision_id@ != items@[i].item.revision_id@,
        forall|j: int|
            i < j < items@.len() ==> (#[trigger] items@[j]).item.entity_id@
                != items@[i].item.entity_id@,
    ensures
        ({
            let after = served(
                store,
                WriteOperation::SourceSucceeded { source, checkpoint, items, observed_at },
            ).0;
            let item = items@[i].item;
            exists|k: int, p: int|
                #![trigger after.events[k], after.entities[p]]
                {
                    &&& store.events.len() <= k < after.events.len()
                    &&& 0 <= p < after.entities.len()
                    &&& after.events[k].entity_id == after.entities[p].id
                    &&& forall|record: EventRecord| #[trigger]
                        states(record, after.events[k], after.entities[p]) ==> {
                            &&& record.source@ == source@
                            &&& record.entity_id@ == item.entity_id@
                            &&& record.revision_id@ == item.revision_id@
                            &&& record.title@ == item.title@
                            &&& record.kind@ == item.kind.name()
                            &&& record.payload is Some
                            &&& record.payload->0@ == items@[i].payload@
                            &&& record.occurred_at@ == item.occurred_at@
                            &&& rfc3339(observed_at) == Some(record.observed_at@)
                            &&& record.status == EventStatus::Pending
                            &&& record.attempt_count == 0
                            &&& record.next_attempt_at is None
                            &&& record.last_error is None
                        }
                }
        }),
{
    let after = served(
        store,
        WriteOperation::SourceSucceeded { source, checkpoint, items, observed_at },
    ).0;
    let item = items@[i].item;
    law_new_revisions_are_stored_as_reported(store, source, checkpoint, items, observed_at, i);
    let (k, p) = choose|k: int, p: int|
        #![trigger after.events[k], after.entities[p]]
        {
            &&& store.events.len() <= k < after.events.len()
            &&& 0 <= p < after.entities.len()
            &&& after.entities[p].external_id == item.entity_id@
            &&& after.events[k].entity_id == after.entities[p].id
            &&& after.events[k].revision_id == item.revision_id@
            &&& after.events[k].payload == Some(items@[i].payload@)
            &&& after.events[k].source == Some(source@)
            &&& after.events[k].occurred_at == item.occurred_at@
            &&& after.events[k].observed_at == observed_at
            &&& after.events[k].updated_at == observed_at
            &&& after.events[k].status == EventStatus::Pending
            &&& after.events[k].attempt_count == 0
            &&& after.events[k].next_attempt_at is None
            &&& after.events[k].last_error is None
            &&& after.events[k].next_dispatch_prior_run_id is None
        };
    law_entities_hold_the_last_report(store, source, checkpoint, items, observed_at, i, p);
    assert(after.events[k].entity_id == after.entities[p].id);
}

/// What is read of an event follows the event and its entity as they change: its status, how often
/// it was tried, its error, when it is tried again, and what was done about its entity.
pub proof fn law_read_events_follow_the_store(
    event: EventModel,
    entity: EntityModel,
    record: EventRecord,
)
    requires
        states(record, event, entity),
    ensures
        record.id == event.id,
        record.status == event.status,
        record.attempt_count == event.attempt_count,
        record.payload is Some <==> event.payload is Some,
        record.payload is Some ==> event.payload == Some(record.payload->0@),
        record.last_error is Some <==> event.last_error is Some,
        record.last_error is Some ==> event.last_error == Some(record.last_error->0@),
        record.next_attempt_at is Some <==> event.next_attempt_at is Some,
        record.next_attempt_at is Some ==> rfc3339(event.next_attempt_at->0) == Some(
            record.next_attempt_at->0@,
        ),
        rfc3339(event.observed_at) == Some(record.observed_at@),
        record.aven_ref is Some <==> entity.aven_ref is Some,
        record.aven_ref is Some ==> entity.aven_ref == Some(record.aven_ref->0@),
        record.investigation_handle is Some <==> entity.investigation_handle is Some,
        record.investigation_handle is Some ==> entity.investigation_handle == Some(
            record.investigation_handle->0@,
        ),
        event.source is None ==> record.source@ == entity.source,
        event.source is Some ==> record.source@ == event.source->0,
        record.title@ == entity.title,
        record.kind@ == entity.kind,
        record.entity_id@ == entity.external_id,
        record.operational_metadata@ == entity.operational_metadata,
{
}

proof fn lemma_entity_there(entities: Seq<EntityModel>, id: i64, from: int, p: int)
    requires
        0 <= from <= p < entities.len(),
        entities[p].id == id,
    ensures
        entity_place(entities, id, from) matches Some(i) && from <= i < entities.len()
            && entities[i].id == id,
    decreases entities.len() - from,
{
    if entities[from].id != id {
        lemma_entity_there(entities, id, from + 1, p);
    }
}

/// The events are read from the one that was observed last backwards, by the moment and then by
/// the number: no event that is left out was observed after one that is read, and nothing is left
/// out while there is room.
pub proof fn law_latest_events_are_read_first(store: StoreModel, limit: nat, a: int, j: int)
    requires
        keyed(store),
        store.events.len() <= usize::MAX,
    ensures
        ({
            let shown = latest_events(store.events, store.entities, limit);
            let events = store.events;
            &&& shown.len() <= limit
            &&& shown.no_duplicates()
            &&& 0 <= a < shown.len() ==> shown[a] < events.len()
            &&& 0 <= a < j < shown.len() ==> events[shown[a] as int].observed_at
                > events[shown[j] as int].observed_at || (events[shown[a] as int].observed_at
                == events[shown[j] as int].observed_at && events[shown[a] as int].id
                >= events[shown[j] as int].id)
            &&& 0 <= j < events.len() && !shown.contains(j as usize) ==> {
                &&& shown.len() == limit
                &&& 0 <= a < shown.len() ==> events[shown[a] as int].observed_at
                    > events[j].observed_at || (events[shown[a] as int].observed_at
                    == events[j].observed_at && events[shown[a] as int].id >= events[j].id)
            }
        }),
{
    let events = store.events;
    let keys = event_keys(events, store.entities);
    assert forall|k: int| 0 <= k < keys.len() implies #[trigger] keys[k] == Some(
        Key { at: events[k].observed_at, id: events[k].id },
    ) by {
        let p = choose|p: int|
            0 <= p < store.entities.len() && (#[trigger] store.entities[p]).id
                == events[k].entity_id;
        lemma_entity_there(store.entities, events[k].entity_id, 0, p);
    }
    lemma_latest_first(keys, limit, a, j);
    lemma_latest_first(keys, limit, j, a);
}

proof fn lemma_latest_first(keys: Seq<Option<Key>>, limit: nat, a: int, j: int)
    requires
        keys.len() <= usize::MAX,
    ensures
        ({
            let shown = crate::database::order::first_of(in_order(keys).reverse(), limit);
            &&& shown.len() <= limit
            &&& shown.no_duplicates()
            &&& 0 <= a < shown.len() ==> shown[a] < keys.len() && keys[shown[a] as int] is Some
            &&& 0 <= a < j < shown.len() ==> {
                let first = keys[shown[a] as int]->0;
                let second = keys[shown[j] as int]->0;
                first.at > second.at || (first.at == second.at && first.id >= second.id)
            }
            &&& 0 <= j < keys.len() && keys[j] is Some && !shown.contains(j as usize) ==> {
                &&& shown.len() == limit
                &&& 0 <= a < shown.len() ==> {
                    let first = keys[shown[a] as int]->0;
                    let second = keys[j]->0;
                    first.at > second.at || (first.at == second.at && first.id >= second.id)
                }
            }
        }),
{
    let all = in_order(keys);
    let back = all.reverse();
    let n = all.len() as int;
    let shown = crate::database::order::first_of(back, limit);
    assert(forall|k: int| 0 <= k < shown.len() ==> shown[k] == all[n - 1 - k]);
    law_every_row_is_read_once(keys, 0);
    assert(shown.no_duplicates());
    if 0 <= a < shown.len() {
        assert(all.contains(all[n - 1 - a]));
        law_every_row_is_read_once(keys, all[n - 1 - a]);
    }
    if 0 <= a < j < shown.len() {
        lemma_in_order(keys, n - 1 - j, n - 1 - a);
    }
    if 0 <= j < keys.len() && keys[j] is Some && !shown.contains(j as usize) {
        law_every_row_is_read_once(keys, j as usize);
        let place = choose|i: int| 0 <= i < all.len() && all[i] == j as usize;
        if n - 1 - place < shown.len() {
            assert(shown[n - 1 - place] == j as usize);
        }
        if 0 <= a < shown.len() {
            lemma_in_order(keys, place, n - 1 - a);
        }
    }
}

/// Each event adds one to the count of its own status, and none to that of another.
pub proof fn law_each_event_is_counted_once(
    events: Seq<EventModel>,
    event: EventModel,
    status: EventStatus,
)
    ensures
        count_status(events.push(event), status) == count_status(events, status) + (
        if event.status == status {
            1int
        } else {
            0int
        }),
        count_status(Seq::empty(), status) == 0,
{
    assert(events.push(event).drop_last() =~= events);
}

proof fn lemma_status_counts(events: Seq<EventModel>, list: Seq<EventStatus>, status: EventStatus)
    requires
        events.len() <= usize::MAX,
    ensures
        forall|k: int|
            0 <= k < status_counts(events, list).len() ==> list.contains(
                (#[trigger] status_counts(events, list)[k]).0,
            ) && status_counts(events, list)[k].1 > 0 && status_counts(events, list)[k].1
                == count_status(events, status_counts(events, list)[k].0),
        list.contains(status) && count_status(events, status) > 0 ==> exists|k: int|
            0 <= k < status_counts(events, list).len() && (
            #[trigger] status_counts(events, list)[k]).0 == status,
    decreases list.len(),
{
    if list.len() > 0 {
        let front = list.drop_last();
        let before = status_counts(events, front);
        let all = status_counts(events, list);
        lemma_status_counts(events, front, status);
        lemma_count_bound(events, list.last());
        assert(list[list.len() - 1] == list.last());
        assert forall|k: int| 0 <= k < all.len() implies list.contains((#[trigger] all[k]).0)
            && all[k].1 > 0 && all[k].1 == count_status(events, all[k].0) by {
            if k < before.len() {
                assert(all[k] == before[k]);
                let i = choose|i: int| 0 <= i < front.len() && front[i] == before[k].0;
                assert(list[i] == all[k].0);
            }
        }
        if list.contains(status) && count_status(events, status) > 0 {
            let i = choose|i: int| 0 <= i < list.len() && list[i] == status;
            if i < front.len() {
                assert(front[i] == status);
                assert(front.contains(status));
                let k = choose|k: int| 0 <= k < before.len() && (#[trigger] before[k]).0 == status;
                assert(all[k] == before[k]);
            } else {
                assert(all[all.len() - 1].0 == status);
            }
        }
    }
}

proof fn lemma_count_bound(events: Seq<EventModel>, status: EventStatus)
    ensures
        count_status(events, status) <= events.len(),
    decreases events.len(),
{
    if events.len() > 0 {
        lemma_count_bound(events.drop_last(), status);
    }
}

/// The counts by status name every status that an event has, with how many have it, and no other.
pub proof fn law_every_status_is_counted(events: Seq<EventModel>, status: EventStatus)
    requires
        events.len() <= usize::MAX,
    ensures
        ({
            let counts = status_counts(events, statuses());
            &&& forall|k: int|
                0 <= k < counts.len() ==> (#[trigger] counts[k]).1 > 0 && counts[k].1
                    == count_status(events, counts[k].0)
            &&& count_status(events, status) > 0 ==> exists|k: int|
                0 <= k < counts.len() && (#[trigger] counts[k]).0 == status
        }),
{
    lemma_status_counts(events, statuses(), status);
    let all = statuses();
    assert(all[0] == EventStatus::Pending && all[1] == EventStatus::Processing && all[2]
        == EventStatus::Retryable && all[3] == EventStatus::Succeeded && all[4]
        == EventStatus::Failed && all[5] == EventStatus::Ignored);
    assert(all.contains(status));
}

/// The moment since when something waits is that at which a pending, retryable or processed event
/// was observed, and none of these was observed before it; there is one exactly if there is such
/// an event.
pub proof fn law_waiting_since_the_oldest(events: Seq<EventModel>)
    ensures
        match oldest_open(events) {
            Some(moment) => (exists|k: int|
                0 <= k < events.len() && (#[trigger] events[k]).observed_at == moment && (
                events[k].status == EventStatus::Pending || events[k].status
                    == EventStatus::Retryable || events[k].status == EventStatus::Processing))
                && forall|k: int|
                0 <= k < events.len() && ((#[trigger] events[k]).status == EventStatus::Pending
                    || events[k].status == EventStatus::Retryable || events[k].status
                    == EventStatus::Processing) ==> moment <= events[k].observed_at,
            None => forall|k: int|
                0 <= k < events.len() ==> ((#[trigger] events[k]).status == EventStatus::Succeeded
                    || events[k].status == EventStatus::Failed || events[k].status
                    == EventStatus::Ignored),
        },
    decreases events.len(),
{
    if events.len() > 0 {
        let front = events.drop_last();
        law_waiting_since_the_oldest(front);
        assert(events[events.len() - 1] == events.last());
        assert forall|k: int| 0 <= k < front.len() implies #[trigger] events[k] == front[k] by {}
        if let Some(moment) = oldest_open(front) {
            let k = choose|k: int|
                0 <= k < front.len() && (#[trigger] front[k]).observed_at == moment && (
                front[k].status == EventStatus::Pending || front[k].status
                    == EventStatus::Retryable || front[k].status == EventStatus::Processing);
            assert(events[k] == front[k]);
        }
    }
}

// ---------------------------------------------------------------------------------------------
// Sources
// ---------------------------------------------------------------------------------------------

proof fn lemma_source_place(sources: Seq<SourceModel>, name: Seq<char>, from: int)
    requires
        0 <= from <= sources.len(),
    ensures
        match source_place(sources, name, from) {
            Some(i) => from <= i < sources.len() && sources[i].source == name,
            None => forall|k: int|
                from <= k < sources.len() ==> (#[trigger] sources[k]).source != name,
        },
    decreases sources.len() - from,
{
    if from < sources.len() && sources[from].source != name {
        lemma_source_place(sources, name, from + 1);
    }
}

/// The checkpoint that a source reported last is the one that is read, also after a failure; what
/// another source reports does not change it. A source that never reported has null.
pub proof fn law_checkpoints_are_read_back(
    store: StoreModel,
    source: String,
    checkpoint: String,
    items: Vec<ReportedItem>,
    now: i64,
    other: Seq<char>,
    error: String,
)
    ensures
        ({
            let (after, outcome) = served(
                store,
                WriteOperation::SourceSucceeded { source, checkpoint, items, observed_at: now },
            );
            outcome is Count ==> checkpoint_of(after.sources, source@) == checkpoint@
        }),
        ({
            let after = served(store, WriteOperation::SourceFailed { source, error, now }).0;
            checkpoint_of(after.sources, source@) == checkpoint_of(store.sources, source@)
        }),
        (forall|s: int| 0 <= s < store.sources.len() ==> (#[trigger] store.sources[s]).source != other)
            ==> checkpoint_of(store.sources, other) == "null"@,
{
    lemma_source_place(store.sources, other, 0);
    lemma_source_place(store.sources, source@, 0);
    law_sources_hold_their_last_report(store, source, checkpoint, items, error, now);
    let (after, outcome) = served(
        store,
        WriteOperation::SourceSucceeded { source, checkpoint, items, observed_at: now },
    );
    lemma_source_place(after.sources, source@, 0);
    let failed = served(store, WriteOperation::SourceFailed { source, error, now }).0;
    lemma_source_place(failed.sources, source@, 0);
    lemma_same_place(store.sources, failed.sources, source@, 0);
}

proof fn lemma_same_place(was: Seq<SourceModel>, is: Seq<SourceModel>, name: Seq<char>, from: int)
    requires
        was.len() <= is.len(),
        0 <= from <= was.len(),
        forall|s: int| 0 <= s < was.len() ==> (#[trigger] is[s]).source == was[s].source,
    ensures
        source_place(was, name, from) is Some ==> source_place(is, name, from) == source_place(
            was,
            name,
            from,
        ),
        source_place(was, name, from) is None ==> (source_place(is, name, from) matches Some(i)
            ==> i >= was.len()),
    decreases was.len() - from,
{
    if from < was.len() {
        if was[from].source != name {
            lemma_same_place(was, is, name, from + 1);
        }
    } else {
        lemma_place_from(is, name, from);
    }
}

proof fn lemma_place_from(sources: Seq<SourceModel>, name: Seq<char>, from: int)
    ensures
        source_place(sources, name, from) matches Some(i) ==> i >= from,
    decreases sources.len() - from,
{
    if 0 <= from < sources.len() && sources[from].source != name {
        lemma_place_from(sources, name, from + 1);
    }
}

/// What is read of how a source fared is how it fared: after a report its success is now and it
/// has no error, after a failure it has the first 4096 bytes of the error and its success is the
/// one it had.
pub proof fn law_source_statuses_are_read_back(
    store: StoreModel,
    source: String,
    checkpoint: String,
    items: Vec<ReportedItem>,
    error: String,
    now: i64,
    record: SourceStatus,
    s: int,
)
    ensures
        ({
            let (after, outcome) = served(
                store,
                WriteOperation::SourceSucceeded { source, checkpoint, items, observed_at: now },
            );
            outcome is Count && 0 <= s < after.sources.len() && after.sources[s].source == source@
                && states_source(record, after.sources[s]) ==> {
                &&& record.source@ == source@
                &&& record.last_error is None
                &&& record.last_success_at is Some
                &&& rfc3339(now) == Some(record.last_success_at->0@)
                &&& rfc3339(now) == Some(record.updated_at@)
            }
        }),
        ({
            let after = served(store, WriteOperation::SourceFailed { source, error, now }).0;
            0 <= s < after.sources.len() && after.sources[s].source == source@ && states_source(
                record,
                after.sources[s],
            ) ==> {
                &&& record.source@ == source@
                &&& record.last_error is Some
                &&& record.last_error->0@ == text::byte_prefix(error@, 4096)
                &&& rfc3339(now) == Some(record.updated_at@)
                &&& s < store.sources.len() && store.sources[s].last_success_at is Some
                    ==> record.last_success_at is Some && rfc3339(
                    store.sources[s].last_success_at->0,
                ) == Some(record.last_success_at->0@)
            }
        }),
{
    law_sources_hold_their_last_report(store, source, checkpoint, items, error, now);
}

// ---------------------------------------------------------------------------------------------
// Runs
// ---------------------------------------------------------------------------------------------

/// What is read of a run that has just begun is what it began with.
pub proof fn law_begun_runs_are_read_back(
    store: StoreModel,
    event_id: i64,
    attempt: u32,
    now: i64,
    record: TriageRunRecord,
)
    requires
        served(store, WriteOperation::StartRun { event_id, attempt, now }).1 is Started,
        states_run(
            record,
            served(store, WriteOperation::StartRun { event_id, attempt, now }).0.runs.last(),
        ),
    ensures
        record.id == served(
            store,
            WriteOperation::StartRun { event_id, attempt, now },
        ).1->Started_0,
        record.event_id == event_id,
        record.attempt == attempt,
        rfc3339(now) == Some(record.started_at@),
        rfc3339(now) == Some(record.last_activity_at@),
        record.ended_at is None,
        record.outcome is None,
        record.termination_reason is None,
        record.failure_category is None,
        record.conclusion is None,
        record.model_id is None,
        record.turn_count == 0,
        record.retry_count == 0,
        record.compaction_count == 0,
        record.dispatch_sequence is Some,
        record.dispatch_trigger is Some,
{
    lemma_event_there(store.events, event_id, 0);
}

proof fn lemma_event_there(events: Seq<EventModel>, id: i64, from: int)
    requires
        0 <= from <= events.len(),
    ensures
        crate::database::queue::event_place(events, id, from) matches Some(i) ==> from <= i
            < events.len() && events[i].id == id,
    decreases events.len() - from,
{
    if from < events.len() && events[from].id != id {
        lemma_event_there(events, id, from + 1);
    }
}

/// What is read of the model of a run is what was said of it.
pub proof fn law_models_are_read_back(
    store: StoreModel,
    run_id: RunId,
    metadata: RunMetadata,
    now: i64,
    r: int,
    record: TriageRunRecord,
)
    requires
        0 <= r < store.runs.len(),
        store.runs[r].id == run_id.0,
        states_run(
            record,
            served(store, WriteOperation::SetRunMetadata { run_id, metadata, now }).0.runs[r],
        ),
    ensures
        record.id == run_id.0,
        text::opt_text(record.model_id) == text::opt_text(metadata.model_id),
        text::opt_text(record.model_provider) == text::opt_text(metadata.model_provider),
        text::opt_text(record.thinking_level) == text::opt_text(metadata.thinking_level),
        record.context_window == metadata.context_window,
        record.max_tokens == metadata.max_tokens,
{
}

/// What is read of a run that has ended is how it ended, with the conclusion that was handed in.
pub proof fn law_ended_runs_are_read_back(
    store: StoreModel,
    run_id: RunId,
    finish: RunFinish,
    conclusion: Option<TriageConclusion>,
    now: i64,
    r: int,
    record: TriageRunRecord,
)
    requires
        0 <= r < store.runs.len(),
        store.runs[r].id == run_id.0,
        store.runs[r].ended_at is None,
        states_run(
            record,
            served(
                store,
                WriteOperation::FinishRun { run_id, finish, conclusion, now },
            ).0.runs[r],
        ),
    ensures
        record.id == run_id.0,
        record.ended_at is Some,
        rfc3339(now) == Some(record.ended_at->0@),
        record.outcome is Some,
        record.outcome->0@ == (match finish.outcome {
            RunOutcome::Succeeded => "succeeded"@,
            RunOutcome::Failed => "failed"@,
            RunOutcome::Interrupted => "interrupted"@,
        }),
        record.termination_reason is Some,
        finish.failure_category is None ==> record.failure_category is None,
        finish.failure_category matches Some(category) ==> record.failure_category is Some
            && record.failure_category->0@ == category_word(category),
        record.conclusion is Some,
        conclusion matches Some(given) ==> record.conclusion->0@ == given@,
{
    crate::database::run_laws::law_ended_runs_hold_their_end(
        store,
        run_id,
        finish,
        conclusion,
        now,
        r,
    );
}

proof fn lemma_run_place(runs: Seq<RunModel>, id: i64, from: int)
    requires
        0 <= from <= runs.len(),
    ensures
        match run_place(runs, id, from) {
            Some(i) => from <= i < runs.len() && runs[i].id == id,
            None => forall|k: int| from <= k < runs.len() ==> (#[trigger] runs[k]).id != id,
        },
    decreases runs.len() - from,
{
    if from < runs.len() && runs[from].id != id {
        lemma_run_place(runs, id, from + 1);
    }
}

/// A run is found by its number: the one that is found has it, and none has it where none is found.
pub proof fn law_runs_are_found_by_number(runs: Seq<RunModel>, id: i64)
    ensures
        match run_place(runs, id, 0) {
            Some(i) => 0 <= i < runs.len() && runs[i].id == id,
            None => forall|k: int| 0 <= k < runs.len() ==> (#[trigger] runs[k]).id != id,
        },
{
    lemma_run_place(runs, id, 0);
}

/// The runs are read from the one that began last backwards, by the moment and then by the number;
/// none that is left out began after one that is read, and none is left out while there is room.
pub proof fn law_latest_runs_are_read_first(runs: Seq<RunModel>, limit: nat, a: int, j: int)
    requires
        runs.len() <= usize::MAX,
    ensures
        ({
            let shown = latest_runs(runs, limit);
            &&& shown.len() <= limit
            &&& shown.no_duplicates()
            &&& 0 <= a < shown.len() ==> shown[a] < runs.len()
            &&& 0 <= a < j < shown.len() ==> runs[shown[a] as int].started_at
                > runs[shown[j] as int].started_at || (runs[shown[a] as int].started_at
                == runs[shown[j] as int].started_at && runs[shown[a] as int].id
                >= runs[shown[j] as int].id)
            &&& 0 <= j < runs.len() && !shown.contains(j as usize) ==> {
                &&& shown.len() == limit
                &&& 0 <= a < shown.len() ==> runs[shown[a] as int].started_at > runs[j].started_at
                    || (runs[shown[a] as int].started_at == runs[j].started_at
                    && runs[shown[a] as int].id >= runs[j].id)
            }
        }),
{
    let keys = begun_keys(runs);
    assert(forall|k: int|
        0 <= k < runs.len() ==> #[trigger] keys[k] == Some(
            Key { at: runs[k].started_at, id: runs[k].id },
        ));
    lemma_latest_first(keys, limit, a, j);
    lemma_latest_first(keys, limit, j, a);
}

/// The runs of an event are read in the order of their numbers, all of them and no other.
pub proof fn law_runs_of_an_event_are_read(runs: Seq<RunModel>, event_id: i64, a: int, b: int)
    requires
        runs.len() <= usize::MAX,
    ensures
        ({
            let shown = in_order(run_keys(runs, event_id));
            &&& shown.no_duplicates()
            &&& 0 <= a < b < shown.len() ==> runs[shown[a] as int].id <= runs[shown[b] as int].id
            &&& 0 <= a < runs.len() ==> (shown.contains(a as usize) <==> runs[a].event_id
                == event_id)
        }),
{
    let keys = run_keys(runs, event_id);
    assert(forall|k: int|
        0 <= k < runs.len() ==> (#[trigger] keys[k] == if runs[k].event_id == event_id {
            Some(Key { at: runs[k].id, id: runs[k].id })
        } else {
            None
        }));
    law_every_row_is_read_once(keys, a as usize);
    if 0 <= a < b < in_order(keys).len() {
        lemma_in_order(keys, a, b);
    }
}

// ---------------------------------------------------------------------------------------------
// Turns and steps
// ---------------------------------------------------------------------------------------------

/// The turns of a run are read in their order, all of them and no other.
pub proof fn law_turns_are_read_in_order(turns: Seq<TurnModel>, run_id: i64, a: int, b: int)
    requires
        turns.len() <= usize::MAX,
    ensures
        ({
            let shown = in_order(turn_keys(turns, run_id));
            &&& shown.no_duplicates()
            &&& 0 <= a < b < shown.len() ==> turns[shown[a] as int].ordinal
                <= turns[shown[b] as int].ordinal
            &&& 0 <= a < turns.len() ==> (shown.contains(a as usize) <==> turns[a].run_id
                == run_id)
        }),
{
    let keys = turn_keys(turns, run_id);
    assert(forall|k: int|
        0 <= k < turns.len() ==> (#[trigger] keys[k] == if turns[k].run_id == run_id {
            Some(Key { at: turns[k].ordinal, id: turns[k].id })
        } else {
            None
        }));
    law_every_row_is_read_once(keys, a as usize);
    if 0 <= a < b < in_order(keys).len() {
        lemma_in_order(keys, a, b);
    }
}

/// The steps of a run are read by when they began and then by their number, all of them and no
/// other.
pub proof fn law_steps_are_read_in_order(steps: Seq<StepModel>, run_id: i64, a: int, b: int)
    requires
        steps.len() <= usize::MAX,
    ensures
        ({
            let shown = in_order(step_keys(steps, run_id));
            &&& shown.no_duplicates()
            &&& 0 <= a < b < shown.len() ==> steps[shown[a] as int].started_at
                < steps[shown[b] as int].started_at || (steps[shown[a] as int].started_at
                == steps[shown[b] as int].started_at && steps[shown[a] as int].id
                <= steps[shown[b] as int].id)
            &&& 0 <= a < steps.len() ==> (shown.contains(a as usize) <==> steps[a].run_id
                == run_id)
        }),
{
    let keys = step_keys(steps, run_id);
    assert(forall|k: int|
        0 <= k < steps.len() ==> (#[trigger] keys[k] == if steps[k].run_id == run_id {
            Some(Key { at: steps[k].started_at, id: steps[k].id })
        } else {
            None
        }));
    law_every_row_is_read_once(keys, a as usize);
    if 0 <= a < b < in_order(keys).len() {
        lemma_in_order(keys, a, b);
    }
}

/// What is read of a turn that has ended is its usage, its context and how it ended.
pub proof fn law_turns_are_read_back(
    store: StoreModel,
    run_id: RunId,
    turn_id: TurnId,
    finish: TurnFinish,
    now: i64,
    k: int,
    record: TriageTurnRecord,
)
    requires
        0 <= k < store.turns.len(),
        store.turns[k].id == turn_id.0,
        store.turns[k].run_id == run_id.0,
        store.turns[k].ended_at is None,
        states_turn(
            record,
            served(
                store,
                WriteOperation::FinishTurn { run_id, turn_id, finish, now },
            ).0.turns[k],
        ),
    ensures
        record.id == turn_id.0,
        record.ordinal == store.turns[k].ordinal,
        rfc3339(store.turns[k].started_at) == Some(record.started_at@),
        record.ended_at is Some,
        rfc3339(now) == Some(record.ended_at->0@),
        finish.usage matches Some(usage) ==> {
            &&& record.input_tokens == usage.input_tokens
            &&& record.output_tokens == usage.output_tokens
            &&& record.cache_read_tokens == usage.cache_read_tokens
            &&& record.cache_write_tokens == usage.cache_write_tokens
            &&& record.reasoning_tokens == usage.reasoning_tokens
            &&& record.total_tokens == usage.total_tokens
        },
        record.context_tokens == finish.context_tokens,
        record.context_window == finish.context_window,
        finish.stop_reason is Some && finish.stop_reason->0@ == "toolUse"@
            ==> record.stop_reason is Some && record.stop_reason->0@ == "toolUse"@,
        finish.stop_reason is None ==> record.stop_reason is None,
{
}

/// What is read of a call of a tool is what was recorded when it began, and it is open.
pub proof fn law_tool_calls_are_read_back(
    store: StoreModel,
    run_id: RunId,
    turn_id: Option<TurnId>,
    name: String,
    summary: Option<String>,
    now: i64,
    turns: Seq<TurnModel>,
    record: TriageStepRecord,
)
    requires
        served(
            store,
            WriteOperation::StartTool { run_id, turn_id, name, summary, now },
        ).1 is Started,
        states_step(
            record,
            served(
                store,
                WriteOperation::StartTool { run_id, turn_id, name, summary, now },
            ).0.steps.last(),
            turns,
        ),
    ensures
        record.id == served(
            store,
            WriteOperation::StartTool { run_id, turn_id, name, summary, now },
        ).1->Started_0,
        turn_id matches Some(turn) ==> record.turn_id == Some(turn.0),
        turn_id is None ==> record.turn_id is None && record.turn_ordinal is None,
        record.kind@ == "tool"@,
        record.summary is Some <==> summary is Some,
        rfc3339(now) == Some(record.started_at@),
        record.ended_at is None,
        record.outcome is None,
{
}

/// What is read of a step that has ended is how it ended.
pub proof fn law_ended_steps_are_read_back(
    store: StoreModel,
    run_id: RunId,
    tool_id: ToolId,
    outcome: SpanOutcome,
    now: i64,
    k: int,
    turns: Seq<TurnModel>,
    record: TriageStepRecord,
)
    requires
        0 <= k < store.steps.len(),
        store.steps[k].id == tool_id.0,
        store.steps[k].run_id == run_id.0,
        store.steps[k].ended_at is None,
        states_step(
            record,
            served(
                store,
                WriteOperation::FinishTool { run_id, tool_id, outcome, now },
            ).0.steps[k],
            turns,
        ),
    ensures
        record.id == tool_id.0,
        record.kind@ == store.steps[k].kind,
        record.label@ == store.steps[k].label,
        rfc3339(store.steps[k].started_at) == Some(record.started_at@),
        record.ended_at is Some,
        rfc3339(now) == Some(record.ended_at->0@),
        record.outcome is Some,
        record.outcome->0@ == (match outcome {
            SpanOutcome::Succeeded => "succeeded"@,
            SpanOutcome::Failed => "failed"@,
            SpanOutcome::Aborted => "aborted"@,
            SpanOutcome::Interrupted => "interrupted"@,
        }),
{
}

/// The place of a step's turn is the ordinal of the turn with the number that the step names.
pub proof fn law_steps_name_the_ordinal_of_their_turn(
    turns: Seq<TurnModel>,
    step: StepModel,
    record: TriageStepRecord,
)
    requires
        states_step(record, step, turns),
    ensures
        record.turn_ordinal is Some ==> exists|k: int|
            0 <= k < turns.len() && Some((#[trigger] turns[k]).id) == step.turn_id
                && turns[k].ordinal == record.turn_ordinal->0,
        step.turn_id is None ==> record.turn_ordinal is None,
        record.turn_ordinal is None && step.turn_id is Some ==> forall|k: int|
            0 <= k < turns.len() ==> (#[trigger] turns[k]).id != step.turn_id->0,
{
    if let Some(id) = step.turn_id {
        lemma_turn_place(turns, id, 0);
    }
}

proof fn lemma_turn_place(turns: Seq<TurnModel>, id: i64, from: int)
    requires
        0 <= from <= turns.len(),
    ensures
        match crate::database::readers::turn_place(turns, id, from) {
            Some(i) => from <= i < turns.len() && turns[i].id == id,
            None => forall|k: int| from <= k < turns.len() ==> (#[trigger] turns[k]).id != id,
        },
    decreases turns.len() - from,
{
    if from < turns.len() && turns[from].id != id {
        lemma_turn_place(turns, id, from + 1);
    }
}

// ---------------------------------------------------------------------------------------------
// Retries, compactions and prompts
// ---------------------------------------------------------------------------------------------

/// What is read of a retry that has begun is what it began with.
pub proof fn law_retries_are_read_back(
    store: StoreModel,
    run_id: RunId,
    turn_id: Option<TurnId>,
    retry: RetryStart,
    now: i64,
    record: TriageRetryRecord,
)
    requires
        retry.delay_ms <= 1_000_000_000_000,
        0 <= now <= 253402300799999,
        served(store, WriteOperation::StartRetry { run_id, turn_id, retry, now }).1 is Started,
        states_retry(
            record,
            served(
                store,
                WriteOperation::StartRetry { run_id, turn_id, retry, now },
            ).0.retries.last(),
        ),
    ensures
        record.attempt == retry.attempt,
        record.max_attempts == retry.max_attempts,
        record.delay_ms == retry.delay_ms,
        rfc3339(now) == Some(record.started_at@),
        rfc3339((now + retry.delay_ms) as i64) == Some(record.wait_ended_at@),
        record.ended_at is None,
        record.outcome is None,
        turn_id matches Some(turn) ==> record.turn_id == Some(turn.0),
        retry.error_category is None ==> record.error_category is None,
        retry.error_category matches Some(category) ==> record.error_category is Some
            && record.error_category->0@ == category_word(category),
{
}

/// What is read of a retry that has ended is how it ended.
pub proof fn law_ended_retries_are_read_back(
    store: StoreModel,
    run_id: RunId,
    retry_id: RetryId,
    outcome: SpanOutcome,
    error_category: Option<ErrorCategory>,
    now: i64,
    k: int,
    record: TriageRetryRecord,
)
    requires
        0 <= k < store.retries.len(),
        store.retries[k].id == retry_id.0,
        store.retries[k].run_id == run_id.0,
        store.retries[k].ended_at is None,
        states_retry(
            record,
            served(
                store,
                WriteOperation::FinishRetry { run_id, retry_id, outcome, error_category, now },
            ).0.retries[k],
        ),
    ensures
        record.id == retry_id.0,
        record.ended_at is Some,
        rfc3339(now) == Some(record.ended_at->0@),
        record.outcome is Some,
        record.outcome->0@ == (match outcome {
            SpanOutcome::Succeeded => "succeeded"@,
            SpanOutcome::Failed => "failed"@,
            SpanOutcome::Aborted => "aborted"@,
            SpanOutcome::Interrupted => "interrupted"@,
        }),
        error_category matches Some(category) ==> record.error_category is Some
            && record.error_category->0@ == category_word(category),
        error_category is None ==> text::opt_text(record.error_category)
            == store.retries[k].error_category,
{
}

/// What is read of a compaction that has ended is its reason, how it ended and its figures.
pub proof fn law_compactions_are_read_back(
    store: StoreModel,
    run_id: RunId,
    compaction_id: CompactionId,
    finish: CompactionFinish,
    now: i64,
    k: int,
    record: TriageCompactionRecord,
)
    requires
        0 <= k < store.compactions.len(),
        store.compactions[k].id == compaction_id.0,
        store.compactions[k].run_id == run_id.0,
        store.compactions[k].ended_at is None,
        served(
            store,
            WriteOperation::FinishCompaction { run_id, compaction_id, finish, now },
        ).1 == Outcome::Done,
        states_compaction(
            record,
            served(
                store,
                WriteOperation::FinishCompaction { run_id, compaction_id, finish, now },
            ).0.compactions[k],
        ),
    ensures
        record.id == compaction_id.0,
        text::opt_text(record.reason) == store.compactions[k].reason,
        record.ended_at is Some,
        rfc3339(now) == Some(record.ended_at->0@),
        record.outcome is Some,
        record.outcome->0@ == (match finish.outcome {
            SpanOutcome::Succeeded => "succeeded"@,
            SpanOutcome::Failed => "failed"@,
            SpanOutcome::Aborted => "aborted"@,
            SpanOutcome::Interrupted => "interrupted"@,
        }),
        record.aborted == Some(finish.aborted),
        record.will_retry == Some(finish.will_retry),
        record.tokens_before == finish.tokens_before,
        record.estimated_tokens_after == finish.estimated_tokens_after,
        finish.usage matches Some(usage) ==> {
            &&& record.input_tokens == usage.input_tokens
            &&& record.output_tokens == usage.output_tokens
            &&& record.cache_read_tokens == usage.cache_read_tokens
            &&& record.cache_write_tokens == usage.cache_write_tokens
            &&& record.reasoning_tokens == usage.reasoning_tokens
            &&& record.total_tokens == usage.total_tokens
        },
{
}

/// A prompt is read back as it was recorded, among the prompts of its run.
pub proof fn law_prompts_are_read_back(
    store: StoreModel,
    run_id: RunId,
    role: String,
    content: String,
    now: i64,
)
    requires
        store.prompts.len() < usize::MAX,
        role@ == "system"@ || role@ == "user"@,
    ensures
        ({
            let after = served(
                store,
                WriteOperation::RecordPrompt { run_id, role, content, now },
            ).0;
            exists|q: usize| #[trigger]
                in_order(prompt_keys(after.prompts, run_id.0)).contains(q) && q
                    < after.prompts.len() && forall|record: TriageRunPromptRecord| #[trigger]
                    states_prompt(record, after.prompts[q as int]) ==> record.role@ == role@
                        && record.content@ == content@ && rfc3339(now) == Some(
                        record.recorded_at@,
                    )
        }),
{
    crate::database::run_laws::law_prompts_are_kept(store, run_id, role, content, now);
    let after = served(store, WriteOperation::RecordPrompt { run_id, role, content, now }).0;
    let q = choose|q: int|
        0 <= q < after.prompts.len() && (#[trigger] after.prompts[q]).run_id == run_id.0
            && after.prompts[q].role == role@;
    let keys = prompt_keys(after.prompts, run_id.0);
    assert(keys[q] is Some);
    law_every_row_is_read_once(keys, q as usize);
    assert(in_order(keys).contains(q as usize));
}

// ---------------------------------------------------------------------------------------------
// Effects and summaries
// ---------------------------------------------------------------------------------------------

/// What is read of an effect is its sort, its value and when it was recorded, among the effects of
/// its run.
pub proof fn law_effects_are_read_back(
    effects: Seq<EffectModel>,
    k: int,
    record: TriageEffectRecord,
)
    requires
        0 <= k < effects.len() <= usize::MAX,
        states_effect(record, effects[k]),
    ensures
        record.effect_type@ == effects[k].effect_type,
        record.value@ == effects[k].value,
        rfc3339(effects[k].recorded_at) == Some(record.recorded_at@),
        forall|run_id: i64| #[trigger]
            in_order(effect_keys(effects, run_id)).contains(k as usize) <==> effects[k].run_id
                == run_id,
{
    assert forall|run_id: i64| #[trigger]
        in_order(effect_keys(effects, run_id)).contains(k as usize) <==> effects[k].run_id
            == run_id by {
        law_every_row_is_read_once(effect_keys(effects, run_id), k as usize);
    }
}

/// The summary of a run counts its steps: one more step of the run is one more in the count, and a
/// step of another run is none.
pub proof fn law_summaries_count_the_steps(
    run: RunModel,
    steps: Seq<StepModel>,
    step: StepModel,
    before: TriageRunSummary,
    after: TriageRunSummary,
)
    requires
        states_summary(before, run, steps),
        states_summary(after, run, steps.push(step)),
    ensures
        before.run.id == run.id,
        after.step_count == before.step_count + (if step.run_id == run.id {
            1int
        } else {
            0int
        }),
        steps.len() == 0 ==> before.step_count == 0,
{
    let spans = step_spans(steps.push(step));
    assert(spans.drop_last() =~= step_spans(steps));
    assert(spans.last().run_id == step.run_id);
}

} // verus!
