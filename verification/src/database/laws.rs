//! What holds of the queue and of the record of its runs, whatever is requested.
use vstd::prelude::*;

use crate::database::operations::{served, Outcome, WriteOperation};
use crate::database::queue::{
    backoff, claimable, earlier, failed, next_claim, open_runs, stale, unsettled, with_claim,
    with_recovery,
};
use crate::database::records::EventStatus;
use crate::database::runs::{open_count, with_ended_runs, RunEndModel};
use crate::database::sources::{
    item_metadata, named_place, renewed, reported, with_command, with_entity, with_item, with_items,
    ReportedItem,
};
use crate::database::tables::{
    compaction_spans, count_open, law_fresh_ids_are_new, retry_spans, step_spans, turn_spans,
    EntityModel, EventModel, RunModel, SpanModel, StoreModel,
};
use crate::json;

verus! {

// ---------------------------------------------------------------------------------------------
// The order of the queue
// ---------------------------------------------------------------------------------------------

proof fn lemma_next_claim(events: Seq<EventModel>, now: i64, n: int)
    requires
        0 <= n <= events.len(),
    ensures
        match next_claim(events, now, n) {
            Some(i) => {
                &&& 0 <= i < n
                &&& claimable(events, i, now)
                &&& forall|j: int|
                    0 <= j < n && #[trigger] claimable(events, j, now) ==> !earlier(
                        events[j],
                        events[i],
                    )
            },
            None => forall|j: int| 0 <= j < n ==> !#[trigger] claimable(events, j, now),
        },
    decreases n,
{
    if n > 0 {
        lemma_next_claim(events, now, n - 1);
    }
}

/// The event that is taken up next is one whose time has come; no event that may be taken up is
/// earlier; and every earlier event of its entity is settled. None is taken up only where none
/// may be.
pub proof fn law_claims_keep_order(events: Seq<EventModel>, now: i64)
    ensures
        match next_claim(events, now, events.len() as int) {
            Some(i) => {
                &&& 0 <= i < events.len()
                &&& claimable(events, i, now)
                &&& forall|j: int|
                    0 <= j < events.len() && #[trigger] claimable(events, j, now) ==> !earlier(
                        events[j],
                        events[i],
                    )
                &&& forall|j: int|
                    0 <= j < events.len() && (#[trigger] events[j]).entity_id
                        == events[i].entity_id && earlier(events[j], events[i]) ==> !unsettled(
                        events[j].status,
                    )
            },
            None => forall|j: int|
                0 <= j < events.len() ==> !#[trigger] claimable(events, j, now),
        },
{
    lemma_next_claim(events, now, events.len() as int);
}

/// The event that is taken up waits and its time has come. Whatever its entity had observed
/// before, by the moment and then by the number, has succeeded, has failed for good or is
/// ignored.
pub proof fn law_claims_wait_their_turn(store: StoreModel, now: i64)
    ensures
        served(store, WriteOperation::ClaimNext { now }).1 matches Outcome::Claimed(Some(id))
            ==> exists|i: int|
            {
                &&& 0 <= i < store.events.len()
                &&& (#[trigger] store.events[i]).id == id
                &&& store.events[i].status == EventStatus::Pending || store.events[i].status
                    == EventStatus::Retryable
                &&& store.events[i].next_attempt_at is None || store.events[i].next_attempt_at->0
                    <= now
                &&& forall|j: int|
                    0 <= j < store.events.len() && (#[trigger] store.events[j]).entity_id
                        == store.events[i].entity_id && (store.events[j].observed_at
                        < store.events[i].observed_at || (store.events[j].observed_at
                        == store.events[i].observed_at && store.events[j].id
                        < store.events[i].id)) ==> (store.events[j].status
                        == EventStatus::Succeeded || store.events[j].status == EventStatus::Failed
                        || store.events[j].status == EventStatus::Ignored)
            },
{
    lemma_next_claim(store.events, now, store.events.len() as int);
}

/// An event that waits, whose time has come and whose entity has nothing unfinished before it is
/// not passed over: something is taken up, and nothing that was observed after it, by the moment
/// and then by the number. The one refusal is that of a count of attempts that cannot grow.
pub proof fn law_due_events_are_not_passed_over(store: StoreModel, now: i64, j: int)
    requires
        0 <= j < store.events.len(),
        store.events[j].status == EventStatus::Pending || store.events[j].status
            == EventStatus::Retryable,
        store.events[j].next_attempt_at is None || store.events[j].next_attempt_at->0 <= now,
        forall|k: int|
            0 <= k < store.events.len() && (#[trigger] store.events[k]).entity_id
                == store.events[j].entity_id && (store.events[k].observed_at
                < store.events[j].observed_at || (store.events[k].observed_at
                == store.events[j].observed_at && store.events[k].id < store.events[j].id)) ==> (
            store.events[k].status == EventStatus::Succeeded || store.events[k].status
                == EventStatus::Failed || store.events[k].status == EventStatus::Ignored),
    ensures
        match served(store, WriteOperation::ClaimNext { now }).1 {
            Outcome::Claimed(Some(id)) => exists|i: int|
                0 <= i < store.events.len() && (#[trigger] store.events[i]).id == id && (
                store.events[i].observed_at < store.events[j].observed_at || (
                store.events[i].observed_at == store.events[j].observed_at && store.events[i].id
                    <= store.events[j].id)),
            Outcome::Claimed(None) => false,
            _ => exists|k: int|
                0 <= k < store.events.len() && (#[trigger] store.events[k]).attempt_count
                    == u32::MAX,
        },
{
    lemma_next_claim(store.events, now, store.events.len() as int);
    assert(claimable(store.events, j, now));
}

/// While an earlier event of its entity is pending, retryable or being processed, an event is not
/// taken up: what is stored of it stays as it is.
pub proof fn law_earlier_events_hold_back(store: StoreModel, now: i64, i: int, j: int)
    requires
        0 <= i < store.events.len(),
        0 <= j < store.events.len(),
        forall|a: int, b: int|
            0 <= a < b < store.events.len() ==> (#[trigger] store.events[a]).id != (
            #[trigger] store.events[b]).id,
        store.events[j].entity_id == store.events[i].entity_id,
        store.events[j].observed_at < store.events[i].observed_at || (store.events[j].observed_at
            == store.events[i].observed_at && store.events[j].id < store.events[i].id),
        store.events[j].status == EventStatus::Pending || store.events[j].status
            == EventStatus::Retryable || store.events[j].status == EventStatus::Processing,
    ensures
        served(store, WriteOperation::ClaimNext { now }).1 != Outcome::Claimed(
            Some(store.events[i].id),
        ),
        served(store, WriteOperation::ClaimNext { now }).0.events[i] == store.events[i],
{
    lemma_next_claim(store.events, now, store.events.len() as int);
    assert(earlier(store.events[j], store.events[i]));
    assert(!claimable(store.events, i, now));
    if let Some(taken) = next_claim(store.events, now, store.events.len() as int) {
        assert(taken != i);
        if taken < i {
            assert(store.events[taken].id != store.events[i].id);
        } else {
            assert(store.events[i].id != store.events[taken].id);
        }
    }
}

/// An event that is taken up is being processed, and one attempt more is counted; all else that
/// the source has reported of it stays, and so does every other event. A claim that finds nothing
/// changes nothing.
pub proof fn law_claims_begin_one_event(store: StoreModel, now: i64, k: int)
    requires
        0 <= k < store.events.len(),
    ensures
        ({
            let (after, outcome) = served(store, WriteOperation::ClaimNext { now });
            let was = store.events[k];
            let is = after.events[k];
            &&& after.events.len() == store.events.len()
            &&& after.entities == store.entities
            &&& after.sources == store.sources
            &&& after.commands == store.commands
            &&& after.effects == store.effects
            &&& after.prompts == store.prompts
            &&& match outcome {
                Outcome::Claimed(Some(id)) => if was.id == id {
                    &&& is.status == EventStatus::Processing
                    &&& is.attempt_count == was.attempt_count + 1
                    &&& is.updated_at == now
                    &&& is.id == was.id
                    &&& is.entity_id == was.entity_id
                    &&& is.source == was.source
                    &&& is.revision_id == was.revision_id
                    &&& is.payload == was.payload
                    &&& is.occurred_at == was.occurred_at
                    &&& is.observed_at == was.observed_at
                    &&& is.next_attempt_at == was.next_attempt_at
                    &&& is.last_error == was.last_error
                } else {
                    is == was
                },
                Outcome::Claimed(None) => after == store,
                _ => outcome is Refused && after == store,
            }
        }),
{
    lemma_next_claim(store.events, now, store.events.len() as int);
}

proof fn lemma_open_runs(runs: Seq<RunModel>, event_id: i64, k: int)
    requires
        0 <= k < runs.len(),
        runs[k].event_id == event_id,
        runs[k].ended_at is None,
    ensures
        open_runs(runs, event_id).contains(runs[k].id),
    decreases runs.len(),
{
    let before = open_runs(runs.drop_last(), event_id);
    if k == runs.len() - 1 {
        let all = open_runs(runs, event_id);
        assert(all[all.len() - 1] == runs[k].id);
    } else {
        lemma_open_runs(runs.drop_last(), event_id, k);
        let place = choose|i: int| 0 <= i < before.len() && before[i] == runs[k].id;
        assert(open_runs(runs, event_id)[place] == runs[k].id);
    }
}

/// Once an event has been taken up, every run that it had before has ended.
pub proof fn law_claims_supersede_runs(store: StoreModel, i: int, now: i64, k: int)
    requires
        0 <= i < store.events.len(),
        0 <= k < store.runs.len(),
        store.runs[k].event_id == store.events[i].id,
    ensures
        with_claim(store, i, now).runs.len() == store.runs.len(),
        with_claim(store, i, now).runs[k].id == store.runs[k].id,
        with_claim(store, i, now).runs[k].ended_at is Some,
{
    if store.runs[k].ended_at is None {
        lemma_open_runs(store.runs, store.events[i].id, k);
    }
}

/// After a recovery no event is stale.
pub proof fn law_recovery_leaves_nothing_stale(store: StoreModel, stale_before: i64, now: i64, k: int)
    requires
        0 <= k < store.events.len(),
    ensures
        with_recovery(store, stale_before, now).events.len() == store.events.len(),
        !stale(with_recovery(store, stale_before, now).events[k], stale_before),
{
}

// ---------------------------------------------------------------------------------------------
// Retries of an event
// ---------------------------------------------------------------------------------------------

/// The wait before the next attempt does not shrink from attempt to attempt, and it is at least
/// the base.
pub proof fn law_backoff_grows(attempt_count: u32, base_seconds: u64)
    requires
        attempt_count < u32::MAX,
    ensures
        backoff(attempt_count, base_seconds) <= backoff((attempt_count + 1) as u32, base_seconds),
        base_seconds <= backoff(attempt_count, base_seconds),
{
    let e: nat = if attempt_count == 0 {
        0
    } else if attempt_count > 64 {
        63
    } else {
        (attempt_count - 1) as nat
    };
    let p = vstd::arithmetic::power2::pow2(e) as int;
    vstd::arithmetic::power2::lemma_pow2_pos(e);
    vstd::arithmetic::power2::lemma_pow2_unfold(e + 1);
    vstd::arithmetic::power2::lemma2_to64();
    assert(base_seconds * p >= base_seconds) by (nonlinear_arith)
        requires
            p >= 1,
            base_seconds >= 0,
    ;
    assert(base_seconds * (2 * p) >= base_seconds * p) by (nonlinear_arith)
        requires
            p >= 1,
            base_seconds >= 0,
    ;
    if attempt_count == 64 {
        assert(e == 63);
    }
}

/// An event that fails while it is worked on is no longer worked on: it waits for its next
/// attempt, or it has failed for good.
pub proof fn law_failures_settle(
    event: EventModel,
    again: Option<i64>,
    prior: Option<i64>,
    error: Seq<char>,
    now: i64,
)
    requires
        event.status == EventStatus::Processing,
    ensures
        ({
            let after = failed(event, event.id, again, prior, error, now);
            &&& after.status == EventStatus::Retryable || after.status == EventStatus::Failed
            &&& after.status == EventStatus::Retryable <==> again is Some
            &&& after.next_attempt_at == again
            &&& after.attempt_count == event.attempt_count
            &&& after.payload == event.payload
        }),
{
}

// ---------------------------------------------------------------------------------------------
// The end of a run
// ---------------------------------------------------------------------------------------------

proof fn lemma_none_open(spans: Seq<SpanModel>, run_id: i64)
    requires
        forall|k: int|
            0 <= k < spans.len() ==> !((#[trigger] spans[k]).run_id == run_id && spans[k].open),
    ensures
        count_open(spans, run_id) == 0,
    decreases spans.len(),
{
    if spans.len() > 0 {
        assert forall|k: int| 0 <= k < spans.drop_last().len() implies !((
        #[trigger] spans.drop_last()[k]).run_id == run_id && spans.drop_last()[k].open) by {
            assert(spans.drop_last()[k] == spans[k]);
        }
        lemma_none_open(spans.drop_last(), run_id);
    }
}

/// Once a run has ended it has nothing open: no turn, no step, no retry, no compaction.
pub proof fn law_ended_runs_are_closed(
    store: StoreModel,
    run_id: i64,
    end: RunEndModel,
    now: i64,
)
    ensures
        open_count(with_ended_runs(store, seq![run_id], end, now), run_id) == 0,
        forall|k: int|
            0 <= k < store.runs.len() && store.runs[k].id == run_id ==> (
            #[trigger] with_ended_runs(store, seq![run_id], end, now).runs[k]).ended_at is Some,
{
    let ids = seq![run_id];
    assert(ids.contains(run_id)) by {
        assert(ids[0] == run_id);
    }
    let after = with_ended_runs(store, ids, end, now);
    lemma_none_open(step_spans(after.steps), run_id);
    lemma_none_open(turn_spans(after.turns), run_id);
    lemma_none_open(retry_spans(after.retries), run_id);
    lemma_none_open(compaction_spans(after.compactions), run_id);
}

// ---------------------------------------------------------------------------------------------
// Reports of sources
// ---------------------------------------------------------------------------------------------

proof fn lemma_named_place(entities: Seq<EntityModel>, name: Seq<char>, from: int)
    requires
        0 <= from <= entities.len(),
    ensures
        match named_place(entities, name, from) {
            Some(i) => from <= i < entities.len() && entities[i].external_id == name && forall|
                k: int,
            |
                from <= k < i ==> (#[trigger] entities[k]).external_id != name,
            None => forall|k: int|
                from <= k < entities.len() ==> (#[trigger] entities[k]).external_id != name,
        },
    decreases entities.len() - from,
{
    if from < entities.len() && entities[from].external_id != name {
        lemma_named_place(entities, name, from + 1);
    }
}

proof fn lemma_named_place_is(entities: Seq<EntityModel>, name: Seq<char>, from: int, i: int)
    requires
        0 <= from <= i < entities.len(),
        entities[i].external_id == name,
        forall|k: int| from <= k < i ==> (#[trigger] entities[k]).external_id != name,
    ensures
        named_place(entities, name, from) == Some(i),
    decreases i - from,
{
    if from < i {
        lemma_named_place_is(entities, name, from + 1, i);
    }
}

/// A report that is taken in twice adds its event once: the second time no event is new, and the
/// events are those of the first time.
pub proof fn law_reports_are_taken_once(
    store: StoreModel,
    source: Seq<char>,
    reported_item: ReportedItem,
    first_at: i64,
    second_at: i64,
)
    requires
        with_item(store, source, reported_item, first_at) is Ok,
    ensures
        ({
            let (once, _) = with_item(store, source, reported_item, first_at)->Ok_0;
            with_item(once, source, reported_item, second_at) matches Ok((twice, new)) && new == 0
                && twice.events == once.events
        }),
{
    let item = reported_item.item;
    let name = item.entity_id@;
    let (once, new) = with_item(store, source, reported_item, first_at)->Ok_0;
    let metadata = json::object_text(item_metadata(item))->Ok_0;
    let (entities, entity_id) = with_entity(store.entities, source, item, metadata)->0;
    lemma_named_place(store.entities, name, 0);
    match named_place(store.entities, name, 0) {
        Some(i) => {
            assert forall|k: int| 0 <= k < i implies (#[trigger] entities[k]).external_id
                != name by {
                assert(entities[k] == renewed(store.entities[k], item, metadata));
            }
            assert(entities[i] == renewed(store.entities[i], item, metadata));
            lemma_named_place_is(entities, name, 0, i);
        },
        None => {
            let i = store.entities.len() as int;
            assert forall|k: int| 0 <= k < i implies (#[trigger] entities[k]).external_id
                != name by {
                assert(entities[k] == store.entities[k]);
            }
            lemma_named_place_is(entities, name, 0, i);
        },
    }
    if new == 1 {
        let last = once.events.len() - 1;
        assert(once.events[last].entity_id == entity_id);
        assert(once.events[last].revision_id == item.revision_id@);
    }
    assert(reported(once.events, entity_id, item.revision_id@));
}

/// What a source reports leaves the events that are there as they are; new ones come behind them
/// and wait to be taken up, with their payload.
pub proof fn law_reports_only_add(
    store: StoreModel,
    source: Seq<char>,
    items: Seq<ReportedItem>,
    observed_at: i64,
)
    ensures
        with_items(store, source, items, observed_at) matches Ok((after, new)) ==> {
            &&& after.events.len() == store.events.len() + new
            &&& after.events.take(store.events.len() as int) == store.events
            &&& forall|k: int|
                store.events.len() <= k < after.events.len() ==> (
                #[trigger] after.events[k]).status == EventStatus::Pending
                    && after.events[k].payload is Some && after.events[k].attempt_count == 0
        },
    decreases items.len(),
{
    if items.len() > 0 {
        law_reports_only_add(store, source, items.drop_last(), observed_at);
        if let Ok((before, _)) = with_items(store, source, items.drop_last(), observed_at) {
            if let Ok((after, more)) = with_item(before, source, items.last(), observed_at) {
                if more == 1 {
                    assert(after.events.drop_last() =~= before.events);
                }
                assert(after.events.take(store.events.len() as int) =~= before.events.take(
                    store.events.len() as int,
                ));
            }
        }
    } else {
        assert(store.events.take(store.events.len() as int) =~= store.events);
    }
}

// ---------------------------------------------------------------------------------------------
// Whatever is requested
// ---------------------------------------------------------------------------------------------

/// Whether the event has come to its end without anything left to do.
pub open spec fn settled(event: EventModel) -> bool {
    event.status == EventStatus::Succeeded || event.status == EventStatus::Ignored
}

/// Whether no settled event holds its payload.
pub open spec fn scrubbed(events: Seq<EventModel>) -> bool {
    forall|k: int| 0 <= k < events.len() && settled(#[trigger] events[k]) ==> events[k].payload is None
}

/// Whether every event has a number of its own.
pub open spec fn numbered(events: Seq<EventModel>) -> bool {
    forall|i: int, j: int|
        0 <= i < j < events.len() ==> (#[trigger] events[i]).id != (#[trigger] events[j]).id
}

proof fn lemma_reports_number(
    store: StoreModel,
    source: Seq<char>,
    items: Seq<ReportedItem>,
    observed_at: i64,
)
    requires
        numbered(store.events),
    ensures
        with_items(store, source, items, observed_at) matches Ok((after, _)) ==> numbered(
            after.events,
        ),
    decreases items.len(),
{
    if items.len() > 0 {
        lemma_reports_number(store, source, items.drop_last(), observed_at);
        if let Ok((before, _)) = with_items(store, source, items.drop_last(), observed_at) {
            let ids = before.events.map_values(|event: EventModel| event.id);
            law_fresh_ids_are_new(ids);
            if let Ok((after, more)) = with_item(before, source, items.last(), observed_at) {
                assert forall|i: int, j: int| 0 <= i < j < after.events.len() implies (
                #[trigger] after.events[i]).id != (#[trigger] after.events[j]).id by {
                    if more == 1 && j == before.events.len() {
                        assert(ids[i] == after.events[i].id);
                    }
                }
            }
        }
    }
}

/// A command changes no event.
proof fn lemma_commands_keep_events(
    store: StoreModel,
    event_id: i64,
    executable: Seq<char>,
    exit_code: i32,
    output: Seq<char>,
    now: i64,
)
    ensures
        with_command(store, event_id, executable, exit_code, output, now).events == store.events,
{
}

/// Whatever is requested, the events keep their places and their numbers: none is taken away, and
/// new ones come last.
pub proof fn law_events_are_kept(store: StoreModel, operation: WriteOperation)
    ensures
        served(store, operation).0.events.len() >= store.events.len(),
        forall|k: int|
            0 <= k < store.events.len() ==> (#[trigger] served(
                store,
                operation,
            ).0.events[k]).id == store.events[k].id && served(
                store,
                operation,
            ).0.events[k].entity_id == store.events[k].entity_id && served(
                store,
                operation,
            ).0.events[k].revision_id == store.events[k].revision_id,
        !(operation is SourceSucceeded) ==> served(store, operation).0.events.len()
            == store.events.len(),
{
    match operation {
        WriteOperation::SourceSucceeded { source, checkpoint, items, observed_at } => {
            law_reports_only_add(store, source@, items@, observed_at);
            if let Ok((after, _)) = with_items(store, source@, items@, observed_at) {
                assert forall|k: int| 0 <= k < store.events.len() implies after.events[k]
                    == store.events[k] by {
                    assert(after.events.take(store.events.len() as int)[k] == after.events[k]);
                }
            }
        },
        WriteOperation::RecordCommand { event_id, executable, exit_code, output, now } => {
            lemma_commands_keep_events(store, event_id, executable@, exit_code, output@, now);
        },
        _ => {},
    }
}

/// Whatever is requested, an event that is settled holds no payload: it was taken away when the
/// event was settled.
pub proof fn law_settled_events_hold_no_payload(store: StoreModel, operation: WriteOperation)
    requires
        scrubbed(store.events),
    ensures
        scrubbed(served(store, operation).0.events),
{
    let after = served(store, operation).0.events;
    law_events_are_kept(store, operation);
    match operation {
        WriteOperation::SourceSucceeded { source, checkpoint, items, observed_at } => {
            law_reports_only_add(store, source@, items@, observed_at);
            assert forall|k: int| 0 <= k < after.len() && settled(#[trigger] after[k]) implies after[k].payload is None by {
                if k < store.events.len() {
                    if with_items(store, source@, items@, observed_at) is Ok {
                        assert(after.take(store.events.len() as int)[k] == after[k]);
                    }
                    assert(after[k] == store.events[k]);
                }
            }
        },
        WriteOperation::RecordCommand { event_id, executable, exit_code, output, now } => {
            lemma_commands_keep_events(store, event_id, executable@, exit_code, output@, now);
        },
        _ => {
            assert forall|k: int| 0 <= k < after.len() && settled(#[trigger] after[k]) implies after[k].payload is None by {
                assert(settled(store.events[k]) ==> store.events[k].payload is None);
            }
        },
    }
}

/// Whatever is requested, an event that is settled stays settled: it is never taken up again.
pub proof fn law_settled_events_stay_settled(store: StoreModel, operation: WriteOperation, k: int)
    requires
        numbered(store.events),
        scrubbed(store.events),
        0 <= k < store.events.len(),
        settled(store.events[k]),
    ensures
        settled(served(store, operation).0.events[k]),
{
    let after = served(store, operation).0.events;
    law_events_are_kept(store, operation);
    match operation {
        WriteOperation::SourceSucceeded { source, checkpoint, items, observed_at } => {
            law_reports_only_add(store, source@, items@, observed_at);
            if with_items(store, source@, items@, observed_at) is Ok {
                assert(after.take(store.events.len() as int)[k] == after[k]);
            }
        },
        WriteOperation::RecordCommand { event_id, executable, exit_code, output, now } => {
            lemma_commands_keep_events(store, event_id, executable@, exit_code, output@, now);
        },
        WriteOperation::ClaimNext { now } => {
            lemma_next_claim(store.events, now, store.events.len() as int);
        },
        _ => {},
    }
}

/// Whatever is requested, every event keeps a number of its own.
pub proof fn law_event_numbers_stay_distinct(store: StoreModel, operation: WriteOperation)
    requires
        numbered(store.events),
    ensures
        numbered(served(store, operation).0.events),
{
    let after = served(store, operation).0.events;
    law_events_are_kept(store, operation);
    match operation {
        WriteOperation::SourceSucceeded { source, checkpoint, items, observed_at } => {
            lemma_reports_number(store, source@, items@, observed_at);
        },
        _ => {
            assert forall|i: int, j: int| 0 <= i < j < after.len() implies (
            #[trigger] after[i]).id != (#[trigger] after[j]).id by {
                assert(after[i].id == store.events[i].id && after[j].id == store.events[j].id);
            }
        },
    }
}

/// An event is worked on only because it was taken up: no other request begins it.
pub proof fn law_only_claims_begin_work(store: StoreModel, operation: WriteOperation, k: int)
    requires
        !(operation is ClaimNext),
        0 <= k < served(store, operation).0.events.len(),
        served(store, operation).0.events[k].status == EventStatus::Processing,
    ensures
        k < store.events.len(),
        store.events[k].status == EventStatus::Processing,
{
    let after = served(store, operation).0.events;
    law_events_are_kept(store, operation);
    match operation {
        WriteOperation::SourceSucceeded { source, checkpoint, items, observed_at } => {
            law_reports_only_add(store, source@, items@, observed_at);
            if with_items(store, source@, items@, observed_at) is Ok {
                if k < store.events.len() {
                    assert(after.take(store.events.len() as int)[k] == after[k]);
                }
            }
        },
        WriteOperation::RecordCommand { event_id, executable, exit_code, output, now } => {
            lemma_commands_keep_events(store, event_id, executable@, exit_code, output@, now);
        },
        _ => {},
    }
}

} // verus!
