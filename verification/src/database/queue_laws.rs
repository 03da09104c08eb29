//! What each request does to the queue, event by event.
use vstd::prelude::*;

use crate::database::intake_laws::keyed;
use crate::database::laws::numbered;
use crate::database::operations::{fits, served, Fault, Outcome, WriteOperation};
use crate::database::queue::{
    backoff, entity_of, entity_place, event_place, ignored_count, joined, last_run, next_claim, open_runs,
    retried_count, runs_of, stale_count, stale_event, stale_runs,
};
use crate::database::records::{DispatchTrigger, EventStatus, RunOutcome, TriageDecision};
use crate::database::tables::{
    fresh, law_fresh_ids_are_new, lemma_largest, EntityModel, EventModel, RunModel, StoreModel,
};
use crate::text;

verus! {

// ---------------------------------------------------------------------------------------------
// Places and numbers
// ---------------------------------------------------------------------------------------------

proof fn lemma_event_place(events: Seq<EventModel>, id: i64, from: int)
    requires
        0 <= from <= events.len(),
    ensures
        match event_place(events, id, from) {
            Some(i) => from <= i < events.len() && events[i].id == id,
            None => forall|k: int| from <= k < events.len() ==> (#[trigger] events[k]).id != id,
        },
    decreases events.len() - from,
{
    if from < events.len() && events[from].id != id {
        lemma_event_place(events, id, from + 1);
    }
}

proof fn lemma_entity_place(entities: Seq<EntityModel>, id: i64, from: int)
    requires
        0 <= from <= entities.len(),
    ensures
        match entity_place(entities, id, from) {
            Some(i) => from <= i < entities.len() && entities[i].id == id,
            None => forall|k: int| from <= k < entities.len() ==> (#[trigger] entities[k]).id != id,
        },
    decreases entities.len() - from,
{
    if from < entities.len() && entities[from].id != id {
        lemma_entity_place(entities, id, from + 1);
    }
}

/// The place of the only event with this number.
proof fn lemma_only_event(events: Seq<EventModel>, k: int)
    requires
        numbered(events),
        0 <= k < events.len(),
    ensures
        event_place(events, events[k].id, 0) == Some(k),
        entity_of(events, events[k].id) == Some(events[k].entity_id),
{
    lemma_event_place(events, events[k].id, 0);
    let i = event_place(events, events[k].id, 0)->0;
    if i < k {
        assert(events[i].id != events[k].id);
    } else if k < i {
        assert(events[k].id != events[i].id);
    }
}

proof fn lemma_last_run(runs: Seq<RunModel>, event_id: i64)
    ensures
        match last_run(runs, event_id) {
            Some(id) => (exists|r: int|
                0 <= r < runs.len() && (#[trigger] runs[r]).event_id == event_id && runs[r].id
                    == id) && forall|r: int|
                0 <= r < runs.len() && (#[trigger] runs[r]).event_id == event_id ==> runs[r].id
                    <= id,
            None => forall|r: int|
                0 <= r < runs.len() ==> (#[trigger] runs[r]).event_id != event_id,
        },
    decreases runs.len(),
{
    if runs.len() > 0 {
        let front = runs.drop_last();
        lemma_last_run(front, event_id);
        if let Some(id) = last_run(front, event_id) {
            let r = choose|r: int|
                0 <= r < front.len() && (#[trigger] front[r]).event_id == event_id && front[r].id
                    == id;
            assert(runs[r].id == id);
        }
        assert(runs[runs.len() - 1] == runs.last());
        assert forall|r: int| 0 <= r < runs.len() && (#[trigger] runs[r]).event_id == event_id implies last_run(
            runs,
            event_id,
        ) is Some && runs[r].id <= last_run(runs, event_id)->0 by {
            if r < front.len() {
                assert(front[r] == runs[r]);
            }
        }
    }
}

proof fn lemma_open_run(runs: Seq<RunModel>, event_id: i64)
    ensures
        forall|id: i64|
            open_runs(runs, event_id).contains(id) <==> exists|r: int|
                0 <= r < runs.len() && (#[trigger] runs[r]).event_id == event_id
                    && runs[r].ended_at is None && runs[r].id == id,
        open_runs(runs, event_id).len() == 0 <==> forall|r: int|
            0 <= r < runs.len() && (#[trigger] runs[r]).event_id == event_id
                ==> runs[r].ended_at is Some,
    decreases runs.len(),
{
    let all = open_runs(runs, event_id);
    if runs.len() > 0 {
        let front = runs.drop_last();
        let before = open_runs(front, event_id);
        lemma_open_run(front, event_id);
        let last = runs.len() - 1;
        assert(runs[last] == runs.last());
        assert forall|id: i64|
            all.contains(id) <==> exists|r: int|
                0 <= r < runs.len() && (#[trigger] runs[r]).event_id == event_id
                    && runs[r].ended_at is None && runs[r].id == id by {
            if all.contains(id) {
                let place = choose|i: int| 0 <= i < all.len() && all[i] == id;
                if place < before.len() {
                    assert(before[place] == id);
                    assert(before.contains(id));
                    let r = choose|r: int|
                        0 <= r < front.len() && (#[trigger] front[r]).event_id == event_id
                            && front[r].ended_at is None && front[r].id == id;
                    assert(runs[r] == front[r]);
                } else {
                    assert(runs[last].id == id);
                }
            }
            if exists|r: int|
                0 <= r < runs.len() && (#[trigger] runs[r]).event_id == event_id
                    && runs[r].ended_at is None && runs[r].id == id {
                let r = choose|r: int|
                    0 <= r < runs.len() && (#[trigger] runs[r]).event_id == event_id
                        && runs[r].ended_at is None && runs[r].id == id;
                if r < last {
                    assert(front[r] == runs[r]);
                    assert(before.contains(id));
                    let place = choose|i: int| 0 <= i < before.len() && before[i] == id;
                    assert(all[place] == id);
                } else {
                    assert(all[all.len() - 1] == id);
                }
            }
        }
        if all.len() == 0 {
            assert forall|r: int|
                0 <= r < runs.len() && (#[trigger] runs[r]).event_id
                    == event_id implies runs[r].ended_at is Some by {
                if r < last {
                    assert(front[r] == runs[r]);
                }
            }
        } else {
            let r = choose|r: int|
                0 <= r < runs.len() && (#[trigger] runs[r]).event_id == event_id
                    && runs[r].ended_at is None && runs[r].id == all[0];
            assert(all.contains(all[0]));
        }
    }
}

// ---------------------------------------------------------------------------------------------
// The end of an event
// ---------------------------------------------------------------------------------------------

/// An event that succeeded says so: it holds no payload and no error and waits for nothing more,
/// its entity counts as handled with success, and nothing else changes.
pub proof fn law_success_settles_the_event(store: StoreModel, now: i64, k: int, j: int, p: int)
    requires
        numbered(store.events),
        0 <= k < store.events.len(),
        0 <= j < store.events.len(),
        0 <= p < store.entities.len(),
    ensures
        ({
            let id = store.events[k].id;
            let (after, outcome) = served(store, WriteOperation::Succeed { event_id: id, now });
            let was = store.events[k];
            let is = after.events[k];
            &&& outcome == Outcome::Done
            &&& is.status == EventStatus::Succeeded
            &&& is.payload is None
            &&& is.last_error is None
            &&& is.next_attempt_at is None
            &&& is.updated_at == now
            &&& is.id == was.id
            &&& is.entity_id == was.entity_id
            &&& is.source == was.source
            &&& is.revision_id == was.revision_id
            &&& is.occurred_at == was.occurred_at
            &&& is.observed_at == was.observed_at
            &&& is.attempt_count == was.attempt_count
            &&& j != k ==> after.events[j] == store.events[j]
            &&& store.entities[p].id == was.entity_id ==> after.entities[p].handling_status == Some(
                "succeeded"@,
            )
            &&& store.entities[p].id != was.entity_id ==> after.entities[p] == store.entities[p]
            &&& after.entities[p].id == store.entities[p].id
            &&& after.entities[p].title == store.entities[p].title
            &&& after.entities[p].aven_ref == store.entities[p].aven_ref
            &&& after.entities[p].investigation_handle == store.entities[p].investigation_handle
            &&& after.events.len() == store.events.len()
            &&& after.entities.len() == store.entities.len()
            &&& after.runs == store.runs
            &&& after.sources == store.sources
        }),
{
    lemma_only_event(store.events, k);
    if j < k {
        assert(store.events[j].id != store.events[k].id);
    } else if k < j {
        assert(store.events[k].id != store.events[j].id);
    }
}

/// An event that fails while it is worked on is tried again as long as it has attempts left: not
/// before the wait, which is the base at the first attempt, is over. Otherwise it has failed for
/// good. Either way it holds the first 4096 bytes of the error, keeps its payload, and its entity
/// counts as handled so; every other event stays. An event that is not worked on stays too.
pub proof fn law_failures_are_retried_while_attempts_last(
    store: StoreModel,
    error: String,
    max_attempts: u32,
    retry_base_seconds: u64,
    now: i64,
    k: int,
    j: int,
)
    requires
        numbered(store.events),
        keyed(store),
        0 <= k < store.events.len(),
        0 <= j < store.events.len(),
        retry_base_seconds <= 1_000_000_000,
        0 <= now <= 253402300799999,
        store.events[k].attempt_count == 1,
    ensures
        ({
            let id = store.events[k].id;
            let (after, outcome) = served(
                store,
                WriteOperation::Fail {
                    event_id: id,
                    error,
                    max_attempts,
                    retry_base_seconds,
                    now,
                },
            );
            let was = store.events[k];
            let is = after.events[k];
            &&& outcome == Outcome::Done
            &&& j != k ==> after.events[j] == store.events[j]
            &&& was.status != EventStatus::Processing ==> is == was
            &&& was.status == EventStatus::Processing ==> {
                &&& is.last_error == Some(text::byte_prefix(error@, 4096))
                &&& is.updated_at == now
                &&& is.payload == was.payload
                &&& is.attempt_count == was.attempt_count
                &&& is.entity_id == was.entity_id
                &&& is.revision_id == was.revision_id
                &&& is.observed_at == was.observed_at
                &&& max_attempts > 1 ==> is.status == EventStatus::Retryable && is.next_attempt_at
                    == Some((now + 1000 * retry_base_seconds) as i64) && is.next_dispatch_trigger
                    == DispatchTrigger::BackoffRetry
                &&& max_attempts <= 1 ==> is.status == EventStatus::Failed
                    && is.next_attempt_at is None
            }
        }),
{
    lemma_fail(store, error, max_attempts, retry_base_seconds, now, k, j);
    lemma_first_wait(retry_base_seconds);
}

proof fn lemma_fail(
    store: StoreModel,
    error: String,
    max_attempts: u32,
    retry_base_seconds: u64,
    now: i64,
    k: int,
    j: int,
)
    requires
        numbered(store.events),
        keyed(store),
        0 <= k < store.events.len(),
        0 <= j < store.events.len(),
    ensures
        joined(store, store.events[k].id) is Some,
        (joined(store, store.events[k].id)->0).0 == store.events[k],
        entity_of(store.events, store.events[k].id) == Some(store.events[k].entity_id),
        j != k ==> store.events[j].id != store.events[k].id,
{
    lemma_only_event(store.events, k);
    lemma_entity_place(store.entities, store.events[k].entity_id, 0);
    let p = choose|p: int|
        0 <= p < store.entities.len() && (#[trigger] store.entities[p]).id
            == store.events[k].entity_id;
    assert(store.entities[p].id == store.events[k].entity_id);
    if j < k {
        assert(store.events[j].id != store.events[k].id);
    } else if k < j {
        assert(store.events[k].id != store.events[j].id);
    }
}

proof fn lemma_first_wait(base_seconds: u64)
    ensures
        backoff(1, base_seconds) == base_seconds,
        backoff(0, base_seconds) == base_seconds,
{
    let one = vstd::arithmetic::power2::pow2(0) as int;
    vstd::arithmetic::power2::lemma2_to64();
    assert(base_seconds * one == base_seconds) by (nonlinear_arith)
        requires
            one == 1,
    ;
}

/// While attempts are left a failure leads to a later attempt, and at the last one it does not:
/// the event is retryable exactly if it was tried less often than it may be. The moment of the
/// next attempt is the wait after now, which is the base at the first attempt.
pub proof fn law_failures_wait_longer_each_time(
    store: StoreModel,
    error: String,
    max_attempts: u32,
    retry_base_seconds: u64,
    now: i64,
    k: int,
    p: int,
)
    requires
        numbered(store.events),
        keyed(store),
        0 <= k < store.events.len(),
        0 <= p < store.entities.len(),
        store.events[k].status == EventStatus::Processing,
        store.entities[p].id == store.events[k].entity_id,
        fits(
            store,
            WriteOperation::Fail {
                event_id: store.events[k].id,
                error,
                max_attempts,
                retry_base_seconds,
                now,
            },
        ),
    ensures
        ({
            let id = store.events[k].id;
            let (after, outcome) = served(
                store,
                WriteOperation::Fail {
                    event_id: id,
                    error,
                    max_attempts,
                    retry_base_seconds,
                    now,
                },
            );
            let was = store.events[k];
            let is = after.events[k];
            &&& outcome == Outcome::Done
            &&& is.status == (if was.attempt_count < max_attempts {
                EventStatus::Retryable
            } else {
                EventStatus::Failed
            })
            &&& is.next_attempt_at is Some <==> was.attempt_count < max_attempts
            &&& is.next_attempt_at matches Some(moment) ==> {
                &&& moment == now + 1000 * backoff(was.attempt_count, retry_base_seconds)
                &&& was.attempt_count <= 1 ==> moment == now + 1000 * retry_base_seconds
            }
            &&& after.entities[p].handling_status == Some(
                if was.attempt_count < max_attempts {
                    "retryable"@
                } else {
                    "failed"@
                },
            )
            &&& was.attempt_count < max_attempts ==> is.next_dispatch_trigger
                == DispatchTrigger::BackoffRetry
            &&& was.attempt_count >= max_attempts ==> is.next_dispatch_trigger
                == was.next_dispatch_trigger && is.next_dispatch_prior_run_id
                == was.next_dispatch_prior_run_id
        }),
{
    lemma_fail(store, error, max_attempts, retry_base_seconds, now, k, k);
    lemma_first_wait(retry_base_seconds);
}

/// From one attempt to the next the wait doubles, as long as it stays within what can be counted.
pub proof fn law_waits_double(attempt_count: u32, base_seconds: u64)
    requires
        1 <= attempt_count < 64,
        2 * backoff(attempt_count, base_seconds) <= u64::MAX,
    ensures
        backoff((attempt_count + 1) as u32, base_seconds) == 2
            * backoff(attempt_count, base_seconds),
        backoff(1, base_seconds) == base_seconds,
        backoff(0, base_seconds) == base_seconds,
{
    lemma_first_wait(base_seconds);
    let e = (attempt_count - 1) as nat;
    let p = vstd::arithmetic::power2::pow2(e) as int;
    vstd::arithmetic::power2::lemma2_to64();
    vstd::arithmetic::power2::lemma_pow2_unfold(e + 1);
    vstd::arithmetic::power2::lemma_pow2_pos(e);
    assert(base_seconds * (2 * p) == 2 * (base_seconds * p)) by (nonlinear_arith);
    assert(base_seconds * p >= 0) by (nonlinear_arith)
        requires
            p > 0,
            base_seconds >= 0,
    ;
}

// ---------------------------------------------------------------------------------------------
// What an operator asks for
// ---------------------------------------------------------------------------------------------

proof fn lemma_retried_count(events: Seq<EventModel>, id: i64)
    requires
        numbered(events),
    ensures
        retried_count(events, id) <= 1,
        retried_count(events, id) == 1 <==> exists|k: int|
            0 <= k < events.len() && (#[trigger] events[k]).id == id && events[k].payload is Some
                && events[k].status != EventStatus::Processing,
    decreases events.len(),
{
    if events.len() > 0 {
        let front = events.drop_last();
        let last = events.len() - 1;
        assert forall|i: int, j: int| 0 <= i < j < front.len() implies (#[trigger] front[i]).id != (
        #[trigger] front[j]).id by {
            assert(events[i].id != events[j].id);
        }
        lemma_retried_count(front, id);
        if retried_count(front, id) == 1 {
            let k = choose|k: int|
                0 <= k < front.len() && (#[trigger] front[k]).id == id && front[k].payload is Some
                    && front[k].status != EventStatus::Processing;
            assert(events[k].id != events[last].id);
            assert(events[k] == front[k]);
        } else {
            assert forall|k: int|
                0 <= k < last && (#[trigger] events[k]).id == id
                    && events[k].payload is Some implies events[k].status
                == EventStatus::Processing by {
                assert(front[k] == events[k]);
            }
        }
        assert(events[last] == events.last());
    }
}

proof fn lemma_ignored_count(events: Seq<EventModel>, id: i64)
    requires
        numbered(events),
    ensures
        ignored_count(events, id) <= 1,
        ignored_count(events, id) == 1 <==> exists|k: int|
            0 <= k < events.len() && (#[trigger] events[k]).id == id && events[k].status
                != EventStatus::Processing,
    decreases events.len(),
{
    if events.len() > 0 {
        let front = events.drop_last();
        let last = events.len() - 1;
        assert forall|i: int, j: int| 0 <= i < j < front.len() implies (#[trigger] front[i]).id != (
        #[trigger] front[j]).id by {
            assert(events[i].id != events[j].id);
        }
        lemma_ignored_count(front, id);
        if ignored_count(front, id) == 1 {
            let k = choose|k: int|
                0 <= k < front.len() && (#[trigger] front[k]).id == id && front[k].status
                    != EventStatus::Processing;
            assert(events[k].id != events[last].id);
            assert(events[k] == front[k]);
        } else {
            assert forall|k: int| 0 <= k < last && (#[trigger] events[k]).id == id implies events[k].status
                == EventStatus::Processing by {
                assert(front[k] == events[k]);
            }
        }
        assert(events[last] == events.last());
    }
}

/// An operator can have an event tried again exactly if it still holds its payload and is not
/// being worked on. It then waits as if it had never been tried, and may be taken up at once; the
/// last of its runs is named as the one before. Otherwise nothing changes. So it is with any
/// other event.
pub proof fn law_operators_retry_what_has_its_payload(
    store: StoreModel,
    now: i64,
    k: int,
    j: int,
    p: int,
)
    requires
        numbered(store.events),
        0 <= k < store.events.len(),
        0 <= j < store.events.len(),
        0 <= p < store.entities.len(),
    ensures
        ({
            let was = store.events[k];
            let (after, outcome) = served(
                store,
                WriteOperation::Retry { event_id: was.id, now },
            );
            let is = after.events[k];
            let may = was.payload is Some && was.status != EventStatus::Processing;
            &&& outcome == Outcome::Changed(may)
            &&& j != k ==> after.events[j] == store.events[j]
            &&& !may ==> after == store
            &&& may ==> {
                &&& is.status == EventStatus::Retryable
                &&& is.attempt_count == 0
                &&& is.next_attempt_at is None
                &&& is.last_error is None
                &&& is.next_dispatch_trigger == DispatchTrigger::OperatorRetry
                &&& is.updated_at == now
                &&& is.payload == was.payload
                &&& is.entity_id == was.entity_id
                &&& is.revision_id == was.revision_id
                &&& is.observed_at == was.observed_at
                &&& is.occurred_at == was.occurred_at
                &&& is.source == was.source
                &&& store.entities[p].id == was.entity_id ==> after.entities[p].handling_status
                    == Some("retryable"@)
                &&& store.entities[p].id != was.entity_id ==> after.entities[p]
                    == store.entities[p]
                &&& match is.next_dispatch_prior_run_id {
                    Some(id) => (exists|r: int|
                        0 <= r < store.runs.len() && (#[trigger] store.runs[r]).event_id == was.id
                            && store.runs[r].id == id) && forall|r: int|
                        0 <= r < store.runs.len() && (#[trigger] store.runs[r]).event_id == was.id
                            ==> store.runs[r].id <= id,
                    None => forall|r: int|
                        0 <= r < store.runs.len() ==> (#[trigger] store.runs[r]).event_id
                            != was.id,
                }
            }
            &&& after.runs == store.runs
        }),
{
    let id = store.events[k].id;
    lemma_retried_count(store.events, id);
    lemma_last_run(store.runs, id);
    lemma_only_event(store.events, k);
    assert forall|i: int| 0 <= i < store.events.len() && i != k implies (
    #[trigger] store.events[i]).id != id by {
        if i < k {
            assert(store.events[i].id != store.events[k].id);
        } else {
            assert(store.events[k].id != store.events[i].id);
        }
    }
    let after = served(store, WriteOperation::Retry { event_id: id, now }).0;
    if !(store.events[k].payload is Some && store.events[k].status != EventStatus::Processing) {
        assert(after.events =~= store.events);
    }
}

/// An operator can have an event ignored exactly if it is not being worked on. It then holds no
/// payload, and is never taken up. Otherwise nothing changes. So it is with any other event.
pub proof fn law_operators_ignore_what_rests(
    store: StoreModel,
    now: i64,
    k: int,
    j: int,
    p: int,
)
    requires
        numbered(store.events),
        0 <= k < store.events.len(),
        0 <= j < store.events.len(),
        0 <= p < store.entities.len(),
    ensures
        ({
            let was = store.events[k];
            let (after, outcome) = served(
                store,
                WriteOperation::Ignore { event_id: was.id, now },
            );
            let is = after.events[k];
            let may = was.status != EventStatus::Processing;
            &&& outcome == Outcome::Changed(may)
            &&& j != k ==> after.events[j] == store.events[j]
            &&& !may ==> after == store
            &&& may ==> {
                &&& is.status == EventStatus::Ignored
                &&& is.payload is None
                &&& is.next_attempt_at is None
                &&& is.updated_at == now
                &&& is.attempt_count == was.attempt_count
                &&& is.last_error == was.last_error
                &&& is.entity_id == was.entity_id
                &&& is.revision_id == was.revision_id
                &&& is.observed_at == was.observed_at
                &&& store.entities[p].id == was.entity_id ==> after.entities[p].handling_status
                    == Some("ignored"@)
                &&& store.entities[p].id != was.entity_id ==> after.entities[p]
                    == store.entities[p]
            }
            &&& after.runs == store.runs
        }),
{
    let id = store.events[k].id;
    lemma_ignored_count(store.events, id);
    lemma_only_event(store.events, k);
    assert forall|i: int| 0 <= i < store.events.len() && i != k implies (
    #[trigger] store.events[i]).id != id by {
        if i < k {
            assert(store.events[i].id != store.events[k].id);
        } else {
            assert(store.events[k].id != store.events[i].id);
        }
    }
    let after = served(store, WriteOperation::Ignore { event_id: id, now }).0;
    if store.events[k].status == EventStatus::Processing {
        assert(after.events =~= store.events);
    }
}

/// What an operator asks for an event that there is not changes nothing and says so.
pub proof fn law_unknown_events_are_left_alone(store: StoreModel, id: i64, now: i64)
    requires
        forall|k: int| 0 <= k < store.events.len() ==> (#[trigger] store.events[k]).id != id,
    ensures
        served(store, WriteOperation::Retry { event_id: id, now }) == (
            store,
            Outcome::Changed(false),
        ),
        served(store, WriteOperation::Ignore { event_id: id, now }) == (
            store,
            Outcome::Changed(false),
        ),
        forall|attempt: u32|
            #[trigger] served(store, WriteOperation::StartRun { event_id: id, attempt, now }) == (
                store,
                Outcome::Refused(Fault::UnknownEvent(id)),
            ),
{
    lemma_event_place(store.events, id, 0);
    lemma_no_counts(store.events, id);
    let retried = served(store, WriteOperation::Retry { event_id: id, now }).0;
    assert(retried.events =~= store.events);
    let ignored = served(store, WriteOperation::Ignore { event_id: id, now }).0;
    assert(ignored.events =~= store.events);
}

proof fn lemma_no_counts(events: Seq<EventModel>, id: i64)
    requires
        forall|k: int| 0 <= k < events.len() ==> (#[trigger] events[k]).id != id,
    ensures
        retried_count(events, id) == 0,
        ignored_count(events, id) == 0,
    decreases events.len(),
{
    if events.len() > 0 {
        let front = events.drop_last();
        assert forall|k: int| 0 <= k < front.len() implies (#[trigger] front[k]).id != id by {
            assert(front[k] == events[k]);
        }
        lemma_no_counts(front, id);
        assert(events[events.len() - 1].id != id);
    }
}

// ---------------------------------------------------------------------------------------------
// Interrupted work
// ---------------------------------------------------------------------------------------------

/// An event that was worked on and to which nothing happened since the given moment may be taken
/// up again now, with the reason why it was interrupted; every other event stays as it is.
pub proof fn law_recovery_returns_interrupted_events(
    store: StoreModel,
    stale_before: i64,
    now: i64,
    k: int,
)
    requires
        0 <= k < store.events.len(),
    ensures
        ({
            let (after, outcome) = served(
                store,
                WriteOperation::RecoverInterrupted { stale_before, now },
            );
            let was = store.events[k];
            let is = after.events[k];
            &&& outcome is Count
            &&& after.events.len() == store.events.len()
            &&& after.entities == store.entities
            &&& if was.status == EventStatus::Processing && was.updated_at <= stale_before {
                &&& outcome->Count_0 > 0
                &&& is.status == EventStatus::Retryable
                &&& is.next_attempt_at == Some(now)
                &&& is.last_error == Some("triage interrupted by process exit"@)
                &&& is.next_dispatch_trigger == DispatchTrigger::RecoveryRetry
                &&& is.updated_at == now
                &&& is.attempt_count == was.attempt_count
                &&& is.payload == was.payload
                &&& is.id == was.id
                &&& is.entity_id == was.entity_id
                &&& is.revision_id == was.revision_id
                &&& is.observed_at == was.observed_at
                &&& match is.next_dispatch_prior_run_id {
                    Some(id) => (exists|r: int|
                        0 <= r < store.runs.len() && (#[trigger] store.runs[r]).event_id == was.id
                            && store.runs[r].id == id) && forall|r: int|
                        0 <= r < store.runs.len() && (#[trigger] store.runs[r]).event_id == was.id
                            ==> store.runs[r].id <= id,
                    None => forall|r: int|
                        0 <= r < store.runs.len() ==> (#[trigger] store.runs[r]).event_id
                            != was.id,
                }
            } else {
                is == was
            }
        }),
{
    lemma_last_run(store.runs, store.events[k].id);
    lemma_stale_count(store.events, stale_before);
}

proof fn lemma_stale_count(events: Seq<EventModel>, stale_before: i64)
    ensures
        stale_count(events, stale_before) == 0 <==> forall|k: int|
            0 <= k < events.len() ==> !((#[trigger] events[k]).status == EventStatus::Processing
                && events[k].updated_at <= stale_before),
    decreases events.len(),
{
    if events.len() > 0 {
        let front = events.drop_last();
        lemma_stale_count(front, stale_before);
        assert(events[events.len() - 1] == events.last());
        if stale_count(events, stale_before) == 0 {
            assert forall|k: int| 0 <= k < events.len() implies !((#[trigger] events[k]).status
                == EventStatus::Processing && events[k].updated_at <= stale_before) by {
                if k < front.len() {
                    assert(front[k] == events[k]);
                }
            }
        } else if stale_count(front, stale_before) != 0 {
            let k = choose|k: int|
                0 <= k < front.len() && (#[trigger] front[k]).status == EventStatus::Processing
                    && front[k].updated_at <= stale_before;
            assert(events[k] == front[k]);
        }
    }
}

/// A recovery counts what it returns: one more stale event, one more in the count.
pub proof fn law_recoveries_are_counted(
    store: StoreModel,
    event: EventModel,
    stale_before: i64,
    now: i64,
)
    ensures
        ({
            let more = StoreModel { events: store.events.push(event), ..store };
            let operation = WriteOperation::RecoverInterrupted { stale_before, now };
            served(more, operation).1 == Outcome::Count(
                (served(store, operation).1->Count_0 + (if event.status == EventStatus::Processing
                    && event.updated_at <= stale_before {
                    1int
                } else {
                    0int
                })) as nat,
            )
        }),
{
    assert(store.events.push(event).drop_last() =~= store.events);
}

// ---------------------------------------------------------------------------------------------
// The beginning of a run
// ---------------------------------------------------------------------------------------------

/// A run that begins has a number that no run had, belongs to the event, and takes over what the
/// event says of its dispatch: what it is put down to, which run it follows, and for when it was
/// scheduled. It has not ended. The event then says nothing of the next dispatch; every other run
/// and event stays.
pub proof fn law_runs_begin_with_the_dispatch_of_their_event(
    store: StoreModel,
    attempt: u32,
    now: i64,
    k: int,
    j: int,
)
    requires
        numbered(store.events),
        0 <= k < store.events.len(),
        0 <= j < store.events.len(),
    ensures
        ({
            let was = store.events[k];
            let (after, outcome) = served(
                store,
                WriteOperation::StartRun { event_id: was.id, attempt, now },
            );
            let is = after.events[k];
            match outcome {
                Outcome::Started(id) => {
                    let run = after.runs.last();
                    &&& forall|r: int| 0 <= r < store.runs.len() ==> (#[trigger] store.runs[r]).id != id
                    &&& after.runs.len() == store.runs.len() + 1
                    &&& after.runs.drop_last() == store.runs
                    &&& run.id == id
                    &&& run.event_id == was.id
                    &&& run.attempt == attempt
                    &&& run.started_at == now
                    &&& run.last_activity_at == now
                    &&& run.ended_at is None
                    &&& run.outcome is None
                    &&& run.termination_reason is None
                    &&& run.failure_category is None
                    &&& run.conclusion is None
                    &&& run.model_id is None
                    &&& run.dispatch_trigger == Some(was.next_dispatch_trigger)
                    &&& run.dispatch_prior_run_id == was.next_dispatch_prior_run_id
                    &&& run.dispatch_scheduled_for == was.next_attempt_at
                    &&& run.turn_count == 0
                    &&& run.retry_count == 0
                    &&& run.compaction_count == 0
                    &&& run.telemetry_version == Some(2i64)
                    &&& run.telemetry_completeness == "partial"@
                    &&& is.next_dispatch_trigger == DispatchTrigger::Unknown
                    &&& is.next_dispatch_prior_run_id is None
                    &&& is.status == was.status
                    &&& is.attempt_count == was.attempt_count
                    &&& is.payload == was.payload
                    &&& is.next_attempt_at == was.next_attempt_at
                    &&& is.updated_at == was.updated_at
                    &&& j != k ==> after.events[j] == store.events[j]
                    &&& after.entities == store.entities
                    &&& after.turns == store.turns
                    &&& after.steps == store.steps
                },
                Outcome::Refused(Fault::Full) => after == store && exists|r: int|
                    0 <= r < store.runs.len() && (#[trigger] store.runs[r]).id == i64::MAX,
                _ => false,
            }
        }),
{
    let was = store.events[k];
    let ids = store.runs.map_values(|run: RunModel| run.id);
    lemma_only_event(store.events, k);
    law_fresh_ids_are_new(ids);
    assert forall|i: int| 0 <= i < store.events.len() && i != k implies (
    #[trigger] store.events[i]).id != was.id by {
        if i < k {
            assert(store.events[i].id != store.events[k].id);
        } else {
            assert(store.events[k].id != store.events[i].id);
        }
    }
    let after = served(store, WriteOperation::StartRun { event_id: was.id, attempt, now }).0;
    match fresh(ids) {
        Some(id) => {
            assert forall|r: int| 0 <= r < store.runs.len() implies (#[trigger] store.runs[r]).id
                != id by {
                assert(ids[r] == store.runs[r].id);
                assert(ids.contains(ids[r]));
            }
            assert(after.runs.drop_last() =~= store.runs);
        },
        None => {
            lemma_largest(ids);
            let r = choose|r: int| 0 <= r < ids.len() && ids[r] == i64::MAX;
            assert(store.runs[r].id == i64::MAX);
        },
    }
}

proof fn lemma_no_runs(runs: Seq<RunModel>, event_id: i64)
    requires
        forall|r: int| 0 <= r < runs.len() ==> (#[trigger] runs[r]).event_id != event_id,
    ensures
        runs_of(runs, event_id) == 0,
    decreases runs.len(),
{
    if runs.len() > 0 {
        let front = runs.drop_last();
        assert forall|r: int| 0 <= r < front.len() implies (#[trigger] front[r]).event_id
            != event_id by {
            assert(front[r] == runs[r]);
        }
        lemma_no_runs(front, event_id);
        assert(runs[runs.len() - 1].event_id != event_id);
    }
}

/// The runs of an event are counted from one, each one more than the one before, whatever runs
/// other events have.
pub proof fn law_runs_of_an_event_are_counted(
    store: StoreModel,
    attempt: u32,
    now: i64,
    k: int,
)
    requires
        numbered(store.events),
        0 <= k < store.events.len(),
        store.runs.len() < u32::MAX,
        served(
            store,
            WriteOperation::StartRun { event_id: store.events[k].id, attempt, now },
        ).1 is Started,
    ensures
        ({
            let id = store.events[k].id;
            let operation = WriteOperation::StartRun { event_id: id, attempt, now };
            let once = served(store, operation).0;
            let (twice, outcome) = served(once, operation);
            &&& (forall|r: int|
                0 <= r < store.runs.len() ==> (#[trigger] store.runs[r]).event_id != id)
                ==> once.runs.last().dispatch_sequence == Some(1u64)
            &&& once.runs.last().dispatch_sequence is Some
            &&& outcome is Started ==> twice.runs.last().dispatch_sequence == Some(
                (once.runs.last().dispatch_sequence->0 + 1) as u64,
            )
        }),
{
    let id = store.events[k].id;
    let operation = WriteOperation::StartRun { event_id: id, attempt, now };
    lemma_only_event(store.events, k);
    let once = served(store, operation).0;
    lemma_event_place(once.events, id, 0);
    assert(once.events[k].id == id);
    let i = event_place(once.events, id, 0)->0;
    assert(once.events[i].id == store.events[i].id);
    assert(i == k) by {
        if i < k {
            assert(store.events[i].id != store.events[k].id);
        } else if k < i {
            assert(store.events[k].id != store.events[i].id);
        }
    }
    assert(once.runs.drop_last() =~= store.runs);
    lemma_runs_of_bound(store.runs, id);
    if forall|r: int| 0 <= r < store.runs.len() ==> (#[trigger] store.runs[r]).event_id != id {
        lemma_no_runs(store.runs, id);
    }
}

proof fn lemma_runs_of_bound(runs: Seq<RunModel>, event_id: i64)
    ensures
        runs_of(runs, event_id) <= runs.len(),
    decreases runs.len(),
{
    if runs.len() > 0 {
        lemma_runs_of_bound(runs.drop_last(), event_id);
    }
}

// ---------------------------------------------------------------------------------------------
// What a claim is put down to
// ---------------------------------------------------------------------------------------------

proof fn lemma_claim(events: Seq<EventModel>, now: i64, n: int)
    requires
        0 <= n <= events.len(),
    ensures
        next_claim(events, now, n) matches Some(i) ==> 0 <= i < n,
    decreases n,
{
    if n > 0 {
        lemma_claim(events, now, n - 1);
    }
}

/// A claim is put down to the run that it supersedes where the event has one that goes on.
/// Otherwise it is put down to what the event says, and where that is unknown, to an injection, to
/// a run before, to another event of the entity, or to the first sight of it. It names the run
/// that the event names, or the event's last one.
pub proof fn law_claims_name_their_cause(store: StoreModel, now: i64, k: int)
    requires
        numbered(store.events),
        0 <= k < store.events.len(),
        served(store, WriteOperation::ClaimNext { now }).1 == Outcome::Claimed(
            Some(store.events[k].id),
        ),
    ensures
        ({
            let was = store.events[k];
            let is = served(store, WriteOperation::ClaimNext { now }).0.events[k];
            let superseding = exists|r: int|
                0 <= r < store.runs.len() && (#[trigger] store.runs[r]).event_id == was.id
                    && store.runs[r].ended_at is None;
            let tried = exists|r: int|
                0 <= r < store.runs.len() && (#[trigger] store.runs[r]).event_id == was.id;
            let revised = exists|j: int|
                0 <= j < store.events.len() && (#[trigger] store.events[j]).entity_id
                    == was.entity_id && j != k;
            &&& is.next_dispatch_trigger == (if superseding {
                DispatchTrigger::SupersedingClaim
            } else if was.next_dispatch_trigger != DispatchTrigger::Unknown {
                was.next_dispatch_trigger
            } else if was.source == Some("manual-injection"@) {
                DispatchTrigger::ManualInjection
            } else if tried {
                DispatchTrigger::BackoffRetry
            } else if revised {
                DispatchTrigger::Revision
            } else {
                DispatchTrigger::Initial
            })
            &&& !superseding && was.next_dispatch_prior_run_id is Some
                ==> is.next_dispatch_prior_run_id == was.next_dispatch_prior_run_id
            &&& superseding || was.next_dispatch_prior_run_id is None ==> (
            match is.next_dispatch_prior_run_id {
                Some(id) => (exists|r: int|
                    0 <= r < store.runs.len() && (#[trigger] store.runs[r]).event_id == was.id
                        && store.runs[r].id == id) && forall|r: int|
                    0 <= r < store.runs.len() && (#[trigger] store.runs[r]).event_id == was.id
                        ==> store.runs[r].id <= id,
                None => !tried,
            })
        }),
{
    let was = store.events[k];
    lemma_claim(store.events, now, store.events.len() as int);
    let i = next_claim(store.events, now, store.events.len() as int)->0;
    if i < k {
        assert(store.events[i].id != store.events[k].id);
    } else if k < i {
        assert(store.events[k].id != store.events[i].id);
    }
    lemma_last_run(store.runs, was.id);
    lemma_open_run(store.runs, was.id);
    assert forall|j: int|
        0 <= j < store.events.len() && (#[trigger] store.events[j]).entity_id
            == was.entity_id implies (j != k <==> store.events[j].id != was.id) by {
        if j < k {
            assert(store.events[j].id != store.events[k].id);
        } else if k < j {
            assert(store.events[k].id != store.events[j].id);
        }
    }
}

/// A run that goes on when its event is taken up again, or when its event is found interrupted,
/// ends as interrupted, now and for that reason, with a conclusion that says so. A run that had
/// ended, and one of another event, stays as it is.
pub proof fn law_abandoned_runs_are_interrupted(
    store: StoreModel,
    stale_before: i64,
    now: i64,
    r: int,
)
    requires
        0 <= r < store.runs.len(),
        forall|a: int, b: int|
            0 <= a < b < store.runs.len() ==> (#[trigger] store.runs[a]).id != (
            #[trigger] store.runs[b]).id,
    ensures
        ({
            let (after, outcome) = served(store, WriteOperation::ClaimNext { now });
            let was = store.runs[r];
            let is = after.runs[r];
            outcome matches Outcome::Claimed(Some(id)) ==> if was.event_id == id
                && was.ended_at is None {
                &&& is.id == was.id
                &&& is.event_id == was.event_id
                &&& is.started_at == was.started_at
                &&& is.ended_at == Some(now)
                &&& is.outcome == Some(RunOutcome::Interrupted)
                &&& is.termination_reason == Some("superseded_attempt"@)
                &&& is.failure_category == Some("interrupted"@)
                &&& is.telemetry_completeness == "partial"@
                &&& is.conclusion is Some
                &&& is.conclusion->0.decision == TriageDecision::Canceled
            } else {
                is == was
            }
        }),
        ({
            let after = served(
                store,
                WriteOperation::RecoverInterrupted { stale_before, now },
            ).0;
            let was = store.runs[r];
            let is = after.runs[r];
            let stale = exists|k: int|
                0 <= k < store.events.len() && (#[trigger] store.events[k]).id == was.event_id
                    && store.events[k].status == EventStatus::Processing
                    && store.events[k].updated_at <= stale_before;
            if stale && was.ended_at is None {
                &&& is.id == was.id
                &&& is.event_id == was.event_id
                &&& is.started_at == was.started_at
                &&& is.ended_at == Some(now)
                &&& is.outcome == Some(RunOutcome::Interrupted)
                &&& is.termination_reason == Some("process_exit"@)
                &&& is.failure_category == Some("interrupted"@)
                &&& is.telemetry_completeness == "partial"@
                &&& is.conclusion is Some
                &&& is.conclusion->0.decision == TriageDecision::Canceled
            } else {
                is == was
            }
        }),
{
    let was = store.runs[r];
    lemma_claim(store.events, now, store.events.len() as int);
    if let Some(i) = next_claim(store.events, now, store.events.len() as int) {
        let id = store.events[i].id;
        lemma_open_run(store.runs, id);
        assert(open_runs(store.runs, id).contains(was.id) <==> was.event_id == id
            && was.ended_at is None) by {
            if open_runs(store.runs, id).contains(was.id) {
                let q = choose|q: int|
                    0 <= q < store.runs.len() && (#[trigger] store.runs[q]).event_id == id
                        && store.runs[q].ended_at is None && store.runs[q].id == was.id;
                if q < r {
                    assert(store.runs[q].id != store.runs[r].id);
                } else if r < q {
                    assert(store.runs[r].id != store.runs[q].id);
                }
            }
        }
    }
    lemma_stale_run(store.runs, store.events, stale_before);
    let ids = stale_runs(store.runs, store.events, stale_before);
    assert(ids.contains(was.id) <==> was.ended_at is None && stale_event(
        store.events,
        was.event_id,
        stale_before,
    )) by {
        if ids.contains(was.id) {
            let q = choose|q: int|
                0 <= q < store.runs.len() && (#[trigger] store.runs[q]).ended_at is None
                    && stale_event(store.events, store.runs[q].event_id, stale_before)
                    && store.runs[q].id == was.id;
            if q < r {
                assert(store.runs[q].id != store.runs[r].id);
            } else if r < q {
                assert(store.runs[r].id != store.runs[q].id);
            }
        }
    }
}

proof fn lemma_stale_run(runs: Seq<RunModel>, events: Seq<EventModel>, stale_before: i64)
    ensures
        forall|id: i64|
            stale_runs(runs, events, stale_before).contains(id) <==> exists|r: int|
                0 <= r < runs.len() && (#[trigger] runs[r]).ended_at is None && stale_event(
                    events,
                    runs[r].event_id,
                    stale_before,
                ) && runs[r].id == id,
    decreases runs.len(),
{
    let all = stale_runs(runs, events, stale_before);
    if runs.len() > 0 {
        let front = runs.drop_last();
        let before = stale_runs(front, events, stale_before);
        lemma_stale_run(front, events, stale_before);
        let last = runs.len() - 1;
        assert(runs[last] == runs.last());
        assert forall|id: i64|
            all.contains(id) <==> exists|r: int|
                0 <= r < runs.len() && (#[trigger] runs[r]).ended_at is None && stale_event(
                    events,
                    runs[r].event_id,
                    stale_before,
                ) && runs[r].id == id by {
            if all.contains(id) {
                let place = choose|i: int| 0 <= i < all.len() && all[i] == id;
                if place < before.len() {
                    assert(before[place] == id);
                    assert(before.contains(id));
                    let r = choose|r: int|
                        0 <= r < front.len() && (#[trigger] front[r]).ended_at is None
                            && stale_event(events, front[r].event_id, stale_before) && front[r].id
                            == id;
                    assert(runs[r] == front[r]);
                } else {
                    assert(runs[last].id == id);
                }
            }
            if exists|r: int|
                0 <= r < runs.len() && (#[trigger] runs[r]).ended_at is None && stale_event(
                    events,
                    runs[r].event_id,
                    stale_before,
                ) && runs[r].id == id {
                let r = choose|r: int|
                    0 <= r < runs.len() && (#[trigger] runs[r]).ended_at is None && stale_event(
                        events,
                        runs[r].event_id,
                        stale_before,
                    ) && runs[r].id == id;
                if r < last {
                    assert(front[r] == runs[r]);
                    assert(before.contains(id));
                    let place = choose|i: int| 0 <= i < before.len() && before[i] == id;
                    assert(all[place] == id);
                } else {
                    assert(all[all.len() - 1] == id);
                }
            }
        }
    }
}

} // verus!
