//! The queue: what sources report, which event is taken up next, and what becomes of it.
use vstd::prelude::*;

use crate::database::records::{
    clamped, rfc3339, saturating_i64, timestamp, DatabaseError, DispatchTrigger, EventRecord,
    EventStatus, RunId, FIRST_MOMENT, LAST_MOMENT,
};
use crate::database::runs::{full, interruption, with_ended_runs};
use crate::database::tables::{
    entity_models, event_models, fresh, fresh_id, run_models, EntityModel, EntityRow, EventModel,
    EventRow, RunModel, RunRow, Store, StoreModel,
};
use crate::text;

verus! {

fn no_more_ids() -> (error: DatabaseError)
    ensures
        full(error),
{
    DatabaseError::Sqlite("database or disk is full".to_owned())
}

// ---------------------------------------------------------------------------------------------
// Lookups
// ---------------------------------------------------------------------------------------------

/// The place of the first event with this number from `from` on.
pub open spec fn event_place(events: Seq<EventModel>, id: i64, from: int) -> Option<int>
    decreases events.len() - from,
{
    if from < 0 || from >= events.len() {
        None
    } else if events[from].id == id {
        Some(from)
    } else {
        event_place(events, id, from + 1)
    }
}

pub(crate) fn find_event(rows: &Vec<EventRow>, id: i64) -> (place: Option<usize>)
    ensures
        match place {
            Some(i) => i < rows@.len() && rows@[i as int].id == id && event_place(
                event_models(rows@),
                id,
                0,
            ) == Some(i as int),
            None => event_place(event_models(rows@), id, 0) is None,
        },
{
    let ghost models = event_models(rows@);
    let mut i: usize = 0;
    while i < rows.len()
        invariant
            i <= rows@.len(),
            models == event_models(rows@),
            event_place(models, id, 0) == event_place(models, id, i as int),
        decreases rows@.len() - i,
    {
        assert(models[i as int] == rows@[i as int]@);
        if rows[i].id == id {
            return Some(i);
        }
        i += 1;
    }
    None
}

/// The place of the first entity with this number from `from` on.
pub open spec fn entity_place(entities: Seq<EntityModel>, id: i64, from: int) -> Option<int>
    decreases entities.len() - from,
{
    if from < 0 || from >= entities.len() {
        None
    } else if entities[from].id == id {
        Some(from)
    } else {
        entity_place(entities, id, from + 1)
    }
}

pub(crate) fn find_entity(rows: &Vec<EntityRow>, id: i64) -> (place: Option<usize>)
    ensures
        match place {
            Some(i) => i < rows@.len() && entity_place(entity_models(rows@), id, 0) == Some(
                i as int,
            ),
            None => entity_place(entity_models(rows@), id, 0) is None,
        },
{
    let ghost models = entity_models(rows@);
    let mut i: usize = 0;
    while i < rows.len()
        invariant
            i <= rows@.len(),
            models == entity_models(rows@),
            entity_place(models, id, 0) == entity_place(models, id, i as int),
        decreases rows@.len() - i,
    {
        assert(models[i as int] == rows@[i as int]@);
        if rows[i].id == id {
            return Some(i);
        }
        i += 1;
    }
    None
}

/// The largest number of a run of the event.
pub open spec fn last_run(runs: Seq<RunModel>, event_id: i64) -> Option<i64>
    decreases runs.len(),
{
    if runs.len() == 0 {
        None
    } else {
        let before = last_run(runs.drop_last(), event_id);
        if runs.last().event_id == event_id && (match before {
            Some(id) => runs.last().id > id,
            None => true,
        }) {
            Some(runs.last().id)
        } else {
            before
        }
    }
}

pub(crate) fn find_last_run(rows: &Vec<RunRow>, event_id: i64) -> (id: Option<i64>)
    ensures
        id == last_run(run_models(rows@), event_id),
{
    let ghost models = run_models(rows@);
    let mut found: Option<i64> = None;
    let mut i: usize = 0;
    while i < rows.len()
        invariant
            i <= rows@.len(),
            models == run_models(rows@),
            found == last_run(models.take(i as int), event_id),
        decreases rows@.len() - i,
    {
        assert(models.take(i + 1).drop_last() =~= models.take(i as int));
        assert(models.take(i + 1).last() == rows@[i as int]@);
        if rows[i].event_id == event_id {
            let larger = match found {
                Some(id) => rows[i].id > id,
                None => true,
            };
            if larger {
                found = Some(rows[i].id);
            }
        }
        i += 1;
    }
    assert(models.take(i as int) =~= models);
    found
}

/// How many runs the event has had.
pub open spec fn runs_of(runs: Seq<RunModel>, event_id: i64) -> nat
    decreases runs.len(),
{
    if runs.len() == 0 {
        0
    } else if runs.last().event_id == event_id {
        runs_of(runs.drop_last(), event_id) + 1
    } else {
        runs_of(runs.drop_last(), event_id)
    }
}

fn count_runs(rows: &Vec<RunRow>, event_id: i64) -> (n: usize)
    ensures
        n == runs_of(run_models(rows@), event_id),
        n <= rows@.len(),
{
    let ghost models = run_models(rows@);
    let mut n: usize = 0;
    let mut i: usize = 0;
    while i < rows.len()
        invariant
            n <= i <= rows@.len(),
            models == run_models(rows@),
            n == runs_of(models.take(i as int), event_id),
        decreases rows@.len() - i,
    {
        assert(models.take(i + 1).drop_last() =~= models.take(i as int));
        assert(models.take(i + 1).last() == rows@[i as int]@);
        if rows[i].event_id == event_id {
            n += 1;
        }
        i += 1;
    }
    assert(models.take(i as int) =~= models);
    n
}

// ---------------------------------------------------------------------------------------------
// An event as it is handed out
// ---------------------------------------------------------------------------------------------

/// The moment as it is written. None where there is none, and an error where it cannot be
/// represented.
pub open spec fn written_moment(moment: Option<i64>) -> Option<Option<Seq<char>>> {
    match moment {
        None => Some(None),
        Some(moment) => match rfc3339(moment) {
            Some(value) => Some(Some(value)),
            None => None,
        },
    }
}

/// Whether the record states the event and its entity.
pub open spec fn states(record: EventRecord, event: EventModel, entity: EntityModel) -> bool {
    &&& record.id == event.id
    &&& record.source@ == (match event.source {
        Some(source) => source,
        None => entity.source,
    })
    &&& record.entity_id@ == entity.external_id
    &&& record.revision_id@ == event.revision_id
    &&& record.kind@ == entity.kind
    &&& record.title@ == entity.title
    &&& text::opt_text(record.payload) == event.payload
    &&& record.operational_metadata@ == entity.operational_metadata
    &&& record.occurred_at@ == event.occurred_at
    &&& rfc3339(event.observed_at) == Some(record.observed_at@)
    &&& record.status == event.status
    &&& record.attempt_count == event.attempt_count
    &&& written_moment(event.next_attempt_at) == Some(text::opt_text(record.next_attempt_at))
    &&& text::opt_text(record.last_error) == event.last_error
    &&& text::opt_text(record.aven_ref) == entity.aven_ref
    &&& text::opt_text(record.investigation_handle) == entity.investigation_handle
}

/// The event with this number and its entity. None where one of them is not there.
pub open spec fn joined(store: StoreModel, id: i64) -> Option<(EventModel, EntityModel)> {
    match event_place(store.events, id, 0) {
        None => None,
        Some(i) => match entity_place(store.entities, store.events[i].entity_id, 0) {
            None => None,
            Some(j) => Some((store.events[i], store.entities[j])),
        },
    }
}

/// Whether the moments of the event can be written.
pub open spec fn moments_fit(event: EventModel) -> bool {
    rfc3339(event.observed_at) is Some && written_moment(event.next_attempt_at) is Some
}

/// What is said of a moment that cannot be written.
pub open spec fn is_out_of_range(error: DatabaseError) -> bool {
    error matches DatabaseError::InvalidValue(message) && message@ == "timestamp is out of range"@
}

/// The moment as it is written.
pub fn write_moment(moment: i64) -> (result: Result<String, DatabaseError>)
    ensures
        match result {
            Ok(value) => rfc3339(moment) == Some(value@),
            Err(error) => rfc3339(moment) is None && is_out_of_range(error),
        },
{
    match timestamp(moment) {
        Some(value) => Ok(value),
        None => Err(DatabaseError::InvalidValue("timestamp is out of range".to_owned())),
    }
}

/// The moment as it is written, where there is one.
pub fn write_opt_moment(moment: Option<i64>) -> (result: Result<Option<String>, DatabaseError>)
    ensures
        match result {
            Ok(value) => written_moment(moment) == Some(text::opt_text(value)),
            Err(error) => written_moment(moment) is None && is_out_of_range(error),
        },
{
    match moment {
        None => Ok(None),
        Some(moment) => match write_moment(moment) {
            Ok(value) => Ok(Some(value)),
            Err(error) => Err(error),
        },
    }
}

/// The event and its entity as they are handed out.
pub fn event_record(event: &EventRow, entity: &EntityRow) -> (result: Result<
    EventRecord,
    DatabaseError,
>)
    ensures
        match result {
            Ok(record) => moments_fit(event@) && states(record, event@, entity@),
            Err(error) => !moments_fit(event@) && is_out_of_range(error),
        },
{
    let observed_at = write_moment(event.observed_at)?;
    let next_attempt_at = write_opt_moment(event.next_attempt_at)?;
    Ok(
        EventRecord {
            id: event.id,
            source: match &event.source {
                Some(source) => source.as_str().to_owned(),
                None => entity.source.as_str().to_owned(),
            },
            entity_id: entity.external_id.as_str().to_owned(),
            revision_id: event.revision_id.as_str().to_owned(),
            kind: entity.kind.as_str().to_owned(),
            title: entity.title.as_str().to_owned(),
            payload: text::copy_opt(&event.payload),
            operational_metadata: entity.operational_metadata.as_str().to_owned(),
            occurred_at: event.occurred_at.as_str().to_owned(),
            observed_at,
            status: event.status,
            attempt_count: event.attempt_count,
            next_attempt_at,
            last_error: text::copy_opt(&event.last_error),
            aven_ref: text::copy_opt(&entity.aven_ref),
            investigation_handle: text::copy_opt(&entity.investigation_handle),
        },
    )
}

impl Store {
    /// The event with this number, as it is handed out. None where it or its entity is not
    /// there.
    pub fn event(&self, id: i64) -> (result: Result<Option<EventRecord>, DatabaseError>)
        ensures
            match joined(self@, id) {
                None => result matches Ok(None),
                Some((event, entity)) => if moments_fit(event) {
                    result matches Ok(Some(record)) && states(record, event, entity)
                } else {
                    result matches Err(error) && is_out_of_range(error)
                },
            },
    {
        let i = match find_event(&self.events, id) {
            Some(i) => i,
            None => {
                return Ok(None);
            },
        };
        assert(self@.events[i as int] == self.events@[i as int]@);
        let j = match find_entity(&self.entities, self.events[i].entity_id) {
            Some(j) => j,
            None => {
                return Ok(None);
            },
        };
        assert(self@.entities[j as int] == self.entities@[j as int]@);
        match event_record(&self.events[i], &self.entities[j]) {
            Ok(record) => Ok(Some(record)),
            Err(error) => Err(error),
        }
    }
}

// ---------------------------------------------------------------------------------------------
// The next event
// ---------------------------------------------------------------------------------------------

/// Whether an event with this status still waits for its end.
pub open spec fn unsettled(status: EventStatus) -> bool {
    status == EventStatus::Pending || status == EventStatus::Retryable || status
        == EventStatus::Processing
}

/// Whether the first event was observed before the second one.
pub open spec fn earlier(a: EventModel, b: EventModel) -> bool {
    a.observed_at < b.observed_at || (a.observed_at == b.observed_at && a.id < b.id)
}

/// Whether the event waits to be taken up and its time has come.
pub open spec fn due(event: EventModel, now: i64) -> bool {
    (event.status == EventStatus::Pending || event.status == EventStatus::Retryable) && (
    match event.next_attempt_at {
        Some(moment) => moment <= now,
        None => true,
    })
}

/// Whether an earlier event of the same entity is not settled yet.
pub open spec fn blocked(events: Seq<EventModel>, event: EventModel) -> bool {
    exists|k: int|
        0 <= k < events.len() && (#[trigger] events[k]).entity_id == event.entity_id && unsettled(
            events[k].status,
        ) && earlier(events[k], event)
}

/// Whether the event may be taken up.
pub open spec fn claimable(events: Seq<EventModel>, i: int, now: i64) -> bool {
    due(events[i], now) && !blocked(events, events[i])
}

/// The earliest of the first `n` events that may be taken up.
pub open spec fn next_claim(events: Seq<EventModel>, now: i64, n: int) -> Option<int>
    decreases n,
{
    if n <= 0 || n > events.len() {
        None
    } else {
        let before = next_claim(events, now, n - 1);
        if claimable(events, n - 1, now) && (match before {
            Some(i) => earlier(events[n - 1], events[i]),
            None => true,
        }) {
            Some(n - 1)
        } else {
            before
        }
    }
}

fn is_earlier(a: &EventRow, b: &EventRow) -> (r: bool)
    ensures
        r == earlier(a@, b@),
{
    a.observed_at < b.observed_at || (a.observed_at == b.observed_at && a.id < b.id)
}

fn is_due(event: &EventRow, now: i64) -> (r: bool)
    ensures
        r == due(event@, now),
{
    match event.status {
        EventStatus::Pending => {},
        EventStatus::Retryable => {},
        _ => {
            return false;
        },
    }
    match event.next_attempt_at {
        Some(moment) => moment <= now,
        None => true,
    }
}

fn is_unsettled(status: EventStatus) -> (r: bool)
    ensures
        r == unsettled(status),
{
    match status {
        EventStatus::Pending => true,
        EventStatus::Retryable => true,
        EventStatus::Processing => true,
        _ => false,
    }
}

fn is_blocked(rows: &Vec<EventRow>, i: usize) -> (r: bool)
    requires
        i < rows@.len(),
    ensures
        r == blocked(event_models(rows@), event_models(rows@)[i as int]),
{
    let ghost models = event_models(rows@);
    let mut k: usize = 0;
    while k < rows.len()
        invariant
            i < rows@.len(),
            k <= rows@.len(),
            models == event_models(rows@),
            forall|m: int|
                0 <= m < k ==> !((#[trigger] models[m]).entity_id == models[i as int].entity_id
                    && unsettled(models[m].status) && earlier(models[m], models[i as int])),
        decreases rows@.len() - k,
    {
        assert(models[k as int] == rows@[k as int]@ && models[i as int] == rows@[i as int]@);
        if rows[k].entity_id == rows[i].entity_id && is_unsettled(rows[k].status) && is_earlier(
            &rows[k],
            &rows[i],
        ) {
            return true;
        }
        k += 1;
    }
    false
}

fn find_next(rows: &Vec<EventRow>, now: i64) -> (place: Option<usize>)
    ensures
        match place {
            Some(i) => i < rows@.len() && next_claim(
                event_models(rows@),
                now,
                rows@.len() as int,
            ) == Some(i as int),
            None => next_claim(event_models(rows@), now, rows@.len() as int) is None,
        },
{
    let ghost models = event_models(rows@);
    let mut found: Option<usize> = None;
    let mut n: usize = 0;
    while n < rows.len()
        invariant
            n <= rows@.len(),
            models == event_models(rows@),
            match found {
                Some(i) => i < n && next_claim(models, now, n as int) == Some(i as int),
                None => next_claim(models, now, n as int) is None,
            },
        decreases rows@.len() - n,
    {
        assert(models[n as int] == rows@[n as int]@);
        if is_due(&rows[n], now) && !is_blocked(rows, n) {
            let better = match found {
                Some(i) => {
                    assert(models[i as int] == rows@[i as int]@);
                    is_earlier(&rows[n], &rows[i])
                },
                None => true,
            };
            if better {
                found = Some(n);
            }
        }
        n += 1;
    }
    found
}

/// The numbers of the runs of an event that have not ended.
pub open spec fn open_runs(runs: Seq<RunModel>, event_id: i64) -> Seq<i64>
    decreases runs.len(),
{
    if runs.len() == 0 {
        Seq::empty()
    } else if runs.last().event_id == event_id && runs.last().ended_at is None {
        open_runs(runs.drop_last(), event_id).push(runs.last().id)
    } else {
        open_runs(runs.drop_last(), event_id)
    }
}

fn find_open_runs(rows: &Vec<RunRow>, event_id: i64) -> (ids: Vec<i64>)
    ensures
        ids@ == open_runs(run_models(rows@), event_id),
{
    let ghost models = run_models(rows@);
    let mut ids: Vec<i64> = Vec::new();
    let mut i: usize = 0;
    while i < rows.len()
        invariant
            i <= rows@.len(),
            models == run_models(rows@),
            ids@ == open_runs(models.take(i as int), event_id),
        decreases rows@.len() - i,
    {
        assert(models.take(i + 1).drop_last() =~= models.take(i as int));
        assert(models.take(i + 1).last() == rows@[i as int]@);
        if rows[i].event_id == event_id && rows[i].ended_at.is_none() {
            ids.push(rows[i].id);
        }
        i += 1;
    }
    assert(models.take(i as int) =~= models);
    ids
}

/// Whether the entity has another event than this one.
pub open spec fn has_other_event(events: Seq<EventModel>, event: EventModel) -> bool {
    exists|k: int|
        0 <= k < events.len() && (#[trigger] events[k]).entity_id == event.entity_id
            && events[k].id != event.id
}

fn is_other_event(rows: &Vec<EventRow>, i: usize) -> (r: bool)
    requires
        i < rows@.len(),
    ensures
        r == has_other_event(event_models(rows@), event_models(rows@)[i as int]),
{
    let ghost models = event_models(rows@);
    let mut k: usize = 0;
    while k < rows.len()
        invariant
            i < rows@.len(),
            k <= rows@.len(),
            models == event_models(rows@),
            forall|m: int|
                0 <= m < k ==> !((#[trigger] models[m]).entity_id == models[i as int].entity_id
                    && models[m].id != models[i as int].id),
        decreases rows@.len() - k,
    {
        assert(models[k as int] == rows@[k as int]@ && models[i as int] == rows@[i as int]@);
        if rows[k].entity_id == rows[i].entity_id && rows[k].id != rows[i].id {
            return true;
        }
        k += 1;
    }
    false
}

/// What the dispatch of an event is put down to.
pub open spec fn claim_trigger(store: StoreModel, event: EventModel) -> DispatchTrigger {
    if open_runs(store.runs, event.id).len() > 0 {
        DispatchTrigger::SupersedingClaim
    } else if event.next_dispatch_trigger != DispatchTrigger::Unknown {
        event.next_dispatch_trigger
    } else if event.source == Some("manual-injection"@) {
        DispatchTrigger::ManualInjection
    } else if last_run(store.runs, event.id) is Some {
        DispatchTrigger::BackoffRetry
    } else if has_other_event(store.events, event) {
        DispatchTrigger::Revision
    } else {
        DispatchTrigger::Initial
    }
}

/// The run that the dispatch of an event follows.
pub open spec fn claim_prior(store: StoreModel, event: EventModel) -> Option<i64> {
    if open_runs(store.runs, event.id).len() > 0 || event.next_dispatch_prior_run_id is None {
        last_run(store.runs, event.id)
    } else {
        event.next_dispatch_prior_run_id
    }
}

/// The event, once the one with this number has been taken up.
pub open spec fn claimed(
    event: EventModel,
    id: i64,
    trigger: DispatchTrigger,
    prior: Option<i64>,
    now: i64,
) -> EventModel {
    if event.id == id {
        EventModel {
            status: EventStatus::Processing,
            attempt_count: (event.attempt_count + 1) as u32,
            next_dispatch_trigger: trigger,
            next_dispatch_prior_run_id: prior,
            updated_at: now,
            ..event
        }
    } else {
        event
    }
}

/// The store, once the event at this place has been taken up: runs that it still had are ended.
pub open spec fn with_claim(store: StoreModel, i: int, now: i64) -> StoreModel {
    let event = store.events[i];
    let ended = with_ended_runs(
        store,
        open_runs(store.runs, event.id),
        interruption("superseded_attempt"@),
        now,
    );
    StoreModel {
        events: store.events.map_values(
            |row: EventModel|
                claimed(
                    row,
                    event.id,
                    claim_trigger(store, event),
                    claim_prior(store, event),
                    now,
                ),
        ),
        ..ended
    }
}

/// Whether no event with this number has been taken up as often as can be counted.
pub open spec fn attempts_left(events: Seq<EventModel>, id: i64) -> bool {
    forall|k: int|
        0 <= k < events.len() && (#[trigger] events[k]).id == id ==> events[k].attempt_count
            < u32::MAX
}

fn has_attempts_left(rows: &Vec<EventRow>, id: i64) -> (r: bool)
    ensures
        r == attempts_left(event_models(rows@), id),
{
    let ghost models = event_models(rows@);
    let mut k: usize = 0;
    while k < rows.len()
        invariant
            k <= rows@.len(),
            models == event_models(rows@),
            forall|m: int|
                0 <= m < k && (#[trigger] models[m]).id == id ==> models[m].attempt_count
                    < u32::MAX,
        decreases rows@.len() - k,
    {
        assert(models[k as int] == rows@[k as int]@);
        if rows[k].id == id && rows[k].attempt_count == u32::MAX {
            return false;
        }
        k += 1;
    }
    true
}

fn claim_events(
    rows: &mut Vec<EventRow>,
    id: i64,
    trigger: DispatchTrigger,
    prior: Option<i64>,
    now: i64,
)
    requires
        attempts_left(event_models(old(rows)@), id),
    ensures
        event_models(final(rows)@) == event_models(old(rows)@).map_values(
            |row: EventModel| claimed(row, id, trigger, prior, now),
        ),
{
    let mut i: usize = 0;
    while i < rows.len()
        invariant
            i <= rows@.len(),
            rows@.len() == old(rows)@.len(),
            attempts_left(event_models(old(rows)@), id),
            forall|k: int|
                0 <= k < i ==> (#[trigger] rows@[k])@ == claimed(
                    old(rows)@[k]@,
                    id,
                    trigger,
                    prior,
                    now,
                ),
            forall|k: int| i <= k < rows@.len() ==> #[trigger] rows@[k] == old(rows)@[k],
        decreases rows@.len() - i,
    {
        assert(event_models(old(rows)@)[i as int] == old(rows)@[i as int]@);
        if rows[i].id == id {
            let attempts = rows[i].attempt_count;
            rows[i].status = EventStatus::Processing;
            rows[i].attempt_count = attempts + 1;
            rows[i].next_dispatch_trigger = trigger;
            rows[i].next_dispatch_prior_run_id = prior;
            rows[i].updated_at = now;
        }
        i += 1;
    }
    assert(event_models(rows@) =~= event_models(old(rows)@).map_values(
        |row: EventModel| claimed(row, id, trigger, prior, now),
    ));
}

impl Store {
    /// Takes up the earliest event whose time has come and that has no earlier unsettled event
    /// of its entity before it. Returns its number. Where it was taken up as often as can be
    /// counted, nothing changes.
    pub fn claim_next(&mut self, now: i64) -> (result: Result<Option<i64>, DatabaseError>)
        ensures
            match next_claim(old(self)@.events, now, old(self)@.events.len() as int) {
                None => {
                    &&& result matches Ok(None)
                    &&& final(self)@ == old(self)@
                },
                Some(i) => if attempts_left(old(self)@.events, old(self)@.events[i].id) {
                    &&& result matches Ok(Some(id)) && id == old(self)@.events[i].id
                    &&& final(self)@ == with_claim(old(self)@, i, now)
                } else {
                    &&& result matches Err(DatabaseError::InvalidValue(message)) && message@
                        == "attempt count is out of range"@
                    &&& final(self)@ == old(self)@
                },
            },
    {
        let ghost start = self@;
        let i = match find_next(&self.events, now) {
            Some(i) => i,
            None => {
                return Ok(None);
            },
        };
        assert(start.events[i as int] == self.events@[i as int]@);
        let id = self.events[i].id;
        if !has_attempts_left(&self.events, id) {
            return Err(DatabaseError::InvalidValue("attempt count is out of range".to_owned()));
        }
        let open = find_open_runs(&self.runs, id);
        let last = find_last_run(&self.runs, id);
        let trigger = if open.len() > 0 {
            DispatchTrigger::SupersedingClaim
        } else if self.events[i].next_dispatch_trigger != DispatchTrigger::Unknown {
            self.events[i].next_dispatch_trigger
        } else if text::is_text(&self.events[i].source, "manual-injection") {
            DispatchTrigger::ManualInjection
        } else if last.is_some() {
            DispatchTrigger::BackoffRetry
        } else if is_other_event(&self.events, i) {
            DispatchTrigger::Revision
        } else {
            DispatchTrigger::Initial
        };
        let prior = if open.len() > 0 || self.events[i].next_dispatch_prior_run_id.is_none() {
            last
        } else {
            self.events[i].next_dispatch_prior_run_id
        };
        self.interrupt_runs(&open, now, "superseded_attempt");
        claim_events(&mut self.events, id, trigger, prior, now);
        Ok(Some(id))
    }
}

// ---------------------------------------------------------------------------------------------
// Recovery
// ---------------------------------------------------------------------------------------------

/// Whether the event is being worked on and nothing has happened to it for long.
pub open spec fn stale(event: EventModel, stale_before: i64) -> bool {
    event.status == EventStatus::Processing && event.updated_at <= stale_before
}

/// Whether the event with this number is stale.
pub open spec fn stale_event(events: Seq<EventModel>, id: i64, stale_before: i64) -> bool {
    exists|k: int|
        0 <= k < events.len() && (#[trigger] events[k]).id == id && stale(
            events[k],
            stale_before,
        )
}

/// The numbers of the runs that have not ended and whose events are stale.
pub open spec fn stale_runs(
    runs: Seq<RunModel>,
    events: Seq<EventModel>,
    stale_before: i64,
) -> Seq<i64>
    decreases runs.len(),
{
    if runs.len() == 0 {
        Seq::empty()
    } else if runs.last().ended_at is None && stale_event(
        events,
        runs.last().event_id,
        stale_before,
    ) {
        stale_runs(runs.drop_last(), events, stale_before).push(runs.last().id)
    } else {
        stale_runs(runs.drop_last(), events, stale_before)
    }
}

/// How many events are stale.
pub open spec fn stale_count(events: Seq<EventModel>, stale_before: i64) -> nat
    decreases events.len(),
{
    if events.len() == 0 {
        0
    } else if stale(events.last(), stale_before) {
        stale_count(events.drop_last(), stale_before) + 1
    } else {
        stale_count(events.drop_last(), stale_before)
    }
}

/// The event, once the stale ones are to be tried again.
pub open spec fn recovered(
    event: EventModel,
    runs: Seq<RunModel>,
    stale_before: i64,
    now: i64,
) -> EventModel {
    if stale(event, stale_before) {
        EventModel {
            status: EventStatus::Retryable,
            next_attempt_at: Some(now),
            last_error: Some("triage interrupted by process exit"@),
            next_dispatch_trigger: DispatchTrigger::RecoveryRetry,
            next_dispatch_prior_run_id: last_run(runs, event.id),
            updated_at: now,
            ..event
        }
    } else {
        event
    }
}

/// The store, once the stale events are to be tried again.
pub open spec fn with_recovery(store: StoreModel, stale_before: i64, now: i64) -> StoreModel {
    let ended = with_ended_runs(
        store,
        stale_runs(store.runs, store.events, stale_before),
        interruption("process_exit"@),
        now,
    );
    StoreModel {
        events: store.events.map_values(
            |event: EventModel| recovered(event, store.runs, stale_before, now),
        ),
        ..ended
    }
}

fn is_stale(event: &EventRow, stale_before: i64) -> (r: bool)
    ensures
        r == stale(event@, stale_before),
{
    match event.status {
        EventStatus::Processing => event.updated_at <= stale_before,
        _ => false,
    }
}

fn is_stale_event(rows: &Vec<EventRow>, id: i64, stale_before: i64) -> (r: bool)
    ensures
        r == stale_event(event_models(rows@), id, stale_before),
{
    let ghost models = event_models(rows@);
    let mut k: usize = 0;
    while k < rows.len()
        invariant
            k <= rows@.len(),
            models == event_models(rows@),
            forall|m: int|
                0 <= m < k ==> !((#[trigger] models[m]).id == id && stale(
                    models[m],
                    stale_before,
                )),
        decreases rows@.len() - k,
    {
        assert(models[k as int] == rows@[k as int]@);
        if rows[k].id == id && is_stale(&rows[k], stale_before) {
            return true;
        }
        k += 1;
    }
    false
}

fn find_stale_runs(rows: &Vec<RunRow>, events: &Vec<EventRow>, stale_before: i64) -> (ids: Vec<
    i64,
>)
    ensures
        ids@ == stale_runs(run_models(rows@), event_models(events@), stale_before),
{
    let ghost models = run_models(rows@);
    let mut ids: Vec<i64> = Vec::new();
    let mut i: usize = 0;
    while i < rows.len()
        invariant
            i <= rows@.len(),
            models == run_models(rows@),
            ids@ == stale_runs(models.take(i as int), event_models(events@), stale_before),
        decreases rows@.len() - i,
    {
        assert(models.take(i + 1).drop_last() =~= models.take(i as int));
        assert(models.take(i + 1).last() == rows@[i as int]@);
        if rows[i].ended_at.is_none() && is_stale_event(events, rows[i].event_id, stale_before) {
            ids.push(rows[i].id);
        }
        i += 1;
    }
    assert(models.take(i as int) =~= models);
    ids
}

fn count_stale(rows: &Vec<EventRow>, stale_before: i64) -> (n: usize)
    ensures
        n == stale_count(event_models(rows@), stale_before),
{
    let ghost models = event_models(rows@);
    let mut n: usize = 0;
    let mut i: usize = 0;
    while i < rows.len()
        invariant
            n <= i <= rows@.len(),
            models == event_models(rows@),
            n == stale_count(models.take(i as int), stale_before),
        decreases rows@.len() - i,
    {
        assert(models.take(i + 1).drop_last() =~= models.take(i as int));
        assert(models.take(i + 1).last() == rows@[i as int]@);
        if is_stale(&rows[i], stale_before) {
            n += 1;
        }
        i += 1;
    }
    assert(models.take(i as int) =~= models);
    n
}

fn recover_events(rows: &mut Vec<EventRow>, runs: &Vec<RunRow>, stale_before: i64, now: i64)
    ensures
        event_models(final(rows)@) == event_models(old(rows)@).map_values(
            |event: EventModel| recovered(event, run_models(runs@), stale_before, now),
        ),
{
    let mut i: usize = 0;
    while i < rows.len()
        invariant
            i <= rows@.len(),
            rows@.len() == old(rows)@.len(),
            forall|k: int|
                0 <= k < i ==> (#[trigger] rows@[k])@ == recovered(
                    old(rows)@[k]@,
                    run_models(runs@),
                    stale_before,
                    now,
                ),
            forall|k: int| i <= k < rows@.len() ==> #[trigger] rows@[k] == old(rows)@[k],
        decreases rows@.len() - i,
    {
        if is_stale(&rows[i], stale_before) {
            let prior = find_last_run(runs, rows[i].id);
            rows[i].status = EventStatus::Retryable;
            rows[i].next_attempt_at = Some(now);
            rows[i].last_error = Some("triage interrupted by process exit".to_owned());
            rows[i].next_dispatch_trigger = DispatchTrigger::RecoveryRetry;
            rows[i].next_dispatch_prior_run_id = prior;
            rows[i].updated_at = now;
        }
        i += 1;
    }
    assert(event_models(rows@) =~= event_models(old(rows)@).map_values(
        |event: EventModel| recovered(event, run_models(runs@), stale_before, now),
    ));
}

/// Ending runs moves no run to another event and changes no number.
pub proof fn lemma_ended_runs_keep_events(
    store: StoreModel,
    ids: Seq<i64>,
    end: crate::database::runs::RunEndModel,
    now: i64,
    event_id: i64,
    n: int,
)
    requires
        0 <= n <= store.runs.len(),
    ensures
        with_ended_runs(store, ids, end, now).runs.len() == store.runs.len(),
        last_run(with_ended_runs(store, ids, end, now).runs.take(n), event_id) == last_run(
            store.runs.take(n),
            event_id,
        ),
    decreases n,
{
    let after = with_ended_runs(store, ids, end, now).runs;
    if n > 0 {
        lemma_ended_runs_keep_events(store, ids, end, now, event_id, n - 1);
        assert(after.take(n).drop_last() =~= after.take(n - 1));
        assert(store.runs.take(n).drop_last() =~= store.runs.take(n - 1));
    }
}

impl Store {
    /// Makes the stale events ready to be tried again and ends their runs. Returns how many
    /// events were stale.
    pub fn recover_interrupted(&mut self, stale_before: i64, now: i64) -> (changed: usize)
        ensures
            changed == stale_count(old(self)@.events, stale_before),
            final(self)@ == with_recovery(old(self)@, stale_before, now),
    {
        let ghost start = self@;
        let ids = find_stale_runs(&self.runs, &self.events, stale_before);
        let changed = count_stale(&self.events, stale_before);
        self.interrupt_runs(&ids, now, "process_exit");
        let ghost ended = self@;
        recover_events(&mut self.events, &self.runs, stale_before, now);
        proof {
            assert forall|k: int| 0 <= k < start.events.len() implies recovered(
                #[trigger] start.events[k],
                ended.runs,
                stale_before,
                now,
            ) == recovered(start.events[k], start.runs, stale_before, now) by {
                lemma_ended_runs_keep_events(
                    start,
                    ids@,
                    interruption("process_exit"@),
                    now,
                    start.events[k].id,
                    start.runs.len() as int,
                );
                assert(ended.runs.take(start.runs.len() as int) =~= ended.runs);
                assert(start.runs.take(start.runs.len() as int) =~= start.runs);
            }
            assert(self@.events =~= with_recovery(start, stale_before, now).events);
        }
        changed
    }
}

// ---------------------------------------------------------------------------------------------
// The start of a run
// ---------------------------------------------------------------------------------------------

/// A run that has begun.
pub open spec fn new_run(
    id: i64,
    event: EventModel,
    attempt: u32,
    sequence: u64,
    now: i64,
) -> RunModel {
    RunModel {
        id,
        event_id: event.id,
        attempt,
        started_at: now,
        ended_at: None,
        last_activity_at: now,
        outcome: None,
        termination_reason: None,
        failure_category: None,
        model_id: None,
        model_provider: None,
        thinking_level: None,
        context_window: None,
        max_tokens: None,
        telemetry_version: Some(2),
        telemetry_completeness: "partial"@,
        dispatch_sequence: Some(sequence),
        dispatch_trigger: Some(event.next_dispatch_trigger),
        dispatch_prior_run_id: event.next_dispatch_prior_run_id,
        dispatch_scheduled_for: event.next_attempt_at,
        conclusion: None,
        turn_count: 0,
        retry_count: 0,
        compaction_count: 0,
    }
}

/// The event, once the dispatch of the one with this number is under way.
pub open spec fn dispatched(event: EventModel, id: i64) -> EventModel {
    if event.id == id {
        EventModel {
            next_dispatch_trigger: DispatchTrigger::Unknown,
            next_dispatch_prior_run_id: None,
            ..event
        }
    } else {
        event
    }
}

fn dispatch_events(rows: &mut Vec<EventRow>, id: i64)
    ensures
        event_models(final(rows)@) == event_models(old(rows)@).map_values(
            |row: EventModel| dispatched(row, id),
        ),
{
    let mut i: usize = 0;
    while i < rows.len()
        invariant
            i <= rows@.len(),
            rows@.len() == old(rows)@.len(),
            forall|k: int|
                0 <= k < i ==> (#[trigger] rows@[k])@ == dispatched(old(rows)@[k]@, id),
            forall|k: int| i <= k < rows@.len() ==> #[trigger] rows@[k] == old(rows)@[k],
        decreases rows@.len() - i,
    {
        if rows[i].id == id {
            rows[i].next_dispatch_trigger = DispatchTrigger::Unknown;
            rows[i].next_dispatch_prior_run_id = None;
        }
        i += 1;
    }
    assert(event_models(rows@) =~= event_models(old(rows)@).map_values(
        |row: EventModel| dispatched(row, id),
    ));
}

/// The store with a new run of the event at this place.
pub open spec fn with_run(store: StoreModel, i: int, id: i64, attempt: u32, now: i64) -> StoreModel {
    let event = store.events[i];
    StoreModel {
        runs: store.runs.push(
            new_run(id, event, attempt, (runs_of(store.runs, event.id) + 1) as u64, now),
        ),
        events: store.events.map_values(|row: EventModel| dispatched(row, event.id)),
        ..store
    }
}

impl Store {
    /// Records that a run of an event has begun, what it is put down to, and how many the event
    /// has had before.
    pub fn start_run(&mut self, event_id: i64, attempt: u32, now: i64) -> (result: Result<
        RunId,
        DatabaseError,
    >)
        ensures
            match event_place(old(self)@.events, event_id, 0) {
                None => {
                    &&& result matches Err(DatabaseError::UnknownEvent(id)) && id == event_id
                    &&& final(self)@ == old(self)@
                },
                Some(i) => match fresh(old(self)@.runs.map_values(|run: RunModel| run.id)) {
                    Some(id) => {
                        &&& result matches Ok(run) && run.0 == id
                        &&& final(self)@ == with_run(old(self)@, i, id, attempt, now)
                    },
                    None => {
                        &&& result matches Err(error) && full(error)
                        &&& final(self)@ == old(self)@
                    },
                },
            },
    {
        let i = match find_event(&self.events, event_id) {
            Some(i) => i,
            None => {
                return Err(DatabaseError::UnknownEvent(event_id));
            },
        };
        assert(self@.events[i as int] == self.events@[i as int]@);
        assert(self@.runs.map_values(|run: RunModel| run.id) =~= self.runs@.map_values(
            |row: RunRow| crate::database::tables::Row::key(&row),
        ));
        let id = match fresh_id(&self.runs) {
            Some(id) => id,
            None => {
                return Err(no_more_ids());
            },
        };
        let before_it = count_runs(&self.runs, event_id);
        let event = &self.events[i];
        let row = RunRow {
            id,
            event_id,
            attempt,
            started_at: now,
            ended_at: None,
            last_activity_at: now,
            outcome: None,
            termination_reason: None,
            failure_category: None,
            model_id: None,
            model_provider: None,
            thinking_level: None,
            context_window: None,
            max_tokens: None,
            telemetry_version: Some(2),
            telemetry_completeness: "partial".to_owned(),
            dispatch_sequence: None,
            dispatch_trigger: Some(event.next_dispatch_trigger),
            dispatch_prior_run_id: event.next_dispatch_prior_run_id,
            dispatch_scheduled_for: event.next_attempt_at,
            conclusion: None,
            turn_count: 0,
            retry_count: 0,
            compaction_count: 0,
        };
        let ghost before = self.runs@;
        self.runs.push(row);
        let total: usize = self.runs.len();
        self.runs[total - 1].dispatch_sequence = Some((before_it + 1) as u64);
        assert(run_models(self.runs@) =~= run_models(before).push(self.runs@.last()@));
        dispatch_events(&mut self.events, event_id);
        Ok(RunId(id))
    }
}

// ---------------------------------------------------------------------------------------------
// The end of an event
// ---------------------------------------------------------------------------------------------

/// The event, once the one with this number has succeeded. Its payload is not kept.
pub open spec fn succeeded(event: EventModel, id: i64, now: i64) -> EventModel {
    if event.id == id {
        EventModel {
            status: EventStatus::Succeeded,
            payload: None,
            last_error: None,
            next_attempt_at: None,
            updated_at: now,
            ..event
        }
    } else {
        event
    }
}

fn succeed_events(rows: &mut Vec<EventRow>, id: i64, now: i64)
    ensures
        event_models(final(rows)@) == event_models(old(rows)@).map_values(
            |row: EventModel| succeeded(row, id, now),
        ),
{
    let mut i: usize = 0;
    while i < rows.len()
        invariant
            i <= rows@.len(),
            rows@.len() == old(rows)@.len(),
            forall|k: int|
                0 <= k < i ==> (#[trigger] rows@[k])@ == succeeded(old(rows)@[k]@, id, now),
            forall|k: int| i <= k < rows@.len() ==> #[trigger] rows@[k] == old(rows)@[k],
        decreases rows@.len() - i,
    {
        if rows[i].id == id {
            rows[i].status = EventStatus::Succeeded;
            rows[i].payload = None;
            rows[i].last_error = None;
            rows[i].next_attempt_at = None;
            rows[i].updated_at = now;
        }
        i += 1;
    }
    assert(event_models(rows@) =~= event_models(old(rows)@).map_values(
        |row: EventModel| succeeded(row, id, now),
    ));
}

/// The entity with this handling status, where it is the one with this number.
pub open spec fn handled(entity: EntityModel, id: Option<i64>, status: Seq<char>) -> EntityModel {
    if Some(entity.id) == id {
        EntityModel { handling_status: Some(status), ..entity }
    } else {
        entity
    }
}

/// The number of the entity of an event.
pub open spec fn entity_of(events: Seq<EventModel>, event_id: i64) -> Option<i64> {
    match event_place(events, event_id, 0) {
        Some(i) => Some(events[i].entity_id),
        None => None,
    }
}

/// The entities, once the one of the event has this handling status.
pub open spec fn handled_entities(store: StoreModel, event_id: i64, status: Seq<char>) -> Seq<
    EntityModel,
> {
    store.entities.map_values(
        |entity: EntityModel| handled(entity, entity_of(store.events, event_id), status),
    )
}

fn handle_entities(rows: &mut Vec<EntityRow>, id: i64, status: &str)
    ensures
        entity_models(final(rows)@) == entity_models(old(rows)@).map_values(
            |row: EntityModel| handled(row, Some(id), status@),
        ),
{
    let mut i: usize = 0;
    while i < rows.len()
        invariant
            i <= rows@.len(),
            rows@.len() == old(rows)@.len(),
            forall|k: int|
                0 <= k < i ==> (#[trigger] rows@[k])@ == handled(old(rows)@[k]@, Some(id), status@),
            forall|k: int| i <= k < rows@.len() ==> #[trigger] rows@[k] == old(rows)@[k],
        decreases rows@.len() - i,
    {
        if rows[i].id == id {
            rows[i].handling_status = Some(status.to_owned());
        }
        i += 1;
    }
    assert(entity_models(rows@) =~= entity_models(old(rows)@).map_values(
        |row: EntityModel| handled(row, Some(id), status@),
    ));
}

/// The event, once the one with this number was to be tried again by an operator.
pub open spec fn retried(event: EventModel, id: i64, prior: Option<i64>, now: i64) -> EventModel {
    if event.id == id && event.payload is Some && event.status != EventStatus::Processing {
        EventModel {
            status: EventStatus::Retryable,
            attempt_count: 0,
            next_attempt_at: None,
            last_error: None,
            next_dispatch_trigger: DispatchTrigger::OperatorRetry,
            next_dispatch_prior_run_id: prior,
            updated_at: now,
            ..event
        }
    } else {
        event
    }
}

/// The event, once the one with this number was to be ignored. Its payload is not kept.
pub open spec fn ignored(event: EventModel, id: i64, now: i64) -> EventModel {
    if event.id == id && event.status != EventStatus::Processing {
        EventModel {
            status: EventStatus::Ignored,
            payload: None,
            next_attempt_at: None,
            updated_at: now,
            ..event
        }
    } else {
        event
    }
}

fn retry_events(rows: &mut Vec<EventRow>, id: i64, prior: Option<i64>, now: i64)
    ensures
        event_models(final(rows)@) == event_models(old(rows)@).map_values(
            |row: EventModel| retried(row, id, prior, now),
        ),
{
    let mut i: usize = 0;
    while i < rows.len()
        invariant
            i <= rows@.len(),
            rows@.len() == old(rows)@.len(),
            forall|k: int|
                0 <= k < i ==> (#[trigger] rows@[k])@ == retried(old(rows)@[k]@, id, prior, now),
            forall|k: int| i <= k < rows@.len() ==> #[trigger] rows@[k] == old(rows)@[k],
        decreases rows@.len() - i,
    {
        if rows[i].id == id && rows[i].payload.is_some() && rows[i].status != EventStatus::Processing {
            rows[i].status = EventStatus::Retryable;
            rows[i].attempt_count = 0;
            rows[i].next_attempt_at = None;
            rows[i].last_error = None;
            rows[i].next_dispatch_trigger = DispatchTrigger::OperatorRetry;
            rows[i].next_dispatch_prior_run_id = prior;
            rows[i].updated_at = now;
        }
        i += 1;
    }
    assert(event_models(rows@) =~= event_models(old(rows)@).map_values(
        |row: EventModel| retried(row, id, prior, now),
    ));
}

fn ignore_events(rows: &mut Vec<EventRow>, id: i64, now: i64)
    ensures
        event_models(final(rows)@) == event_models(old(rows)@).map_values(
            |row: EventModel| ignored(row, id, now),
        ),
{
    let mut i: usize = 0;
    while i < rows.len()
        invariant
            i <= rows@.len(),
            rows@.len() == old(rows)@.len(),
            forall|k: int|
                0 <= k < i ==> (#[trigger] rows@[k])@ == ignored(old(rows)@[k]@, id, now),
            forall|k: int| i <= k < rows@.len() ==> #[trigger] rows@[k] == old(rows)@[k],
        decreases rows@.len() - i,
    {
        if rows[i].id == id && rows[i].status != EventStatus::Processing {
            rows[i].status = EventStatus::Ignored;
            rows[i].payload = None;
            rows[i].next_attempt_at = None;
            rows[i].updated_at = now;
        }
        i += 1;
    }
    assert(event_models(rows@) =~= event_models(old(rows)@).map_values(
        |row: EventModel| ignored(row, id, now),
    ));
}

/// How long to wait before an event is tried again that failed at this attempt: the base, doubled
/// for each attempt but the first.
pub open spec fn backoff(attempt_count: u32, base_seconds: u64) -> nat {
    let exponent: nat = if attempt_count == 0 {
        0
    } else if attempt_count > 64 {
        63
    } else {
        (attempt_count - 1) as nat
    };
    let delay = base_seconds * vstd::arithmetic::power2::pow2(exponent);
    if delay > u64::MAX {
        u64::MAX as nat
    } else {
        delay as nat
    }
}

/// How long to wait before an event is tried again.
pub fn backoff_seconds(attempt_count: u32, base_seconds: u64) -> (delay: u64)
    ensures
        delay == backoff(attempt_count, base_seconds),
{
    let exponent: u32 = if attempt_count == 0 {
        0
    } else if attempt_count > 64 {
        63
    } else {
        attempt_count - 1
    };
    let mut delay: u64 = base_seconds;
    let mut i: u32 = 0;
    proof {
        vstd::arithmetic::power2::lemma2_to64();
        assert(base_seconds * 1 == base_seconds);
    }
    while i < exponent
        invariant
            i <= exponent <= 63,
            delay == (if base_seconds * vstd::arithmetic::power2::pow2(i as nat) > u64::MAX {
                u64::MAX as int
            } else {
                base_seconds * vstd::arithmetic::power2::pow2(i as nat)
            }),
        decreases exponent - i,
    {
        proof {
            vstd::arithmetic::power2::lemma_pow2_unfold((i + 1) as nat);
            let p = vstd::arithmetic::power2::pow2(i as nat) as int;
            assert(base_seconds * (2 * p) == 2 * (base_seconds * p)) by (nonlinear_arith);
        }
        delay = match delay.checked_mul(2) {
            Some(doubled) => doubled,
            None => u64::MAX,
        };
        i += 1;
    }
    delay
}

/// What becomes of an event that failed: it is tried again while attempts are left.
pub open spec fn failed(
    event: EventModel,
    id: i64,
    again: Option<i64>,
    prior: Option<i64>,
    error: Seq<char>,
    now: i64,
) -> EventModel {
    if event.id == id && event.status == EventStatus::Processing {
        EventModel {
            status: match again {
                Some(_) => EventStatus::Retryable,
                None => EventStatus::Failed,
            },
            next_attempt_at: again,
            last_error: Some(error),
            next_dispatch_trigger: match again {
                Some(_) => DispatchTrigger::BackoffRetry,
                None => event.next_dispatch_trigger,
            },
            next_dispatch_prior_run_id: match again {
                Some(_) => prior,
                None => event.next_dispatch_prior_run_id,
            },
            updated_at: now,
            ..event
        }
    } else {
        event
    }
}

fn fail_events(rows: &mut Vec<EventRow>, id: i64, again: Option<i64>, prior: Option<i64>, error: &str, now: i64)
    ensures
        event_models(final(rows)@) == event_models(old(rows)@).map_values(
            |row: EventModel| failed(row, id, again, prior, error@, now),
        ),
{
    let mut i: usize = 0;
    while i < rows.len()
        invariant
            i <= rows@.len(),
            rows@.len() == old(rows)@.len(),
            forall|k: int|
                0 <= k < i ==> (#[trigger] rows@[k])@ == failed(old(rows)@[k]@, id, again, prior, error@, now),
            forall|k: int| i <= k < rows@.len() ==> #[trigger] rows@[k] == old(rows)@[k],
        decreases rows@.len() - i,
    {
        if rows[i].id == id && rows[i].status == EventStatus::Processing {
            match again {
                Some(_) => {
                    rows[i].status = EventStatus::Retryable;
                    rows[i].next_dispatch_trigger = DispatchTrigger::BackoffRetry;
                    rows[i].next_dispatch_prior_run_id = prior;
                },
                None => {
                    rows[i].status = EventStatus::Failed;
                },
            }
            rows[i].next_attempt_at = again;
            rows[i].last_error = Some(error.to_owned());
            rows[i].updated_at = now;
        }
        i += 1;
    }
    assert(event_models(rows@) =~= event_models(old(rows)@).map_values(
        |row: EventModel| failed(row, id, again, prior, error@, now),
    ));
}

/// When the event is tried again, if it is: its wait, and no attempt beyond the last one.
pub open spec fn next_try(event: EventModel, max_attempts: u32, base_seconds: u64, now: i64) -> Option<
    int,
> {
    if event.attempt_count < max_attempts {
        Some(now + clamped(backoff(event.attempt_count, base_seconds)) * 1000)
    } else {
        None
    }
}

/// The store, once an event has failed.
pub open spec fn with_failure(
    store: StoreModel,
    event_id: i64,
    error: Seq<char>,
    again: Option<int>,
    now: i64,
) -> StoreModel {
    let next = match again {
        Some(moment) => Some(moment as i64),
        None => None::<i64>,
    };
    let message = text::byte_prefix(error, 4096);
    StoreModel {
        events: store.events.map_values(
            |event: EventModel|
                failed(event, event_id, next, last_run(store.runs, event_id), message, now),
        ),
        entities: handled_entities(
            store,
            event_id,
            if again is Some {
                "retryable"@
            } else {
                "failed"@
            },
        ),
        ..store
    }
}

impl Store {
    fn handle_entity_of(&mut self, event_id: i64, status: &str)
        ensures
            final(self)@ == (StoreModel {
                entities: handled_entities(old(self)@, event_id, status@),
                ..old(self)@
            }),
    {
        let ghost start = self@;
        match find_event(&self.events, event_id) {
            Some(i) => {
                assert(start.events[i as int] == self.events@[i as int]@);
                let id = self.events[i].entity_id;
                handle_entities(&mut self.entities, id, status);
            },
            None => {
                assert(start.entities =~= handled_entities(start, event_id, status@));
            },
        }
    }

    /// Records that the triage of an event has succeeded.
    pub fn succeed(&mut self, event_id: i64, now: i64)
        ensures
            final(self)@ == (StoreModel {
                events: old(self)@.events.map_values(
                    |event: EventModel| succeeded(event, event_id, now),
                ),
                entities: handled_entities(old(self)@, event_id, "succeeded"@),
                ..old(self)@
            }),
    {
        self.handle_entity_of(event_id, "succeeded");
        succeed_events(&mut self.events, event_id, now);
    }

    /// Records that the triage of an event has failed. It is tried again later, unless it was
    /// tried as often as allowed. The moment of the next attempt has to be one that can be
    /// represented.
    pub fn fail(
        &mut self,
        event_id: i64,
        error: &str,
        max_attempts: u32,
        retry_base_seconds: u64,
        now: i64,
    ) -> (result: Result<(), DatabaseError>)
        requires
            FIRST_MOMENT <= now,
            joined(old(self)@, event_id) matches Some((event, _)) ==> (next_try(
                event,
                max_attempts,
                retry_base_seconds,
                now,
            ) matches Some(moment) ==> moment <= LAST_MOMENT),
        ensures
            match joined(old(self)@, event_id) {
                None => {
                    &&& result matches Err(DatabaseError::UnknownEvent(id)) && id == event_id
                    &&& final(self)@ == old(self)@
                },
                Some((event, _)) => {
                    &&& result is Ok
                    &&& final(self)@ == with_failure(
                        old(self)@,
                        event_id,
                        error@,
                        next_try(event, max_attempts, retry_base_seconds, now),
                        now,
                    )
                },
            },
    {
        let ghost start = self@;
        let i = match find_event(&self.events, event_id) {
            Some(i) => i,
            None => {
                return Err(DatabaseError::UnknownEvent(event_id));
            },
        };
        assert(start.events[i as int] == self.events@[i as int]@);
        if find_entity(&self.entities, self.events[i].entity_id).is_none() {
            return Err(DatabaseError::UnknownEvent(event_id));
        }
        let attempts = self.events[i].attempt_count;
        let again: Option<i64> = if attempts < max_attempts {
            let delay = saturating_i64(backoff_seconds(attempts, retry_base_seconds));
            assert(now + delay * 1000 <= LAST_MOMENT);
            Some(now + delay * 1000)
        } else {
            None
        };
        let prior = find_last_run(&self.runs, event_id);
        let message = text::take_bytes(error, 4096);
        let status = if again.is_some() {
            "retryable"
        } else {
            "failed"
        };
        self.handle_entity_of(event_id, status);
        fail_events(&mut self.events, event_id, again, prior, message.as_str(), now);
        Ok(())
    }

    /// Makes an event ready to be tried from the start, for an operator. Not while it is being
    /// worked on, and not without its payload. Returns whether that happened.
    pub fn retry(&mut self, event_id: i64, now: i64) -> (changed: bool)
        ensures
            changed == (retried_count(old(self)@.events, event_id) == 1),
            final(self)@ == (StoreModel {
                events: old(self)@.events.map_values(
                    |event: EventModel|
                        retried(event, event_id, last_run(old(self)@.runs, event_id), now),
                ),
                entities: if changed {
                    handled_entities(old(self)@, event_id, "retryable"@)
                } else {
                    old(self)@.entities
                },
                ..old(self)@
            }),
    {
        let changed = count_retried(&self.events, event_id) == 1;
        if changed {
            self.handle_entity_of(event_id, "retryable");
        }
        let prior = find_last_run(&self.runs, event_id);
        retry_events(&mut self.events, event_id, prior, now);
        changed
    }

    /// Settles an event without triage. Not while it is being worked on. Returns whether that
    /// happened.
    pub fn ignore(&mut self, event_id: i64, now: i64) -> (changed: bool)
        ensures
            changed == (ignored_count(old(self)@.events, event_id) == 1),
            final(self)@ == (StoreModel {
                events: old(self)@.events.map_values(
                    |event: EventModel| ignored(event, event_id, now),
                ),
                entities: if changed {
                    handled_entities(old(self)@, event_id, "ignored"@)
                } else {
                    old(self)@.entities
                },
                ..old(self)@
            }),
    {
        let changed = count_ignored(&self.events, event_id) == 1;
        if changed {
            self.handle_entity_of(event_id, "ignored");
        }
        ignore_events(&mut self.events, event_id, now);
        changed
    }
}

/// How many events with this number may be tried again by an operator.
pub open spec fn retried_count(events: Seq<EventModel>, id: i64) -> nat
    decreases events.len(),
{
    if events.len() == 0 {
        0
    } else if events.last().id == id && events.last().payload is Some && events.last().status
        != EventStatus::Processing {
        retried_count(events.drop_last(), id) + 1
    } else {
        retried_count(events.drop_last(), id)
    }
}

/// How many events with this number may be ignored.
pub open spec fn ignored_count(events: Seq<EventModel>, id: i64) -> nat
    decreases events.len(),
{
    if events.len() == 0 {
        0
    } else if events.last().id == id && events.last().status != EventStatus::Processing {
        ignored_count(events.drop_last(), id) + 1
    } else {
        ignored_count(events.drop_last(), id)
    }
}

fn count_retried(rows: &Vec<EventRow>, id: i64) -> (n: usize)
    ensures
        n == retried_count(event_models(rows@), id),
{
    let ghost models = event_models(rows@);
    let mut n: usize = 0;
    let mut i: usize = 0;
    while i < rows.len()
        invariant
            n <= i <= rows@.len(),
            models == event_models(rows@),
            n == retried_count(models.take(i as int), id),
        decreases rows@.len() - i,
    {
        assert(models.take(i + 1).drop_last() =~= models.take(i as int));
        assert(models.take(i + 1).last() == rows@[i as int]@);
        if rows[i].id == id && rows[i].payload.is_some() && rows[i].status
            != EventStatus::Processing {
            n += 1;
        }
        i += 1;
    }
    assert(models.take(i as int) =~= models);
    n
}

fn count_ignored(rows: &Vec<EventRow>, id: i64) -> (n: usize)
    ensures
        n == ignored_count(event_models(rows@), id),
{
    let ghost models = event_models(rows@);
    let mut n: usize = 0;
    let mut i: usize = 0;
    while i < rows.len()
        invariant
            n <= i <= rows@.len(),
            models == event_models(rows@),
            n == ignored_count(models.take(i as int), id),
        decreases rows@.len() - i,
    {
        assert(models.take(i + 1).drop_last() =~= models.take(i as int));
        assert(models.take(i + 1).last() == rows@[i as int]@);
        if rows[i].id == id && rows[i].status != EventStatus::Processing {
            n += 1;
        }
        i += 1;
    }
    assert(models.take(i as int) =~= models);
    n
}

} // verus!
