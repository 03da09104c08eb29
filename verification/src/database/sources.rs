//! What sources report, and what the commands of a run leave behind.
use vstd::prelude::*;

use crate::database::queue::{entity_of, last_run};
use crate::database::records::{DatabaseError, DispatchTrigger, EventStatus};
use crate::database::rules::{
    find_aven_reference, find_workmux_handle, first_reference, named_handle, reference_words,
    safe_tool_name, tool_name,
};
use crate::database::runs::full;
use crate::database::tables::{
    command_models, effect_models, entity_models, event_models, fresh, fresh_id, source_models,
    CommandModel, CommandRow, EffectModel, EffectRow, EntityModel, EntityRow, EventModel, EventRow,
    SourceModel, SourceRow, Store, StoreModel,
};
use crate::json;
use crate::json::PartModel;
use crate::protocol::IntakeItem;
use crate::text;

verus! {

/// Something that a source has reported, with the JSON text of it.
#[derive(Debug)]
pub struct ReportedItem {
    pub item: IntakeItem,
    pub payload: String,
}

/// Why a report could not be taken in.
pub enum Refusal {
    Json(Seq<char>),
    Full,
}

/// Whether the error states the refusal.
pub open spec fn refuses(error: DatabaseError, refusal: Refusal) -> bool {
    match refusal {
        Refusal::Json(expected) => error matches DatabaseError::Json(message) && message@
            == expected,
        Refusal::Full => full(error),
    }
}

fn no_more_ids() -> (error: DatabaseError)
    ensures
        full(error),
{
    DatabaseError::Sqlite("database or disk is full".to_owned())
}

// ---------------------------------------------------------------------------------------------
// Entities
// ---------------------------------------------------------------------------------------------

/// What is kept of an item beside its event.
pub open spec fn item_metadata(item: IntakeItem) -> Seq<(Seq<char>, PartModel)> {
    seq![
        ("url"@, json::optional(text::opt_text(item.url))),
        ("kind"@, PartModel::Text(item.kind.name())),
    ]
}

/// Whether what is stored of the item besides its event holds its URL and its kind.
pub open spec fn metadata_kept(item: IntakeItem) -> bool {
    json::object_text(item_metadata(item)) matches Ok(metadata) && json::pointed_text(
        metadata,
        "/url"@,
    ) == text::opt_text(item.url) && json::pointed_text(metadata, "/kind"@) == Some(
        item.kind.name(),
    )
}

/// The entries that are stored of an item are plain, and found under their keys.
proof fn lemma_metadata_kept(item: IntakeItem, metadata: Seq<char>)
    ensures
        json::plain_entries(item_metadata(item)),
        json::object_text(item_metadata(item)) == Ok::<Seq<char>, Seq<char>>(metadata)
            && json::reads_back(metadata, item_metadata(item)) ==> metadata_kept(item),
{
    reveal_strlit("url");
    reveal_strlit("kind");
    reveal_strlit("/url");
    reveal_strlit("/kind");
    let list = item_metadata(item);
    assert(list[0].0 == "url"@ && list[1].0 == "kind"@);
    assert("url"@.len() != "kind"@.len());
    assert(seq!['/'] + list[0].0 =~= "/url"@);
    assert(seq!['/'] + list[1].0 =~= "/kind"@);
}

/// The place of the first entity with this name from `from` on.
pub open spec fn named_place(entities: Seq<EntityModel>, external_id: Seq<char>, from: int) -> Option<
    int,
>
    decreases entities.len() - from,
{
    if from < 0 || from >= entities.len() {
        None
    } else if entities[from].external_id == external_id {
        Some(from)
    } else {
        named_place(entities, external_id, from + 1)
    }
}

fn find_named(rows: &Vec<EntityRow>, external_id: &str) -> (place: Option<usize>)
    ensures
        match place {
            Some(i) => i < rows@.len() && named_place(entity_models(rows@), external_id@, 0)
                == Some(i as int),
            None => named_place(entity_models(rows@), external_id@, 0) is None,
        },
{
    let ghost models = entity_models(rows@);
    let mut i: usize = 0;
    while i < rows.len()
        invariant
            i <= rows@.len(),
            models == entity_models(rows@),
            named_place(models, external_id@, 0) == named_place(models, external_id@, i as int),
        decreases rows@.len() - i,
    {
        assert(models[i as int] == rows@[i as int]@);
        if text::same(rows[i].external_id.as_str(), external_id) {
            return Some(i);
        }
        i += 1;
    }
    None
}

/// The entity as an item reports it, where the item is about it.
pub open spec fn renewed(entity: EntityModel, item: IntakeItem, metadata: Seq<char>) -> EntityModel {
    if entity.external_id == item.entity_id@ {
        EntityModel {
            kind: item.kind.name(),
            title: item.title@,
            last_event_at: item.occurred_at@,
            operational_metadata: metadata,
            ..entity
        }
    } else {
        entity
    }
}

fn renew_entities(rows: &mut Vec<EntityRow>, item: &IntakeItem, metadata: &str)
    ensures
        entity_models(final(rows)@) == entity_models(old(rows)@).map_values(
            |row: EntityModel| renewed(row, *item, metadata@),
        ),
{
    let mut i: usize = 0;
    while i < rows.len()
        invariant
            i <= rows@.len(),
            rows@.len() == old(rows)@.len(),
            forall|k: int|
                0 <= k < i ==> (#[trigger] rows@[k])@ == renewed(old(rows)@[k]@, *item, metadata@),
            forall|k: int| i <= k < rows@.len() ==> #[trigger] rows@[k] == old(rows)@[k],
        decreases rows@.len() - i,
    {
        if text::same(rows[i].external_id.as_str(), item.entity_id.as_str()) {
            rows[i].kind = item.kind.as_str().to_owned();
            rows[i].title = item.title.as_str().to_owned();
            rows[i].last_event_at = item.occurred_at.as_str().to_owned();
            rows[i].operational_metadata = metadata.to_owned();
        }
        i += 1;
    }
    assert(entity_models(rows@) =~= entity_models(old(rows)@).map_values(
        |row: EntityModel| renewed(row, *item, metadata@),
    ));
}

/// The entity that an item reports for the first time.
pub open spec fn new_entity(
    id: i64,
    source: Seq<char>,
    item: IntakeItem,
    metadata: Seq<char>,
) -> EntityModel {
    EntityModel {
        id,
        source,
        external_id: item.entity_id@,
        kind: item.kind.name(),
        title: item.title@,
        last_event_at: item.occurred_at@,
        operational_metadata: metadata,
        handling_status: None,
        aven_ref: None,
        investigation_handle: None,
    }
}

/// The entities with what an item reports, and the number of its entity. None where the numbers
/// are used up.
pub open spec fn with_entity(
    entities: Seq<EntityModel>,
    source: Seq<char>,
    item: IntakeItem,
    metadata: Seq<char>,
) -> Option<(Seq<EntityModel>, i64)> {
    match named_place(entities, item.entity_id@, 0) {
        Some(i) => Some(
            (
                entities.map_values(|entity: EntityModel| renewed(entity, item, metadata)),
                entities[i].id,
            ),
        ),
        None => match fresh(entities.map_values(|entity: EntityModel| entity.id)) {
            Some(id) => Some((entities.push(new_entity(id, source, item, metadata)), id)),
            None => None,
        },
    }
}

// ---------------------------------------------------------------------------------------------
// Events
// ---------------------------------------------------------------------------------------------

/// Whether this revision of the entity was reported before.
pub open spec fn reported(events: Seq<EventModel>, entity_id: i64, revision_id: Seq<char>) -> bool {
    exists|k: int|
        0 <= k < events.len() && (#[trigger] events[k]).entity_id == entity_id
            && events[k].revision_id == revision_id
}

/// Whether the entity has an event.
pub open spec fn has_event(events: Seq<EventModel>, entity_id: i64) -> bool {
    exists|k: int| 0 <= k < events.len() && (#[trigger] events[k]).entity_id == entity_id
}

fn is_reported(rows: &Vec<EventRow>, entity_id: i64, revision_id: &str) -> (r: bool)
    ensures
        r == reported(event_models(rows@), entity_id, revision_id@),
{
    let ghost models = event_models(rows@);
    let mut k: usize = 0;
    while k < rows.len()
        invariant
            k <= rows@.len(),
            models == event_models(rows@),
            forall|m: int|
                0 <= m < k ==> !((#[trigger] models[m]).entity_id == entity_id
                    && models[m].revision_id == revision_id@),
        decreases rows@.len() - k,
    {
        assert(models[k as int] == rows@[k as int]@);
        if rows[k].entity_id == entity_id && text::same(
            rows[k].revision_id.as_str(),
            revision_id,
        ) {
            return true;
        }
        k += 1;
    }
    false
}

fn is_with_event(rows: &Vec<EventRow>, entity_id: i64) -> (r: bool)
    ensures
        r == has_event(event_models(rows@), entity_id),
{
    let ghost models = event_models(rows@);
    let mut k: usize = 0;
    while k < rows.len()
        invariant
            k <= rows@.len(),
            models == event_models(rows@),
            forall|m: int| 0 <= m < k ==> (#[trigger] models[m]).entity_id != entity_id,
        decreases rows@.len() - k,
    {
        assert(models[k as int] == rows@[k as int]@);
        if rows[k].entity_id == entity_id {
            return true;
        }
        k += 1;
    }
    false
}

/// What the dispatch of a new event is put down to.
pub open spec fn first_trigger(events: Seq<EventModel>, source: Seq<char>, entity_id: i64) -> DispatchTrigger {
    if source == "manual-injection"@ {
        DispatchTrigger::ManualInjection
    } else if has_event(events, entity_id) {
        DispatchTrigger::Revision
    } else {
        DispatchTrigger::Initial
    }
}

/// The event that an item reports.
pub open spec fn new_event(
    id: i64,
    entity_id: i64,
    source: Seq<char>,
    reported_item: ReportedItem,
    trigger: DispatchTrigger,
    observed_at: i64,
) -> EventModel {
    EventModel {
        id,
        entity_id,
        source: Some(source),
        revision_id: reported_item.item.revision_id@,
        payload: Some(reported_item.payload@),
        occurred_at: reported_item.item.occurred_at@,
        observed_at,
        updated_at: observed_at,
        status: EventStatus::Pending,
        attempt_count: 0,
        next_attempt_at: None,
        last_error: None,
        next_dispatch_trigger: trigger,
        next_dispatch_prior_run_id: None,
    }
}

/// What taking in items leads to: the store, and how many events were new.
pub type Intake = Result<(StoreModel, nat), Refusal>;

/// The store with what an item reports.
pub open spec fn with_item(
    store: StoreModel,
    source: Seq<char>,
    reported_item: ReportedItem,
    observed_at: i64,
) -> Intake {
    let item = reported_item.item;
    match json::object_text(item_metadata(item)) {
        Err(message) => Err(Refusal::Json(message)),
        Ok(metadata) => match with_entity(store.entities, source, item, metadata) {
            None => Err(Refusal::Full),
            Some((entities, entity_id)) => if reported(
                store.events,
                entity_id,
                item.revision_id@,
            ) {
                Ok((StoreModel { entities, ..store }, 0))
            } else {
                match fresh(store.events.map_values(|event: EventModel| event.id)) {
                    None => Err(Refusal::Full),
                    Some(id) => Ok(
                        (
                            StoreModel {
                                entities,
                                events: store.events.push(
                                    new_event(
                                        id,
                                        entity_id,
                                        source,
                                        reported_item,
                                        first_trigger(store.events, source, entity_id),
                                        observed_at,
                                    ),
                                ),
                                ..store
                            },
                            1,
                        ),
                    ),
                }
            },
        },
    }
}

/// The store with what items report, one after the other.
pub open spec fn with_items(
    store: StoreModel,
    source: Seq<char>,
    items: Seq<ReportedItem>,
    observed_at: i64,
) -> Intake
    decreases items.len(),
{
    if items.len() == 0 {
        Ok((store, 0))
    } else {
        match with_items(store, source, items.drop_last(), observed_at) {
            Err(refusal) => Err(refusal),
            Ok((before, inserted)) => match with_item(
                before,
                source,
                items.last(),
                observed_at,
            ) {
                Err(refusal) => Err(refusal),
                Ok((after, more)) => Ok((after, inserted + more)),
            },
        }
    }
}

// ---------------------------------------------------------------------------------------------
// The state of a source
// ---------------------------------------------------------------------------------------------

/// Whether the state of a source is known.
pub open spec fn known_source(sources: Seq<SourceModel>, source: Seq<char>) -> bool {
    exists|k: int| 0 <= k < sources.len() && (#[trigger] sources[k]).source == source
}

fn is_known_source(rows: &Vec<SourceRow>, source: &str) -> (r: bool)
    ensures
        r == known_source(source_models(rows@), source@),
{
    let ghost models = source_models(rows@);
    let mut k: usize = 0;
    while k < rows.len()
        invariant
            k <= rows@.len(),
            models == source_models(rows@),
            forall|m: int| 0 <= m < k ==> (#[trigger] models[m]).source != source@,
        decreases rows@.len() - k,
    {
        assert(models[k as int] == rows@[k as int]@);
        if text::same(rows[k].source.as_str(), source) {
            return true;
        }
        k += 1;
    }
    false
}

/// The state of a source after a report.
pub open spec fn well(
    state: SourceModel,
    source: Seq<char>,
    checkpoint: Seq<char>,
    now: i64,
) -> SourceModel {
    if state.source == source {
        SourceModel {
            checkpoint: Some(checkpoint),
            last_success_at: Some(now),
            last_error: None,
            updated_at: now,
            ..state
        }
    } else {
        state
    }
}

/// The state of a source after a failure.
pub open spec fn unwell(
    state: SourceModel,
    source: Seq<char>,
    error: Seq<char>,
    now: i64,
) -> SourceModel {
    if state.source == source {
        SourceModel { last_error: Some(error), updated_at: now, ..state }
    } else {
        state
    }
}

fn mark_well(rows: &mut Vec<SourceRow>, source: &str, checkpoint: &str, now: i64)
    ensures
        source_models(final(rows)@) == source_models(old(rows)@).map_values(
            |row: SourceModel| well(row, source@, checkpoint@, now),
        ),
{
    let mut i: usize = 0;
    while i < rows.len()
        invariant
            i <= rows@.len(),
            rows@.len() == old(rows)@.len(),
            forall|k: int|
                0 <= k < i ==> (#[trigger] rows@[k])@ == well(old(rows)@[k]@, source@, checkpoint@, now),
            forall|k: int| i <= k < rows@.len() ==> #[trigger] rows@[k] == old(rows)@[k],
        decreases rows@.len() - i,
    {
        if text::same(rows[i].source.as_str(), source) {
            rows[i].checkpoint = Some(checkpoint.to_owned());
            rows[i].last_success_at = Some(now);
            rows[i].last_error = None;
            rows[i].updated_at = now;
        }
        i += 1;
    }
    assert(source_models(rows@) =~= source_models(old(rows)@).map_values(
        |row: SourceModel| well(row, source@, checkpoint@, now),
    ));
}

fn mark_unwell(rows: &mut Vec<SourceRow>, source: &str, error: &str, now: i64)
    ensures
        source_models(final(rows)@) == source_models(old(rows)@).map_values(
            |row: SourceModel| unwell(row, source@, error@, now),
        ),
{
    let mut i: usize = 0;
    while i < rows.len()
        invariant
            i <= rows@.len(),
            rows@.len() == old(rows)@.len(),
            forall|k: int|
                0 <= k < i ==> (#[trigger] rows@[k])@ == unwell(old(rows)@[k]@, source@, error@, now),
            forall|k: int| i <= k < rows@.len() ==> #[trigger] rows@[k] == old(rows)@[k],
        decreases rows@.len() - i,
    {
        if text::same(rows[i].source.as_str(), source) {
            rows[i].last_error = Some(error.to_owned());
            rows[i].updated_at = now;
        }
        i += 1;
    }
    assert(source_models(rows@) =~= source_models(old(rows)@).map_values(
        |row: SourceModel| unwell(row, source@, error@, now),
    ));
}

/// The states of the sources after a report of one.
pub open spec fn with_success(
    sources: Seq<SourceModel>,
    source: Seq<char>,
    checkpoint: Seq<char>,
    now: i64,
) -> Seq<SourceModel> {
    if known_source(sources, source) {
        sources.map_values(|state: SourceModel| well(state, source, checkpoint, now))
    } else {
        sources.push(
            SourceModel {
                source,
                checkpoint: Some(checkpoint),
                last_success_at: Some(now),
                last_error: None,
                updated_at: now,
            },
        )
    }
}

/// The states of the sources after a failure of one.
pub open spec fn with_failure(
    sources: Seq<SourceModel>,
    source: Seq<char>,
    error: Seq<char>,
    now: i64,
) -> Seq<SourceModel> {
    if known_source(sources, source) {
        sources.map_values(|state: SourceModel| unwell(state, source, error, now))
    } else {
        sources.push(
            SourceModel {
                source,
                checkpoint: None,
                last_success_at: None,
                last_error: Some(error),
                updated_at: now,
            },
        )
    }
}

fn copy_entities(rows: &Vec<EntityRow>) -> (out: Vec<EntityRow>)
    ensures
        entity_models(out@) == entity_models(rows@),
{
    let mut out: Vec<EntityRow> = Vec::new();
    let mut i: usize = 0;
    while i < rows.len()
        invariant
            i <= rows@.len(),
            out@.len() == i,
            forall|k: int| 0 <= k < i ==> (#[trigger] out@[k])@ == rows@[k]@,
        decreases rows@.len() - i,
    {
        let row = &rows[i];
        out.push(
            EntityRow {
                id: row.id,
                source: row.source.as_str().to_owned(),
                external_id: row.external_id.as_str().to_owned(),
                kind: row.kind.as_str().to_owned(),
                title: row.title.as_str().to_owned(),
                last_event_at: row.last_event_at.as_str().to_owned(),
                operational_metadata: row.operational_metadata.as_str().to_owned(),
                handling_status: text::copy_opt(&row.handling_status),
                aven_ref: text::copy_opt(&row.aven_ref),
                investigation_handle: text::copy_opt(&row.investigation_handle),
            },
        );
        i += 1;
    }
    assert(entity_models(out@) =~= entity_models(rows@));
    out
}

impl Store {
    /// Takes in what an item reports. Returns whether its event is new. What was changed before
    /// an error stays changed.
    fn take_item(&mut self, source: &str, reported_item: &ReportedItem, observed_at: i64) -> (result:
        Result<bool, DatabaseError>)
        ensures
            match with_item(old(self)@, source@, *reported_item, observed_at) {
                Ok((after, more)) => {
                    &&& result matches Ok(new) && more == (if new {
                        1nat
                    } else {
                        0nat
                    })
                    &&& final(self)@ == after
                },
                Err(refusal) => {
                    &&& result matches Err(error) && refuses(error, refusal)
                    &&& final(self)@.events == old(self)@.events
                },
            },
            result is Ok ==> {
                &&& final(self).events@.len() >= old(self).events@.len()
                &&& final(self).events@.take(old(self).events@.len() as int) == old(self).events@
            },
            result is Err ==> final(self).events@ == old(self).events@,
            metadata_kept(reported_item.item),
            result matches Err(error) ==> full(error),
            final(self)@.runs == old(self)@.runs,
            final(self)@.turns == old(self)@.turns,
            final(self)@.steps == old(self)@.steps,
            final(self)@.retries == old(self)@.retries,
            final(self)@.compactions == old(self)@.compactions,
            final(self)@.prompts == old(self)@.prompts,
            final(self)@.effects == old(self)@.effects,
            final(self)@.commands == old(self)@.commands,
            final(self)@.sources == old(self)@.sources,
    {
        let ghost start = self@;
        let item = &reported_item.item;
        let mut fields: Vec<json::Entry> = Vec::new();
        fields.push(json::optional_entry("url", &item.url));
        fields.push(json::text_entry("kind", item.kind.as_str()));
        assert(json::entries(fields@) =~= item_metadata(*item));
        proof {
            lemma_metadata_kept(*item, Seq::empty());
        }
        let metadata = match json::write_object(&fields) {
            Ok(metadata) => {
                proof {
                    lemma_metadata_kept(*item, metadata@);
                }
                metadata
            },
            Err(message) => {
                return Err(DatabaseError::Json(message));
            },
        };
        let entity_id = match find_named(&self.entities, item.entity_id.as_str()) {
            Some(i) => {
                assert(start.entities[i as int] == self.entities@[i as int]@);
                let id = self.entities[i].id;
                renew_entities(&mut self.entities, item, metadata.as_str());
                id
            },
            None => {
                assert(start.entities.map_values(|entity: EntityModel| entity.id)
                    =~= self.entities@.map_values(
                    |row: EntityRow| crate::database::tables::Row::key(&row),
                ));
                let id = match fresh_id(&self.entities) {
                    Some(id) => id,
                    None => {
                        return Err(no_more_ids());
                    },
                };
                let ghost before = self.entities@;
                self.entities.push(
                    EntityRow {
                        id,
                        source: source.to_owned(),
                        external_id: item.entity_id.as_str().to_owned(),
                        kind: item.kind.as_str().to_owned(),
                        title: item.title.as_str().to_owned(),
                        last_event_at: item.occurred_at.as_str().to_owned(),
                        operational_metadata: metadata,
                        handling_status: None,
                        aven_ref: None,
                        investigation_handle: None,
                    },
                );
                assert(entity_models(self.entities@) =~= entity_models(before).push(
                    self.entities@.last()@,
                ));
                id
            },
        };
        assert(self.events@.take(self.events@.len() as int) =~= self.events@);
        if is_reported(&self.events, entity_id, item.revision_id.as_str()) {
            return Ok(false);
        }
        assert(start.events.map_values(|event: EventModel| event.id) =~= self.events@.map_values(
            |row: EventRow| crate::database::tables::Row::key(&row),
        ));
        let id = match fresh_id(&self.events) {
            Some(id) => id,
            None => {
                return Err(no_more_ids());
            },
        };
        let trigger = if text::same(source, "manual-injection") {
            DispatchTrigger::ManualInjection
        } else if is_with_event(&self.events, entity_id) {
            DispatchTrigger::Revision
        } else {
            DispatchTrigger::Initial
        };
        let ghost before = self.events@;
        self.events.push(
            EventRow {
                id,
                entity_id,
                source: Some(source.to_owned()),
                revision_id: item.revision_id.as_str().to_owned(),
                payload: Some(reported_item.payload.as_str().to_owned()),
                occurred_at: item.occurred_at.as_str().to_owned(),
                observed_at,
                updated_at: observed_at,
                status: EventStatus::Pending,
                attempt_count: 0,
                next_attempt_at: None,
                last_error: None,
                next_dispatch_trigger: trigger,
                next_dispatch_prior_run_id: None,
            },
        );
        assert(event_models(self.events@) =~= event_models(before).push(self.events@.last()@));
        assert(self.events@.take(before.len() as int) =~= before);
        Ok(true)
    }

    /// Takes in the report of a source: its items, and where it wants to go on. Returns how many
    /// events are new. A revision that was reported before is none. Where an item cannot be taken
    /// in, nothing changes.
    pub fn source_succeeded(
        &mut self,
        source: &str,
        checkpoint: &str,
        items: &Vec<ReportedItem>,
        observed_at: i64,
    ) -> (result: Result<usize, DatabaseError>)
        ensures
            match with_items(old(self)@, source@, items@, observed_at) {
                Ok((after, inserted)) => {
                    &&& result matches Ok(n) && n == inserted
                    &&& final(self)@ == (StoreModel {
                        sources: with_success(
                            old(self)@.sources,
                            source@,
                            checkpoint@,
                            observed_at,
                        ),
                        ..after
                    })
                },
                Err(refusal) => {
                    &&& result matches Err(error) && refuses(error, refusal)
                    &&& final(self)@ == old(self)@
                },
            },
            result is Ok ==> forall|k: int|
                0 <= k < items@.len() ==> metadata_kept((#[trigger] items@[k]).item),
            result matches Err(error) ==> full(error),
    {
        let ghost start = self@;
        let ghost first = self.events@;
        let kept = copy_entities(&self.entities);
        let known: usize = self.events.len();
        let mut inserted: usize = 0;
        let mut i: usize = 0;
        assert(items@.take(0) =~= Seq::empty());
        assert(self.events@.take(known as int) =~= first);
        while i < items.len()
            invariant
                i <= items@.len(),
                inserted <= i,
                known == first.len(),
                start == old(self)@,
                start.events == event_models(first),
                entity_models(kept@) == start.entities,
                forall|k: int| 0 <= k < i ==> metadata_kept((#[trigger] items@[k]).item),
                self.events@.len() >= first.len(),
                self.events@.take(first.len() as int) == first,
                with_items(start, source@, items@.take(i as int), observed_at) == Ok::<
                    (StoreModel, nat),
                    Refusal,
                >((self@, inserted as nat)),
                self@.runs == start.runs,
                self@.turns == start.turns,
                self@.steps == start.steps,
                self@.retries == start.retries,
                self@.compactions == start.compactions,
                self@.prompts == start.prompts,
                self@.effects == start.effects,
                self@.commands == start.commands,
                self@.sources == start.sources,
            decreases items@.len() - i,
        {
            assert(items@.take(i + 1).drop_last() =~= items@.take(i as int));
            let ghost before = self.events@;
            match self.take_item(source, &items[i], observed_at) {
                Ok(new) => {
                    if new {
                        inserted += 1;
                    }
                    assert(self.events@.take(first.len() as int) =~= before.take(
                        first.len() as int,
                    )) by {
                        assert(before =~= self.events@.take(before.len() as int));
                    }
                },
                Err(error) => {
                    proof {
                        lemma_refusal_stays(start, source@, items@, observed_at, i + 1);
                    }
                    self.entities = kept;
                    self.events.truncate(known);
                    assert(self.events@ =~= first);
                    assert(self@.entities == start.entities);
                    assert(self@.events == start.events);
                    return Err(error);
                },
            }
            i += 1;
        }
        assert(items@.take(i as int) =~= items@);
        if is_known_source(&self.sources, source) {
            mark_well(&mut self.sources, source, checkpoint, observed_at);
        } else {
            let ghost before = self.sources@;
            self.sources.push(
                SourceRow {
                    source: source.to_owned(),
                    checkpoint: Some(checkpoint.to_owned()),
                    last_success_at: Some(observed_at),
                    last_error: None,
                    updated_at: observed_at,
                },
            );
            assert(source_models(self.sources@) =~= source_models(before).push(
                self.sources@.last()@,
            ));
        }
        Ok(inserted)
    }

    /// Records that a source failed.
    pub fn source_failed(&mut self, source: &str, error: &str, now: i64)
        ensures
            final(self)@ == (StoreModel {
                sources: with_failure(
                    old(self)@.sources,
                    source@,
                    text::byte_prefix(error@, 4096),
                    now,
                ),
                ..old(self)@
            }),
    {
        let message = text::take_bytes(error, 4096);
        if is_known_source(&self.sources, source) {
            mark_unwell(&mut self.sources, source, message.as_str(), now);
        } else {
            let ghost before = self.sources@;
            self.sources.push(
                SourceRow {
                    source: source.to_owned(),
                    checkpoint: None,
                    last_success_at: None,
                    last_error: Some(message),
                    updated_at: now,
                },
            );
            assert(source_models(self.sources@) =~= source_models(before).push(
                self.sources@.last()@,
            ));
        }
    }
}

proof fn lemma_refusal_stays(
    store: StoreModel,
    source: Seq<char>,
    items: Seq<ReportedItem>,
    observed_at: i64,
    n: int,
)
    requires
        0 <= n <= items.len(),
        with_items(store, source, items.take(n), observed_at) is Err,
    ensures
        with_items(store, source, items, observed_at) == with_items(
            store,
            source,
            items.take(n),
            observed_at,
        ),
    decreases items.len() - n,
{
    if n == items.len() {
        assert(items.take(n) =~= items);
    } else {
        assert(items.take(n + 1).drop_last() =~= items.take(n));
        lemma_refusal_stays(store, source, items, observed_at, n + 1);
    }
}

// ---------------------------------------------------------------------------------------------
// Commands
// ---------------------------------------------------------------------------------------------

/// The entity with this reference to a task, where it is the one with this number.
pub open spec fn referenced(entity: EntityModel, id: Option<i64>, value: Seq<char>) -> EntityModel {
    if Some(entity.id) == id {
        EntityModel { aven_ref: Some(value), ..entity }
    } else {
        entity
    }
}

/// The entity with this handle of an investigation, where it is the one with this number.
pub open spec fn investigated(entity: EntityModel, id: Option<i64>, value: Seq<char>) -> EntityModel {
    if Some(entity.id) == id {
        EntityModel { investigation_handle: Some(value), ..entity }
    } else {
        entity
    }
}

fn reference_entities(rows: &mut Vec<EntityRow>, id: i64, value: &str)
    ensures
        entity_models(final(rows)@) == entity_models(old(rows)@).map_values(
            |row: EntityModel| referenced(row, Some(id), value@),
        ),
{
    let mut i: usize = 0;
    while i < rows.len()
        invariant
            i <= rows@.len(),
            rows@.len() == old(rows)@.len(),
            forall|k: int|
                0 <= k < i ==> (#[trigger] rows@[k])@ == referenced(old(rows)@[k]@, Some(id), value@),
            forall|k: int| i <= k < rows@.len() ==> #[trigger] rows@[k] == old(rows)@[k],
        decreases rows@.len() - i,
    {
        if rows[i].id == id {
            rows[i].aven_ref = Some(value.to_owned());
        }
        i += 1;
    }
    assert(entity_models(rows@) =~= entity_models(old(rows)@).map_values(
        |row: EntityModel| referenced(row, Some(id), value@),
    ));
}

fn investigate_entities(rows: &mut Vec<EntityRow>, id: i64, value: &str)
    ensures
        entity_models(final(rows)@) == entity_models(old(rows)@).map_values(
            |row: EntityModel| investigated(row, Some(id), value@),
        ),
{
    let mut i: usize = 0;
    while i < rows.len()
        invariant
            i <= rows@.len(),
            rows@.len() == old(rows)@.len(),
            forall|k: int|
                0 <= k < i ==> (#[trigger] rows@[k])@ == investigated(old(rows)@[k]@, Some(id), value@),
            forall|k: int| i <= k < rows@.len() ==> #[trigger] rows@[k] == old(rows)@[k],
        decreases rows@.len() - i,
    {
        if rows[i].id == id {
            rows[i].investigation_handle = Some(value.to_owned());
        }
        i += 1;
    }
    assert(entity_models(rows@) =~= entity_models(old(rows)@).map_values(
        |row: EntityModel| investigated(row, Some(id), value@),
    ));
}

/// What a command has left behind.
pub enum Effect {
    AvenReference,
    InvestigationHandle,
}

impl Effect {
    pub open spec fn name(self) -> Seq<char> {
        match self {
            Effect::AvenReference => "aven_reference"@,
            Effect::InvestigationHandle => "investigation_handle"@,
        }
    }

    /// The name under which the effect is stored.
    pub fn as_str(&self) -> (out: &'static str)
        ensures
            out@ == self.name(),
    {
        match self {
            Effect::AvenReference => "aven_reference",
            Effect::InvestigationHandle => "investigation_handle",
        }
    }
}

/// Whether the effect of a run is known already.
pub open spec fn has_effect(
    effects: Seq<EffectModel>,
    run_id: i64,
    effect_type: Seq<char>,
    value: Seq<char>,
) -> bool {
    exists|k: int|
        0 <= k < effects.len() && (#[trigger] effects[k]).run_id == run_id
            && effects[k].effect_type == effect_type && effects[k].value == value
}

fn is_known_effect(rows: &Vec<EffectRow>, run_id: i64, effect_type: &str, value: &str) -> (r: bool)
    ensures
        r == has_effect(effect_models(rows@), run_id, effect_type@, value@),
{
    let ghost models = effect_models(rows@);
    let mut k: usize = 0;
    while k < rows.len()
        invariant
            k <= rows@.len(),
            models == effect_models(rows@),
            forall|m: int|
                0 <= m < k ==> !((#[trigger] models[m]).run_id == run_id && models[m].effect_type
                    == effect_type@ && models[m].value == value@),
        decreases rows@.len() - k,
    {
        assert(models[k as int] == rows@[k as int]@);
        if rows[k].run_id == run_id && text::same(rows[k].effect_type.as_str(), effect_type)
            && text::same(rows[k].value.as_str(), value) {
            return true;
        }
        k += 1;
    }
    false
}

/// The store with an effect of a command for an event: at the entity of the event, and at the
/// event's last run.
pub open spec fn with_effect(
    store: StoreModel,
    event_id: i64,
    effect: Effect,
    value: Seq<char>,
    now: i64,
) -> StoreModel {
    StoreModel {
        entities: store.entities.map_values(
            |entity: EntityModel|
                match effect {
                    Effect::AvenReference => referenced(
                        entity,
                        entity_of(store.events, event_id),
                        value,
                    ),
                    Effect::InvestigationHandle => investigated(
                        entity,
                        entity_of(store.events, event_id),
                        value,
                    ),
                },
        ),
        effects: match last_run(store.runs, event_id) {
            Some(run_id) => if has_effect(store.effects, run_id, effect.name(), value) {
                store.effects
            } else {
                store.effects.push(
                    EffectModel { run_id, effect_type: effect.name(), value, recorded_at: now },
                )
            },
            None => store.effects,
        },
        ..store
    }
}

/// What a command that ended so has left behind.
pub open spec fn effect_of(executable: Seq<char>, exit_code: i32, output: Seq<char>) -> Option<
    (Effect, Seq<char>),
> {
    if exit_code != 0 {
        None
    } else if tool_name(executable) == "aven"@ {
        match first_reference(reference_words(output), 0) {
            Some(value) => Some((Effect::AvenReference, value)),
            None => None,
        }
    } else if tool_name(executable) == "workmux"@ {
        match named_handle(text::split_on(output, '\n'), 0) {
            Some(value) => Some((Effect::InvestigationHandle, value)),
            None => None,
        }
    } else {
        None
    }
}

/// The store with a command that ran for an event. Of its output only the size is kept, and what
/// it has left behind.
pub open spec fn with_command(
    store: StoreModel,
    event_id: i64,
    executable: Seq<char>,
    exit_code: i32,
    output: Seq<char>,
    now: i64,
) -> StoreModel {
    let recorded = StoreModel {
        commands: store.commands.push(
            CommandModel {
                event_id,
                command: "tool="@ + tool_name(executable),
                exit_code,
                output_summary: "bytes="@ + text::decimal(text::byte_len(output)),
                created_at: now,
            },
        ),
        ..store
    };
    match effect_of(executable, exit_code, output) {
        Some((effect, value)) => with_effect(recorded, event_id, effect, value, now),
        None => recorded,
    }
}

impl Store {
    fn find_run_of(&self, event_id: i64) -> (id: Option<i64>)
        ensures
            id == last_run(self@.runs, event_id),
    {
        crate::database::queue::find_last_run(&self.runs, event_id)
    }

    fn record_effect(&mut self, event_id: i64, effect: Effect, value: &str, now: i64)
        ensures
            final(self)@ == with_effect(old(self)@, event_id, effect, value@, now),
    {
        let ghost start = self@;
        match crate::database::queue::find_event(&self.events, event_id) {
            Some(i) => {
                assert(start.events[i as int] == self.events@[i as int]@);
                let id = self.events[i].entity_id;
                match effect {
                    Effect::AvenReference => reference_entities(&mut self.entities, id, value),
                    Effect::InvestigationHandle => {
                        investigate_entities(&mut self.entities, id, value)
                    },
                }
            },
            None => {},
        }
        assert(self@.entities =~= with_effect(start, event_id, effect, value@, now).entities);
        if let Some(run_id) = self.find_run_of(event_id) {
            if !is_known_effect(&self.effects, run_id, effect.as_str(), value) {
                let ghost before = self.effects@;
                self.effects.push(
                    EffectRow {
                        run_id,
                        effect_type: effect.as_str().to_owned(),
                        value: value.to_owned(),
                        recorded_at: now,
                    },
                );
                assert(effect_models(self.effects@) =~= effect_models(before).push(
                    self.effects@.last()@,
                ));
            }
        }
    }

    /// Records a command that ran for an event.
    pub fn record_command(
        &mut self,
        event_id: i64,
        executable: &str,
        exit_code: i32,
        output: &str,
        now: i64,
    )
        ensures
            final(self)@ == with_command(
                old(self)@,
                event_id,
                executable@,
                exit_code,
                output@,
                now,
            ),
    {
        let name = safe_tool_name(executable);
        let mut command = "tool=".to_owned();
        command.append(name.as_str());
        let mut output_summary = "bytes=".to_owned();
        output_summary.append(
            text::decimal_of(text::byte_count(&text::chars_of(output))).as_str(),
        );
        let ghost before = self.commands@;
        self.commands.push(
            CommandRow { event_id, command, exit_code, output_summary, created_at: now },
        );
        assert(command_models(self.commands@) =~= command_models(before).push(
            self.commands@.last()@,
        ));
        if exit_code == 0 {
            if text::same(name.as_str(), "aven") {
                if let Some(value) = find_aven_reference(output) {
                    self.record_effect(event_id, Effect::AvenReference, value.as_str(), now);
                }
            } else if text::same(name.as_str(), "workmux") {
                if let Some(value) = find_workmux_handle(output) {
                    self.record_effect(event_id, Effect::InvestigationHandle, value.as_str(), now);
                }
            }
        }
    }
}

} // verus!
