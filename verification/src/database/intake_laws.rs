//! What is stored of what the sources report.
use vstd::prelude::*;

use crate::database::operations::{served, Outcome, WriteOperation};
use crate::database::records::{DispatchTrigger, EventStatus};
use crate::database::sources::{
    item_metadata, known_source, named_place, renewed, reported, with_entity, with_item, with_items,
    ReportedItem,
};
use crate::database::tables::{law_fresh_ids_are_new, EntityModel, StoreModel};
use crate::json;
use crate::protocol::IntakeItemKind;
use crate::text;

verus! {

/// Whether every entity has a number of its own, and every event belongs to one of them.
pub open spec fn keyed(store: StoreModel) -> bool {
    &&& forall|i: int, j: int|
        0 <= i < j < store.entities.len() ==> (#[trigger] store.entities[i]).id != (
        #[trigger] store.entities[j]).id
    &&& forall|k: int|
        0 <= k < store.events.len() ==> exists|p: int|
            0 <= p < store.entities.len() && (#[trigger] store.entities[p]).id == (
            #[trigger] store.events[k]).entity_id
}

/// Whether the event at the place `k`, of the entity at the place `p`, is what was reported.
spec fn lands(
    store: StoreModel,
    k: int,
    p: int,
    source: Seq<char>,
    reported_item: ReportedItem,
    observed_at: i64,
) -> bool {
    &&& 0 <= k < store.events.len()
    &&& 0 <= p < store.entities.len()
    &&& store.entities[p].external_id == reported_item.item.entity_id@
    &&& store.events[k].entity_id == store.entities[p].id
    &&& store.events[k].revision_id == reported_item.item.revision_id@
    &&& store.events[k].payload == Some(reported_item.payload@)
    &&& store.events[k].source == Some(source)
    &&& store.events[k].occurred_at == reported_item.item.occurred_at@
    &&& store.events[k].observed_at == observed_at
    &&& store.events[k].updated_at == observed_at
    &&& store.events[k].status == EventStatus::Pending
    &&& store.events[k].attempt_count == 0
    &&& store.events[k].next_attempt_at is None
    &&& store.events[k].last_error is None
    &&& store.events[k].next_dispatch_prior_run_id is None
}

/// Whether one of the first items is what the event at the place `k` holds.
spec fn lands_one(
    store: StoreModel,
    k: int,
    source: Seq<char>,
    items: Seq<ReportedItem>,
    observed_at: i64,
) -> bool {
    exists|j: int, p: int|
        0 <= j < items.len() && #[trigger] lands(store, k, p, source, #[trigger] items[j], observed_at)
}

proof fn lemma_named(entities: Seq<EntityModel>, name: Seq<char>, from: int)
    requires
        0 <= from <= entities.len(),
    ensures
        match named_place(entities, name, from) {
            Some(i) => from <= i < entities.len() && entities[i].external_id == name,
            None => forall|k: int|
                from <= k < entities.len() ==> (#[trigger] entities[k]).external_id != name,
        },
    decreases entities.len() - from,
{
    if from < entities.len() && entities[from].external_id != name {
        lemma_named(entities, name, from + 1);
    }
}

/// What one item does to the entities and the events.
proof fn lemma_item(store: StoreModel, source: Seq<char>, reported_item: ReportedItem, observed_at: i64)
    requires
        keyed(store),
        with_item(store, source, reported_item, observed_at) is Ok,
    ensures
        ({
            let (after, new) = with_item(store, source, reported_item, observed_at)->Ok_0;
            let item = reported_item.item;
            &&& keyed(after)
            &&& store.entities.len() <= after.entities.len()
            &&& forall|p: int|
                0 <= p < store.entities.len() ==> (#[trigger] after.entities[p]).id
                    == store.entities[p].id && after.entities[p].external_id
                    == store.entities[p].external_id
            &&& store.events.len() <= after.events.len() <= store.events.len() + 1
            &&& after.events.len() == store.events.len() + new
            &&& forall|k: int|
                0 <= k < store.events.len() ==> (#[trigger] after.events[k]) == store.events[k]
            &&& exists|p: int|
                #![trigger after.entities[p]]
                {
                    &&& 0 <= p < after.entities.len()
                    &&& after.entities[p].external_id == item.entity_id@
                    &&& new == 1 ==> lands(
                        after,
                        store.events.len() as int,
                        p,
                        source,
                        reported_item,
                        observed_at,
                    )
                    &&& new == 0 ==> reported(store.events, after.entities[p].id, item.revision_id@)
                }
        }),
{
    let item = reported_item.item;
    let name = item.entity_id@;
    let (after, new) = with_item(store, source, reported_item, observed_at)->Ok_0;
    let metadata = json::object_text(item_metadata(item))->Ok_0;
    let (entities, entity_id) = with_entity(store.entities, source, item, metadata)->0;
    let ids = store.entities.map_values(|entity: EntityModel| entity.id);
    lemma_named(store.entities, name, 0);
    law_fresh_ids_are_new(ids);
    assert(forall|p: int| 0 <= p < store.entities.len() ==> ids[p] == store.entities[p].id);
    let place = match named_place(store.entities, name, 0) {
        Some(i) => i,
        None => store.entities.len() as int,
    };
    assert(after.entities == entities);
    assert forall|p: int| 0 <= p < store.entities.len() implies (#[trigger] after.entities[p]).id
        == store.entities[p].id && after.entities[p].external_id
        == store.entities[p].external_id by {
        if named_place(store.entities, name, 0) is Some {
            assert(after.entities[p] == renewed(store.entities[p], item, metadata));
        }
    }
    assert(after.entities[place].external_id == name && after.entities[place].id == entity_id);
    assert forall|i: int, j: int| 0 <= i < j < after.entities.len() implies (
    #[trigger] after.entities[i]).id != (#[trigger] after.entities[j]).id by {
        if j < store.entities.len() {
            assert(store.entities[i].id != store.entities[j].id);
        } else {
            assert(ids.contains(ids[i]));
        }
    }
    assert forall|k: int| 0 <= k < after.events.len() implies exists|p: int|
        0 <= p < after.entities.len() && (#[trigger] after.entities[p]).id == (
        #[trigger] after.events[k]).entity_id by {
        if k < store.events.len() {
            assert(after.events[k] == store.events[k]);
            let p = choose|p: int|
                0 <= p < store.entities.len() && (#[trigger] store.entities[p]).id
                    == store.events[k].entity_id;
            assert(after.entities[p].id == after.events[k].entity_id);
        } else {
            assert(after.entities[place].id == after.events[k].entity_id);
        }
    }
    if new == 1 {
        assert(lands(
            after,
            store.events.len() as int,
            place,
            source,
            reported_item,
            observed_at,
        ));
    }
}

proof fn lemma_items(
    store: StoreModel,
    source: Seq<char>,
    items: Seq<ReportedItem>,
    observed_at: i64,
)
    requires
        keyed(store),
        with_items(store, source, items, observed_at) is Ok,
    ensures
        ({
            let (after, new) = with_items(store, source, items, observed_at)->Ok_0;
            &&& keyed(after)
            &&& store.entities.len() <= after.entities.len()
            &&& forall|p: int|
                0 <= p < store.entities.len() ==> (#[trigger] after.entities[p]).id
                    == store.entities[p].id && after.entities[p].external_id
                    == store.entities[p].external_id
            &&& after.events.len() == store.events.len() + new
            &&& forall|k: int|
                0 <= k < store.events.len() ==> (#[trigger] after.events[k]) == store.events[k]
            &&& forall|k: int|
                store.events.len() <= k < after.events.len() ==> #[trigger] lands_one(
                    after,
                    k,
                    source,
                    items,
                    observed_at,
                )
        }),
    decreases items.len(),
{
    if items.len() > 0 {
        let front = items.drop_last();
        lemma_items(store, source, front, observed_at);
        let (before, _) = with_items(store, source, front, observed_at)->Ok_0;
        let (after, _) = with_items(store, source, items, observed_at)->Ok_0;
        lemma_item(before, source, items.last(), observed_at);
        assert forall|k: int|
            store.events.len() <= k < after.events.len() implies #[trigger] lands_one(
            after,
            k,
            source,
            items,
            observed_at,
        ) by {
            if k < before.events.len() {
                assert(lands_one(before, k, source, front, observed_at));
                let (j, p) = choose|j: int, p: int|
                    0 <= j < front.len() && #[trigger] lands(
                        before,
                        k,
                        p,
                        source,
                        #[trigger] front[j],
                        observed_at,
                    );
                assert(after.events[k] == before.events[k]);
                assert(after.entities[p].id == before.entities[p].id);
                assert(front[j] == items[j]);
                assert(lands(after, k, p, source, items[j], observed_at));
            } else {
                let p = choose|p: int|
                    #![trigger after.entities[p]]
                    0 <= p < after.entities.len() && lands(
                        after,
                        before.events.len() as int,
                        p,
                        source,
                        items.last(),
                        observed_at,
                    );
                assert(lands(after, k, p, source, items[items.len() - 1], observed_at));
            }
        }
        assert forall|p: int| 0 <= p < store.entities.len() implies (
        #[trigger] after.entities[p]).id == store.entities[p].id && after.entities[p].external_id
            == store.entities[p].external_id by {
            assert(before.entities[p].id == store.entities[p].id);
        }
        assert forall|k: int| 0 <= k < store.events.len() implies (#[trigger] after.events[k])
            == store.events[k] by {
            assert(before.events[k] == store.events[k]);
        }
    }
}

/// Whether the revision that the item reports is new to the store, and no item before it
/// reports it too.
spec fn is_new(store: StoreModel, items: Seq<ReportedItem>, i: int) -> bool {
    &&& forall|k: int, p: int|
        0 <= k < store.events.len() && 0 <= p < store.entities.len()
            && (#[trigger] store.entities[p]).external_id == items[i].item.entity_id@ && (
        #[trigger] store.events[k]).entity_id == store.entities[p].id
            ==> store.events[k].revision_id != items[i].item.revision_id@
    &&& forall|j: int|
        0 <= j < i ==> (#[trigger] items[j]).item.entity_id@ != items[i].item.entity_id@
            || items[j].item.revision_id@ != items[i].item.revision_id@
}

proof fn lemma_new_item_lands(
    store: StoreModel,
    source: Seq<char>,
    items: Seq<ReportedItem>,
    observed_at: i64,
    i: int,
)
    requires
        keyed(store),
        with_items(store, source, items, observed_at) is Ok,
        0 <= i < items.len(),
        is_new(store, items, i),
    ensures
        ({
            let (after, new) = with_items(store, source, items, observed_at)->Ok_0;
            exists|k: int, p: int|
                store.events.len() <= k && #[trigger] lands(
                    after,
                    k,
                    p,
                    source,
                    items[i],
                    observed_at,
                )
        }),
    decreases items.len(),
{
    let front = items.drop_last();
    let (before, _) = with_items(store, source, front, observed_at)->Ok_0;
    let (after, _) = with_items(store, source, items, observed_at)->Ok_0;
    lemma_items(store, source, front, observed_at);
    lemma_item(before, source, items.last(), observed_at);
    if i < items.len() - 1 {
        assert forall|j: int| 0 <= j < i implies (#[trigger] front[j]).item.entity_id@
            != front[i].item.entity_id@ || front[j].item.revision_id@
            != front[i].item.revision_id@ by {
            assert(front[j] == items[j]);
        }
        lemma_new_item_lands(store, source, front, observed_at, i);
        let (k, p) = choose|k: int, p: int|
            store.events.len() <= k && #[trigger] lands(
                before,
                k,
                p,
                source,
                front[i],
                observed_at,
            );
        assert(after.events[k] == before.events[k]);
        assert(after.entities[p].id == before.entities[p].id);
        assert(lands(after, k, p, source, items[i], observed_at));
    } else {
        let item = items[i].item;
        let p = choose|p: int|
            #![trigger after.entities[p]]
            {
                &&& 0 <= p < after.entities.len()
                &&& after.entities[p].external_id == item.entity_id@
                &&& after.events.len() == before.events.len() + 1 ==> lands(
                    after,
                    before.events.len() as int,
                    p,
                    source,
                    items[i],
                    observed_at,
                )
                &&& after.events.len() == before.events.len() ==> reported(
                    before.events,
                    after.entities[p].id,
                    item.revision_id@,
                )
            };
        if after.events.len() == before.events.len() {
            let k = choose|k: int|
                0 <= k < before.events.len() && (#[trigger] before.events[k]).entity_id
                    == after.entities[p].id && before.events[k].revision_id == item.revision_id@;
            if k < store.events.len() {
                assert(before.events[k] == store.events[k]);
                let q = choose|q: int|
                    0 <= q < store.entities.len() && (#[trigger] store.entities[q]).id
                        == store.events[k].entity_id;
                assert(before.entities[q].id == store.entities[q].id);
                assert(after.entities[q].id == before.entities[q].id);
                assert(after.entities[q].id == after.entities[p].id);
                assert(q == p);
                assert(store.entities[q].external_id == item.entity_id@);
                assert(store.events[k].entity_id == store.entities[q].id);
            } else {
                assert(lands_one(before, k, source, front, observed_at));
                let (j, q) = choose|j: int, q: int|
                    0 <= j < front.len() && #[trigger] lands(
                        before,
                        k,
                        q,
                        source,
                        #[trigger] front[j],
                        observed_at,
                    );
                assert(after.entities[q].id == before.entities[q].id);
                assert(after.entities[q].id == after.entities[p].id);
                assert(q == p);
                assert(front[j] == items[j]);
            }
            assert(false);
        }
        assert(lands(after, before.events.len() as int, p, source, items[i], observed_at));
    }
}

/// After a source has reported, every item whose revision was new has an event, behind those that
/// were there: one of the entity and the revision that the item names, with the text that was
/// reported as its payload, the source, and the moments at which it occurred and was observed.
/// The event is pending and has not been tried.
pub proof fn law_new_revisions_are_stored_as_reported(
    store: StoreModel,
    source: String,
    checkpoint: String,
    items: Vec<ReportedItem>,
    observed_at: i64,
    i: int,
)
    requires
        keyed(store),
        served(
            store,
            WriteOperation::SourceSucceeded { source, checkpoint, items, observed_at },
        ).1 is Count,
        0 <= i < items@.len(),
        forall|k: int, p: int|
            0 <= k < store.events.len() && 0 <= p < store.entities.len()
                && (#[trigger] store.entities[p]).external_id == items@[i].item.entity_id@ && (
            #[trigger] store.events[k]).entity_id == store.entities[p].id
                ==> store.events[k].revision_id != items@[i].item.revision_id@,
        forall|j: int|
            0 <= j < i ==> (#[trigger] items@[j]).item.entity_id@ != items@[i].item.entity_id@
                || items@[j].item.revision_id@ != items@[i].item.revision_id@,
    ensures
        ({
            let after = served(
                store,
                WriteOperation::SourceSucceeded { source, checkpoint, items, observed_at },
            ).0;
            let item = items@[i].item;
            exists|k: int, p: int|
                #![trigger after.events[k], after.entities[p]]
                {
                    &&& store.events.len() <= k < after.events.len()
                    &&& 0 <= p < after.entities.len()
                    &&& after.entities[p].external_id == item.entity_id@
                    &&& after.events[k].entity_id == after.entities[p].id
                    &&& after.events[k].revision_id == item.revision_id@
                    &&& after.events[k].payload == Some(items@[i].payload@)
                    &&& after.events[k].source == Some(source@)
                    &&& after.events[k].occurred_at == item.occurred_at@
                    &&& after.events[k].observed_at == observed_at
                    &&& after.events[k].updated_at == observed_at
                    &&& after.events[k].status == EventStatus::Pending
                    &&& after.events[k].attempt_count == 0
                    &&& after.events[k].next_attempt_at is None
                    &&& after.events[k].last_error is None
                    &&& after.events[k].next_dispatch_prior_run_id is None
                }
        }),
{
    assert(is_new(store, items@, i));
    lemma_new_item_lands(store, source@, items@, observed_at, i);
    let (stored, _) = with_items(store, source@, items@, observed_at)->Ok_0;
    let after = served(
        store,
        WriteOperation::SourceSucceeded { source, checkpoint, items, observed_at },
    ).0;
    let (k, p) = choose|k: int, p: int|
        store.events.len() <= k && #[trigger] lands(
            stored,
            k,
            p,
            source@,
            items@[i],
            observed_at,
        );
    assert(after.events[k] == stored.events[k] && after.entities[p] == stored.entities[p]);
}

/// What a source reports adds nothing but what it reported: every event behind those that were
/// there holds the payload and the moments of one of the items, the answer counts them, and the
/// events that were there are left alone. Entities that were there keep their places.
pub proof fn law_reports_add_only_their_items(
    store: StoreModel,
    source: String,
    checkpoint: String,
    items: Vec<ReportedItem>,
    observed_at: i64,
)
    requires
        keyed(store),
    ensures
        ({
            let (after, outcome) = served(
                store,
                WriteOperation::SourceSucceeded { source, checkpoint, items, observed_at },
            );
            match outcome {
                Outcome::Count(n) => {
                    &&& keyed(after)
                    &&& after.events.len() == store.events.len() + n
                    &&& forall|k: int|
                        0 <= k < store.events.len() ==> (#[trigger] after.events[k])
                            == store.events[k]
                    &&& forall|k: int|
                        store.events.len() <= k < after.events.len() ==> exists|j: int|
                            0 <= j < items@.len() && (#[trigger] after.events[k]).payload == Some(
                                (#[trigger] items@[j]).payload@,
                            ) && after.events[k].revision_id == items@[j].item.revision_id@
                                && after.events[k].occurred_at == items@[j].item.occurred_at@
                                && after.events[k].observed_at == observed_at
                                && after.events[k].source == Some(source@)
                    &&& forall|p: int|
                        0 <= p < store.entities.len() ==> (#[trigger] after.entities[p]).id
                            == store.entities[p].id && after.entities[p].external_id
                            == store.entities[p].external_id
                    &&& after.runs == store.runs
                    &&& after.turns == store.turns
                    &&& after.steps == store.steps
                    &&& after.retries == store.retries
                    &&& after.compactions == store.compactions
                    &&& after.prompts == store.prompts
                    &&& after.effects == store.effects
                    &&& after.commands == store.commands
                },
                _ => outcome is Refused && after == store,
            }
        }),
{
    if with_items(store, source@, items@, observed_at) is Ok {
        let (stored, _) = with_items(store, source@, items@, observed_at)->Ok_0;
        let after = served(
            store,
            WriteOperation::SourceSucceeded { source, checkpoint, items, observed_at },
        ).0;
        lemma_items(store, source@, items@, observed_at);
        lemma_items_keep_the_rest(store, source@, items@, observed_at);
        assert forall|k: int| store.events.len() <= k < after.events.len() implies exists|j: int|
            0 <= j < items@.len() && (#[trigger] after.events[k]).payload == Some(
                (#[trigger] items@[j]).payload@,
            ) && after.events[k].revision_id == items@[j].item.revision_id@
                && after.events[k].occurred_at == items@[j].item.occurred_at@
                && after.events[k].observed_at == observed_at && after.events[k].source == Some(
                source@,
            ) by {
            assert(lands_one(stored, k, source@, items@, observed_at));
            let (j, p) = choose|j: int, p: int|
                0 <= j < items@.len() && #[trigger] lands(
                    stored,
                    k,
                    p,
                    source@,
                    #[trigger] items@[j],
                    observed_at,
                );
            assert(after.events[k].payload == Some(items@[j].payload@));
        }
        assert forall|k: int| 0 <= k < after.events.len() implies exists|p: int|
            0 <= p < after.entities.len() && (#[trigger] after.entities[p]).id == (
            #[trigger] after.events[k]).entity_id by {
            let p = choose|p: int|
                0 <= p < stored.entities.len() && (#[trigger] stored.entities[p]).id
                    == stored.events[k].entity_id;
            assert(after.entities[p].id == after.events[k].entity_id);
        }
    }
}

proof fn lemma_items_keep_the_rest(
    store: StoreModel,
    source: Seq<char>,
    items: Seq<ReportedItem>,
    observed_at: i64,
)
    requires
        with_items(store, source, items, observed_at) is Ok,
    ensures
        ({
            let (after, _) = with_items(store, source, items, observed_at)->Ok_0;
            &&& after.runs == store.runs
            &&& after.turns == store.turns
            &&& after.steps == store.steps
            &&& after.retries == store.retries
            &&& after.compactions == store.compactions
            &&& after.prompts == store.prompts
            &&& after.effects == store.effects
            &&& after.commands == store.commands
        }),
    decreases items.len(),
{
    if items.len() > 0 {
        lemma_items_keep_the_rest(store, source, items.drop_last(), observed_at);
    }
}

/// Every entity that is named so holds what the item says of it.
spec fn says(entities: Seq<EntityModel>, reported_item: ReportedItem) -> bool {
    forall|p: int|
        0 <= p < entities.len() && (#[trigger] entities[p]).external_id
            == reported_item.item.entity_id@ ==> {
            &&& entities[p].title == reported_item.item.title@
            &&& entities[p].kind == reported_item.item.kind.name()
            &&& entities[p].last_event_at == reported_item.item.occurred_at@
            &&& json::object_text(item_metadata(reported_item.item)) == Ok::<Seq<char>, Seq<char>>(
                entities[p].operational_metadata,
            )
        }
}

proof fn lemma_item_says(
    store: StoreModel,
    source: Seq<char>,
    reported_item: ReportedItem,
    observed_at: i64,
)
    requires
        with_item(store, source, reported_item, observed_at) is Ok,
    ensures
        ({
            let (after, _) = with_item(store, source, reported_item, observed_at)->Ok_0;
            &&& says(after.entities, reported_item)
            &&& store.entities.len() <= after.entities.len() <= store.entities.len() + 1
            &&& forall|p: int|
                0 <= p < store.entities.len() ==> {
                    let was = store.entities[p];
                    let is = #[trigger] after.entities[p];
                    &&& is.source == was.source
                    &&& is.external_id == was.external_id
                    &&& is.handling_status == was.handling_status
                    &&& is.aven_ref == was.aven_ref
                    &&& is.investigation_handle == was.investigation_handle
                    &&& was.external_id != reported_item.item.entity_id@ ==> is == was
                }
            &&& store.entities.len() < after.entities.len() ==> {
                let is = after.entities[store.entities.len() as int];
                &&& is.external_id == reported_item.item.entity_id@
                &&& is.source == source
                &&& is.handling_status is None
                &&& is.aven_ref is None
                &&& is.investigation_handle is None
            }
        }),
{
    let item = reported_item.item;
    let (after, _) = with_item(store, source, reported_item, observed_at)->Ok_0;
    let metadata = json::object_text(item_metadata(item))->Ok_0;
    lemma_named(store.entities, item.entity_id@, 0);
    assert forall|p: int| 0 <= p < store.entities.len() implies after.entities[p] == (
    if named_place(store.entities, item.entity_id@, 0) is Some {
        renewed(store.entities[p], item, metadata)
    } else {
        store.entities[p]
    }) by {}
}

/// After a source has reported, an entity holds what the last item about it says: its title, its
/// kind, when it occurred, and its URL and kind as metadata. What was done about the entity stays.
pub proof fn law_entities_hold_the_last_report(
    store: StoreModel,
    source: String,
    checkpoint: String,
    items: Vec<ReportedItem>,
    observed_at: i64,
    i: int,
    p: int,
)
    requires
        served(
            store,
            WriteOperation::SourceSucceeded { source, checkpoint, items, observed_at },
        ).1 is Count,
        0 <= i < items@.len(),
        forall|j: int|
            i < j < items@.len() ==> (#[trigger] items@[j]).item.entity_id@
                != items@[i].item.entity_id@,
    ensures
        ({
            let after = served(
                store,
                WriteOperation::SourceSucceeded { source, checkpoint, items, observed_at },
            ).0;
            let item = items@[i].item;
            0 <= p < after.entities.len() && after.entities[p].external_id == item.entity_id@ ==> {
                &&& after.entities[p].title == item.title@
                &&& after.entities[p].last_event_at == item.occurred_at@
                &&& after.entities[p].kind == (match item.kind {
                    IntakeItemKind::Email => "email"@,
                    IntakeItemKind::GithubIssue => "github-issue"@,
                    IntakeItemKind::GithubPullRequest => "github-pull-request"@,
                    IntakeItemKind::Generic => "generic"@,
                })
                &&& json::object_text(
                    seq![
                        (
                            "url"@,
                            match item.url {
                                Some(url) => json::PartModel::Text(url@),
                                None => json::PartModel::Null,
                            },
                        ),
                        ("kind"@, json::PartModel::Text(item.kind.name())),
                    ],
                ) == Ok::<Seq<char>, Seq<char>>(after.entities[p].operational_metadata)
            }
        }),
{
    lemma_last_report(store, source@, items@, observed_at, i);
    let item = items@[i].item;
    let parts = seq![
        (
            "url"@,
            match item.url {
                Some(url) => json::PartModel::Text(url@),
                None => json::PartModel::Null,
            },
        ),
        ("kind"@, json::PartModel::Text(item.kind.name())),
    ];
    assert(parts =~= item_metadata(item));
}

proof fn lemma_last_report(
    store: StoreModel,
    source: Seq<char>,
    items: Seq<ReportedItem>,
    observed_at: i64,
    i: int,
)
    requires
        with_items(store, source, items, observed_at) is Ok,
        0 <= i < items.len(),
        forall|j: int|
            i < j < items.len() ==> (#[trigger] items[j]).item.entity_id@
                != items[i].item.entity_id@,
    ensures
        says(with_items(store, source, items, observed_at)->Ok_0.0.entities, items[i]),
    decreases items.len(),
{
    let front = items.drop_last();
    let (before, _) = with_items(store, source, front, observed_at)->Ok_0;
    let (after, _) = with_items(store, source, items, observed_at)->Ok_0;
    lemma_item_says(before, source, items.last(), observed_at);
    if i < items.len() - 1 {
        assert forall|j: int| i < j < front.len() implies (#[trigger] front[j]).item.entity_id@
            != front[i].item.entity_id@ by {
            assert(front[j] == items[j]);
        }
        lemma_last_report(store, source, front, observed_at, i);
        assert(items[items.len() - 1].item.entity_id@ != items[i].item.entity_id@);
        assert forall|p: int|
            0 <= p < after.entities.len() && (#[trigger] after.entities[p]).external_id
                == items[i].item.entity_id@ implies after.entities[p] == before.entities[p] && p
            < before.entities.len() by {
            if p < before.entities.len() {
                assert(after.entities[p].external_id == before.entities[p].external_id);
            }
        }
    }
}

/// What was done about an entity is not undone by a report, and no report moves an entity to
/// another source. An entity that the source names for the first time is the source's own, and
/// nothing was done about it yet.
pub proof fn law_reports_keep_what_was_done(
    store: StoreModel,
    source: String,
    checkpoint: String,
    items: Vec<ReportedItem>,
    observed_at: i64,
    p: int,
)
    requires
        served(
            store,
            WriteOperation::SourceSucceeded { source, checkpoint, items, observed_at },
        ).1 is Count,
    ensures
        ({
            let after = served(
                store,
                WriteOperation::SourceSucceeded { source, checkpoint, items, observed_at },
            ).0;
            &&& after.entities.len() >= store.entities.len()
            &&& 0 <= p < store.entities.len() ==> {
                let was = store.entities[p];
                let is = after.entities[p];
                &&& is.source == was.source
                &&& is.external_id == was.external_id
                &&& is.handling_status == was.handling_status
                &&& is.aven_ref == was.aven_ref
                &&& is.investigation_handle == was.investigation_handle
            }
            &&& store.entities.len() <= p < after.entities.len() ==> {
                let is = after.entities[p];
                &&& is.source == source@
                &&& is.handling_status is None
                &&& is.aven_ref is None
                &&& is.investigation_handle is None
            }
        }),
{
    lemma_done_is_kept(store, source@, items@, observed_at);
}

spec fn same_handling(was: EntityModel, is: EntityModel) -> bool {
    &&& is.source == was.source
    &&& is.external_id == was.external_id
    &&& is.handling_status == was.handling_status
    &&& is.aven_ref == was.aven_ref
    &&& is.investigation_handle == was.investigation_handle
}

spec fn unhandled(is: EntityModel, source: Seq<char>) -> bool {
    is.source == source && is.handling_status is None && is.aven_ref is None
        && is.investigation_handle is None
}

proof fn lemma_done_is_kept(
    store: StoreModel,
    source: Seq<char>,
    items: Seq<ReportedItem>,
    observed_at: i64,
)
    requires
        with_items(store, source, items, observed_at) is Ok,
    ensures
        ({
            let (after, _) = with_items(store, source, items, observed_at)->Ok_0;
            &&& after.entities.len() >= store.entities.len()
            &&& forall|p: int|
                0 <= p < store.entities.len() ==> same_handling(
                    store.entities[p],
                    #[trigger] after.entities[p],
                )
            &&& forall|p: int|
                store.entities.len() <= p < after.entities.len() ==> unhandled(
                    #[trigger] after.entities[p],
                    source,
                )
        }),
    decreases items.len(),
{
    if items.len() > 0 {
        let front = items.drop_last();
        let (before, _) = with_items(store, source, front, observed_at)->Ok_0;
        let (after, _) = with_items(store, source, items, observed_at)->Ok_0;
        lemma_done_is_kept(store, source, front, observed_at);
        lemma_item_says(before, source, items.last(), observed_at);
        assert forall|p: int| 0 <= p < store.entities.len() implies same_handling(
            store.entities[p],
            #[trigger] after.entities[p],
        ) by {
            assert(same_handling(store.entities[p], before.entities[p]));
        }
        assert forall|p: int| store.entities.len() <= p < after.entities.len() implies unhandled(
            #[trigger] after.entities[p],
            source,
        ) by {
            if p < before.entities.len() {
                assert(unhandled(before.entities[p], source));
            }
        }
    }
}

/// A new event is put down to the operator where it was injected, to a new revision where its
/// entity had an event before, and otherwise to the first sight of its entity.
pub proof fn law_new_events_name_their_cause(
    store: StoreModel,
    source: Seq<char>,
    reported_item: ReportedItem,
    observed_at: i64,
)
    requires
        keyed(store),
        with_item(store, source, reported_item, observed_at) is Ok,
        with_item(store, source, reported_item, observed_at)->Ok_0.1 == 1,
    ensures
        ({
            let (after, _) = with_item(store, source, reported_item, observed_at)->Ok_0;
            let new = after.events.last();
            new.next_dispatch_trigger == (if source == "manual-injection"@ {
                DispatchTrigger::ManualInjection
            } else if exists|k: int|
                0 <= k < store.events.len() && (#[trigger] store.events[k]).entity_id
                    == new.entity_id {
                DispatchTrigger::Revision
            } else {
                DispatchTrigger::Initial
            })
        }),
{
}

/// After a source has reported, it holds the checkpoint that was reported, its last success is
/// now, and it has no error. After a failure it holds the first 4096 bytes of the error, and its
/// checkpoint and last success are those of before. Every other source stays as it was, and each
/// source has one state.
pub proof fn law_sources_hold_their_last_report(
    store: StoreModel,
    source: String,
    checkpoint: String,
    items: Vec<ReportedItem>,
    error: String,
    now: i64,
)
    ensures
        ({
            let (after, outcome) = served(
                store,
                WriteOperation::SourceSucceeded { source, checkpoint, items, observed_at: now },
            );
            outcome is Count ==> {
                &&& exists|s: int|
                    0 <= s < after.sources.len() && (#[trigger] after.sources[s]).source == source@
                &&& forall|s: int|
                    0 <= s < after.sources.len() && (#[trigger] after.sources[s]).source == source@
                        ==> after.sources[s].checkpoint == Some(checkpoint@)
                        && after.sources[s].last_success_at == Some(now)
                        && after.sources[s].last_error is None && after.sources[s].updated_at
                        == now
                &&& forall|s: int|
                    0 <= s < store.sources.len() && store.sources[s].source != source@ ==> (
                    #[trigger] after.sources[s]) == store.sources[s]
                &&& after.sources.len() == store.sources.len() + (if exists|s: int|
                    0 <= s < store.sources.len() && (#[trigger] store.sources[s]).source
                        == source@ {
                    0int
                } else {
                    1int
                })
            }
        }),
        ({
            let (after, outcome) = served(
                store,
                WriteOperation::SourceFailed { source, error, now },
            );
            &&& outcome == Outcome::Done
            &&& exists|s: int|
                0 <= s < after.sources.len() && (#[trigger] after.sources[s]).source == source@
            &&& forall|s: int|
                0 <= s < after.sources.len() && (#[trigger] after.sources[s]).source == source@
                    ==> after.sources[s].last_error == Some(text::byte_prefix(error@, 4096))
                    && after.sources[s].updated_at == now
            &&& forall|s: int|
                0 <= s < store.sources.len() ==> (#[trigger] after.sources[s]).source
                    == store.sources[s].source && after.sources[s].checkpoint
                    == store.sources[s].checkpoint && after.sources[s].last_success_at
                    == store.sources[s].last_success_at && (store.sources[s].source != source@
                    ==> after.sources[s] == store.sources[s])
            &&& forall|s: int|
                store.sources.len() <= s < after.sources.len() ==> (
                #[trigger] after.sources[s]).checkpoint is None
                    && after.sources[s].last_success_at is None
            &&& after.entities == store.entities
            &&& after.events == store.events
            &&& after.runs == store.runs
        }),
{
    let failed = served(store, WriteOperation::SourceFailed { source, error, now }).0;
    let succeeded = served(
        store,
        WriteOperation::SourceSucceeded { source, checkpoint, items, observed_at: now },
    ).0;
    if known_source(store.sources, source@) {
        let s = choose|s: int|
            0 <= s < store.sources.len() && (#[trigger] store.sources[s]).source == source@;
        assert(failed.sources[s].source == source@);
        if with_items(store, source@, items@, now) is Ok {
            assert(succeeded.sources[s].source == source@);
        }
    } else {
        let s = store.sources.len() as int;
        assert(failed.sources[s].source == source@);
        if with_items(store, source@, items@, now) is Ok {
            assert(succeeded.sources[s].source == source@);
        }
    }
}

} // verus!
