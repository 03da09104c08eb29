//! What is stored of the commands that ran for an event, and of texts.
use vstd::prelude::*;

use crate::database::laws::numbered;
use crate::database::operations::{served, Outcome, WriteOperation};
use crate::database::queue::{event_place, last_run};
use crate::database::rules::{
    detail, detail_char, first_reference, is_reference, named_handle, reference_words, tool_name,
};
use crate::database::sources::effect_of;
use crate::database::tables::{EventModel, RunModel, StoreModel};
use crate::text;

verus! {

proof fn lemma_place(events: Seq<EventModel>, k: int, from: int)
    requires
        numbered(events),
        0 <= from <= k < events.len(),
    ensures
        event_place(events, events[k].id, from) == Some(k),
    decreases k - from,
{
    if from < k {
        assert(events[from].id != events[k].id);
        lemma_place(events, k, from + 1);
    }
}

/// Whether the name is a plain one: a letter, and letters, digits and `_ . : -` behind it, eighty
/// characters at most.
pub open spec fn plain_name(name: Seq<char>) -> bool {
    &&& 0 < name.len() <= 80
    &&& 'a' <= name[0] <= 'z' || 'A' <= name[0] <= 'Z'
    &&& forall|i: int|
        0 <= i < name.len() ==> {
            let c = #[trigger] name[i];
            'a' <= c <= 'z' || 'A' <= c <= 'Z' || '0' <= c <= '9' || c == '_' || c == '.' || c
                == ':' || c == '-'
        }
}

/// A plain name is stored as it is, and any other as `tool`.
pub proof fn law_tool_names_are_plain(name: Seq<char>)
    ensures
        tool_name(name) == (if plain_name(name) {
            name
        } else {
            "tool"@
        }),
{
    text::lemma_byte_len_bounds(name);
    if plain_name(name) {
        assert forall|i: int| 0 <= i < name.len() implies (#[trigger] name[i] as u32) < 0x80 by {}
        text::lemma_byte_len_ascii(name);
    }
}

/// Of a command that ran for an event its name, its exit code and the size of its output are
/// kept, behind the commands that were kept before. The events, the runs and the turns stay.
pub proof fn law_commands_are_recorded(
    store: StoreModel,
    event_id: i64,
    executable: String,
    exit_code: i32,
    output: String,
    now: i64,
)
    ensures
        ({
            let (after, outcome) = served(
                store,
                WriteOperation::RecordCommand { event_id, executable, exit_code, output, now },
            );
            let row = after.commands.last();
            &&& outcome == Outcome::Done
            &&& after.commands.drop_last() == store.commands
            &&& row.event_id == event_id
            &&& row.exit_code == exit_code
            &&& row.created_at == now
            &&& plain_name(executable@) ==> row.command == "tool="@ + executable@
            &&& !plain_name(executable@) ==> row.command == "tool=tool"@
            &&& row.output_summary == "bytes="@ + text::decimal(text::byte_len(output@))
            &&& after.events == store.events
            &&& after.runs == store.runs
            &&& after.turns == store.turns
            &&& after.steps == store.steps
            &&& after.sources == store.sources
        }),
{
    let after = served(
        store,
        WriteOperation::RecordCommand { event_id, executable, exit_code, output, now },
    ).0;
    assert(after.commands.drop_last() =~= store.commands);
    law_tool_names_are_plain(executable@);
    reveal_strlit("tool=tool");
    reveal_strlit("tool=");
    reveal_strlit("tool");
    assert("tool="@ + "tool"@ =~= "tool=tool"@);
}

/// A command that failed, and one of another program, leaves nothing behind: no entity and no
/// effect changes.
pub proof fn law_other_commands_leave_nothing_behind(
    store: StoreModel,
    event_id: i64,
    executable: String,
    exit_code: i32,
    output: String,
    now: i64,
)
    requires
        exit_code != 0 || (executable@ != "aven"@ && executable@ != "workmux"@),
    ensures
        ({
            let after = served(
                store,
                WriteOperation::RecordCommand { event_id, executable, exit_code, output, now },
            ).0;
            after.entities == store.entities && after.effects == store.effects
        }),
{
    law_tool_names_are_plain(executable@);
    reveal_strlit("tool");
    reveal_strlit("aven");
    reveal_strlit("workmux");
    assert("tool"@[0] == 't' && "aven"@[0] == 'a' && "workmux"@[0] == 'w');
}

/// The first reference in the output of a successful `aven` is kept at the entity of the event and
/// as an effect of the event's last run, once. Other entities stay, and other fields of the entity.
pub proof fn law_references_are_kept(
    store: StoreModel,
    k: int,
    executable: String,
    output: String,
    value: Seq<char>,
    now: i64,
    p: int,
)
    requires
        numbered(store.events),
        0 <= k < store.events.len(),
        0 <= p < store.entities.len(),
        executable@ == "aven"@,
        first_reference(reference_words(output@), 0) == Some(value),
    ensures
        ({
            let after = served(
                store,
                WriteOperation::RecordCommand {
                    event_id: store.events[k].id,
                    executable,
                    exit_code: 0,
                    output,
                    now,
                },
            ).0;
            let was = store.entities[p];
            let is = after.entities[p];
            &&& after.entities.len() == store.entities.len()
            &&& was.id == store.events[k].entity_id ==> is.aven_ref == Some(value)
                && is.investigation_handle == was.investigation_handle && is.title == was.title
                && is.handling_status == was.handling_status && is.id == was.id
            &&& was.id != store.events[k].entity_id ==> is == was
            &&& forall|r: int|
                0 <= r < store.runs.len() && (#[trigger] store.runs[r]).event_id
                    == store.events[k].id && (forall|q: int|
                    0 <= q < store.runs.len() && (#[trigger] store.runs[q]).event_id
                        == store.events[k].id ==> store.runs[q].id <= store.runs[r].id)
                    ==> exists|e: int|
                    0 <= e < after.effects.len() && (#[trigger] after.effects[e]).run_id
                        == store.runs[r].id && after.effects[e].effect_type == "aven_reference"@
                        && after.effects[e].value == value
            &&& after.effects.len() <= store.effects.len() + 1
            &&& forall|e: int|
                0 <= e < store.effects.len() ==> (#[trigger] after.effects[e]) == store.effects[e]
        }),
{
    lemma_place(store.events, k, 0);
    lemma_latest_run(store.runs, store.events[k].id);
    law_tool_names_are_plain(executable@);
    reveal_strlit("aven");
    assert(plain_name("aven"@));
    let after = served(
        store,
        WriteOperation::RecordCommand {
            event_id: store.events[k].id,
            executable,
            exit_code: 0,
            output,
            now,
        },
    ).0;
    assert(effect_of(executable@, 0, output@) is Some);
    assert forall|r: int|
        0 <= r < store.runs.len() && (#[trigger] store.runs[r]).event_id == store.events[k].id && (
        forall|q: int|
            0 <= q < store.runs.len() && (#[trigger] store.runs[q]).event_id == store.events[k].id
                ==> store.runs[q].id <= store.runs[r].id) implies exists|e: int|
        0 <= e < after.effects.len() && (#[trigger] after.effects[e]).run_id == store.runs[r].id
            && after.effects[e].effect_type == "aven_reference"@ && after.effects[e].value
            == value by {
        let id = last_run(store.runs, store.events[k].id)->0;
        assert(id == store.runs[r].id);
        if !crate::database::sources::has_effect(
            store.effects,
            id,
            "aven_reference"@,
            value,
        ) {
            assert(after.effects[after.effects.len() - 1].value == value);
        }
    }
}

/// The handle in the output of a successful `workmux` is kept at the entity of the event. Other
/// entities stay, and other fields of the entity.
pub proof fn law_handles_are_kept(
    store: StoreModel,
    k: int,
    executable: String,
    output: String,
    value: Seq<char>,
    now: i64,
    p: int,
)
    requires
        numbered(store.events),
        0 <= k < store.events.len(),
        0 <= p < store.entities.len(),
        executable@ == "workmux"@,
        named_handle(text::split_on(output@, '\n'), 0) == Some(value),
    ensures
        ({
            let after = served(
                store,
                WriteOperation::RecordCommand {
                    event_id: store.events[k].id,
                    executable,
                    exit_code: 0,
                    output,
                    now,
                },
            ).0;
            let was = store.entities[p];
            let is = after.entities[p];
            &&& was.id == store.events[k].entity_id ==> is.investigation_handle == Some(value)
                && is.aven_ref == was.aven_ref && is.title == was.title && is.handling_status
                == was.handling_status && is.id == was.id
            &&& was.id != store.events[k].entity_id ==> is == was
        }),
{
    lemma_place(store.events, k, 0);
    law_tool_names_are_plain(executable@);
    reveal_strlit("workmux");
    reveal_strlit("aven");
    assert(plain_name("workmux"@));
    assert("workmux"@[0] != "aven"@[0]);
}

proof fn lemma_latest_run(runs: Seq<RunModel>, event_id: i64)
    ensures
        match last_run(runs, event_id) {
            Some(id) => (exists|r: int|
                0 <= r < runs.len() && (#[trigger] runs[r]).event_id == event_id && runs[r].id
                    == id) && forall|r: int|
                0 <= r < runs.len() && (#[trigger] runs[r]).event_id == event_id ==> runs[r].id
                    <= id,
            None => forall|r: int|
                0 <= r < runs.len() ==> (#[trigger] runs[r]).event_id != event_id,
        },
    decreases runs.len(),
{
    if runs.len() > 0 {
        let front = runs.drop_last();
        lemma_latest_run(front, event_id);
        assert(runs[runs.len() - 1] == runs.last());
        assert forall|r: int| 0 <= r < front.len() implies #[trigger] runs[r] == front[r] by {}
        if let Some(id) = last_run(front, event_id) {
            let r = choose|r: int|
                0 <= r < front.len() && (#[trigger] front[r]).event_id == event_id && front[r].id
                    == id;
            assert(runs[r] == front[r]);
        }
    }
}

/// A word is a reference exactly if it is made of two parts with one dash between them: the first
/// begins with a capital letter, the second has three characters at least, and both hold capital
/// letters and digits alone.
pub proof fn law_references(first: Seq<char>, second: Seq<char>)
    requires
        forall|i: int| 0 <= i < first.len() ==> #[trigger] first[i] != '-',
    ensures
        is_reference(first + seq!['-'] + second) <==> {
            &&& first.len() > 0
            &&& 'A' <= first[0] <= 'Z'
            &&& forall|i: int|
                0 <= i < first.len() ==> ('A' <= #[trigger] first[i] <= 'Z' || '0' <= first[i]
                    <= '9')
            &&& second.len() >= 3
            &&& forall|i: int|
                0 <= i < second.len() ==> ('A' <= #[trigger] second[i] <= 'Z' || '0' <= second[i]
                    <= '9')
        },
        !is_reference(first),
{
    let word = first + seq!['-'] + second;
    let dash = first.len() as int;
    reveal_strlit("-");
    assert("-"@ =~= seq!['-']);
    assert(word.subrange(dash, dash + 1) =~= seq!['-']);
    assert forall|j: int| 0 <= j < dash implies !#[trigger] text::occurs_at(word, "-"@, j) by {
        if text::occurs_at(word, "-"@, j) {
            assert(word.subrange(j, j + 1)[0] == '-');
            assert(word[j] == first[j]);
        }
    }
    assert(text::first_at(word, "-"@, 0, dash));
    text::lemma_first_at(word, "-"@, 0, dash);
    assert(word.take(dash) =~= first);
    assert(word.skip(dash + 1) =~= second);
    assert(dash > 0 ==> word[0] == first[0]);
    text::lemma_find(first, "-"@, 0);
    if let Some(i) = text::find_from(first, "-"@, 0) {
        assert(first.subrange(i, i + 1)[0] == '-');
        assert(first[i] == '-');
    }
}

proof fn lemma_details_kept(s: Seq<char>)
    requires
        forall|i: int|
            0 <= i < s.len() ==> detail_char(#[trigger] s[i]),
    ensures
        s.filter(|c: char| detail_char(c)) == s,
    decreases s.len(),
{
    reveal(Seq::filter);
    if s.len() > 0 {
        assert forall|i: int| 0 <= i < s.drop_last().len() implies detail_char(
            #[trigger] s.drop_last()[i],
        ) by {
            assert(s.drop_last()[i] == s[i]);
        }
        lemma_details_kept(s.drop_last());
        assert(detail_char(s[s.len() - 1]));
        assert(s.drop_last().push(s.last()) =~= s);
    } else {
        assert(s.filter(|c: char| detail_char(c)) =~= s);
    }
}

/// A text without blanks at its ends and without control characters is stored as it is, or its
/// first characters and an ellipsis where it is too long.
pub proof fn law_plain_details_are_kept(s: Seq<char>, limit: nat)
    requires
        s.len() > 0,
        !text::whitespace(s[0]),
        !text::whitespace(s.last()),
        forall|i: int|
            0 <= i < s.len() ==> #[trigger] s[i] == '\n' || s[i] == '\t' || s[i] == '\r' || (
            0x20 <= (s[i] as u32) && !(0x7f <= (s[i] as u32) < 0xa0)),
    ensures
        s.len() <= limit ==> detail(s, limit) == s,
        s.len() > limit ==> detail(s, limit) == s.take(limit as int).push('…'),
{
    assert(text::trim(s) == s);
    assert forall|i: int| 0 <= i < s.len() implies detail_char(#[trigger] s[i]) by {}
    lemma_details_kept(s);
}

} // verus!
