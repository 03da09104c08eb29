//! The records of the structured logs: what is written, and how its size is kept in bounds.
use vstd::prelude::*;

use crate::agent::command_policy::{filtered, CommandPolicy};
use crate::database::records::{RunMetadata, RunOutcome};
use crate::database::rules::{safe_tool_name, tool_name};
use crate::errors::ErrorCategory;
use crate::text;

verus! {

/// How many records may wait to be written.
pub const LOG_QUEUE_CAPACITY: usize = 64;

/// The longest text of a record, in bytes.
pub const MAX_LOG_STRING_BYTES: usize = 262_144;

/// The longest record, in bytes.
pub const MAX_LOG_RECORD_BYTES: usize = 2_097_152;

/// How deep lists and objects may be nested.
pub const MAX_LOG_DEPTH: usize = 24;

/// The most items of a list.
pub const MAX_LOG_ARRAY_ITEMS: usize = 10_000;

/// The most keys of an object.
pub const MAX_LOG_OBJECT_KEYS: usize = 2_000;

/// The longest diagnostic of a tool, in bytes.
pub const MAX_DIAGNOSTIC_BYTES: usize = 16_384;

/// Whether a record was written.
#[derive(Clone, Copy, Debug, PartialEq, Eq, Structural)]
pub enum LogWriteOutcome {
    Written,
    Failed,
}

impl LogWriteOutcome {
    pub fn is_written(self) -> (b: bool)
        ensures
            b == (self is Written),
    {
        self == LogWriteOutcome::Written
    }
}

// ---------------------------------------------------------------------------------------------
// Values
// ---------------------------------------------------------------------------------------------

/// A value of a record. A number is given as it is written.
#[derive(Debug)]
pub enum LogValue {
    Null,
    Bool(bool),
    Number(String),
    Text(String),
    List(Vec<LogValue>),
    Object(Vec<LogField>),
}

/// A key of an object, and its value.
#[derive(Debug)]
pub struct LogField {
    pub key: String,
    pub value: LogValue,
}

/// What the contracts say of a value.
pub enum LogModel {
    Null,
    Bool(bool),
    Number(Seq<char>),
    Text(Seq<char>),
    List(Seq<LogModel>),
    Object(Seq<(Seq<char>, LogModel)>),
}

/// What the contracts say of a value.
pub open spec fn model(value: LogValue) -> LogModel
    decreases value,
{
    match value {
        LogValue::Null => LogModel::Null,
        LogValue::Bool(b) => LogModel::Bool(b),
        LogValue::Number(number) => LogModel::Number(number@),
        LogValue::Text(content) => LogModel::Text(content@),
        LogValue::List(items) => LogModel::List(item_models(items@)),
        LogValue::Object(fields) => LogModel::Object(field_models(fields@)),
    }
}

/// What the contracts say of the items of a list.
pub open spec fn item_models(items: Seq<LogValue>) -> Seq<LogModel>
    decreases items,
{
    if items.len() == 0 {
        Seq::empty()
    } else {
        item_models(items.drop_last()).push(model(items.last()))
    }
}

/// What the contracts say of the fields of an object.
pub open spec fn field_models(fields: Seq<LogField>) -> Seq<(Seq<char>, LogModel)>
    decreases fields,
{
    if fields.len() == 0 {
        Seq::empty()
    } else {
        field_models(fields.drop_last()).push((fields.last().key@, model(fields.last().value)))
    }
}

/// Item by item, a list is what its items are.
pub proof fn lemma_item_models(items: Seq<LogValue>)
    ensures
        item_models(items).len() == items.len(),
        forall|k: int| 0 <= k < items.len() ==> #[trigger] item_models(items)[k] == model(items[k]),
    decreases items.len(),
{
    if items.len() > 0 {
        lemma_item_models(items.drop_last());
        assert forall|k: int| 0 <= k < items.len() implies #[trigger] item_models(items)[k]
            == model(items[k]) by {
            if k < items.len() - 1 {
                assert(items.drop_last()[k] == items[k]);
                assert(item_models(items.drop_last())[k] == model(items[k]));
            }
        }
    }
}

/// Field by field, an object is what its fields are.
pub proof fn lemma_field_models(fields: Seq<LogField>)
    ensures
        field_models(fields).len() == fields.len(),
        forall|k: int|
            0 <= k < fields.len() ==> #[trigger] field_models(fields)[k] == (
                fields[k].key@,
                model(fields[k].value),
            ),
    decreases fields.len(),
{
    if fields.len() > 0 {
        lemma_field_models(fields.drop_last());
        assert forall|k: int| 0 <= k < fields.len() implies #[trigger] field_models(fields)[k] == (
            fields[k].key@,
            model(fields[k].value),
        ) by {
            if k < fields.len() - 1 {
                assert(fields.drop_last()[k] == fields[k]);
                assert(field_models(fields.drop_last())[k] == (
                    fields[k].key@,
                    model(fields[k].value),
                ));
            }
        }
    }
}

// ---------------------------------------------------------------------------------------------
// Bounds
// ---------------------------------------------------------------------------------------------

/// What decides what of a text may be written.
pub trait Redactor {
    /// What of the text may be written.
    spec fn shown(&self, value: Seq<char>) -> Seq<char>;

    /// What of the text may be written.
    fn redact(&self, value: &str) -> (out: String)
        ensures
            out@ == self.shown(value@),
    ;
}

/// What of a text may be written, as a function of the text.
pub open spec fn shown_by<R: Redactor>(redactor: R) -> spec_fn(Seq<char>) -> Seq<char> {
    |content: Seq<char>| redactor.shown(content)
}

impl Redactor for CommandPolicy {
    open spec fn shown(&self, value: Seq<char>) -> Seq<char> {
        filtered(self@.filters, value)
    }

    fn redact(&self, value: &str) -> (out: String) {
        self.filter(value)
    }
}

/// The text, or as much of its beginning as fits, with a note of its length.
pub open spec fn cut(value: Seq<char>, limit: nat) -> Seq<char> {
    if text::byte_len(value) <= limit {
        value
    } else {
        text::byte_prefix(value, limit) + "\n[TRUNCATED: "@ + text::decimal(text::byte_len(value))
            + " bytes total]"@
    }
}

/// What may be written of the text, or as much of its beginning as fits.
pub fn bounded_string<R: Redactor>(value: &str, limit: usize, redactor: &R) -> (out: String)
    ensures
        out@ == cut(redactor.shown(value@), limit as nat),
{
    let shown = redactor.redact(value);
    let length = text::byte_count(&text::chars_of(shown.as_str()));
    if length <= limit as u128 {
        return shown;
    }
    let mut out = text::take_bytes(shown.as_str(), limit as u64);
    out.append("\n[TRUNCATED: ");
    out.append(text::decimal_of(length).as_str());
    out.append(" bytes total]");
    out
}

/// The smaller of the two.
pub open spec fn at_most(count: nat, limit: nat) -> nat {
    if count <= limit {
        count
    } else {
        limit
    }
}

/// The fields with the value under the key, in the place of the value that was there or else
/// behind all others.
pub open spec fn inserted(fields: Seq<(Seq<char>, LogModel)>, key: Seq<char>, value: LogModel) -> Seq<
    (Seq<char>, LogModel),
>
    decreases fields.len(),
{
    if fields.len() == 0 {
        seq![(key, value)]
    } else if fields[0].0 == key {
        seq![(key, value)] + fields.drop_first()
    } else {
        seq![fields[0]] + inserted(fields.drop_first(), key, value)
    }
}

/// The value as it is written: texts redacted and cut, lists and objects cut, and nothing
/// nested deeper than the limit.
pub open spec fn normal(value: LogModel, shown: spec_fn(Seq<char>) -> Seq<char>, depth: nat) -> LogModel
    decreases value, 0nat,
{
    match value {
        LogModel::Text(content) => LogModel::Text(
            cut(shown(content), MAX_LOG_STRING_BYTES as nat),
        ),
        LogModel::List(items) => if depth >= MAX_LOG_DEPTH {
            LogModel::Text("[TRUNCATED: maximum depth reached]"@)
        } else {
            let kept = at_most(items.len(), MAX_LOG_ARRAY_ITEMS as nat);
            let list = normal_items(items, kept, shown, depth + 1);
            if items.len() > MAX_LOG_ARRAY_ITEMS {
                LogModel::List(
                    list.push(
                        LogModel::Text(
                            "[TRUNCATED: "@ + text::decimal(
                                (items.len() - MAX_LOG_ARRAY_ITEMS) as nat,
                            ) + " array items]"@,
                        ),
                    ),
                )
            } else {
                LogModel::List(list)
            }
        },
        LogModel::Object(fields) => if depth >= MAX_LOG_DEPTH {
            LogModel::Text("[TRUNCATED: maximum depth reached]"@)
        } else {
            let kept = at_most(fields.len(), MAX_LOG_OBJECT_KEYS as nat);
            let list = normal_fields(fields, kept, shown, depth + 1);
            if fields.len() > MAX_LOG_OBJECT_KEYS {
                LogModel::Object(
                    inserted(
                        list,
                        "valueTruncated"@,
                        LogModel::Text(
                            text::decimal((fields.len() - MAX_LOG_OBJECT_KEYS) as nat)
                                + " object keys"@,
                        ),
                    ),
                )
            } else {
                LogModel::Object(list)
            }
        },
        _ => value,
    }
}

/// The first items of a list as they are written.
pub open spec fn normal_items(
    items: Seq<LogModel>,
    count: nat,
    shown: spec_fn(Seq<char>) -> Seq<char>,
    depth: nat,
) -> Seq<LogModel>
    decreases items, count,
{
    if count == 0 || count > items.len() {
        Seq::empty()
    } else {
        normal_items(items, (count - 1) as nat, shown, depth).push(
            normal(items[count - 1], shown, depth),
        )
    }
}

/// The first fields of an object as they are written.
pub open spec fn normal_fields(
    fields: Seq<(Seq<char>, LogModel)>,
    count: nat,
    shown: spec_fn(Seq<char>) -> Seq<char>,
    depth: nat,
) -> Seq<(Seq<char>, LogModel)>
    decreases fields, count,
{
    if count == 0 || count > fields.len() {
        Seq::empty()
    } else {
        normal_fields(fields, (count - 1) as nat, shown, depth).push(
            (fields[count - 1].0, normal(fields[count - 1].1, shown, depth)),
        )
    }
}

/// Puts a value under a key.
fn insert_field(fields: &mut Vec<LogField>, key: &str, value: LogValue)
    ensures
        field_models(final(fields)@) == inserted(field_models(old(fields)@), key@, model(value)),
{
    let ghost before = field_models(fields@);
    let ghost fresh = model(value);
    proof {
        lemma_field_models(fields@);
    }
    let total: usize = fields.len();
    let mut i: usize = 0;
    assert(before.skip(0) =~= before);
    assert(before.take(0) + inserted(before, key@, fresh) =~= inserted(before, key@, fresh));
    while i < total && !text::same(fields[i].key.as_str(), key)
        invariant
            i <= total == fields@.len(),
            before == field_models(fields@),
            before.len() == fields@.len(),
            forall|k: int|
                0 <= k < fields@.len() ==> #[trigger] before[k] == (
                    fields@[k].key@,
                    model(fields@[k].value),
                ),
            inserted(before, key@, fresh) == before.take(i as int) + inserted(
                before.skip(i as int),
                key@,
                fresh,
            ),
        decreases total - i,
    {
        let ghost rest = before.skip(i as int);
        assert(rest[0] == before[i as int]);
        assert(rest.drop_first() =~= before.skip(i + 1));
        assert(before.take(i as int) + (seq![rest[0]] + inserted(rest.drop_first(), key@, fresh))
            =~= before.take(i + 1) + inserted(before.skip(i + 1), key@, fresh));
        i += 1;
    }
    let ghost old_fields = fields@;
    if i < total {
        let ghost rest = before.skip(i as int);
        assert(rest[0] == before[i as int]);
        fields[i].value = value;
        proof {
            lemma_field_models(fields@);
            assert(fields@.len() == old_fields.len());
            assert forall|k: int| 0 <= k < fields@.len() implies #[trigger] field_models(fields@)[k]
                == inserted(before, key@, fresh)[k] by {
                if k < i {
                    assert(before[k] == (old_fields[k].key@, model(old_fields[k].value)));
                } else if k > i {
                    assert(before[k] == (old_fields[k].key@, model(old_fields[k].value)));
                    assert(rest.drop_first()[k - i - 1] == before[k]);
                }
            }
            assert(field_models(fields@) =~= inserted(before, key@, fresh));
        }
    } else {
        assert(before.skip(i as int) =~= Seq::empty());
        fields.push(LogField { key: key.to_owned(), value });
        assert(fields@.drop_last() =~= old_fields);
        assert(before.take(i as int) =~= before);
        assert(field_models(fields@) =~= inserted(before, key@, fresh));
    }
}

/// The value as it is written at this depth.
pub fn normalize<R: Redactor>(value: &LogValue, redactor: &R, depth: usize) -> (out: LogValue)
    requires
        depth <= MAX_LOG_DEPTH,
    ensures
        model(out) == normal(
            model(*value),
            shown_by(*redactor),
            depth as nat,
        ),
    decreases MAX_LOG_DEPTH - depth,
{
    let ghost shown = shown_by(*redactor);
    match value {
        LogValue::Null => LogValue::Null,
        LogValue::Bool(b) => LogValue::Bool(*b),
        LogValue::Number(number) => LogValue::Number(number.as_str().to_owned()),
        LogValue::Text(content) => LogValue::Text(
            bounded_string(content.as_str(), MAX_LOG_STRING_BYTES, redactor),
        ),
        LogValue::List(items) => {
            if depth >= MAX_LOG_DEPTH {
                return LogValue::Text("[TRUNCATED: maximum depth reached]".to_owned());
            }
            let ghost models = item_models(items@);
            proof {
                lemma_item_models(items@);
            }
            let total: usize = items.len();
            let mut kept: usize = total;
            if kept > MAX_LOG_ARRAY_ITEMS {
                kept = MAX_LOG_ARRAY_ITEMS;
            }
            let mut list: Vec<LogValue> = Vec::new();
            let mut i: usize = 0;
            while i < kept
                invariant
                    i <= kept <= items@.len(),
                    depth < MAX_LOG_DEPTH,
                    *value == LogValue::List(*items),
                    models == item_models(items@),
                    models.len() == items@.len(),
                    forall|k: int|
                        0 <= k < items@.len() ==> #[trigger] models[k] == model(items@[k]),
                    shown == shown_by(*redactor),
                    list@.len() == i,
                    item_models(list@) == normal_items(
                        models,
                        i as nat,
                        shown,
                        (depth + 1) as nat,
                    ),
                decreases kept - i,
            {
                let ghost before = list@;
                assert(models[i as int] == model(items@[i as int]));
                list.push(normalize(&items[i], redactor, depth + 1));
                assert(list@.drop_last() =~= before);
                i += 1;
            }
            if total > MAX_LOG_ARRAY_ITEMS {
                let mut note = "[TRUNCATED: ".to_owned();
                note.append(text::decimal_of((total - MAX_LOG_ARRAY_ITEMS) as u128).as_str());
                note.append(" array items]");
                let ghost before = list@;
                list.push(LogValue::Text(note));
                assert(list@.drop_last() =~= before);
                assert(model(list@.last()) == LogModel::Text(note@));
            }
            LogValue::List(list)
        },
        LogValue::Object(fields) => {
            if depth >= MAX_LOG_DEPTH {
                return LogValue::Text("[TRUNCATED: maximum depth reached]".to_owned());
            }
            let ghost models = field_models(fields@);
            proof {
                lemma_field_models(fields@);
            }
            let total: usize = fields.len();
            let mut kept: usize = total;
            if kept > MAX_LOG_OBJECT_KEYS {
                kept = MAX_LOG_OBJECT_KEYS;
            }
            let mut list: Vec<LogField> = Vec::new();
            let mut i: usize = 0;
            while i < kept
                invariant
                    i <= kept <= fields@.len(),
                    depth < MAX_LOG_DEPTH,
                    *value == LogValue::Object(*fields),
                    models == field_models(fields@),
                    models.len() == fields@.len(),
                    forall|k: int|
                        0 <= k < fields@.len() ==> #[trigger] models[k] == (
                            fields@[k].key@,
                            model(fields@[k].value),
                        ),
                    shown == shown_by(*redactor),
                    list@.len() == i,
                    field_models(list@) == normal_fields(
                        models,
                        i as nat,
                        shown,
                        (depth + 1) as nat,
                    ),
                decreases kept - i,
            {
                let ghost before = list@;
                assert(models[i as int] == (
                    fields@[i as int].key@,
                    model(fields@[i as int].value),
                ));
                let field = &fields[i];
                list.push(
                    LogField {
                        key: field.key.as_str().to_owned(),
                        value: normalize(&field.value, redactor, depth + 1),
                    },
                );
                assert(list@.drop_last() =~= before);
                i += 1;
            }
            if total > MAX_LOG_OBJECT_KEYS {
                let mut note = text::decimal_of((total - MAX_LOG_OBJECT_KEYS) as u128);
                note.append(" object keys");
                insert_field(&mut list, "valueTruncated", LogValue::Text(note));
            }
            LogValue::Object(list)
        },
    }
}

// ---------------------------------------------------------------------------------------------
// Records
// ---------------------------------------------------------------------------------------------

/// The value of the first field with the key, or null.
pub open spec fn field_of(fields: Seq<(Seq<char>, LogModel)>, key: Seq<char>) -> LogModel
    decreases fields.len(),
{
    if fields.len() == 0 {
        LogModel::Null
    } else if fields[0].0 == key {
        fields[0].1
    } else {
        field_of(fields.drop_first(), key)
    }
}

/// Whether the value is an object with these fields.
pub open spec fn holds(value: LogModel, fields: Seq<(Seq<char>, LogModel)>) -> bool {
    value matches LogModel::Object(own) && own =~= fields
}

/// The fields of a record: those of an object, or else a single one that holds the value.
pub open spec fn record_fields(details: LogModel) -> Seq<(Seq<char>, LogModel)> {
    match details {
        LogModel::Object(fields) => fields,
        other => seq![("details"@, other)],
    }
}

/// Removes the first field with a key.
fn take_field(fields: &mut Vec<LogField>, key: &str) -> (value: LogValue)
    ensures
        model(value) == field_of(field_models(old(fields)@), key@),
        forall|other: Seq<char>|
            other != key@ ==> #[trigger] field_of(field_models(final(fields)@), other) == field_of(
                field_models(old(fields)@),
                other,
            ),
{
    let ghost before = field_models(fields@);
    proof {
        lemma_field_models(fields@);
    }
    let total: usize = fields.len();
    let mut i: usize = 0;
    assert(before.skip(0) =~= before);
    while i < total && !text::same(fields[i].key.as_str(), key)
        invariant
            i <= total == fields@.len(),
            before == field_models(fields@),
            before.len() == fields@.len(),
            forall|k: int|
                0 <= k < fields@.len() ==> #[trigger] before[k] == (
                    fields@[k].key@,
                    model(fields@[k].value),
                ),
            field_of(before, key@) == field_of(before.skip(i as int), key@),
        decreases total - i,
    {
        assert(before.skip(i as int)[0] == before[i as int]);
        assert(before.skip(i as int).drop_first() =~= before.skip(i + 1));
        i += 1;
    }
    if i < total {
        assert(before.skip(i as int)[0] == before[i as int]);
        let ghost all = fields@;
        let field = fields.remove(i);
        proof {
            lemma_field_models(fields@);
            assert(field_models(fields@) =~= before.remove(i as int)) by {
                assert forall|k: int| 0 <= k < fields@.len() implies #[trigger] field_models(
                    fields@,
                )[k] == before.remove(i as int)[k] by {
                    assert(fields@[k] == (if k < i {
                        all[k]
                    } else {
                        all[k + 1]
                    }));
                    if k < i {
                        assert(before[k] == (all[k].key@, model(all[k].value)));
                    } else {
                        assert(before[k + 1] == (all[k + 1].key@, model(all[k + 1].value)));
                    }
                }
            }
            assert forall|other: Seq<char>| other != key@ implies #[trigger] field_of(
                field_models(fields@),
                other,
            ) == field_of(before, other) by {
                lemma_other_fields(before, i as int, other);
            }
        }
        field.value
    } else {
        assert(before.skip(i as int).len() == 0);
        LogValue::Null
    }
}

/// Removing a field leaves what is found under other keys.
proof fn lemma_other_fields(fields: Seq<(Seq<char>, LogModel)>, i: int, other: Seq<char>)
    requires
        0 <= i < fields.len(),
        fields[i].0 != other,
    ensures
        field_of(fields.remove(i), other) == field_of(fields, other),
    decreases fields.len(),
{
    let fewer = fields.remove(i);
    if i == 0 {
        assert(fewer =~= fields.drop_first());
    } else {
        assert(fewer[0] == fields[0]);
        assert(fewer.drop_first() =~= fields.drop_first().remove(i - 1));
        lemma_other_fields(fields.drop_first(), i - 1, other);
    }
}

/// The record that is written in the place of one that is too long, as its line shows.
pub open spec fn shortened(
    value: LogModel,
    line: Seq<u8>,
    shown: spec_fn(Seq<char>) -> Seq<char>,
) -> LogModel {
    let fields = match value {
        LogModel::Object(fields) => fields,
        _ => Seq::empty(),
    };
    LogModel::Object(
        seq![
            ("timestamp"@, field_of(fields, "timestamp"@)),
            ("type"@, field_of(fields, "type"@)),
            (
                "value"@,
                LogModel::Text(
                    cut(shown(text::lossy_text(line)), MAX_LOG_STRING_BYTES as nat),
                ),
            ),
            ("recordTruncated"@, LogModel::Bool(true)),
        ],
    )
}

/// The record that is written in the place of one whose line is too long. None where the line
/// may be written as it is.
pub fn bounded_record<R: Redactor>(value: LogValue, line: &[u8], redactor: &R) -> (out: Option<
    LogValue,
>)
    ensures
        match out {
            None => line@.len() <= MAX_LOG_RECORD_BYTES,
            Some(record) => line@.len() > MAX_LOG_RECORD_BYTES && model(record) == shortened(
                model(value),
                line@,
                shown_by(*redactor),
            ),
        },
{
    if line.len() <= MAX_LOG_RECORD_BYTES {
        return None;
    }
    proof {
        reveal_strlit("timestamp");
        reveal_strlit("type");
        assert("timestamp"@.len() != "type"@.len());
    }
    let ghost whole = model(value);
    let mut fields = match value {
        LogValue::Object(fields) => fields,
        _ => no_fields(),
    };
    assert(field_models(fields@) == (match whole {
        LogModel::Object(fields) => fields,
        _ => Seq::empty(),
    }));
    let timestamp = take_field(&mut fields, "timestamp");
    let event_type = take_field(&mut fields, "type");
    let content = bounded_string(
        text::from_utf8_lossy(line).as_str(),
        MAX_LOG_STRING_BYTES,
        redactor,
    );
    let mut record = no_fields();
    push_field(&mut record, "timestamp", timestamp);
    push_field(&mut record, "type", event_type);
    let content = LogValue::Text(content);
    assert(model(content) == LogModel::Text(
        cut(redactor.shown(text::lossy_text(line@)), MAX_LOG_STRING_BYTES as nat),
    ));
    let truncated = LogValue::Bool(true);
    assert(model(truncated) == LogModel::Bool(true));
    push_field(&mut record, "value", content);
    push_field(&mut record, "recordTruncated", truncated);
    assert(holds(
        shortened(whole, line@, shown_by(*redactor)),
        field_models(record@),
    ));
    Some(LogValue::Object(record))
}

fn no_fields() -> (fields: Vec<LogField>)
    ensures
        field_models(fields@) == Seq::<(Seq<char>, LogModel)>::empty(),
{
    Vec::new()
}

fn push_field(fields: &mut Vec<LogField>, key: &str, value: LogValue)
    ensures
        field_models(final(fields)@) == field_models(old(fields)@).push((key@, model(value))),
{
    fields.push(LogField { key: key.to_owned(), value });
    assert(fields@.drop_last() =~= old(fields)@);
}

/// A record without the fields that every record of its log has.
fn details_of(value: LogValue) -> (fields: Vec<LogField>)
    ensures
        field_models(fields@) == record_fields(model(value)),
{
    match value {
        LogValue::Object(fields) => fields,
        other => {
            let mut fields = no_fields();
            push_field(&mut fields, "details", other);
            assert(!(model(other) is Object));
            fields
        },
    }
}

/// The record of something that the monitor saw.
pub open spec fn monitor_model(details: LogModel, event_type: Seq<char>, timestamp: Seq<char>) -> LogModel {
    LogModel::Object(
        inserted(
            inserted(record_fields(details), "timestamp"@, LogModel::Text(timestamp)),
            "type"@,
            LogModel::Text(event_type),
        ),
    )
}

/// The record of something that the monitor saw.
pub fn monitor_record(details: LogValue, event_type: &str, timestamp: &str) -> (record: LogValue)
    ensures
        model(record) == monitor_model(model(details), event_type@, timestamp@),
{
    let mut fields = details_of(details);
    insert_field(&mut fields, "timestamp", text_value(timestamp));
    insert_field(&mut fields, "type", text_value(event_type));
    LogValue::Object(fields)
}

/// The run of which a log holds the records.
#[derive(Clone, Copy, Debug, PartialEq, Eq, Structural)]
pub struct LoggedRun {
    pub event_id: i64,
    pub attempt: u32,
}

/// A number as it is written.
pub open spec fn number_model(value: int) -> LogModel {
    LogModel::Number(text::signed_decimal(value))
}

/// A text, or null.
pub open spec fn opt_model(value: Option<Seq<char>>) -> LogModel {
    match value {
        Some(value) => LogModel::Text(value),
        None => LogModel::Null,
    }
}

/// A number, or null.
pub open spec fn opt_number_model(value: Option<i64>) -> LogModel {
    match value {
        Some(value) => number_model(value as int),
        None => LogModel::Null,
    }
}

/// A category by its name, or null.
pub open spec fn category_model(category: Option<ErrorCategory>) -> LogModel {
    match category {
        Some(category) => LogModel::Text(category.name()),
        None => LogModel::Null,
    }
}

fn text_value(value: &str) -> (out: LogValue)
    ensures
        model(out) == LogModel::Text(value@),
{
    LogValue::Text(value.to_owned())
}

fn opt_value(value: Option<&str>) -> (out: LogValue)
    ensures
        model(out) == opt_model(text::opt_str(value)),
{
    match value {
        Some(value) => LogValue::Text(value.to_owned()),
        None => LogValue::Null,
    }
}

fn opt_string_value(value: &Option<String>) -> (out: LogValue)
    ensures
        model(out) == opt_model(text::opt_text(*value)),
{
    match value {
        Some(value) => LogValue::Text(value.as_str().to_owned()),
        None => LogValue::Null,
    }
}

fn number_value(value: i64) -> (out: LogValue)
    ensures
        model(out) == number_model(value as int),
{
    LogValue::Number(text::signed_decimal_of(value))
}

fn count_value(value: u64) -> (out: LogValue)
    ensures
        model(out) == number_model(value as int),
{
    LogValue::Number(text::decimal_of(value as u128))
}

fn opt_number_value(value: Option<i64>) -> (out: LogValue)
    ensures
        model(out) == opt_number_model(value),
{
    match value {
        Some(value) => number_value(value),
        None => LogValue::Null,
    }
}

fn category_value(category: Option<ErrorCategory>) -> (out: LogValue)
    ensures
        model(out) == category_model(category),
{
    match category {
        Some(category) => text_value(category.as_str()),
        None => LogValue::Null,
    }
}

/// The record of something that happened in a run.
pub open spec fn run_model(
    run: LoggedRun,
    details: LogModel,
    event_type: Seq<char>,
    timestamp: Seq<char>,
) -> LogModel {
    LogModel::Object(
        inserted(
            inserted(
                inserted(
                    inserted(record_fields(details), "timestamp"@, LogModel::Text(timestamp)),
                    "type"@,
                    LogModel::Text(event_type),
                ),
                "eventId"@,
                number_model(run.event_id as int),
            ),
            "attempt"@,
            number_model(run.attempt as int),
        ),
    )
}

impl LoggedRun {
    /// The record of something that happened in the run.
    pub fn record(&self, details: LogValue, event_type: &str, timestamp: &str) -> (record: LogValue)
        ensures
            model(record) == run_model(*self, model(details), event_type@, timestamp@),
    {
        let mut fields = details_of(details);
        insert_field(&mut fields, "timestamp", text_value(timestamp));
        insert_field(&mut fields, "type", text_value(event_type));
        insert_field(&mut fields, "eventId", number_value(self.event_id));
        insert_field(&mut fields, "attempt", count_value(self.attempt as u64));
        LogValue::Object(fields)
    }
}

/// What is recorded when a run begins.
pub fn start_details(source: &str, kind: &str, occurred_at: &str, observed_at: &str) -> (details:
    LogValue)
    ensures
        holds(model(details), 
            seq![
                (
                    "event"@,
                    LogModel::Object(
                        seq![
                            ("source"@, LogModel::Text(source@)),
                            ("kind"@, LogModel::Text(kind@)),
                            ("occurredAt"@, LogModel::Text(occurred_at@)),
                            ("observedAt"@, LogModel::Text(observed_at@)),
                        ],
                    ),
                ),
            ],
        ),
{
    let mut event = no_fields();
    push_field(&mut event, "source", text_value(source));
    push_field(&mut event, "kind", text_value(kind));
    push_field(&mut event, "occurredAt", text_value(occurred_at));
    push_field(&mut event, "observedAt", text_value(observed_at));
    let event = LogValue::Object(event);
    assert(model(event)->Object_0 =~= seq![
        ("source"@, LogModel::Text(source@)),
        ("kind"@, LogModel::Text(kind@)),
        ("occurredAt"@, LogModel::Text(occurred_at@)),
        ("observedAt"@, LogModel::Text(observed_at@)),
    ]);
    let mut fields = no_fields();
    push_field(&mut fields, "event", event);
    LogValue::Object(fields)
}

/// The names of tools as they are recorded.
pub open spec fn tool_models(tools: Seq<Seq<char>>) -> Seq<LogModel> {
    tools.map_values(|name: Seq<char>| LogModel::Text(tool_name(name)))
}

/// What is recorded of the model and the tools of a run.
pub fn metadata_details(metadata: &RunMetadata, tools: &Vec<String>) -> (details: LogValue)
    ensures
        holds(model(details), 
            seq![
                (
                    "model"@,
                    LogModel::Object(
                        seq![
                            ("id"@, opt_model(text::opt_text(metadata.model_id))),
                            ("provider"@, opt_model(text::opt_text(metadata.model_provider))),
                            ("contextWindow"@, opt_number_model(metadata.context_window)),
                            ("maxTokens"@, opt_number_model(metadata.max_tokens)),
                        ],
                    ),
                ),
                ("thinkingLevel"@, opt_model(text::opt_text(metadata.thinking_level))),
                ("tools"@, LogModel::List(tool_models(text::texts(tools@)))),
                ("telemetryVersion"@, number_model(2)),
            ],
        ),
{
    let mut own = no_fields();
    push_field(&mut own, "id", opt_string_value(&metadata.model_id));
    push_field(&mut own, "provider", opt_string_value(&metadata.model_provider));
    push_field(&mut own, "contextWindow", opt_number_value(metadata.context_window));
    push_field(&mut own, "maxTokens", opt_number_value(metadata.max_tokens));
    let own = LogValue::Object(own);
    assert(model(own)->Object_0 =~= seq![
        ("id"@, opt_model(text::opt_text(metadata.model_id))),
        ("provider"@, opt_model(text::opt_text(metadata.model_provider))),
        ("contextWindow"@, opt_number_model(metadata.context_window)),
        ("maxTokens"@, opt_number_model(metadata.max_tokens)),
    ]);
    let ghost names = tool_models(text::texts(tools@));
    let total: usize = tools.len();
    let mut list: Vec<LogValue> = Vec::new();
    let mut i: usize = 0;
    assert(item_models(list@) =~= names.take(0));
    while i < total
        invariant
            i <= total == tools@.len(),
            names == tool_models(text::texts(tools@)),
            item_models(list@) == names.take(i as int),
        decreases total - i,
    {
        let ghost before = list@;
        let name = safe_tool_name(tools[i].as_str());
        list.push(LogValue::Text(name));
        assert(list@.drop_last() =~= before);
        assert(model(list@.last()) == LogModel::Text(name@));
        assert(names[i as int] == LogModel::Text(tool_name(text::texts(tools@)[i as int])));
        assert(item_models(list@) =~= names.take(i + 1));
        i += 1;
    }
    assert(names.take(i as int) =~= names);
    let list = LogValue::List(list);
    let mut fields = no_fields();
    push_field(&mut fields, "model", own);
    push_field(&mut fields, "thinkingLevel", opt_string_value(&metadata.thinking_level));
    push_field(&mut fields, "tools", list);
    push_field(&mut fields, "telemetryVersion", count_value(2));
    LogValue::Object(fields)
}

/// What is recorded of a prompt: how long it is.
pub fn prompt_details(value: &str) -> (details: LogValue)
    ensures
        holds(model(details), 
            seq![("byteLength"@, number_model(text::byte_len(value@) as int))],
        ),
{
    let length = text::byte_count(&text::chars_of(value));
    let mut fields = no_fields();
    push_field(&mut fields, "byteLength", LogValue::Number(text::decimal_of(length)));
    LogValue::Object(fields)
}

/// What is recorded when a turn begins.
pub fn turn_details(ordinal: u32) -> (details: LogValue)
    ensures
        holds(model(details), seq![("ordinal"@, number_model(ordinal as int))]),
{
    let mut fields = no_fields();
    push_field(&mut fields, "ordinal", count_value(ordinal as u64));
    LogValue::Object(fields)
}

/// What is recorded when a turn ends.
pub fn turn_end_details(ordinal: u32, inner: LogValue) -> (details: LogValue)
    ensures
        holds(model(details), 
            seq![("ordinal"@, number_model(ordinal as int)), ("details"@, model(inner))],
        ),
{
    let mut fields = no_fields();
    push_field(&mut fields, "ordinal", count_value(ordinal as u64));
    push_field(&mut fields, "details", inner);
    LogValue::Object(fields)
}

/// What is recorded when a tool is called.
pub fn tool_details(name: &str, summary: Option<&str>) -> (details: LogValue)
    ensures
        holds(model(details), 
            seq![
                ("toolName"@, LogModel::Text(tool_name(name@))),
                ("summary"@, opt_model(text::opt_str(summary))),
            ],
        ),
{
    let mut fields = no_fields();
    push_field(&mut fields, "toolName", LogValue::Text(safe_tool_name(name)));
    push_field(&mut fields, "summary", opt_value(summary));
    LogValue::Object(fields)
}

/// What is recorded of what a tool that failed says of it.
pub open spec fn diagnostic_model(
    failed: bool,
    diagnostic: Option<Seq<char>>,
    shown: spec_fn(Seq<char>) -> Seq<char>,
) -> LogModel {
    if failed {
        LogModel::Text(
            cut(
                shown(
                    match diagnostic {
                        Some(diagnostic) => diagnostic,
                        None => "tool failed without a diagnostic"@,
                    },
                ),
                MAX_DIAGNOSTIC_BYTES as nat,
            ),
        )
    } else {
        LogModel::Null
    }
}

/// What is recorded when a tool is done.
pub fn tool_end_details<R: Redactor>(
    name: &str,
    failed: bool,
    diagnostic: Option<&str>,
    redactor: &R,
) -> (details: LogValue)
    ensures
        holds(model(details), 
            seq![
                ("toolName"@, LogModel::Text(tool_name(name@))),
                ("isError"@, LogModel::Bool(failed)),
                (
                    "diagnostic"@,
                    diagnostic_model(failed, text::opt_str(diagnostic), shown_by(*redactor)),
                ),
            ],
        ),
{
    let diagnostic = if failed {
        let content = match diagnostic {
            Some(diagnostic) => diagnostic,
            None => "tool failed without a diagnostic",
        };
        LogValue::Text(bounded_string(content, MAX_DIAGNOSTIC_BYTES, redactor))
    } else {
        LogValue::Null
    };
    let mut fields = no_fields();
    push_field(&mut fields, "toolName", LogValue::Text(safe_tool_name(name)));
    push_field(&mut fields, "isError", LogValue::Bool(failed));
    push_field(&mut fields, "diagnostic", diagnostic);
    LogValue::Object(fields)
}

/// What is recorded when the model is asked again.
pub fn retry_details(
    attempt: u32,
    max_attempts: u32,
    delay_ms: u64,
    category: Option<ErrorCategory>,
) -> (details: LogValue)
    ensures
        holds(model(details), 
            seq![
                ("attempt"@, number_model(attempt as int)),
                ("maxAttempts"@, number_model(max_attempts as int)),
                ("delayMs"@, number_model(delay_ms as int)),
                ("errorCategory"@, category_model(category)),
            ],
        ),
{
    let mut fields = no_fields();
    push_field(&mut fields, "attempt", count_value(attempt as u64));
    push_field(&mut fields, "maxAttempts", count_value(max_attempts as u64));
    push_field(&mut fields, "delayMs", count_value(delay_ms));
    push_field(&mut fields, "errorCategory", category_value(category));
    LogValue::Object(fields)
}

/// What is recorded when the model was asked again.
pub fn retry_end_details(succeeded: bool) -> (details: LogValue)
    ensures
        holds(model(details), 
            seq![
                (
                    "outcome"@,
                    LogModel::Text(
                        if succeeded {
                            "succeeded"@
                        } else {
                            "failed"@
                        },
                    ),
                ),
            ],
        ),
{
    let mut fields = no_fields();
    let outcome = if succeeded {
        "succeeded"
    } else {
        "failed"
    };
    push_field(&mut fields, "outcome", text_value(outcome));
    LogValue::Object(fields)
}

/// What is recorded when a history is compacted.
pub fn compaction_details(reason: &str) -> (details: LogValue)
    ensures
        holds(model(details), seq![("reason"@, LogModel::Text(reason@))]),
{
    let mut fields = no_fields();
    push_field(&mut fields, "reason", text_value(reason));
    LogValue::Object(fields)
}

/// What is recorded of what the model says.
pub fn assistant_details(content: &str) -> (details: LogValue)
    ensures
        holds(model(details), seq![("text"@, LogModel::Text(content@))]),
{
    let mut fields = no_fields();
    push_field(&mut fields, "text", text_value(content));
    LogValue::Object(fields)
}

/// What is recorded of the reasoning of the model.
pub fn reasoning_details(summary: Option<&str>) -> (details: LogValue)
    ensures
        holds(model(details), 
            seq![("summary"@, opt_model(text::opt_str(summary)))],
        ),
{
    let mut fields = no_fields();
    push_field(&mut fields, "summary", opt_value(summary));
    LogValue::Object(fields)
}

/// The reasons for the end of a run that are recorded.
pub open spec fn logged_reasons() -> Seq<Seq<char>> {
    crate::database::rules::termination_reasons().push("legacy_interruption"@)
}

/// The reason for the end of a run, as far as it is recorded.
pub fn safe_termination_reason(value: &str) -> (known: bool)
    ensures
        known == logged_reasons().contains(value@),
{
    let words: [&str; 10] = [
        "completed",
        "failed",
        "model_error",
        "wall_timeout",
        "turn_limit",
        "aborted",
        "context_limit",
        "process_exit",
        "superseded_attempt",
        "legacy_interruption",
    ];
    let ghost all = logged_reasons();
    assert(forall|k: int| 0 <= k < 10 ==> (#[trigger] words@[k])@ == all[k]);
    let mut i: usize = 0;
    while i < 10
        invariant
            i <= 10,
            words@.len() == 10,
            all == logged_reasons(),
            all.len() == 10,
            forall|k: int| 0 <= k < 10 ==> (#[trigger] words@[k])@ == all[k],
            forall|k: int| 0 <= k < i ==> #[trigger] all[k] != value@,
        decreases 10 - i,
    {
        assert(words@[i as int]@ == all[i as int]);
        if text::same(words[i], value) {
            return true;
        }
        i += 1;
    }
    false
}

/// What is recorded when a run ends.
pub fn end_details(
    outcome: RunOutcome,
    duration_ms: u64,
    category: Option<ErrorCategory>,
    reason: &str,
    recording_failed: bool,
) -> (details: LogValue)
    ensures
        holds(model(details), 
            seq![
                ("outcome"@, LogModel::Text(outcome.name())),
                ("durationMs"@, number_model(duration_ms as int)),
                ("failureCategory"@, category_model(category)),
                (
                    "terminationReason"@,
                    if logged_reasons().contains(reason@) {
                        LogModel::Text(reason@)
                    } else {
                        LogModel::Null
                    },
                ),
                ("recordingFailed"@, LogModel::Bool(recording_failed)),
            ],
        ),
{
    let reason = if safe_termination_reason(reason) {
        text_value(reason)
    } else {
        LogValue::Null
    };
    let mut fields = no_fields();
    push_field(&mut fields, "outcome", text_value(outcome.as_str()));
    push_field(&mut fields, "durationMs", count_value(duration_ms));
    push_field(&mut fields, "failureCategory", category_value(category));
    push_field(&mut fields, "terminationReason", reason);
    push_field(&mut fields, "recordingFailed", LogValue::Bool(recording_failed));
    LogValue::Object(fields)
}

// ---------------------------------------------------------------------------------------------
// Files
// ---------------------------------------------------------------------------------------------

/// The longest runs of ASCII letters and digits in the text.
pub open spec fn plain_runs(s: Seq<char>) -> Seq<Seq<char>>
    decreases s.len(),
{
    if s.len() == 0 {
        Seq::empty()
    } else {
        let before = plain_runs(s.drop_last());
        if !text::ascii_alphanumeric(s.last()) {
            before
        } else if s.len() == 1 || !text::ascii_alphanumeric(s[s.len() - 2]) {
            before.push(seq![text::lowered(s.last())])
        } else {
            before.drop_last().push(before.last().push(text::lowered(s.last())))
        }
    }
}

/// The text as a part of a file name: its runs of letters and digits in lower case, with a
/// hyphen between them.
pub open spec fn file_part(s: Seq<char>) -> Seq<char> {
    text::join(plain_runs(s), "-"@)
}

/// A text that ends in a letter or a digit has a run, and none is empty.
proof fn lemma_plain_runs(s: Seq<char>)
    ensures
        s.len() > 0 && text::ascii_alphanumeric(s.last()) ==> plain_runs(s).len() > 0,
        forall|k: int| 0 <= k < plain_runs(s).len() ==> (#[trigger] plain_runs(s)[k]).len() > 0,
    decreases s.len(),
{
    if s.len() > 0 {
        lemma_plain_runs(s.drop_last());
        if s.len() > 1 {
            assert(s.drop_last().last() == s[s.len() - 2]);
        }
    }
}

/// Joining gains a text at the end, or grows with the last one.
proof fn lemma_join_grows(parts: Seq<Seq<char>>, part: Seq<char>, separator: Seq<char>)
    ensures
        text::join(parts.push(part), separator) == (if parts.len() == 0 {
            part
        } else {
            text::join(parts, separator) + separator + part
        }),
{
    assert(parts.push(part).drop_last() =~= parts);
    if parts.len() == 0 {
        assert(parts.push(part)[0] == part);
    }
}

/// The text as a part of a file name.
pub fn filename_part(value: &str) -> (out: String)
    ensures
        out@ == file_part(value@),
{
    proof {
        reveal_strlit("-");
    }
    let chars = text::chars_of(value);
    let total: usize = chars.len();
    let mut out = String::new();
    let mut started = false;
    let mut separator = false;
    let mut i: usize = 0;
    assert(out@ =~= file_part(chars@.take(0)));
    while i < total
        invariant
            i <= total == chars@.len(),
            "-"@ == seq!['-'],
            started == (plain_runs(chars@.take(i as int)).len() > 0),
            i > 0 && text::ascii_alphanumeric(chars@[i - 1]) ==> started && !separator,
            started && !(i > 0 && text::ascii_alphanumeric(chars@[i - 1])) ==> separator,
            separator ==> started,
            out@ == file_part(chars@.take(i as int)) + (if separator {
                "-"@
            } else {
                Seq::empty()
            }),
        decreases total - i,
    {
        let c = chars[i];
        let ghost prefix = chars@.take(i as int);
        let ghost longer = chars@.take(i + 1);
        let ghost before = plain_runs(prefix);
        proof {
            assert(longer.drop_last() =~= prefix);
            assert(longer.last() == c);
            if i > 0 {
                assert(longer[longer.len() - 2] == chars@[i - 1]);
            }
            lemma_plain_runs(prefix);
        }
        if text::is_ascii_alphanumeric(c) {
            let ghost joined = out@;
            out.push(text::to_lowered(c));
            proof {
                if i == 0 || !text::ascii_alphanumeric(chars@[i - 1]) {
                    lemma_join_grows(before, seq![text::lowered(c)], "-"@);
                    assert(out@ =~= joined + seq![text::lowered(c)]);
                    assert(out@ =~= file_part(longer) + Seq::empty());
                } else {
                    let shorter = before.drop_last();
                    assert(before =~= shorter.push(before.last()));
                    lemma_join_grows(shorter, before.last(), "-"@);
                    lemma_join_grows(shorter, before.last().push(text::lowered(c)), "-"@);
                    assert(out@ =~= file_part(longer) + Seq::empty());
                }
            }
            started = true;
            separator = false;
        } else {
            if started && !separator {
                out.push('-');
                assert(out@ =~= file_part(longer) + "-"@);
                separator = true;
            }
        }
        i += 1;
    }
    assert(chars@.take(i as int) =~= chars@);
    if separator {
        let joined = text::chars_of(out.as_str());
        let trimmed = text::string_of(&joined, 0, joined.len() - 1);
        assert(trimmed@ =~= file_part(value@));
        trimmed
    } else {
        assert(out@ =~= file_part(value@));
        out
    }
}

/// The hexadecimal digit of a number below sixteen.
pub open spec fn hex_digit(n: nat) -> char {
    if n < 10 {
        (48 + n) as char
    } else {
        (87 + n) as char
    }
}

/// The last `count` hexadecimal digits of the number, and all others that it has.
pub open spec fn hex(n: nat, count: nat) -> Seq<char>
    decreases n, count,
{
    if n == 0 && count == 0 {
        Seq::empty()
    } else {
        hex(
            n / 16,
            if count > 0 {
                (count - 1) as nat
            } else {
                0
            },
        ).push(hex_digit(n % 16))
    }
}

fn to_hex_digit(n: u64) -> (c: char)
    requires
        n < 16,
    ensures
        c == hex_digit(n as nat),
{
    match n {
        0 => '0',
        1 => '1',
        2 => '2',
        3 => '3',
        4 => '4',
        5 => '5',
        6 => '6',
        7 => '7',
        8 => '8',
        9 => '9',
        10 => 'a',
        11 => 'b',
        12 => 'c',
        13 => 'd',
        14 => 'e',
        _ => 'f',
    }
}

/// The number in hexadecimal digits, at least `count` of them.
fn hex_text(n: u64, count: u64) -> (out: String)
    ensures
        out@ == hex(n as nat, count as nat),
    decreases n, count,
{
    if n == 0 && count == 0 {
        String::new()
    } else {
        let mut out = hex_text(
            n / 16,
            if count > 0 {
                count - 1
            } else {
                0
            },
        );
        out.push(to_hex_digit(n % 16));
        out
    }
}

/// The name of the log of a run.
pub open spec fn log_name(
    run: LoggedRun,
    source: Seq<char>,
    moment: Seq<char>,
    sequence: nat,
) -> Seq<char> {
    "triage-event-"@ + text::signed_decimal(run.event_id as int) + "-attempt-"@ + text::decimal(
        run.attempt as nat,
    ) + "-"@ + file_part(source) + "-"@ + moment + "-"@ + hex(sequence, 8) + ".jsonl"@
}

/// The name of the log of a run. The moment is given as `%Y%m%dT%H%M%SZ` writes it.
pub fn run_log_name(run: &LoggedRun, source: &str, moment: &str, sequence: u64) -> (name: String)
    ensures
        name@ == log_name(*run, source@, moment@, sequence as nat),
{
    let mut name = "triage-event-".to_owned();
    name.append(text::signed_decimal_of(run.event_id).as_str());
    name.append("-attempt-");
    name.append(text::decimal_of(run.attempt as u128).as_str());
    name.append("-");
    name.append(filename_part(source).as_str());
    name.append("-");
    name.append(moment);
    name.append("-");
    name.append(hex_text(sequence, 8).as_str());
    name.append(".jsonl");
    name
}

/// The files of which it was said that they cannot be written.
#[derive(Clone, Debug)]
pub struct LogWarnings {
    pub paths: Vec<String>,
}

impl LogWarnings {
    /// No file yet.
    pub fn new() -> (warnings: Self)
        ensures
            warnings.paths@.len() == 0,
    {
        LogWarnings { paths: Vec::new() }
    }

    /// The warning that a file cannot be written: only the first time.
    pub fn warn<R: Redactor>(&mut self, path: &str, error: &str, redactor: &R) -> (warning: Option<
        String,
    >)
        ensures
            text::opt_text(warning) == (if text::texts(old(self).paths@).contains(path@) {
                None
            } else {
                Some(
                    "warning: intake logging failed for "@ + path@ + ": "@ + redactor.shown(error@)
                        + "\n"@,
                )
            }),
            text::texts(final(self).paths@) == (if text::texts(old(self).paths@).contains(path@) {
                text::texts(old(self).paths@)
            } else {
                text::texts(old(self).paths@).push(path@)
            }),
    {
        if text::list_has(&self.paths, path) {
            return None;
        }
        self.paths.push(path.to_owned());
        assert(text::texts(self.paths@) =~= text::texts(old(self).paths@).push(path@));
        let mut warning = "warning: intake logging failed for ".to_owned();
        warning.append(path);
        warning.append(": ");
        warning.append(redactor.redact(error).as_str());
        warning.append("\n");
        Some(warning)
    }
}

// ---------------------------------------------------------------------------------------------
// Laws
// ---------------------------------------------------------------------------------------------

/// Whether a value keeps the bounds on nesting and on the sizes of lists and objects. One item
/// or one key may note what was left out.
pub open spec fn in_bounds(value: LogModel, depth: nat) -> bool
    decreases value,
{
    match value {
        LogModel::List(items) => {
            &&& depth < MAX_LOG_DEPTH
            &&& items.len() <= MAX_LOG_ARRAY_ITEMS + 1
            &&& forall|k: int| 0 <= k < items.len() ==> in_bounds(#[trigger] items[k], depth + 1)
        },
        LogModel::Object(fields) => {
            &&& depth < MAX_LOG_DEPTH
            &&& fields.len() <= MAX_LOG_OBJECT_KEYS + 1
            &&& forall|k: int|
                0 <= k < fields.len() ==> in_bounds((#[trigger] fields[k]).1, depth + 1)
        },
        _ => true,
    }
}

proof fn lemma_inserted(fields: Seq<(Seq<char>, LogModel)>, key: Seq<char>, value: LogModel)
    ensures
        inserted(fields, key, value).len() <= fields.len() + 1,
        forall|k: int|
            0 <= k < inserted(fields, key, value).len() ==> (#[trigger] inserted(
                fields,
                key,
                value,
            )[k]).1 == value || fields.contains(inserted(fields, key, value)[k]),
    decreases fields.len(),
{
    let out = inserted(fields, key, value);
    if fields.len() > 0 {
        let rest = fields.drop_first();
        if fields[0].0 == key {
            assert forall|k: int| 0 <= k < out.len() implies (#[trigger] out[k]).1 == value
                || fields.contains(out[k]) by {
                if k > 0 {
                    assert(out[k] == fields[k]);
                }
            }
        } else {
            lemma_inserted(rest, key, value);
            let inner = inserted(rest, key, value);
            assert forall|k: int| 0 <= k < out.len() implies (#[trigger] out[k]).1 == value
                || fields.contains(out[k]) by {
                if k == 0 {
                    assert(out[0] == fields[0]);
                } else {
                    assert(out[k] == inner[k - 1]);
                    if inner[k - 1].1 != value {
                        let j = choose|j: int| 0 <= j < rest.len() && rest[j] == inner[k - 1];
                        assert(fields[j + 1] == out[k]);
                    }
                }
            }
        }
    }
}

proof fn lemma_items_in_bounds(
    items: Seq<LogModel>,
    count: nat,
    shown: spec_fn(Seq<char>) -> Seq<char>,
    depth: nat,
)
    requires
        count <= items.len(),
    ensures
        normal_items(items, count, shown, depth).len() == count,
        forall|k: int|
            0 <= k < count ==> in_bounds(
                #[trigger] normal_items(items, count, shown, depth)[k],
                depth,
            ),
    decreases items, count,
{
    if count > 0 {
        lemma_items_in_bounds(items, (count - 1) as nat, shown, depth);
        law_written_values_are_bounded(items[count - 1], shown, depth);
        let before = normal_items(items, (count - 1) as nat, shown, depth);
        assert forall|k: int| 0 <= k < count implies in_bounds(
            #[trigger] normal_items(items, count, shown, depth)[k],
            depth,
        ) by {
            if k < count - 1 {
                assert(in_bounds(before[k], depth));
            }
        }
    }
}

proof fn lemma_fields_in_bounds(
    fields: Seq<(Seq<char>, LogModel)>,
    count: nat,
    shown: spec_fn(Seq<char>) -> Seq<char>,
    depth: nat,
)
    requires
        count <= fields.len(),
    ensures
        normal_fields(fields, count, shown, depth).len() == count,
        forall|k: int|
            0 <= k < count ==> in_bounds(
                (#[trigger] normal_fields(fields, count, shown, depth)[k]).1,
                depth,
            ),
    decreases fields, count,
{
    if count > 0 {
        lemma_fields_in_bounds(fields, (count - 1) as nat, shown, depth);
        law_written_values_are_bounded(fields[count - 1].1, shown, depth);
        let before = normal_fields(fields, (count - 1) as nat, shown, depth);
        assert forall|k: int| 0 <= k < count implies in_bounds(
            (#[trigger] normal_fields(fields, count, shown, depth)[k]).1,
            depth,
        ) by {
            if k < count - 1 {
                assert(in_bounds(before[k].1, depth));
            }
        }
    }
}

/// Whatever is handed to the log, what is written nests no deeper than the limit, and none of
/// its lists and objects is larger than the limit by more than the note of what was left out.
pub proof fn law_written_values_are_bounded(
    value: LogModel,
    shown: spec_fn(Seq<char>) -> Seq<char>,
    depth: nat,
)
    ensures
        in_bounds(normal(value, shown, depth), depth),
    decreases value, 0nat,
{
    match value {
        LogModel::List(items) => {
            if depth < MAX_LOG_DEPTH {
                let kept = at_most(items.len(), MAX_LOG_ARRAY_ITEMS as nat);
                lemma_items_in_bounds(items, kept, shown, depth + 1);
                let list = normal_items(items, kept, shown, depth + 1);
                if items.len() > MAX_LOG_ARRAY_ITEMS {
                    let note = LogModel::Text(
                        "[TRUNCATED: "@ + text::decimal(
                            (items.len() - MAX_LOG_ARRAY_ITEMS) as nat,
                        ) + " array items]"@,
                    );
                    assert(in_bounds(note, depth + 1));
                    assert forall|k: int| 0 <= k < list.push(note).len() implies in_bounds(
                        #[trigger] list.push(note)[k],
                        depth + 1,
                    ) by {
                        if k < list.len() {
                            assert(in_bounds(list[k], depth + 1));
                        }
                    }
                }
            }
        },
        LogModel::Object(fields) => {
            if depth < MAX_LOG_DEPTH {
                let kept = at_most(fields.len(), MAX_LOG_OBJECT_KEYS as nat);
                lemma_fields_in_bounds(fields, kept, shown, depth + 1);
                let list = normal_fields(fields, kept, shown, depth + 1);
                if fields.len() > MAX_LOG_OBJECT_KEYS {
                    let note = LogModel::Text(
                        text::decimal((fields.len() - MAX_LOG_OBJECT_KEYS) as nat)
                            + " object keys"@,
                    );
                    let out = inserted(list, "valueTruncated"@, note);
                    lemma_inserted(list, "valueTruncated"@, note);
                    assert forall|k: int| 0 <= k < out.len() implies in_bounds(
                        (#[trigger] out[k]).1,
                        depth + 1,
                    ) by {
                        if out[k].1 != note {
                            let j = choose|j: int| 0 <= j < list.len() && list[j] == out[k];
                            assert(in_bounds(list[j].1, depth + 1));
                        }
                    }
                }
            }
        },
        _ => {},
    }
}

/// A text that is cut is longer than the limit by no more than the note of its length.
pub proof fn law_cut_texts_are_bounded(value: Seq<char>, limit: nat)
    ensures
        text::byte_len(cut(value, limit)) <= limit + 26 + text::decimal(text::byte_len(value)).len(),
        text::byte_len(value) <= limit ==> cut(value, limit) == value,
{
    if text::byte_len(value) > limit {
        let number = text::decimal(text::byte_len(value));
        let prefix = text::byte_prefix(value, limit);
        reveal_strlit("\n[TRUNCATED: ");
        reveal_strlit(" bytes total]");
        text::lemma_fitting(value, limit);
        text::lemma_byte_len_add(prefix, "\n[TRUNCATED: "@);
        text::lemma_byte_len_add(prefix + "\n[TRUNCATED: "@, number);
        text::lemma_byte_len_add(prefix + "\n[TRUNCATED: "@ + number, " bytes total]"@);
        text::lemma_byte_len_ascii("\n[TRUNCATED: "@);
        text::lemma_byte_len_ascii(" bytes total]"@);
        lemma_decimal_ascii(text::byte_len(value));
        text::lemma_byte_len_ascii(number);
    }
}

proof fn lemma_decimal_ascii(n: nat)
    ensures
        forall|k: int|
            0 <= k < text::decimal(n).len() ==> (#[trigger] text::decimal(n)[k]) as u32 <= 0x7f,
    decreases n,
{
    if n >= 10 {
        lemma_decimal_ascii(n / 10);
        assert forall|k: int| 0 <= k < text::decimal(n).len() implies (#[trigger] text::decimal(
            n,
        )[k]) as u32 <= 0x7f by {
            if k < text::decimal(n).len() - 1 {
                assert(text::decimal(n)[k] == text::decimal(n / 10)[k]);
            } else {
                assert(text::decimal(n)[k] == text::digit(n % 10));
            }
        }
    }
}

} // verus!
