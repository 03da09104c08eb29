//! The order in which rows are read.
use vstd::prelude::*;

verus! {

/// What a row is ordered by: a moment or a place, then its number.
#[derive(Clone, Copy, Debug, PartialEq, Eq, Structural)]
pub struct Key {
    pub at: i64,
    pub id: i64,
}

/// A row by its key and its place in its table.
#[derive(Clone, Copy, Debug, PartialEq, Eq, Structural)]
pub struct Keyed {
    pub key: Key,
    pub place: usize,
}

/// Whether the first comes before the second one or is at the same place.
pub open spec fn no_later(a: Keyed, b: Keyed) -> bool {
    a.key.at < b.key.at || (a.key.at == b.key.at && a.key.id <= b.key.id)
}

/// The list with the row behind every other that does not come later.
pub open spec fn placed(list: Seq<Keyed>, row: Keyed) -> Seq<Keyed>
    decreases list.len(),
{
    if list.len() == 0 || no_later(list.last(), row) {
        list.push(row)
    } else {
        placed(list.drop_last(), row).push(list.last())
    }
}

/// The rows in order. Those with the same key stay in the order of their table.
pub open spec fn ordered(list: Seq<Keyed>) -> Seq<Keyed>
    decreases list.len(),
{
    if list.len() == 0 {
        Seq::empty()
    } else {
        placed(ordered(list.drop_last()), list.last())
    }
}

/// The rows that have a key, by their places.
pub open spec fn picked(keys: Seq<Option<Key>>) -> Seq<Keyed>
    decreases keys.len(),
{
    if keys.len() == 0 {
        Seq::empty()
    } else {
        let before = picked(keys.drop_last());
        match keys.last() {
            Some(key) => before.push(Keyed { key, place: (keys.len() - 1) as usize }),
            None => before,
        }
    }
}

/// The places of the rows.
pub open spec fn places(list: Seq<Keyed>) -> Seq<usize> {
    list.map_values(|row: Keyed| row.place)
}

/// The places of the rows that have a key, in the order of their keys.
pub open spec fn in_order(keys: Seq<Option<Key>>) -> Seq<usize> {
    places(ordered(picked(keys)))
}

/// The first so many of the list.
pub open spec fn first_of<T>(list: Seq<T>, limit: nat) -> Seq<T> {
    if list.len() <= limit {
        list
    } else {
        list.take(limit as int)
    }
}

/// The last so many of the list.
pub open spec fn last_of<T>(list: Seq<T>, limit: nat) -> Seq<T> {
    if list.len() <= limit {
        list
    } else {
        list.skip(list.len() - limit)
    }
}

/// Whether every place is one of a row that has a key.
pub open spec fn are_picked(list: Seq<usize>, keys: Seq<Option<Key>>) -> bool {
    forall|k: int|
        0 <= k < list.len() ==> #[trigger] list[k] < keys.len() && keys[list[k] as int] is Some
}

fn place(list: &mut Vec<Keyed>, row: Keyed)
    ensures
        final(list)@ == placed(old(list)@, row),
{
    let ghost before = list@;
    let total: usize = list.len();
    let mut i: usize = total;
    assert(before.take(total as int) =~= before);
    assert(placed(before, row) =~= placed(before.take(i as int), row) + before.skip(i as int));
    while i > 0 && !(list[i - 1].key.at < row.key.at || (list[i - 1].key.at == row.key.at
        && list[i - 1].key.id <= row.key.id))
        invariant
            i <= total == list@.len(),
            before == list@,
            before == old(list)@,
            placed(before, row) == placed(before.take(i as int), row) + before.skip(i as int),
        decreases i,
    {
        let ghost prefix = before.take(i as int);
        assert(prefix.last() == list@[i - 1]);
        assert(prefix.drop_last() =~= before.take(i - 1));
        assert(placed(prefix, row) + before.skip(i as int) =~= placed(before.take(i - 1), row)
            + before.skip(i - 1));
        i -= 1;
    }
    proof {
        let prefix = before.take(i as int);
        if i > 0 {
            assert(prefix.last() == list@[i - 1]);
        }
        assert(placed(prefix, row) == prefix.push(row));
    }
    list.insert(i, row);
    assert(list@ =~= before.take(i as int).push(row) + before.skip(i as int));
}

/// The places of the rows that have a key, in the order of their keys.
pub fn put_in_order(keys: &Vec<Option<Key>>) -> (out: Vec<usize>)
    ensures
        out@ == in_order(keys@),
        are_picked(out@, keys@),
{
    let total: usize = keys.len();
    let mut rows: Vec<Keyed> = Vec::new();
    let mut i: usize = 0;
    assert(rows@ =~= ordered(picked(keys@.take(0))));
    while i < total
        invariant
            i <= total == keys@.len(),
            rows@ == ordered(picked(keys@.take(i as int))),
        decreases total - i,
    {
        assert(keys@.take(i + 1).drop_last() =~= keys@.take(i as int));
        assert(keys@.take(i + 1).last() == keys@[i as int]);
        if let Some(key) = keys[i] {
            let row = Keyed { key, place: i };
            proof {
                let list = picked(keys@.take(i + 1));
                assert(list.drop_last() =~= picked(keys@.take(i as int)));
                assert(list.last() == row);
            }
            place(&mut rows, row);
        }
        i += 1;
    }
    assert(keys@.take(i as int) =~= keys@);
    let count: usize = rows.len();
    let mut out: Vec<usize> = Vec::new();
    let mut j: usize = 0;
    while j < count
        invariant
            j <= count == rows@.len(),
            out@.len() == j,
            forall|k: int| 0 <= k < j ==> #[trigger] out@[k] == rows@[k].place,
        decreases count - j,
    {
        out.push(rows[j].place);
        j += 1;
    }
    assert(out@ =~= places(rows@));
    proof {
        lemma_picked(keys@);
        law_reads_are_in_order(picked(keys@));
        assert forall|k: int| 0 <= k < out@.len() implies #[trigger] out@[k] < keys@.len()
            && keys@[out@[k] as int] is Some by {
            assert(picked(keys@).contains(rows@[k]));
            let m = choose|m: int| 0 <= m < picked(keys@).len() && picked(keys@)[m] == rows@[k];
            assert(picked(keys@)[m].place == out@[k]);
        }
    }
    out
}

/// The last so many of the places, from the last one on.
pub fn latest_first(order: &Vec<usize>, limit: usize) -> (out: Vec<usize>)
    ensures
        out@ == first_of(order@.reverse(), limit as nat),
{
    let total: usize = order.len();
    let mut out: Vec<usize> = Vec::new();
    let mut i: usize = 0;
    let ghost reversed = order@.reverse();
    while i < total && i < limit
        invariant
            i <= total == order@.len(),
            i <= limit,
            reversed == order@.reverse(),
            reversed.len() == total,
            out@ == reversed.take(i as int),
        decreases total - i,
    {
        out.push(order[total - 1 - i]);
        assert(reversed[i as int] == order@[total - 1 - i]);
        assert(reversed.take(i + 1) =~= reversed.take(i as int).push(reversed[i as int]));
        i += 1;
    }
    assert(reversed.take(total as int) =~= reversed);
    out
}

/// The last so many of the places.
pub fn last_few(order: &Vec<usize>, limit: usize) -> (out: Vec<usize>)
    ensures
        out@ == last_of(order@, limit as nat),
{
    let total: usize = order.len();
    let mut from: usize = 0;
    if total > limit {
        from = total - limit;
    }
    let mut out: Vec<usize> = Vec::new();
    let mut i: usize = from;
    while i < total
        invariant
            from <= i <= total == order@.len(),
            out@.len() == i - from,
            forall|k: int| 0 <= k < out@.len() ==> #[trigger] out@[k] == order@[from + k],
        decreases total - i,
    {
        out.push(order[i]);
        i += 1;
    }
    assert(out@ =~= last_of(order@, limit as nat));
    out
}

// ---------------------------------------------------------------------------------------------
// Laws
// ---------------------------------------------------------------------------------------------

proof fn lemma_picked(keys: Seq<Option<Key>>)
    requires
        keys.len() <= usize::MAX,
    ensures
        forall|k: int|
            0 <= k < picked(keys).len() ==> (#[trigger] picked(keys)[k]).place < keys.len()
                && keys[picked(keys)[k].place as int] == Some(picked(keys)[k].key),
        forall|i: int, j: int|
            0 <= i < j < picked(keys).len() ==> (#[trigger] picked(keys)[i]).place < (
            #[trigger] picked(keys)[j]).place,
        forall|p: int|
            0 <= p < keys.len() && (#[trigger] keys[p]) is Some ==> exists|k: int|
                0 <= k < picked(keys).len() && (#[trigger] picked(keys)[k]).place == p,
    decreases keys.len(),
{
    if keys.len() > 0 {
        let before = keys.drop_last();
        lemma_picked(before);
        let list = picked(before);
        let out = picked(keys);
        assert forall|k: int| 0 <= k < out.len() implies (#[trigger] out[k]).place < keys.len()
            && keys[out[k].place as int] == Some(out[k].key) by {
            if k < list.len() {
                assert(out[k] == list[k]);
                assert(before[list[k].place as int] == keys[list[k].place as int]);
            }
        }
        assert forall|i: int, j: int| 0 <= i < j < out.len() implies (#[trigger] out[i]).place < (
        #[trigger] out[j]).place by {
            assert(out[i] == list[i]);
            if j < list.len() {
                assert(out[j] == list[j]);
            }
        }
        assert forall|p: int| 0 <= p < keys.len() && (#[trigger] keys[p]) is Some implies exists|
            k: int,
        |
            0 <= k < out.len() && (#[trigger] out[k]).place == p by {
            if p < before.len() {
                assert(before[p] is Some);
                let k = choose|k: int| 0 <= k < list.len() && (#[trigger] list[k]).place == p;
                assert(out[k] == list[k]);
            } else {
                assert(out[out.len() - 1].place == p);
            }
        }
    }
}

proof fn lemma_placed(list: Seq<Keyed>, row: Keyed)
    requires
        forall|i: int, j: int|
            0 <= i <= j < list.len() ==> no_later(#[trigger] list[i], #[trigger] list[j]),
    ensures
        forall|i: int, j: int|
            0 <= i <= j < placed(list, row).len() ==> no_later(
                #[trigger] placed(list, row)[i],
                #[trigger] placed(list, row)[j],
            ),
        placed(list, row).to_multiset() == list.to_multiset().insert(row),
        forall|i: int|
            0 <= i < placed(list, row).len() ==> #[trigger] placed(list, row)[i] == row
                || list.contains(placed(list, row)[i]),
        placed(list, row).len() == list.len() + 1,
    decreases list.len(),
{
    broadcast use vstd::seq_lib::group_to_multiset_ensures;

    let out = placed(list, row);
    if list.len() == 0 || no_later(list.last(), row) {
        assert(out =~= list.push(row));
        assert forall|i: int| 0 <= i < out.len() implies #[trigger] out[i] == row || list.contains(
            out[i],
        ) by {
            if i < list.len() {
                assert(list[i] == out[i]);
            }
        }
        assert forall|i: int, j: int| 0 <= i <= j < out.len() implies no_later(
            #[trigger] out[i],
            #[trigger] out[j],
        ) by {
            if j == list.len() && i < list.len() {
                assert(no_later(list[i], list[list.len() - 1]));
            } else if j < list.len() {
                assert(no_later(list[i], list[j]));
            }
        }
    } else {
        let shorter = list.drop_last();
        let inner = placed(shorter, row);
        assert forall|i: int, j: int| 0 <= i <= j < shorter.len() implies no_later(
            #[trigger] shorter[i],
            #[trigger] shorter[j],
        ) by {
            assert(no_later(list[i], list[j]));
        }
        lemma_placed(shorter, row);
        assert(list =~= shorter.push(list.last()));
        assert(out =~= inner.push(list.last()));
        assert forall|i: int| 0 <= i < out.len() implies #[trigger] out[i] == row || list.contains(
            out[i],
        ) by {
            if i < inner.len() {
                assert(inner[i] == out[i]);
                if inner[i] != row {
                    let k = choose|k: int| 0 <= k < shorter.len() && shorter[k] == inner[i];
                    assert(list[k] == out[i]);
                }
            } else {
                assert(list[list.len() - 1] == out[i]);
            }
        }
        assert forall|i: int, j: int| 0 <= i <= j < out.len() implies no_later(
            #[trigger] out[i],
            #[trigger] out[j],
        ) by {
            if j < inner.len() {
                assert(no_later(inner[i], inner[j]));
            } else if i < inner.len() {
                assert(inner[i] == out[i]);
                if inner[i] != row {
                    let k = choose|k: int| 0 <= k < shorter.len() && shorter[k] == inner[i];
                    assert(no_later(list[k], list[list.len() - 1]));
                }
            }
        }
    }
}

/// What is read comes in order, and all of it: none is lost and none comes twice.
pub proof fn law_reads_are_in_order(list: Seq<Keyed>)
    ensures
        forall|i: int, j: int|
            0 <= i <= j < ordered(list).len() ==> no_later(
                #[trigger] ordered(list)[i],
                #[trigger] ordered(list)[j],
            ),
        ordered(list).to_multiset() == list.to_multiset(),
        ordered(list).len() == list.len(),
        forall|i: int| 0 <= i < list.len() ==> list.contains(#[trigger] ordered(list)[i]),
    decreases list.len(),
{
    broadcast use vstd::seq_lib::group_to_multiset_ensures;

    if list.len() > 0 {
        law_reads_are_in_order(list.drop_last());
        lemma_placed(ordered(list.drop_last()), list.last());
        assert(list =~= list.drop_last().push(list.last()));
    } else {
        assert(ordered(list) =~= list);
    }
}

/// The rows that are read are those that have a key: each once.
pub proof fn law_every_row_is_read_once(keys: Seq<Option<Key>>, place: usize)
    requires
        keys.len() <= usize::MAX,
    ensures
        in_order(keys).no_duplicates(),
        in_order(keys).contains(place) <==> place < keys.len() && keys[place as int] is Some,
{
    broadcast use vstd::seq_lib::group_to_multiset_ensures;

    let list = picked(keys);
    let out = ordered(list);
    let shown = in_order(keys);
    lemma_picked(keys);
    law_reads_are_in_order(list);
    assert(list.no_duplicates()) by {
        assert forall|i: int, j: int| 0 <= i < list.len() && 0 <= j < list.len() && i
            != j implies list[i] != list[j] by {
            if i < j {
                assert(list[i].place < list[j].place);
            } else {
                assert(list[j].place < list[i].place);
            }
        }
    }
    list.lemma_multiset_has_no_duplicates();
    out.lemma_multiset_has_no_duplicates_conv();
    assert forall|i: int, j: int| 0 <= i < shown.len() && 0 <= j < shown.len() && i
        != j implies shown[i] != shown[j] by {
        assert(out[i] != out[j]);
        assert(list.contains(out[i]) && list.contains(out[j]));
        let m = choose|m: int| 0 <= m < list.len() && list[m] == out[i];
        let n = choose|n: int| 0 <= n < list.len() && list[n] == out[j];
        if m < n {
            assert(list[m].place < list[n].place);
        } else if n < m {
            assert(list[n].place < list[m].place);
        }
    }
    if place < keys.len() && keys[place as int] is Some {
        let k = choose|k: int| 0 <= k < list.len() && (#[trigger] list[k]).place == place as int;
        assert(list.contains(list[k]));
        assert(out.to_multiset().count(list[k]) > 0);
        assert(out.contains(list[k]));
        let i = choose|i: int| 0 <= i < out.len() && out[i] == list[k];
        assert(shown[i] == place);
    }
    if shown.contains(place) {
        let i = choose|i: int| 0 <= i < shown.len() && shown[i] == place;
        assert(list.contains(out[i]));
        let k = choose|k: int| 0 <= k < list.len() && list[k] == out[i];
        assert(list[k].place == place);
    }
}

/// The rows that are read are in the order of their keys.
pub proof fn lemma_in_order(keys: Seq<Option<Key>>, i: int, j: int)
    requires
        keys.len() <= usize::MAX,
        0 <= i < j < in_order(keys).len(),
    ensures
        in_order(keys)[i] < keys.len(),
        in_order(keys)[j] < keys.len(),
        in_order(keys)[i] != in_order(keys)[j],
        keys[in_order(keys)[i] as int] is Some,
        keys[in_order(keys)[j] as int] is Some,
        ({
            let a = keys[in_order(keys)[i] as int]->0;
            let b = keys[in_order(keys)[j] as int]->0;
            a.at < b.at || (a.at == b.at && a.id <= b.id)
        }),
{
    let list = picked(keys);
    let out = ordered(list);
    lemma_picked(keys);
    law_reads_are_in_order(list);
    law_every_row_is_read_once(keys, in_order(keys)[i]);
    assert(no_later(out[i], out[j]));
    assert(list.contains(out[i]) && list.contains(out[j]));
    let m = choose|m: int| 0 <= m < list.len() && list[m] == out[i];
    let n = choose|n: int| 0 <= n < list.len() && list[n] == out[j];
    assert(keys[list[m].place as int] == Some(list[m].key));
    assert(keys[list[n].place as int] == Some(list[n].key));
}

} // verus!
