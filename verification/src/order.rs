//! Stable ordering by an integer key: what a burst orders its offsets by and
//! a grouped search ranks its targets by.

use vstd::prelude::*;

verus! {

/// The first position from `from` on whose key exceeds `key`, or the length
/// when there is none.
pub open spec fn first_greater<T>(ordered: Seq<(i64, T)>, key: i64, from: int) -> int
    decreases ordered.len() - from,
{
    if from < 0 || from >= ordered.len() {
        ordered.len() as int
    } else if ordered[from].0 > key {
        from
    } else {
        first_greater(ordered, key, from + 1)
    }
}

/// The keyed entries in order of key, those of equal key in the order they
/// came: each goes in after every earlier one of no larger key.
pub open spec fn ordered_by_key<T>(keyed: Seq<(i64, T)>) -> Seq<(i64, T)>
    decreases keyed.len(),
{
    if keyed.len() == 0 {
        keyed
    } else {
        let ordered = ordered_by_key(keyed.drop_last());
        ordered.insert(first_greater(ordered, keyed.last().0, 0), keyed.last())
    }
}

/// Whether the keyed entries come in order of key.
pub open spec fn keys_ascend<T>(ordered: Seq<(i64, T)>) -> bool {
    forall|i: int, j: int| 0 <= i <= j < ordered.len() ==> ordered[i].0 <= ordered[j].0
}

/// What [`first_greater`] finds: a position no earlier than `from`, before
/// which nothing from `from` on has a larger key, and at which, if it is
/// inside, the key is larger.
proof fn lemma_first_greater<T>(ordered: Seq<(i64, T)>, key: i64, from: int)
    requires
        0 <= from <= ordered.len(),
    ensures
        from <= first_greater(ordered, key, from) <= ordered.len(),
        forall|k: int| from <= k < first_greater(ordered, key, from) ==> ordered[k].0 <= key,
        first_greater(ordered, key, from) < ordered.len() ==> ordered[first_greater(ordered, key, from)].0 > key,
    decreases ordered.len() - from,
{
    if from < ordered.len() && ordered[from].0 <= key {
        lemma_first_greater(ordered, key, from + 1);
    }
}

/// Inserting before the first larger key keeps the keys ascending.
proof fn lemma_insert_keeps_order<T>(ordered: Seq<(i64, T)>, entry: (i64, T))
    requires
        keys_ascend(ordered),
    ensures
        keys_ascend(ordered.insert(first_greater(ordered, entry.0, 0), entry)),
{
    let position = first_greater(ordered, entry.0, 0);
    lemma_first_greater(ordered, entry.0, 0);
    let inserted = ordered.insert(position, entry);
    assert forall|i: int, j: int| 0 <= i <= j < inserted.len() implies inserted[i].0 <= inserted[j].0 by {
        if i < position && j > position {
            assert(inserted[i] == ordered[i]);
            assert(inserted[j] == ordered[j - 1]);
        } else if i < position && j < position {
        } else if i == position && j > position {
            assert(inserted[j] == ordered[j - 1]);
            assert(ordered[position].0 > entry.0);
        } else if i > position {
            assert(inserted[i] == ordered[i - 1]);
            assert(inserted[j] == ordered[j - 1]);
        }
    }
}

/// The ordering puts every entry in order of key and keeps them all.
pub proof fn lemma_ordering_ascends_and_keeps_every_entry<T>(keyed: Seq<(i64, T)>)
    ensures
        keys_ascend(ordered_by_key(keyed)),
        ordered_by_key(keyed).to_multiset() == keyed.to_multiset(),
    decreases keyed.len(),
{
    if keyed.len() > 0 {
        let rest = keyed.drop_last();
        lemma_ordering_ascends_and_keeps_every_entry(rest);
        let ordered = ordered_by_key(rest);
        lemma_insert_keeps_order(ordered, keyed.last());
        lemma_first_greater(ordered, keyed.last().0, 0);
        vstd::seq_lib::to_multiset_insert(ordered, first_greater(ordered, keyed.last().0, 0), keyed.last());
        vstd::seq_lib::to_multiset_build(rest, keyed.last());
        assert(rest.push(keyed.last()) =~= keyed);
    }
}

/// The keyed entries in order of key, those of equal key in the order they
/// came.
pub fn order_by_key<T: Copy>(keyed: &Vec<(i64, T)>) -> (ordered: Vec<(i64, T)>)
    ensures
        ordered@ == ordered_by_key(keyed@),
{
    let mut ordered: Vec<(i64, T)> = Vec::new();
    let mut i: usize = 0;
    while i < keyed.len()
        invariant
            i <= keyed.len(),
            ordered@ == ordered_by_key(keyed@.take(i as int)),
        decreases keyed.len() - i,
    {
        let entry = keyed[i];
        let mut position: usize = 0;
        while position < ordered.len() && ordered[position].0 <= entry.0
            invariant
                position <= ordered.len(),
                first_greater(ordered@, entry.0, 0) == first_greater(ordered@, entry.0, position as int),
            decreases ordered.len() - position,
        {
            position = position + 1;
        }
        ordered.insert(position, entry);
        proof {
            let taken = keyed@.take(i as int + 1);
            assert(taken.drop_last() =~= keyed@.take(i as int));
            assert(taken.last() == entry);
        }
        i = i + 1;
    }
    assert(keyed@.take(keyed.len() as int) =~= keyed@);
    ordered
}

/// The values of keyed entries, in order.
pub open spec fn values_of<T>(keyed: Seq<(i64, T)>) -> Seq<T> {
    keyed.map_values(|entry: (i64, T)| entry.1)
}

/// The ordering keeps every value, as many times as it came.
pub proof fn lemma_ordering_keeps_every_value<T>(keyed: Seq<(i64, T)>)
    ensures
        values_of(ordered_by_key(keyed)).to_multiset() == values_of(keyed).to_multiset(),
    decreases keyed.len(),
{
    if keyed.len() > 0 {
        let rest = keyed.drop_last();
        let last = keyed.last();
        lemma_ordering_keeps_every_value(rest);
        let ordered = ordered_by_key(rest);
        let position = first_greater(ordered, last.0, 0);
        lemma_first_greater(ordered, last.0, 0);
        assert(values_of(ordered.insert(position, last)) =~= values_of(ordered).insert(position, last.1));
        vstd::seq_lib::to_multiset_insert(values_of(ordered), position, last.1);
        assert(values_of(keyed) =~= values_of(rest).push(last.1));
        vstd::seq_lib::to_multiset_build(values_of(rest), last.1);
    }
}

} // verus!
