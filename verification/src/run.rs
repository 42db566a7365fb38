//! A whole run as a model: the resolutions that ended, in the order in which
//! they ended, and what the manifest holds after them.

use vstd::prelude::*;
use crate::manifest::{
    as_map, holds_key, keys_distinct, lemma_sorted_order_unique, lemma_with_entry, lookup,
    position_of, sorted_by_key, with_entry,
};
use crate::model::{EntryView, RecordView};
use crate::resolver::{decision_for, record_of, reusable_hash, Decision};

verus! {

/// One resolution that ended: its entry, and the hash that the entry got, or
/// `None` where its download failed.
pub ghost struct Resolution {
    pub entry: EntryView,
    pub hash: Option<Seq<char>>,
}

/// The manifest after the resolutions `steps` have ended on `start`, one
/// after the other: each that got a hash stored its record, each that failed
/// changed nothing.
pub open spec fn completed(
    start: Seq<(Seq<char>, RecordView)>,
    steps: Seq<Resolution>,
) -> Seq<(Seq<char>, RecordView)>
    decreases steps.len(),
{
    if steps.len() == 0 {
        start
    } else {
        let before = completed(start, steps.drop_last());
        let step = steps.last();
        match step.hash {
            Some(hash) => with_entry(before, step.entry.key, record_of(step.entry, hash)),
            None => before,
        }
    }
}

/// Whether a resolution for `key` is among `steps` and got a hash.
pub open spec fn succeeded_with_key(steps: Seq<Resolution>, key: Seq<char>) -> bool {
    exists|i: int|
        0 <= i < steps.len() && (#[trigger] steps[i]).hash is Some && steps[i].entry.key == key
}

/// No two resolutions are for one key.
pub open spec fn step_keys_distinct(steps: Seq<Resolution>) -> bool {
    forall|i: int, j: int|
        0 <= i < j < steps.len() ==> (#[trigger] steps[i]).entry.key != (
        #[trigger] steps[j]).entry.key
}

/// How the resolution of `entry` against the earlier manifest `prior` ends,
/// where `fresh` is what a download of its artifact gives: the earlier hash
/// where that is reused, whatever `fresh` holds.
pub open spec fn outcome_of(
    prior: Seq<(Seq<char>, RecordView)>,
    entry: EntryView,
    fresh: Option<Seq<char>>,
) -> Option<Seq<char>> {
    match reusable_hash(prior, entry) {
        Some(hash) => Some(hash),
        None => fresh,
    }
}

/// The resolutions of a run over the entries `catalog`, in the order in which
/// they ended, against the earlier manifest `prior`.
pub open spec fn run_steps(
    prior: Seq<(Seq<char>, RecordView)>,
    catalog: Seq<EntryView>,
    fresh: Seq<Option<Seq<char>>>,
) -> Seq<Resolution>
    recommends
        fresh.len() == catalog.len(),
{
    Seq::new(
        catalog.len(),
        |i: int| Resolution { entry: catalog[i], hash: outcome_of(prior, catalog[i], fresh[i]) },
    )
}

/// The manifest that a run builds, before it is sorted.
pub open spec fn run_result(
    prior: Seq<(Seq<char>, RecordView)>,
    catalog: Seq<EntryView>,
    fresh: Seq<Option<Seq<char>>>,
) -> Seq<(Seq<char>, RecordView)> {
    completed(Seq::empty(), run_steps(prior, catalog, fresh))
}

/// No two entries of the catalog have one key.
pub open spec fn catalog_keys_distinct(catalog: Seq<EntryView>) -> bool {
    forall|i: int, j: int|
        0 <= i < j < catalog.len() ==> (#[trigger] catalog[i]).key != (#[trigger] catalog[j]).key
}

/// `written` is `result` as it is persisted: the same content, with distinct
/// keys in ascending order.
pub open spec fn is_sorted_form(
    written: Seq<(Seq<char>, RecordView)>,
    result: Seq<(Seq<char>, RecordView)>,
) -> bool {
    &&& keys_distinct(written)
    &&& sorted_by_key(written)
    &&& as_map(written) == as_map(result)
}

proof fn lemma_succeeded_split(steps: Seq<Resolution>, key: Seq<char>)
    requires
        steps.len() > 0,
    ensures
        succeeded_with_key(steps, key) <==> succeeded_with_key(steps.drop_last(), key) || (
        steps.last().hash is Some && steps.last().entry.key == key),
{
    let init = steps.drop_last();
    if succeeded_with_key(steps, key) {
        let i = choose|i: int|
            0 <= i < steps.len() && (#[trigger] steps[i]).hash is Some && steps[i].entry.key
                == key;
        if i < steps.len() - 1 {
            assert(init[i] == steps[i]);
        }
    }
    if succeeded_with_key(init, key) {
        let i = choose|i: int|
            0 <= i < init.len() && (#[trigger] init[i]).hash is Some && init[i].entry.key == key;
        assert(steps[i] == init[i]);
    }
    if steps.last().hash is Some && steps.last().entry.key == key {
        assert(steps[steps.len() - 1] == steps.last());
    }
}

/// The keys of the manifest after a run are the keys it started with and
/// the keys of the resolutions that got a hash: the key of a failed
/// resolution is not gained. The keys stay distinct.
pub proof fn lemma_completed_keys(start: Seq<(Seq<char>, RecordView)>, steps: Seq<Resolution>)
    requires
        keys_distinct(start),
    ensures
        keys_distinct(completed(start, steps)),
        forall|key: Seq<char>| #[trigger]
            holds_key(completed(start, steps), key) <==> holds_key(start, key)
                || succeeded_with_key(steps, key),
    decreases steps.len(),
{
    if steps.len() > 0 {
        let init = steps.drop_last();
        let step = steps.last();
        let before = completed(start, init);
        let after = completed(start, steps);
        lemma_completed_keys(start, init);
        if let Some(hash) = step.hash {
            lemma_with_entry(before, step.entry.key, record_of(step.entry, hash));
        }
        assert forall|key: Seq<char>| #[trigger]
            holds_key(after, key) <==> holds_key(start, key) || succeeded_with_key(
                steps,
                key,
            ) by {
            lemma_succeeded_split(steps, key);
            assert(as_map(after).dom().contains(key) == holds_key(after, key));
            assert(as_map(before).dom().contains(key) == holds_key(before, key));
        }
    }
}

/// After a run in which no two resolutions are for one key, the manifest has
/// under the key of each resolution that got a hash the record of that entry
/// with that hash.
pub proof fn lemma_completed_record(
    start: Seq<(Seq<char>, RecordView)>,
    steps: Seq<Resolution>,
    i: int,
)
    requires
        keys_distinct(start),
        step_keys_distinct(steps),
        0 <= i < steps.len(),
        steps[i].hash is Some,
    ensures
        lookup(completed(start, steps), steps[i].entry.key) == Some(
            record_of(steps[i].entry, steps[i].hash->0),
        ),
    decreases steps.len(),
{
    let init = steps.drop_last();
    let step = steps.last();
    let before = completed(start, init);
    lemma_completed_keys(start, init);
    if i == steps.len() - 1 {
        lemma_with_entry(before, step.entry.key, record_of(step.entry, step.hash->0));
    } else {
        assert(init[i] == steps[i]);
        assert(step_keys_distinct(init)) by {
            assert forall|a: int, b: int| 0 <= a < b < init.len() implies (#[trigger] init[a]).entry.key
                != (#[trigger] init[b]).entry.key by {
                assert(steps[a].entry.key != steps[b].entry.key);
            }
        }
        lemma_completed_record(start, init, i);
        assert(steps[i].entry.key != steps[steps.len() - 1].entry.key);
        if let Some(hash) = step.hash {
            lemma_with_entry(before, step.entry.key, record_of(step.entry, hash));
        }
    }
}

/// A key for which no resolution got a hash has after the run what it had
/// before.
pub proof fn lemma_completed_keeps_others(
    start: Seq<(Seq<char>, RecordView)>,
    steps: Seq<Resolution>,
    key: Seq<char>,
)
    requires
        keys_distinct(start),
        !succeeded_with_key(steps, key),
    ensures
        lookup(completed(start, steps), key) == lookup(start, key),
    decreases steps.len(),
{
    if steps.len() > 0 {
        let init = steps.drop_last();
        let step = steps.last();
        lemma_succeeded_split(steps, key);
        lemma_completed_keys(start, init);
        lemma_completed_keeps_others(start, init, key);
        if let Some(hash) = step.hash {
            lemma_with_entry(completed(start, init), step.entry.key, record_of(step.entry, hash));
        }
    }
}

/// The order in which the resolutions end does not show in what is written:
/// the same resolutions, no two of them for one key, ended in two orders on
/// the same manifest, give the same sorted manifest.
pub proof fn lemma_completion_order_is_immaterial(
    start: Seq<(Seq<char>, RecordView)>,
    steps: Seq<Resolution>,
    steps_reordered: Seq<Resolution>,
    written: Seq<(Seq<char>, RecordView)>,
    written_reordered: Seq<(Seq<char>, RecordView)>,
)
    requires
        keys_distinct(start),
        step_keys_distinct(steps),
        step_keys_distinct(steps_reordered),
        forall|step: Resolution| steps.contains(step) <==> steps_reordered.contains(step),
        is_sorted_form(written, completed(start, steps)),
        is_sorted_form(written_reordered, completed(start, steps_reordered)),
    ensures
        written_reordered == written,
{
    let one = completed(start, steps);
    let other = completed(start, steps_reordered);
    assert forall|key: Seq<char>| lookup(one, key) == lookup(other, key) by {
        lemma_same_steps_same_record(start, steps, steps_reordered, key);
    }
    assert(as_map(one) =~= as_map(other)) by {
        assert forall|key: Seq<char>| holds_key(one, key) <==> holds_key(other, key) by {
            assert(lookup(one, key) == lookup(other, key));
        }
        assert forall|key: Seq<char>| holds_key(one, key) implies as_map(one)[key] == as_map(
            other,
        )[key] by {
            assert(lookup(one, key) == lookup(other, key));
        }
    }
    lemma_sorted_order_unique(written, written_reordered);
}

proof fn lemma_same_steps_same_record(
    start: Seq<(Seq<char>, RecordView)>,
    steps: Seq<Resolution>,
    steps_reordered: Seq<Resolution>,
    key: Seq<char>,
)
    requires
        keys_distinct(start),
        step_keys_distinct(steps),
        step_keys_distinct(steps_reordered),
        forall|step: Resolution| steps.contains(step) <==> steps_reordered.contains(step),
    ensures
        lookup(completed(start, steps), key) == lookup(completed(start, steps_reordered), key),
{
    if succeeded_with_key(steps, key) {
        let i = choose|i: int|
            0 <= i < steps.len() && (#[trigger] steps[i]).hash is Some && steps[i].entry.key
                == key;
        assert(steps.contains(steps[i]));
        assert(steps_reordered.contains(steps[i]));
        let j = choose|j: int| 0 <= j < steps_reordered.len() && steps_reordered[j] == steps[i];
        lemma_completed_record(start, steps, i);
        lemma_completed_record(start, steps_reordered, j);
    } else {
        if succeeded_with_key(steps_reordered, key) {
            let j = choose|j: int|
                0 <= j < steps_reordered.len() && (#[trigger] steps_reordered[j]).hash is Some
                    && steps_reordered[j].entry.key == key;
            assert(steps_reordered.contains(steps_reordered[j]));
            assert(steps.contains(steps_reordered[j]));
            let i = choose|i: int| 0 <= i < steps.len() && steps[i] == steps_reordered[j];
            assert(steps[i].hash is Some && steps[i].entry.key == key);
        }
        lemma_completed_keeps_others(start, steps, key);
        lemma_completed_keeps_others(start, steps_reordered, key);
    }
}

/// The key set of a run's manifest is exactly the set of keys of the entries
/// whose resolution got a hash; the key of an entry whose download failed is
/// absent unless another resolution for that key succeeded.
pub proof fn lemma_result_keys(
    prior: Seq<(Seq<char>, RecordView)>,
    catalog: Seq<EntryView>,
    fresh: Seq<Option<Seq<char>>>,
)
    ensures
        keys_distinct(run_result(prior, catalog, fresh)),
        forall|key: Seq<char>| #[trigger]
            holds_key(run_result(prior, catalog, fresh), key) <==> succeeded_with_key(
                run_steps(prior, catalog, fresh),
                key,
            ),
{
    let start = Seq::<(Seq<char>, RecordView)>::empty();
    lemma_completed_keys(start, run_steps(prior, catalog, fresh));
    assert forall|key: Seq<char>| !holds_key(start, key) by {}
}

/// In a run over entries with distinct keys, an entry whose earlier hash is
/// reused ends up with exactly that hash, whatever a download would have
/// given; an entry that is hashed anew ends up with the digest of its
/// download.
pub proof fn lemma_result_record(
    prior: Seq<(Seq<char>, RecordView)>,
    catalog: Seq<EntryView>,
    fresh: Seq<Option<Seq<char>>>,
    i: int,
)
    requires
        catalog_keys_distinct(catalog),
        0 <= i < catalog.len(),
    ensures
        decision_for(lookup(prior, catalog[i].key), catalog[i]) == Decision::Reuse ==> lookup(
            run_result(prior, catalog, fresh),
            catalog[i].key,
        ) == Some(record_of(catalog[i], lookup(prior, catalog[i].key)->0.hash)),
        decision_for(lookup(prior, catalog[i].key), catalog[i]) == Decision::Recompute
            && fresh[i] is Some ==> lookup(run_result(prior, catalog, fresh), catalog[i].key)
            == Some(record_of(catalog[i], fresh[i]->0)),
{
    let steps = run_steps(prior, catalog, fresh);
    let start = Seq::<(Seq<char>, RecordView)>::empty();
    assert(step_keys_distinct(steps)) by {
        assert forall|a: int, b: int| 0 <= a < b < steps.len() implies (#[trigger] steps[a]).entry.key
            != (#[trigger] steps[b]).entry.key by {
            assert(catalog[a].key != catalog[b].key);
        }
    }
    if steps[i].hash is Some {
        lemma_completed_record(start, steps, i);
    }
}

/// Two runs in a row over an unchanged catalog write the same manifest.
///
/// The first run resolves every entry, each download giving a digest that is
/// not empty, and writes its manifest sorted. The second run reads that
/// manifest, meets the same entries in any order, and reuses every hash:
/// whatever a download would give now, even a failure, what it writes is what
/// the first run wrote.
pub proof fn lemma_second_run_writes_the_same(
    prior: Seq<(Seq<char>, RecordView)>,
    catalog: Seq<EntryView>,
    fresh: Seq<Option<Seq<char>>>,
    written: Seq<(Seq<char>, RecordView)>,
    catalog_again: Seq<EntryView>,
    fresh_again: Seq<Option<Seq<char>>>,
    written_again: Seq<(Seq<char>, RecordView)>,
)
    requires
        catalog_keys_distinct(catalog),
        catalog_keys_distinct(catalog_again),
        forall|entry: EntryView| catalog.contains(entry) <==> catalog_again.contains(entry),
        forall|i: int|
            0 <= i < catalog.len() ==> (#[trigger] fresh[i]) is Some && fresh[i]->0.len() > 0,
        is_sorted_form(written, run_result(prior, catalog, fresh)),
        is_sorted_form(written_again, run_result(written, catalog_again, fresh_again)),
    ensures
        forall|j: int|
            0 <= j < catalog_again.len() ==> decision_for(
                lookup(written, (#[trigger] catalog_again[j]).key),
                catalog_again[j],
            ) == Decision::Reuse,
        written_again == written,
{
    let first = run_result(prior, catalog, fresh);
    let second = run_result(written, catalog_again, fresh_again);
    let steps = run_steps(prior, catalog, fresh);
    let steps_again = run_steps(written, catalog_again, fresh_again);
    lemma_result_keys(prior, catalog, fresh);
    lemma_result_keys(written, catalog_again, fresh_again);
    // Every entry got a hash in the first run, and that hash is not empty.
    assert forall|i: int| 0 <= i < catalog.len() implies (#[trigger] steps[i]).hash is Some
        && steps[i].hash->0.len() > 0 && lookup(written, catalog[i].key) == Some(
        record_of(catalog[i], steps[i].hash->0),
    ) by {
        assert(fresh[i] is Some && fresh[i]->0.len() > 0);
        lemma_result_record(prior, catalog, fresh, i);
        lemma_lookup_by_content(written, first, catalog[i].key);
    }
    // So the second run reuses every hash.
    assert forall|j: int| 0 <= j < catalog_again.len() implies decision_for(
        lookup(written, (#[trigger] catalog_again[j]).key),
        catalog_again[j],
    ) == Decision::Reuse && steps_again[j].hash == Some(
        lookup(written, catalog_again[j].key)->0.hash,
    ) by {
        let entry = catalog_again[j];
        assert(catalog_again.contains(entry));
        assert(catalog.contains(entry));
        let i = choose|i: int| 0 <= i < catalog.len() && catalog[i] == entry;
        assert(steps[i].hash is Some);
    }
    assert(as_map(second) =~= as_map(first)) by {
        assert forall|key: Seq<char>| holds_key(first, key) implies holds_key(second, key)
            && lookup(second, key) == lookup(first, key) by {
            let i = choose|i: int|
                0 <= i < steps.len() && (#[trigger] steps[i]).hash is Some && steps[i].entry.key
                    == key;
            let entry = catalog[i];
            assert(catalog.contains(entry));
            assert(catalog_again.contains(entry));
            let j = choose|j: int| 0 <= j < catalog_again.len() && catalog_again[j] == entry;
            assert(steps_again[j].hash is Some);
            lemma_result_record(prior, catalog, fresh, i);
            lemma_result_record(written, catalog_again, fresh_again, j);
        }
        assert forall|key: Seq<char>| holds_key(second, key) implies holds_key(first, key) by {
            let j = choose|j: int|
                0 <= j < steps_again.len() && (#[trigger] steps_again[j]).hash is Some
                    && steps_again[j].entry.key == key;
            let entry = catalog_again[j];
            assert(catalog_again.contains(entry));
            assert(catalog.contains(entry));
            let i = choose|i: int| 0 <= i < catalog.len() && catalog[i] == entry;
            assert(steps[i].hash is Some && steps[i].entry.key == key);
        }
    }
    lemma_sorted_order_unique(written, written_again);
}

/// Two sequences with the same content have the same record under each key.
proof fn lemma_lookup_by_content(
    a: Seq<(Seq<char>, RecordView)>,
    b: Seq<(Seq<char>, RecordView)>,
    key: Seq<char>,
)
    requires
        as_map(a) == as_map(b),
    ensures
        lookup(a, key) == lookup(b, key),
{
    assert(as_map(a).dom().contains(key) == holds_key(a, key));
    assert(as_map(b).dom().contains(key) == holds_key(b, key));
    if holds_key(a, key) {
        assert(as_map(a)[key] == a[position_of(a, key)].1);
        assert(as_map(b)[key] == b[position_of(b, key)].1);
    }
}

} // verus!
