//! The manifest: an insertion-ordered map from key to record, kept in an
//! `indexmap::IndexMap`, with its model as a sequence of key-record pairs.

use vstd::prelude::*;
use indexmap::IndexMap;
use crate::model::{OutputRecord, RecordView};
use crate::text::{key_le, lemma_key_le_antisymmetric};

verus! {

/// `indexmap::IndexMap`, as a type whose inside is not looked into: what a
/// map holds is spoken of through `map_entries`.
#[verifier::external_type_specification]
#[verifier::external_body]
#[verifier::reject_recursive_types(K)]
#[verifier::reject_recursive_types(V)]
#[verifier::reject_recursive_types(S)]
pub struct ExIndexMap<K, V, S>(IndexMap<K, V, S>);

/// The key-record pairs that an `IndexMap` holds, in its order.
pub uninterp spec fn map_entries(m: IndexMap<String, OutputRecord>) -> Seq<(Seq<char>, RecordView)>;

/// Whether some pair of `entries` has the key `key`.
pub open spec fn holds_key(entries: Seq<(Seq<char>, RecordView)>, key: Seq<char>) -> bool {
    exists|i: int| 0 <= i < entries.len() && (#[trigger] entries[i]).0 == key
}

/// A position at which `entries` has the key `key`, where it has one.
pub open spec fn position_of(entries: Seq<(Seq<char>, RecordView)>, key: Seq<char>) -> int {
    choose|i: int| 0 <= i < entries.len() && (#[trigger] entries[i]).0 == key
}

/// The record that `entries` holds for `key`.
pub open spec fn lookup(entries: Seq<(Seq<char>, RecordView)>, key: Seq<char>) -> Option<
    RecordView,
> {
    if holds_key(entries, key) {
        Some(entries[position_of(entries, key)].1)
    } else {
        None
    }
}

/// No key occurs at two positions.
pub open spec fn keys_distinct(entries: Seq<(Seq<char>, RecordView)>) -> bool {
    forall|i: int, j: int|
        0 <= i < j < entries.len() ==> (#[trigger] entries[i]).0 != (#[trigger] entries[j]).0
}

/// `entries` after `record` is stored under `key`: in the place that the key
/// has, or behind all others where it is new.
pub open spec fn with_entry(
    entries: Seq<(Seq<char>, RecordView)>,
    key: Seq<char>,
    record: RecordView,
) -> Seq<(Seq<char>, RecordView)> {
    if holds_key(entries, key) {
        entries.update(position_of(entries, key), (key, record))
    } else {
        entries.push((key, record))
    }
}

/// The keys ascend from front to back.
pub open spec fn sorted_by_key(entries: Seq<(Seq<char>, RecordView)>) -> bool {
    forall|i: int, j: int|
        0 <= i < j < entries.len() ==> key_le((#[trigger] entries[i]).0, (#[trigger] entries[j]).0)
}

/// What `entries` holds, without its order.
pub open spec fn as_map(entries: Seq<(Seq<char>, RecordView)>) -> Map<Seq<char>, RecordView> {
    Map::new(
        |key: Seq<char>| holds_key(entries, key),
        |key: Seq<char>| entries[position_of(entries, key)].1,
    )
}

/// The key-record pairs of `pairs`, each by its view.
pub open spec fn pairs_view(pairs: Seq<(String, OutputRecord)>) -> Seq<(Seq<char>, RecordView)> {
    pairs.map_values(|pair: (String, OutputRecord)| (pair.0@, pair.1@))
}

/// What a manifest holds after `pairs` were stored in it one after the
/// other: of two pairs with one key the later record, in the earlier place.
pub open spec fn collected(pairs: Seq<(Seq<char>, RecordView)>) -> Seq<(Seq<char>, RecordView)>
    decreases pairs.len(),
{
    if pairs.len() == 0 {
        Seq::empty()
    } else {
        with_entry(collected(pairs.drop_last()), pairs.last().0, pairs.last().1)
    }
}

/// `IndexMap::new`: a map that holds nothing.
#[verifier::external_body]
fn map_new() -> (m: IndexMap<String, OutputRecord>)
    ensures
        map_entries(m) == Seq::<(Seq<char>, RecordView)>::empty(),
{
    IndexMap::new()
}

/// `IndexMap::len`: the number of pairs held.
#[verifier::external_body]
fn map_len(m: &IndexMap<String, OutputRecord>) -> (n: usize)
    ensures
        n == map_entries(*m).len(),
{
    m.len()
}

/// `IndexMap::get`: the record stored under a key equal to `key`, and `None`
/// exactly where no pair has that key.
#[verifier::external_body]
fn map_get<'a>(m: &'a IndexMap<String, OutputRecord>, key: &str) -> (found: Option<
    &'a OutputRecord,
>)
    ensures
        found is Some <==> holds_key(map_entries(*m), key@),
        found matches Some(record) ==> exists|i: int|
            0 <= i < map_entries(*m).len() && #[trigger] map_entries(*m)[i] == (key@, record@),
{
    m.get(key)
}

/// `IndexMap::insert`: where the key is held already, its record is replaced
/// and keeps its place; else the pair goes behind all others. The call
/// returns; it does not unwind.
#[verifier::external_body]
fn map_insert(m: &mut IndexMap<String, OutputRecord>, key: String, record: OutputRecord)
    ensures
        holds_key(map_entries(*old(m)), key@) ==> exists|i: int|
            0 <= i < map_entries(*old(m)).len() && (#[trigger] map_entries(*old(m))[i]).0 == key@
                && map_entries(*final(m)) == map_entries(*old(m)).update(i, (key@, record@)),
        !holds_key(map_entries(*old(m)), key@) ==> map_entries(*final(m)) == map_entries(
            *old(m),
        ).push((key@, record@)),
    no_unwind
{
    m.insert(key, record);
}

/// `IndexMap::sort_keys`: the same pairs, reordered so that the keys ascend
/// in the order of `String`, which compares byte by byte and so code point
/// by code point. The call returns; it does not unwind.
#[verifier::external_body]
fn map_sort_keys(m: &mut IndexMap<String, OutputRecord>)
    ensures
        map_entries(*final(m)).to_multiset() == map_entries(*old(m)).to_multiset(),
        sorted_by_key(map_entries(*final(m))),
    no_unwind
{
    m.sort_keys();
}

/// `IndexMap::get_index`: the pair at position `index`, and `None` from the
/// length on.
#[verifier::external_body]
fn map_get_index<'a>(m: &'a IndexMap<String, OutputRecord>, index: usize) -> (pair: Option<
    (&'a String, &'a OutputRecord),
>)
    ensures
        pair is Some <==> index < map_entries(*m).len(),
        pair matches Some((key, record)) ==> map_entries(*m)[index as int] == (key@, record@),
{
    m.get_index(index)
}

/// Under distinct keys a key's position is the only one that has it.
pub proof fn lemma_position_unique(entries: Seq<(Seq<char>, RecordView)>, i: int)
    requires
        keys_distinct(entries),
        0 <= i < entries.len(),
    ensures
        holds_key(entries, entries[i].0),
        position_of(entries, entries[i].0) == i,
        lookup(entries, entries[i].0) == Some(entries[i].1),
{
    let key = entries[i].0;
    let p = position_of(entries, key);
    assert(0 <= p < entries.len() && entries[p].0 == key);
    if p < i {
        assert(entries[p].0 != entries[i].0);
    }
    if i < p {
        assert(entries[i].0 != entries[p].0);
    }
}

/// Storing a record keeps the keys distinct; afterwards the key has that
/// record, every other key has what it had, and no other key is gained or lost.
pub proof fn lemma_with_entry(
    entries: Seq<(Seq<char>, RecordView)>,
    key: Seq<char>,
    record: RecordView,
)
    requires
        keys_distinct(entries),
    ensures
        keys_distinct(with_entry(entries, key, record)),
        lookup(with_entry(entries, key, record), key) == Some(record),
        forall|other: Seq<char>|
            other != key ==> #[trigger] lookup(with_entry(entries, key, record), other) == lookup(
                entries,
                other,
            ),
        as_map(with_entry(entries, key, record)) == as_map(entries).insert(key, record),
{
    let after = with_entry(entries, key, record);
    let at = if holds_key(entries, key) {
        position_of(entries, key)
    } else {
        entries.len() as int
    };
    assert(after.len() > at && after[at] == (key, record));
    assert forall|i: int| 0 <= i < after.len() && i != at implies after[i] == entries[i]
        && after[i].0 != key by {
        if holds_key(entries, key) {
            lemma_position_unique(entries, i);
        }
    }
    assert(keys_distinct(after)) by {
        assert forall|i: int, j: int| 0 <= i < j < after.len() implies (#[trigger] after[i]).0 != (
        #[trigger] after[j]).0 by {
            if i != at && j != at {
                assert(entries[i].0 != entries[j].0);
            }
        }
    }
    lemma_position_unique(after, at);
    assert forall|other: Seq<char>| other != key implies #[trigger] lookup(after, other) == lookup(
        entries,
        other,
    ) by {
        if holds_key(entries, other) {
            let p = position_of(entries, other);
            assert(after[p] == entries[p]);
            lemma_position_unique(entries, p);
            lemma_position_unique(after, p);
        } else if holds_key(after, other) {
            let p = position_of(after, other);
            assert(after[p] == entries[p]);
        }
    }
    assert(as_map(after) =~= as_map(entries).insert(key, record)) by {
        assert forall|k: Seq<char>| as_map(after).dom().contains(k) <==> as_map(entries).insert(
            key,
            record,
        ).dom().contains(k) by {
            if k != key {
                assert(lookup(after, k) == lookup(entries, k));
            }
        }
        assert forall|k: Seq<char>| #[trigger] as_map(after).dom().contains(k) implies as_map(
            after,
        )[k] == as_map(entries).insert(key, record)[k] by {
            if k != key {
                assert(lookup(after, k) == lookup(entries, k));
            } else {
                assert(lookup(after, key) == Some(record));
            }
        }
    }
}

/// A reordering of pairs with distinct keys has distinct keys and holds the same.
pub proof fn lemma_reordered(
    before: Seq<(Seq<char>, RecordView)>,
    after: Seq<(Seq<char>, RecordView)>,
)
    requires
        keys_distinct(before),
        after.to_multiset() == before.to_multiset(),
    ensures
        keys_distinct(after),
        after.len() == before.len(),
        as_map(after) == as_map(before),
{
    broadcast use vstd::seq_lib::group_to_multiset_ensures;

    assert(before.no_duplicates()) by {
        assert forall|i: int, j: int|
            0 <= i < before.len() && 0 <= j < before.len() && i != j implies before[i]
            != before[j] by {
            if i < j {
                assert(before[i].0 != before[j].0);
            } else {
                assert(before[j].0 != before[i].0);
            }
        }
    }
    before.lemma_multiset_has_no_duplicates();
    after.lemma_multiset_has_no_duplicates_conv();
    assert(after.len() == after.to_multiset().len());
    assert(before.len() == before.to_multiset().len());
    assert forall|pair: (Seq<char>, RecordView)| after.contains(pair) <==> before.contains(
        pair,
    ) by {
        assert(after.contains(pair) <==> after.to_multiset().count(pair) > 0);
        assert(before.contains(pair) <==> before.to_multiset().count(pair) > 0);
    }
    assert forall|i: int, j: int| 0 <= i < j < after.len() implies (#[trigger] after[i]).0 != (
    #[trigger] after[j]).0 by {
        assert(after.contains(after[i]) && after.contains(after[j]));
        assert(before.contains(after[i]) && before.contains(after[j]));
        let x = choose|x: int| 0 <= x < before.len() && before[x] == after[i];
        let y = choose|y: int| 0 <= y < before.len() && before[y] == after[j];
        assert(after[i] != after[j]);
        if x < y {
            assert(before[x].0 != before[y].0);
        } else if y < x {
            assert(before[y].0 != before[x].0);
        }
    }
    assert(as_map(after) =~= as_map(before)) by {
        assert forall|k: Seq<char>| holds_key(after, k) implies holds_key(before, k) && lookup(
            after,
            k,
        ) == lookup(before, k) by {
            let p = position_of(after, k);
            assert(after.contains(after[p]));
            assert(before.contains(after[p]));
            let x = choose|x: int| 0 <= x < before.len() && before[x] == after[p];
            lemma_position_unique(before, x);
        }
        assert forall|k: Seq<char>| holds_key(before, k) implies holds_key(after, k) by {
            let p = position_of(before, k);
            assert(before.contains(before[p]));
            assert(after.contains(before[p]));
            let x = choose|x: int| 0 <= x < after.len() && after[x] == before[p];
            assert(after[x].0 == k);
        }
    }
}

/// Pairs with distinct, ascending keys are fixed by what they hold: two such
/// sequences with the same content are the same sequence, whatever the order
/// in which the pairs were stored.
pub proof fn lemma_sorted_order_unique(
    a: Seq<(Seq<char>, RecordView)>,
    b: Seq<(Seq<char>, RecordView)>,
)
    requires
        keys_distinct(a),
        keys_distinct(b),
        sorted_by_key(a),
        sorted_by_key(b),
        as_map(a) == as_map(b),
    ensures
        a == b,
    decreases a.len(),
{
    if a.len() == 0 {
        if b.len() > 0 {
            assert(holds_key(b, b[0].0));
            assert(as_map(b).dom().contains(b[0].0));
            assert(as_map(a).dom().contains(b[0].0));
        }
        assert(a =~= b);
    } else if b.len() == 0 {
        assert(holds_key(a, a[0].0));
        assert(as_map(a).dom().contains(a[0].0));
        assert(as_map(b).dom().contains(a[0].0));
    } else {
        lemma_position_unique(a, 0);
        lemma_position_unique(b, 0);
        assert(as_map(a).dom().contains(a[0].0));
        assert(as_map(b).dom().contains(a[0].0));
        assert(as_map(b).dom().contains(b[0].0));
        assert(as_map(a).dom().contains(b[0].0));
        let i = position_of(a, b[0].0);
        let j = position_of(b, a[0].0);
        assert(0 <= i < a.len() && a[i].0 == b[0].0);
        assert(0 <= j < b.len() && b[j].0 == a[0].0);
        assert(key_le(a[0].0, b[0].0)) by {
            if i > 0 {
                assert(key_le(a[0].0, a[i].0));
            } else {
                lemma_key_le_reflexive(a[0].0);
            }
        }
        assert(key_le(b[0].0, a[0].0)) by {
            if j > 0 {
                assert(key_le(b[0].0, b[j].0));
            } else {
                lemma_key_le_reflexive(b[0].0);
            }
        }
        lemma_key_le_antisymmetric(a[0].0, b[0].0);
        assert(a[0].1 == b[0].1) by {
            assert(as_map(a)[a[0].0] == a[0].1);
            assert(as_map(b)[b[0].0] == b[0].1);
        }
        assert(a[0] == b[0]);
        let ta = a.drop_first();
        let tb = b.drop_first();
        lemma_tail_content(a);
        lemma_tail_content(b);
        assert(as_map(ta) =~= as_map(tb));
        lemma_sorted_order_unique(ta, tb);
        assert(a =~= seq![a[0]] + ta);
        assert(b =~= seq![b[0]] + tb);
    }
}

proof fn lemma_key_le_reflexive(a: Seq<char>)
    ensures
        key_le(a, a),
    decreases a.len(),
{
    if a.len() > 0 {
        lemma_key_le_reflexive(a.drop_first());
    }
}

/// Without its first pair a sequence keeps distinct and ascending keys, and
/// holds what it held but for the first key.
proof fn lemma_tail_content(a: Seq<(Seq<char>, RecordView)>)
    requires
        a.len() > 0,
        keys_distinct(a),
    ensures
        keys_distinct(a.drop_first()),
        sorted_by_key(a) ==> sorted_by_key(a.drop_first()),
        as_map(a.drop_first()) == as_map(a).remove(a[0].0),
{
    let t = a.drop_first();
    assert forall|i: int, j: int| 0 <= i < j < t.len() implies (#[trigger] t[i]).0 != (
    #[trigger] t[j]).0 by {
        assert(a[i + 1].0 != a[j + 1].0);
    }
    if sorted_by_key(a) {
        assert forall|i: int, j: int| 0 <= i < j < t.len() implies key_le(
            (#[trigger] t[i]).0,
            (#[trigger] t[j]).0,
        ) by {
            assert(key_le(a[i + 1].0, a[j + 1].0));
        }
    }
    assert(as_map(t) =~= as_map(a).remove(a[0].0)) by {
        assert forall|k: Seq<char>| holds_key(t, k) implies k != a[0].0 && holds_key(a, k)
            && lookup(t, k) == lookup(a, k) by {
            let p = position_of(t, k);
            assert(t[p] == a[p + 1]);
            assert(a[0].0 != a[p + 1].0);
            lemma_position_unique(a, p + 1);
            lemma_position_unique(t, p);
        }
        assert forall|k: Seq<char>| k != a[0].0 && holds_key(a, k) implies holds_key(t, k) by {
            let p = position_of(a, k);
            assert(t[p - 1] == a[p]);
        }
    }
}

/// The manifest: one record for each key, in the order in which the keys
/// were first stored, or ascending by key once sorted.
pub struct Manifest {
    entries: IndexMap<String, OutputRecord>,
}

impl View for Manifest {
    type V = Seq<(Seq<char>, RecordView)>;

    closed spec fn view(&self) -> Seq<(Seq<char>, RecordView)> {
        map_entries(self.entries)
    }
}

impl Manifest {
    #[verifier::type_invariant]
    spec fn keys_are_distinct(self) -> bool {
        keys_distinct(map_entries(self.entries))
    }

    /// An empty manifest.
    pub fn new() -> (manifest: Manifest)
        ensures
            manifest@ == Seq::<(Seq<char>, RecordView)>::empty(),
    {
        Manifest { entries: map_new() }
    }

    /// The manifest that holds `pairs`, stored one after the other.
    pub fn from_pairs(pairs: Vec<(String, OutputRecord)>) -> (manifest: Manifest)
        ensures
            manifest@ == collected(pairs_view(pairs@)),
            keys_distinct(manifest@),
    {
        let ghost all = pairs_view(pairs@);
        let mut manifest = Manifest::new();
        proof {
            use_type_invariant(&manifest);
        }
        for pair in it: pairs.into_iter()
            invariant
                it.seq() == pairs@,
                all == pairs_view(pairs@),
                manifest@ == collected(all.take(it.index() as int)),
                keys_distinct(manifest@),
        {
            let (key, record) = pair;
            proof {
                let n = it.index() as int;
                assert(all.take(n + 1).drop_last() == all.take(n));
                assert(all.take(n + 1).last() == (key@, record@));
            }
            manifest.insert(key, record);
        }
        proof {
            assert(all.take(all.len() as int) == all);
        }
        manifest
    }

    /// All pairs, in the manifest's order.
    pub fn pairs(&self) -> (pairs: Vec<(String, OutputRecord)>)
        ensures
            pairs_view(pairs@) == self@,
    {
        let total = self.len();
        let mut pairs: Vec<(String, OutputRecord)> = Vec::new();
        let mut index: usize = 0;
        while index < total
            invariant
                index <= total == self@.len(),
                pairs_view(pairs@) == self@.take(index as int),
            decreases total - index,
        {
            if let Some((key, record)) = self.entry_at(index) {
                let ghost before = pairs@;
                pairs.push((key.clone(), record.clone()));
                proof {
                    assert(pairs_view(pairs@) =~= pairs_view(before).push((key@, record@)));
                    assert(self@.take(index as int + 1) =~= self@.take(index as int).push(
                        self@[index as int],
                    ));
                }
            }
            index = index + 1;
        }
        proof {
            assert(self@.take(total as int) == self@);
        }
        pairs
    }

    /// The number of keys.
    pub fn len(&self) -> (n: usize)
        ensures
            n == self@.len(),
    {
        map_len(&self.entries)
    }

    /// The record stored under `key`.
    pub fn get(&self, key: &str) -> (found: Option<&OutputRecord>)
        ensures
            keys_distinct(self@),
            match found {
                Some(record) => lookup(self@, key@) == Some(record@),
                None => lookup(self@, key@) is None,
            },
    {
        proof {
            use_type_invariant(self);
        }
        let found = map_get(&self.entries, key);
        proof {
            if let Some(record) = found {
                let i = choose|i: int|
                    0 <= i < self@.len() && #[trigger] self@[i] == (key@, record@);
                lemma_position_unique(self@, i);
            }
        }
        found
    }

    /// Stores `record` under `key`: in the key's place where the manifest has
    /// the key, behind all others where it is new.
    pub fn insert(&mut self, key: String, record: OutputRecord)
        ensures
            keys_distinct(old(self)@),
            keys_distinct(final(self)@),
            final(self)@ == with_entry(old(self)@, key@, record@),
    {
        proof {
            use_type_invariant(&*self);
        }
        let ghost before = self@;
        map_insert(&mut self.entries, key, record);
        proof {
            if holds_key(before, key@) {
                let i = choose|i: int|
                    0 <= i < before.len() && (#[trigger] before[i]).0 == key@ && self@
                        == before.update(i, (key@, record@));
                lemma_position_unique(before, i);
            }
            lemma_with_entry(before, key@, record@);
        }
    }

    /// Puts the pairs in ascending order of their keys. What the manifest
    /// holds stays; the order no longer depends on when each key was stored.
    pub fn sort_keys(&mut self)
        ensures
            keys_distinct(final(self)@),
            sorted_by_key(final(self)@),
            final(self)@.len() == old(self)@.len(),
            as_map(final(self)@) == as_map(old(self)@),
            final(self)@.to_multiset() == old(self)@.to_multiset(),
    {
        let ghost before = self@;
        proof {
            use_type_invariant(&*self);
            assert forall|after: Seq<(Seq<char>, RecordView)>| #[trigger]
                after.to_multiset() == before.to_multiset() implies keys_distinct(after) by {
                lemma_reordered(before, after);
            }
        }
        map_sort_keys(&mut self.entries);
        proof {
            lemma_reordered(before, self@);
        }
    }

    /// The pair at position `index`, or `None` from the length on.
    pub fn entry_at(&self, index: usize) -> (pair: Option<(&String, &OutputRecord)>)
        ensures
            match pair {
                Some((key, record)) => index < self@.len() && self@[index as int] == (
                    key@,
                    record@,
                ),
                None => index >= self@.len(),
            },
    {
        map_get_index(&self.entries, index)
    }
}

} // verus!
