//! A map from text to values that is kept in ascending order of its keys.

use vstd::prelude::*;

use crate::text::less_text;

verus! {

broadcast use vstd::seq_lib::group_seq_properties;

/// Number of entries with a key before `key`, in entries sorted by key.
pub open spec fn rank<V>(entries: Seq<(Seq<char>, V)>, key: Seq<char>) -> int
    decreases entries.len(),
{
    if entries.len() == 0 || !crate::text::text_less(entries[0].0, key) {
        0
    } else {
        1 + rank(entries.drop_first(), key)
    }
}

/// Keys in strictly ascending order, so none occurs twice.
pub open spec fn sorted<V>(entries: Seq<(Seq<char>, V)>) -> bool {
    forall|i: int, j: int|
        0 <= i < j < entries.len() ==> crate::text::text_less(
            #[trigger] entries[i].0,
            #[trigger] entries[j].0,
        )
}

pub open spec fn has_key<V>(entries: Seq<(Seq<char>, V)>, key: Seq<char>) -> bool {
    exists|i: int| 0 <= i < entries.len() && #[trigger] entries[i].0 == key
}

/// The value stored under `key`.
pub open spec fn lookup<V>(entries: Seq<(Seq<char>, V)>, key: Seq<char>) -> Option<V> {
    let p = rank(entries, key);
    if 0 <= p < entries.len() && entries[p].0 == key {
        Some(entries[p].1)
    } else {
        None
    }
}

/// The entries with `value` stored under `key`.
pub open spec fn put<V>(entries: Seq<(Seq<char>, V)>, key: Seq<char>, value: V) -> Seq<
    (Seq<char>, V),
> {
    let p = rank(entries, key);
    if 0 <= p < entries.len() && entries[p].0 == key {
        entries.update(p, (key, value))
    } else {
        entries.insert(p, (key, value))
    }
}

/// The entries without the one stored under `key`.
pub open spec fn without<V>(entries: Seq<(Seq<char>, V)>, key: Seq<char>) -> Seq<(Seq<char>, V)> {
    let p = rank(entries, key);
    if 0 <= p < entries.len() && entries[p].0 == key {
        entries.remove(p)
    } else {
        entries
    }
}

pub proof fn lemma_rank<V>(entries: Seq<(Seq<char>, V)>, key: Seq<char>)
    requires
        sorted(entries),
    ensures
        0 <= rank(entries, key) <= entries.len(),
        forall|i: int|
            0 <= i < rank(entries, key) ==> crate::text::text_less(#[trigger] entries[i].0, key),
        forall|i: int|
            rank(entries, key) <= i < entries.len() ==> !crate::text::text_less(
                #[trigger] entries[i].0,
                key,
            ),
    decreases entries.len(),
{
    if entries.len() > 0 {
        let rest = entries.drop_first();
        if crate::text::text_less(entries[0].0, key) {
            assert forall|i: int, j: int| 0 <= i < j < rest.len() implies crate::text::text_less(
                #[trigger] rest[i].0,
                #[trigger] rest[j].0,
            ) by {
                assert(rest[i] == entries[i + 1]);
                assert(rest[j] == entries[j + 1]);
            }
            lemma_rank(rest, key);
            assert forall|i: int| 0 <= i < rank(entries, key) implies crate::text::text_less(
                #[trigger] entries[i].0,
                key,
            ) by {
                if i > 0 {
                    assert(rest[i - 1] == entries[i]);
                }
            }
            assert forall|i: int| rank(entries, key) <= i < entries.len() implies !crate::text::text_less(
                #[trigger] entries[i].0,
                key,
            ) by {
                assert(rest[i - 1] == entries[i]);
            }
        } else {
            assert forall|i: int| 0 <= i < entries.len() implies !crate::text::text_less(
                #[trigger] entries[i].0,
                key,
            ) by {
                if i > 0 && crate::text::text_less(entries[i].0, key) {
                    crate::text::lemma_text_less_transitive(entries[0].0, entries[i].0, key);
                }
            }
        }
    }
}

/// A position that splits the keys around `key` is its rank.
pub proof fn lemma_rank_is<V>(entries: Seq<(Seq<char>, V)>, key: Seq<char>, p: int)
    requires
        sorted(entries),
        0 <= p <= entries.len(),
        forall|i: int| 0 <= i < p ==> crate::text::text_less(#[trigger] entries[i].0, key),
        p < entries.len() ==> !crate::text::text_less(entries[p].0, key),
    ensures
        rank(entries, key) == p,
{
    lemma_rank(entries, key);
    let r = rank(entries, key);
    if r < p {
        assert(crate::text::text_less(entries[r].0, key));
    }
    if p < r {
        assert(crate::text::text_less(entries[p].0, key));
    }
}

/// A key is stored exactly where the lookup finds it.
pub proof fn lemma_lookup<V>(entries: Seq<(Seq<char>, V)>, key: Seq<char>)
    requires
        sorted(entries),
    ensures
        lookup(entries, key) is Some <==> has_key(entries, key),
        forall|i: int|
            0 <= i < entries.len() && #[trigger] entries[i].0 == key ==> lookup(entries, key) == Some(
                entries[i].1,
            ) && rank(entries, key) == i,
{
    lemma_rank(entries, key);
    assert forall|i: int| 0 <= i < entries.len() && #[trigger] entries[i].0 == key implies rank(
        entries,
        key,
    ) == i by {
        crate::text::lemma_text_less_irreflexive(key);
    }
    if lookup(entries, key) is Some {
        assert(entries[rank(entries, key)].0 == key);
    }
}

/// Storing keeps the order, stores under its key, and touches no other key.
pub proof fn lemma_put<V>(entries: Seq<(Seq<char>, V)>, key: Seq<char>, value: V)
    requires
        sorted(entries),
    ensures
        sorted(put(entries, key, value)),
        lookup(put(entries, key, value), key) == Some(value),
        forall|other: Seq<char>|
            other != key ==> #[trigger] lookup(put(entries, key, value), other) == lookup(
                entries,
                other,
            ),
        put(entries, key, value).len() == entries.len() + if has_key(entries, key) {
            0int
        } else {
            1int
        },
{
    lemma_rank(entries, key);
    lemma_lookup(entries, key);
    let p = rank(entries, key);
    let after = put(entries, key, value);
    let replaced = p < entries.len() && entries[p].0 == key;
    assert forall|i: int, j: int| 0 <= i < j < after.len() implies crate::text::text_less(
        #[trigger] after[i].0,
        #[trigger] after[j].0,
    ) by {
        if replaced {
            assert(after[i].0 == entries[i].0);
            assert(after[j].0 == entries[j].0);
        } else {
            let oi = if i < p { i } else { i - 1 };
            let oj = if j < p { j } else { j - 1 };
            if i == p {
                assert(after[j] == entries[oj]);
                crate::text::lemma_text_less_total(entries[oj].0, key);
                if oj > p {
                    assert(crate::text::text_less(entries[p].0, entries[oj].0));
                    crate::text::lemma_text_less_total(entries[p].0, key);
                    crate::text::lemma_text_less_transitive(key, entries[p].0, entries[oj].0);
                }
            } else if j == p {
                assert(after[i] == entries[i]);
            } else {
                assert(after[i] == entries[oi]);
                assert(after[j] == entries[oj]);
            }
        }
    }
    assert(after[p] == (key, value));
    lemma_lookup(after, key);
    assert(after[p].0 == key);
    assert(lookup(after, key) == Some(value));
    assert forall|other: Seq<char>| other != key implies #[trigger] lookup(after, other) == lookup(
        entries,
        other,
    ) by {
        lemma_lookup(after, other);
        lemma_lookup(entries, other);
        if has_key(entries, other) {
            let i = choose|i: int| 0 <= i < entries.len() && #[trigger] entries[i].0 == other;
            let ai = if replaced || i < p { i } else { i + 1 };
            assert(after[ai].0 == other);
        }
        if has_key(after, other) {
            let i = choose|i: int| 0 <= i < after.len() && #[trigger] after[i].0 == other;
            let oi = if replaced || i < p { i } else { i - 1 };
            assert(entries[oi].0 == other);
        }
    }
}

/// Dropping a key keeps the order and every other key.
pub proof fn lemma_without<V>(entries: Seq<(Seq<char>, V)>, key: Seq<char>)
    requires
        sorted(entries),
    ensures
        sorted(without(entries, key)),
        lookup(without(entries, key), key) is None,
        forall|other: Seq<char>|
            other != key ==> #[trigger] lookup(without(entries, key), other) == lookup(
                entries,
                other,
            ),
{
    lemma_rank(entries, key);
    lemma_lookup(entries, key);
    let p = rank(entries, key);
    let after = without(entries, key);
    let dropped = p < entries.len() && entries[p].0 == key;
    assert forall|i: int, j: int| 0 <= i < j < after.len() implies crate::text::text_less(
        #[trigger] after[i].0,
        #[trigger] after[j].0,
    ) by {
        let oi = if !dropped || i < p { i } else { i + 1 };
        let oj = if !dropped || j < p { j } else { j + 1 };
        assert(after[i] == entries[oi]);
        assert(after[j] == entries[oj]);
    }
    assert forall|other: Seq<char>| other != key implies #[trigger] lookup(after, other) == lookup(
        entries,
        other,
    ) by {
        lemma_lookup(after, other);
        lemma_lookup(entries, other);
        if has_key(entries, other) {
            let i = choose|i: int| 0 <= i < entries.len() && #[trigger] entries[i].0 == other;
            let ai = if !dropped || i < p { i } else { i - 1 };
            assert(after[ai].0 == other);
        }
        if has_key(after, other) {
            let i = choose|i: int| 0 <= i < after.len() && #[trigger] after[i].0 == other;
            let oi = if !dropped || i < p { i } else { i + 1 };
            assert(entries[oi].0 == other);
        }
    }
    lemma_lookup(after, key);
    if has_key(after, key) {
        let i = choose|i: int| 0 <= i < after.len() && #[trigger] after[i].0 == key;
        let oi = if !dropped || i < p { i } else { i + 1 };
        assert(entries[oi].0 == key);
    }
}

/// Storing under a key after all others appends the entry.
pub proof fn lemma_put_last<V>(entries: Seq<(Seq<char>, V)>, key: Seq<char>, value: V)
    requires
        sorted(entries.push((key, value))),
    ensures
        put(entries, key, value) == entries.push((key, value)),
        !has_key(entries, key),
{
    let longer = entries.push((key, value));
    assert forall|i: int, j: int| 0 <= i < j < entries.len() implies crate::text::text_less(
        #[trigger] entries[i].0,
        #[trigger] entries[j].0,
    ) by {
        assert(longer[i] == entries[i]);
        assert(longer[j] == entries[j]);
    }
    assert forall|i: int| 0 <= i < entries.len() implies crate::text::text_less(
        #[trigger] entries[i].0,
        key,
    ) by {
        assert(longer[i] == entries[i]);
        assert(longer[entries.len() as int].0 == key);
    }
    lemma_rank_is(entries, key, entries.len() as int);
    crate::text::lemma_text_less_irreflexive(key);
    assert(entries.insert(entries.len() as int, (key, value)) =~= longer);
}

/// Storing can be undone: by storing the former value again, or by dropping
/// the key where there was none.
pub proof fn lemma_put_undone<V>(entries: Seq<(Seq<char>, V)>, key: Seq<char>, value: V)
    requires
        sorted(entries),
    ensures
        lookup(entries, key) matches Some(former) ==> put(put(entries, key, value), key, former)
            == entries,
        lookup(entries, key) is None ==> without(put(entries, key, value), key) == entries,
{
    let after = put(entries, key, value);
    let p = rank(entries, key);
    lemma_rank(entries, key);
    lemma_put(entries, key, value);
    lemma_lookup(after, key);
    assert(after[p].0 == key);
    assert(rank(after, key) == p);
    match lookup(entries, key) {
        Some(former) => {
            assert(after.update(p, (key, former)) =~= entries);
        },
        None => {
            assert(after.remove(p) =~= entries);
        },
    }
}

/// The entries with every value replaced by its image under `f`.
pub open spec fn map_entries<A, B>(entries: Seq<(Seq<char>, A)>, f: spec_fn(A) -> B) -> Seq<
    (Seq<char>, B),
> {
    entries.map_values(|entry: (Seq<char>, A)| (entry.0, f(entry.1)))
}

pub proof fn lemma_map_entries_rank<A, B>(
    entries: Seq<(Seq<char>, A)>,
    f: spec_fn(A) -> B,
    key: Seq<char>,
)
    ensures
        rank(map_entries(entries, f), key) == rank(entries, key),
    decreases entries.len(),
{
    if entries.len() > 0 {
        assert(map_entries(entries, f).drop_first() =~= map_entries(entries.drop_first(), f));
        lemma_map_entries_rank(entries.drop_first(), f, key);
    }
}

/// Replacing values commutes with every operation on the entries.
pub proof fn lemma_map_entries<A, B>(
    entries: Seq<(Seq<char>, A)>,
    f: spec_fn(A) -> B,
    key: Seq<char>,
)
    requires
        sorted(entries),
    ensures
        sorted(map_entries(entries, f)),
        has_key(map_entries(entries, f), key) == has_key(entries, key),
        lookup(map_entries(entries, f), key) == match lookup(entries, key) {
            Some(v) => Some(f(v)),
            None => None,
        },
        map_entries(without(entries, key), f) == without(map_entries(entries, f), key),
        forall|value: A|
            #[trigger] map_entries(put(entries, key, value), f) == put(
                map_entries(entries, f),
                key,
                f(value),
            ),
{
    let mapped = map_entries(entries, f);
    lemma_map_entries_rank(entries, f, key);
    lemma_rank(entries, key);
    assert forall|i: int, j: int| 0 <= i < j < mapped.len() implies crate::text::text_less(
        #[trigger] mapped[i].0,
        #[trigger] mapped[j].0,
    ) by {
        assert(mapped[i].0 == entries[i].0);
        assert(mapped[j].0 == entries[j].0);
    }
    lemma_lookup(mapped, key);
    lemma_lookup(entries, key);
    assert(map_entries(without(entries, key), f) =~= without(mapped, key));
    assert forall|value: A| #[trigger] map_entries(put(entries, key, value), f) == put(
        mapped,
        key,
        f(value),
    ) by {
        assert(map_entries(put(entries, key, value), f) =~= put(mapped, key, f(value)));
    }
}

/// A text-keyed map.
#[derive(Debug, PartialEq, Eq)]
pub struct TextMap<V> {
    items: Vec<(String, V)>,
}

impl<V> TextMap<V> {
    /// The stored pairs, by ascending key.
    pub closed spec fn entries(&self) -> Seq<(Seq<char>, V)> {
        self.items@.map_values(|item: (String, V)| (item.0@, item.1))
    }

    #[verifier::type_invariant]
    closed spec fn inv(&self) -> bool {
        sorted(self.entries())
    }

    pub fn new() -> (r: Self)
        ensures
            r.entries() == Seq::<(Seq<char>, V)>::empty(),
    {
        let r = TextMap { items: Vec::new() };
        assert(r.entries() =~= Seq::<(Seq<char>, V)>::empty());
        r
    }

    /// Recalls, for a proof, that the keys are in order.
    pub(crate) fn recall_order(&self)
        ensures
            sorted(self.entries()),
    {
        proof {
            use_type_invariant(self);
        }
    }

    pub fn len(&self) -> (r: usize)
        ensures
            r == self.entries().len(),
            sorted(self.entries()),
    {
        proof {
            use_type_invariant(self);
        }
        self.items.len()
    }

    pub fn is_empty(&self) -> (r: bool)
        ensures
            r == (self.entries().len() == 0),
    {
        self.items.len() == 0
    }

    pub fn key_at(&self, i: usize) -> (r: &String)
        requires
            i < self.entries().len(),
        ensures
            r@ == self.entries()[i as int].0,
    {
        &self.items[i].0
    }

    pub fn value_at(&self, i: usize) -> (r: &V)
        requires
            i < self.entries().len(),
        ensures
            *r == self.entries()[i as int].1,
    {
        &self.items[i].1
    }

    fn rank_of(&self, key: &str) -> (r: usize)
        ensures
            sorted(self.entries()),
            r == rank(self.entries(), key@),
            r <= self.entries().len(),
            self.entries().len() == self.items@.len(),
            forall|i: int|
                0 <= i < self.items@.len() ==> (#[trigger] self.items@[i]).0@ == self.entries()[i].0
                    && self.items@[i].1 == self.entries()[i].1,
    {
        proof {
            use_type_invariant(self);
        }
        let mut i: usize = 0;
        while i < self.items.len() && less_text(self.items[i].0.as_str(), key)
            invariant
                i <= self.items@.len(),
                self.entries().len() == self.items@.len(),
                forall|k: int|
                    0 <= k < i ==> crate::text::text_less(#[trigger] self.entries()[k].0, key@),
            decreases self.items@.len() - i,
        {
            i += 1;
        }
        proof {
            lemma_rank_is(self.entries(), key@, i as int);
        }
        i
    }

    pub fn get(&self, key: &str) -> (r: Option<&V>)
        ensures
            match r {
                Some(v) => lookup(self.entries(), key@) == Some(*v),
                None => lookup(self.entries(), key@) is None,
            },
    {
        let p = self.rank_of(key);
        if p < self.items.len() && crate::text::same_text(self.items[p].0.as_str(), key) {
            Some(&self.items[p].1)
        } else {
            None
        }
    }

    pub fn contains_key(&self, key: &str) -> (r: bool)
        ensures
            r == has_key(self.entries(), key@),
            r == lookup(self.entries(), key@) is Some,
    {
        proof {
            use_type_invariant(self);
            lemma_lookup(self.entries(), key@);
        }
        self.get(key).is_some()
    }

    /// Stores `value` under `key` and hands back what was stored there.
    pub fn insert(&mut self, key: String, value: V) -> (r: Option<V>)
        ensures
            final(self).entries() == put(old(self).entries(), key@, value),
            r == lookup(old(self).entries(), key@),
    {
        let p = self.rank_of(key.as_str());
        let ghost before = self.entries();
        let ghost key_view = key@;
        proof {
            lemma_rank(before, key@);
            lemma_put(before, key@, value);
        }
        let present = p < self.items.len() && self.items[p].0 == key;
        let mut items: Vec<(String, V)> = Vec::new();
        std::mem::swap(&mut items, &mut self.items);
        let ghost raw = items@;
        if present {
            let prior = items.remove(p);
            items.insert(p, (key, value));
            proof {
                let mapped = items@.map_values(|item: (String, V)| (item.0@, item.1));
                assert(mapped =~= put(before, key_view, value));
            }
            self.items = items;
            Some(prior.1)
        } else {
            items.insert(p, (key, value));
            proof {
                let mapped = items@.map_values(|item: (String, V)| (item.0@, item.1));
                assert(mapped =~= put(before, key_view, value));
            }
            self.items = items;
            None
        }
    }

    /// Removes the entry under `key` and hands back its value.
    pub fn remove(&mut self, key: &str) -> (r: Option<V>)
        ensures
            final(self).entries() == without(old(self).entries(), key@),
            r == lookup(old(self).entries(), key@),
    {
        let p = self.rank_of(key);
        let ghost before = self.entries();
        proof {
            lemma_rank(before, key@);
            lemma_without(before, key@);
        }
        if p < self.items.len() && crate::text::same_text(self.items[p].0.as_str(), key) {
            let mut items: Vec<(String, V)> = Vec::new();
            std::mem::swap(&mut items, &mut self.items);
            let prior = items.remove(p);
            proof {
                let mapped = items@.map_values(|item: (String, V)| (item.0@, item.1));
                assert(mapped =~= without(before, key@));
            }
            self.items = items;
            Some(prior.1)
        } else {
            None
        }
    }
}

} // verus!
