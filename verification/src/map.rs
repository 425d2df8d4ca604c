//! Maps from texts.

use vstd::prelude::*;

use crate::text::same_text;

verus! {

/// One entry of a map.
#[derive(Debug)]
pub struct Entry<V> {
    pub key: String,
    pub value: V,
}

/// A map from texts. It suits few entries: a look-up walks through them.
#[derive(Debug)]
pub struct TextMap<V> {
    entries: Vec<Entry<V>>,
}

spec fn has_key<V>(entries: Seq<Entry<V>>, key: Seq<char>) -> bool {
    exists|i: int| 0 <= i < entries.len() && #[trigger] entries[i].key@ == key
}

spec fn index_of<V>(entries: Seq<Entry<V>>, key: Seq<char>) -> int {
    choose|i: int| 0 <= i < entries.len() && #[trigger] entries[i].key@ == key
}

spec fn entries_map<V>(entries: Seq<Entry<V>>) -> Map<Seq<char>, V> {
    Map::new(
        |key: Seq<char>| has_key(entries, key),
        |key: Seq<char>| entries[index_of(entries, key)].value,
    )
}

spec fn distinct_keys<V>(entries: Seq<Entry<V>>) -> bool {
    forall|i: int, j: int|
        0 <= i < entries.len() && 0 <= j < entries.len() && #[trigger] entries[i].key@
            == #[trigger] entries[j].key@ ==> i == j
}

impl<V> View for TextMap<V> {
    type V = Map<Seq<char>, V>;

    closed spec fn view(&self) -> Map<Seq<char>, V> {
        entries_map(self.entries@)
    }
}

/// The entry of a key is its value in the map.
proof fn lemma_entry<V>(entries: Seq<Entry<V>>, i: int)
    requires
        distinct_keys(entries),
        0 <= i < entries.len(),
    ensures
        entries_map(entries).contains_key(entries[i].key@),
        entries_map(entries)[entries[i].key@] == entries[i].value,
{
    let key = entries[i].key@;
    assert(has_key(entries, key));
    let j = index_of(entries, key);
    assert(0 <= j < entries.len() && entries[j].key@ == key);
    assert(i == j);
}

impl<V> TextMap<V> {
    #[verifier::type_invariant]
    spec fn valid(self) -> bool {
        distinct_keys(self.entries@)
    }

    /// A map without entries.
    pub fn new() -> (m: TextMap<V>)
        ensures
            m@ == Map::<Seq<char>, V>::empty(),
    {
        let m = TextMap { entries: Vec::new() };
        assert(m@ =~= Map::<Seq<char>, V>::empty());
        m
    }

    pub fn is_empty(&self) -> (b: bool)
        ensures
            b == (self@ == Map::<Seq<char>, V>::empty()),
    {
        proof {
            if self.entries@.len() > 0 {
                assert(has_key(self.entries@, self.entries@[0].key@));
                assert(self@.contains_key(self.entries@[0].key@));
            } else {
                assert(self@ =~= Map::<Seq<char>, V>::empty());
            }
        }
        self.entries.len() == 0
    }

    fn position(&self, key: &str) -> (res: Option<usize>)
        ensures
            match res {
                Some(i) => i < self.entries@.len() && self.entries@[i as int].key@ == key@,
                None => !has_key(self.entries@, key@),
            },
    {
        let mut i: usize = 0;
        while i < self.entries.len()
            invariant
                i <= self.entries@.len(),
                forall|j: int| 0 <= j < i ==> #[trigger] self.entries@[j].key@ != key@,
            decreases self.entries@.len() - i,
        {
            if same_text(self.entries[i].key.as_str(), key) {
                return Some(i);
            }
            i += 1;
        }
        None
    }

    /// The value of a key.
    pub fn get(&self, key: &str) -> (res: Option<&V>)
        ensures
            match res {
                Some(v) => self@.contains_key(key@) && *v == self@[key@],
                None => !self@.contains_key(key@),
            },
    {
        proof {
            use_type_invariant(self);
        }
        match self.position(key) {
            Some(i) => {
                proof {
                    lemma_entry(self.entries@, i as int);
                }
                Some(&self.entries[i].value)
            },
            None => None,
        }
    }

    pub fn contains_key(&self, key: &str) -> (b: bool)
        ensures
            b == self@.contains_key(key@),
    {
        self.get(key).is_some()
    }

    /// Gives a key a value.
    pub fn insert(&mut self, key: &str, value: V)
        ensures
            final(self)@ == old(self)@.insert(key@, value),
    {
        proof {
            use_type_invariant(&*self);
        }
        let ghost before = self.entries@;
        let found: Option<usize> = self.position(key);
        let mut entries: Vec<Entry<V>> = Vec::new();
        std::mem::swap(&mut entries, &mut self.entries);
        let entry = Entry { key: key.to_string(), value };
        match found {
            Some(i) => {
                entries.set(i, entry);
                assert(distinct_keys(entries@)) by {
                    assert forall|a: int, b: int|
                        0 <= a < entries@.len() && 0 <= b < entries@.len()
                            && #[trigger] entries@[a].key@ == #[trigger] entries@[b].key@ implies a
                        == b by {
                        assert(before[a].key@ == before[b].key@);
                    }
                }
            },
            None => {
                entries.push(entry);
                assert(distinct_keys(entries@)) by {
                    assert forall|a: int, b: int|
                        0 <= a < entries@.len() && 0 <= b < entries@.len()
                            && #[trigger] entries@[a].key@ == #[trigger] entries@[b].key@ implies a
                        == b by {
                        if a < before.len() && b < before.len() {
                            assert(before[a].key@ == before[b].key@);
                        } else if a < before.len() {
                            assert(has_key(before, before[a].key@));
                        } else if b < before.len() {
                            assert(has_key(before, before[b].key@));
                        }
                    }
                }
            },
        }
        let ghost after = entries@;
        self.entries = entries;
        proof {
            lemma_inserted(before, after, key@, value, found);
        }
    }

    /// Takes over all entries of another map.
    pub fn extend(&mut self, other: TextMap<V>)
        ensures
            final(self)@ == old(self)@.union_prefer_right(other@),
    {
        proof {
            use_type_invariant(&other);
        }
        let ghost start = self@;
        let ghost all = other.entries@;
        let mut rest: Vec<Entry<V>> = other.entries;
        proof {
            assert(all.take(all.len() as int) =~= all);
            assert(start.union_prefer_right(entries_map(all.skip(all.len() as int))) =~= start);
        }
        while rest.len() > 0
            invariant
                rest@.len() <= all.len(),
                rest@ == all.take(rest@.len() as int),
                distinct_keys(all),
                self@ == start.union_prefer_right(entries_map(all.skip(rest@.len() as int))),
            decreases rest@.len(),
        {
            let ghost n = rest@.len() - 1;
            let entry = match rest.pop() {
                Some(e) => e,
                None => {
                    assert(false);
                    return;
                },
            };
            self.insert(entry.key.as_str(), entry.value);
            proof {
                assert(rest@ =~= all.take(n));
                assert(entry == all[n]);
                lemma_front(all, n);
                assert(self@ =~= start.union_prefer_right(entries_map(all.skip(n))));
            }
        }
        proof {
            assert(all.skip(0) =~= all);
        }
    }
}

proof fn lemma_inserted<V>(
    before: Seq<Entry<V>>,
    after: Seq<Entry<V>>,
    key: Seq<char>,
    value: V,
    found: Option<usize>,
)
    requires
        distinct_keys(before),
        distinct_keys(after),
        match found {
            Some(i) => i < before.len() && before[i as int].key@ == key && after.len()
                == before.len() && after[i as int].key@ == key && after[i as int].value == value
                && (forall|j: int|
                0 <= j < before.len() && j != i ==> #[trigger] after[j] == before[j]),
            None => !has_key(before, key) && after.len() == before.len() + 1 && after.last().key@
                == key && after.last().value == value && (forall|j: int|
                0 <= j < before.len() ==> #[trigger] after[j] == before[j]),
        },
    ensures
        entries_map(after) == entries_map(before).insert(key, value),
{
    let at = match found {
        Some(i) => i as int,
        None => before.len() as int,
    };
    lemma_entry(after, at);
    assert forall|k: Seq<char>| #[trigger]
        entries_map(after).contains_key(k) <==> entries_map(before).insert(key, value).contains_key(
            k,
        ) by {
        if k != key {
            if has_key(after, k) {
                let j = index_of(after, k);
                assert(after[j] == before[j]);
                assert(before[j].key@ == k);
            }
            if has_key(before, k) {
                let j = index_of(before, k);
                assert(after[j] == before[j]);
                assert(after[j].key@ == k);
            }
        }
    }
    assert forall|k: Seq<char>| #[trigger] entries_map(after).contains_key(k) implies entries_map(
        after,
    )[k] == entries_map(before).insert(key, value)[k] by {
        if k != key {
            let j = index_of(after, k);
            assert(after[j].key@ == k);
            assert(after[j] == before[j]);
            lemma_entry(after, j);
            lemma_entry(before, j);
        }
    }
    assert(entries_map(after) =~= entries_map(before).insert(key, value));
}

/// The entries from `n` on are those behind `n` and the one at `n`.
proof fn lemma_front<V>(all: Seq<Entry<V>>, n: int)
    requires
        distinct_keys(all),
        0 <= n < all.len(),
    ensures
        entries_map(all.skip(n)) == entries_map(all.skip(n + 1)).insert(
            all[n].key@,
            all[n].value,
        ),
{
    let a = all.skip(n);
    let b = all.skip(n + 1);
    let key = all[n].key@;
    assert forall|i: int, j: int|
        0 <= i < a.len() && 0 <= j < a.len() && #[trigger] a[i].key@ == #[trigger] a[j].key@ implies i
        == j by {
        assert(all[n + i].key@ == all[n + j].key@);
    }
    assert forall|i: int, j: int|
        0 <= i < b.len() && 0 <= j < b.len() && #[trigger] b[i].key@ == #[trigger] b[j].key@ implies i
        == j by {
        assert(all[n + 1 + i].key@ == all[n + 1 + j].key@);
    }
    assert(a[0] == all[n]);
    lemma_entry(a, 0);
    assert forall|k: Seq<char>| #[trigger]
        entries_map(a).contains_key(k) <==> entries_map(b).insert(key, all[n].value).contains_key(
            k,
        ) by {
        if k != key {
            if has_key(a, k) {
                let j = index_of(a, k);
                assert(a[j] == b[j - 1]);
                assert(b[j - 1].key@ == k);
            }
            if has_key(b, k) {
                let j = index_of(b, k);
                assert(b[j] == a[j + 1]);
                assert(a[j + 1].key@ == k);
            }
        }
    }
    assert forall|k: Seq<char>| #[trigger] entries_map(a).contains_key(k) implies entries_map(a)[k]
        == entries_map(b).insert(key, all[n].value)[k] by {
        if k != key {
            let j = index_of(a, k);
            assert(a[j].key@ == k);
            assert(a[j] == b[j - 1]);
            lemma_entry(a, j);
            lemma_entry(b, j - 1);
        }
    }
    assert(entries_map(a) =~= entries_map(b).insert(key, all[n].value));
}

/// Entries with the same keys and values make the same map.
proof fn lemma_same_entries<V>(a: Seq<Entry<V>>, b: Seq<Entry<V>>)
    requires
        distinct_keys(a),
        a.len() == b.len(),
        forall|i: int|
            0 <= i < a.len() ==> #[trigger] a[i].key@ == b[i].key@ && a[i].value == b[i].value,
    ensures
        distinct_keys(b),
        entries_map(a) == entries_map(b),
{
    assert forall|i: int, j: int|
        0 <= i < b.len() && 0 <= j < b.len() && #[trigger] b[i].key@ == #[trigger] b[j].key@ implies i
        == j by {
        assert(a[i].key@ == a[j].key@);
    }
    assert forall|k: Seq<char>| #[trigger]
        entries_map(a).contains_key(k) <==> entries_map(b).contains_key(k) by {
        if has_key(a, k) {
            let j = index_of(a, k);
            assert(a[j].key@ == b[j].key@);
        }
        if has_key(b, k) {
            let j = index_of(b, k);
            assert(b[j].key@ == k);
            assert(a[j].key@ == b[j].key@);
        }
    }
    assert forall|k: Seq<char>| #[trigger] entries_map(a).contains_key(k) implies entries_map(a)[k]
        == entries_map(b)[k] by {
        let j = index_of(a, k);
        assert(a[j].key@ == b[j].key@);
        lemma_entry(a, j);
        lemma_entry(b, j);
    }
    assert(entries_map(a) =~= entries_map(b));
}

impl TextMap<bool> {
    /// A map with the same entries.
    pub fn copy(&self) -> (m: TextMap<bool>)
        ensures
            m@ == self@,
    {
        proof {
            use_type_invariant(self);
        }
        let mut entries: Vec<Entry<bool>> = Vec::new();
        let mut i: usize = 0;
        while i < self.entries.len()
            invariant
                i <= self.entries@.len(),
                entries@.len() == i,
                forall|j: int|
                    0 <= j < i ==> #[trigger] self.entries@[j].key@ == entries@[j].key@
                        && self.entries@[j].value == entries@[j].value,
            decreases self.entries@.len() - i,
        {
            let e = &self.entries[i];
            let key: String = e.key.clone();
            assert(key@ == self.entries@[i as int].key@);
            entries.push(Entry { key, value: e.value });
            assert(entries@[i as int].key@ == self.entries@[i as int].key@);
            assert(entries@[i as int].value == self.entries@[i as int].value);
            i += 1;
        }
        proof {
            lemma_same_entries(self.entries@, entries@);
        }
        TextMap { entries }
    }
}

} // verus!
