//! A table from texts to numbers, kept as a list of entries in which no
//! key stands twice.

use vstd::prelude::*;

verus! {

/// The key of an entry, as text.
pub open spec fn key_of(entry: (String, i32)) -> Seq<char> {
    entry.0@
}

/// The map that a list of entries stands for. Of two entries under one key
/// the later one counts.
pub open spec fn map_of(entries: Seq<(String, i32)>) -> Map<Seq<char>, i32>
    decreases entries.len(),
{
    if entries.len() == 0 {
        Map::empty()
    } else {
        map_of(entries.drop_last()).insert(key_of(entries.last()), entries.last().1)
    }
}

/// Whether no key stands twice in a list of entries.
pub open spec fn distinct_keys(entries: Seq<(String, i32)>) -> bool {
    forall|i: int, j: int|
        0 <= i < j < entries.len() ==> key_of(#[trigger] entries[i]) != key_of(
            #[trigger] entries[j],
        )
}

/// The keys of `map_of` are the keys of the entries, and the map is finite.
pub proof fn lemma_map_of_keys(entries: Seq<(String, i32)>)
    ensures
        map_of(entries).dom().finite(),
        forall|k: Seq<char>|
            map_of(entries).contains_key(k) <==> exists|i: int|
                0 <= i < entries.len() && key_of(#[trigger] entries[i]) == k,
    decreases entries.len(),
{
    if entries.len() > 0 {
        let front = entries.drop_last();
        lemma_map_of_keys(front);
        assert forall|k: Seq<char>|
            map_of(entries).contains_key(k) <==> exists|i: int|
                0 <= i < entries.len() && key_of(#[trigger] entries[i]) == k by {
            if map_of(entries).contains_key(k) {
                if k == key_of(entries.last()) {
                    assert(key_of(entries[entries.len() - 1]) == k);
                } else {
                    let i = choose|i: int| 0 <= i < front.len() && key_of(#[trigger] front[i]) == k;
                    assert(key_of(entries[i]) == k);
                }
            }
            if exists|i: int| 0 <= i < entries.len() && key_of(#[trigger] entries[i]) == k {
                let i = choose|i: int| 0 <= i < entries.len() && key_of(#[trigger] entries[i]) == k;
                if i < entries.len() - 1 {
                    assert(key_of(front[i]) == k);
                }
            }
        }
    }
}

/// Where no key stands twice, each entry's key leads to that entry's value.
pub proof fn lemma_map_of_value(entries: Seq<(String, i32)>, i: int)
    requires
        distinct_keys(entries),
        0 <= i < entries.len(),
    ensures
        map_of(entries).contains_key(key_of(entries[i])),
        map_of(entries)[key_of(entries[i])] == entries[i].1,
    decreases entries.len(),
{
    let front = entries.drop_last();
    if i < entries.len() - 1 {
        assert(front[i] == entries[i]);
        assert(key_of(entries[i]) != key_of(entries[entries.len() - 1]));
        lemma_map_of_value(front, i);
    }
}

/// Where no key stands twice, the map has as many keys as there are entries.
pub proof fn lemma_map_of_len(entries: Seq<(String, i32)>)
    requires
        distinct_keys(entries),
    ensures
        map_of(entries).dom().finite(),
        map_of(entries).dom().len() == entries.len(),
    decreases entries.len(),
{
    lemma_map_of_keys(entries);
    if entries.len() > 0 {
        let front = entries.drop_last();
        assert forall|i: int, j: int| 0 <= i < j < front.len() implies key_of(#[trigger] front[i])
            != key_of(#[trigger] front[j]) by {
            assert(front[i] == entries[i] && front[j] == entries[j]);
        }
        lemma_map_of_len(front);
        lemma_map_of_keys(front);
        if map_of(front).contains_key(key_of(entries.last())) {
            let i = choose|i: int|
                0 <= i < front.len() && key_of(#[trigger] front[i]) == key_of(entries.last());
            assert(front[i] == entries[i]);
            assert(key_of(entries[i]) != key_of(entries[entries.len() - 1]));
        }
    }
}

/// Putting a new value in the place of an entry, under the same key, is an
/// insertion into the map.
proof fn lemma_map_of_update(entries: Seq<(String, i32)>, i: int, entry: (String, i32))
    requires
        distinct_keys(entries),
        0 <= i < entries.len(),
        key_of(entry) == key_of(entries[i]),
    ensures
        distinct_keys(entries.update(i, entry)),
        map_of(entries.update(i, entry)) =~= map_of(entries).insert(key_of(entry), entry.1),
    decreases entries.len(),
{
    let after = entries.update(i, entry);
    assert forall|a: int, b: int| 0 <= a < b < after.len() implies key_of(#[trigger] after[a])
        != key_of(#[trigger] after[b]) by {
        assert(key_of(after[a]) == key_of(entries[a]));
        assert(key_of(after[b]) == key_of(entries[b]));
    }
    let front = entries.drop_last();
    if i == entries.len() - 1 {
        assert(after.drop_last() =~= front);
    } else {
        assert forall|a: int, b: int| 0 <= a < b < front.len() implies key_of(#[trigger] front[a])
            != key_of(#[trigger] front[b]) by {
            assert(front[a] == entries[a] && front[b] == entries[b]);
        }
        assert(front[i] == entries[i]);
        lemma_map_of_update(front, i, entry);
        assert(after.drop_last() =~= front.update(i, entry));
        assert(after.last() == entries.last());
        assert(key_of(entries[i]) != key_of(entries[entries.len() - 1]));
    }
}

/// A table from texts to numbers.
pub struct Table {
    entries: Vec<(String, i32)>,
}

impl View for Table {
    type V = Map<Seq<char>, i32>;

    closed spec fn view(&self) -> Map<Seq<char>, i32> {
        map_of(self.entries@)
    }
}

impl Table {
    #[verifier::type_invariant]
    spec fn no_key_twice(&self) -> bool {
        distinct_keys(self.entries@)
    }

    /// An empty table.
    pub fn new() -> (table: Table)
        ensures
            table@ == Map::<Seq<char>, i32>::empty(),
    {
        Table { entries: Vec::new() }
    }

    /// Where the key stands among the entries, if it does.
    fn position(&self, key: &String) -> (at: Option<usize>)
        ensures
            match at {
                Some(i) => i < self.entries@.len() && key_of(self.entries@[i as int]) == key@
                    && self@.contains_key(key@) && self@[key@] == self.entries@[i as int].1,
                None => !self@.contains_key(key@),
            },
    {
        proof {
            use_type_invariant(self);
            lemma_map_of_keys(self.entries@);
        }
        let mut i: usize = 0;
        while i < self.entries.len()
            invariant
                0 <= i <= self.entries@.len(),
                forall|j: int| 0 <= j < i ==> key_of(#[trigger] self.entries@[j]) != key@,
            decreases self.entries@.len() - i,
        {
            if self.entries[i].0 == *key {
                proof {
                    use_type_invariant(self);
                    lemma_map_of_value(self.entries@, i as int);
                }
                return Some(i);
            }
            i += 1;
        }
        None
    }

    /// The number of keys.
    pub fn len(&self) -> (n: usize)
        ensures
            self@.dom().finite(),
            n == self@.dom().len(),
    {
        proof {
            use_type_invariant(self);
            lemma_map_of_len(self.entries@);
        }
        self.entries.len()
    }

    /// The value under a key, if the key is there.
    pub fn get(&self, key: &String) -> (value: Option<i32>)
        ensures
            value == (if self@.contains_key(key@) {
                Some(self@[key@])
            } else {
                None
            }),
    {
        match self.position(key) {
            Some(i) => Some(self.entries[i].1),
            None => None,
        }
    }

    /// Puts a value under a key, in the place of the one that was there, and
    /// returns the one that was there.
    pub fn insert(&mut self, key: String, value: i32) -> (before: Option<i32>)
        ensures
            final(self)@ == old(self)@.insert(key@, value),
            before == (if old(self)@.contains_key(key@) {
                Some(old(self)@[key@])
            } else {
                None
            }),
    {
        let at = self.position(&key);
        proof {
            use_type_invariant(&*self);
            lemma_map_of_keys(self.entries@);
        }
        let mut entries: Vec<(String, i32)> = Vec::new();
        std::mem::swap(&mut entries, &mut self.entries);
        let before = match at {
            Some(i) => {
                let before = entries[i].1;
                proof {
                    lemma_map_of_update(entries@, i as int, (key, value));
                }
                entries.set(i, (key, value));
                Some(before)
            },
            None => {
                proof {
                    assert(entries@.push((key, value)).drop_last() =~= entries@);
                }
                entries.push((key, value));
                None
            },
        };
        self.entries = entries;
        before
    }

    /// Puts a value under a key unless the key is there already, and returns
    /// the value that stands under the key afterwards.
    pub fn or_insert(&mut self, key: String, value: i32) -> (now: i32)
        ensures
            final(self)@ == (if old(self)@.contains_key(key@) {
                old(self)@
            } else {
                old(self)@.insert(key@, value)
            }),
            now == final(self)@[key@],
    {
        match self.position(&key) {
            Some(i) => self.entries[i].1,
            None => {
                proof {
                    use_type_invariant(&*self);
                    lemma_map_of_keys(self.entries@);
                    assert(self.entries@.push((key, value)).drop_last() =~= self.entries@);
                }
                let mut entries: Vec<(String, i32)> = Vec::new();
                std::mem::swap(&mut entries, &mut self.entries);
                entries.push((key, value));
                self.entries = entries;
                value
            },
        }
    }

    /// Counts a key once more: puts 1 under a key that is not there, and
    /// raises the value under a key that is there by one.
    pub fn add_one(&mut self, key: String)
        requires
            old(self)@.contains_key(key@) ==> old(self)@[key@] < i32::MAX,
        ensures
            final(self)@ == old(self)@.insert(
                key@,
                if old(self)@.contains_key(key@) {
                    (old(self)@[key@] + 1) as i32
                } else {
                    1i32
                },
            ),
    {
        let count = match self.position(&key) {
            Some(i) => self.entries[i].1,
            None => 0,
        };
        self.insert(key, count + 1);
    }

    /// A second table with the same keys and values.
    pub fn snapshot(&self) -> (copy: Table)
        ensures
            copy@ == self@,
    {
        proof {
            use_type_invariant(self);
        }
        let mut entries: Vec<(String, i32)> = Vec::new();
        let mut i: usize = 0;
        while i < self.entries.len()
            invariant
                0 <= i <= self.entries@.len(),
                entries@ == self.entries@.take(i as int),
            decreases self.entries@.len() - i,
        {
            let key = self.entries[i].0.clone();
            entries.push((key, self.entries[i].1));
            proof {
                assert(entries@ =~= self.entries@.take(i + 1));
            }
            i += 1;
        }
        proof {
            assert(entries@ =~= self.entries@);
        }
        Table { entries: entries }
    }

    /// The entries of the table: each key once, with its value.
    pub fn into_entries(self) -> (entries: Vec<(String, i32)>)
        ensures
            distinct_keys(entries@),
            map_of(entries@) == self@,
    {
        proof {
            use_type_invariant(&self);
        }
        self.entries
    }
}

} // verus!
