//! Values that are looked up by text.

use vstd::prelude::*;

verus! {

/// A key and what is stored under it.
#[derive(Debug, PartialEq)]
pub struct Entry<V> {
    pub key: String,
    pub value: V,
}

/// A table from text to values. Every key occurs once.
#[derive(Debug, PartialEq)]
pub struct Table<V> {
    pub entries: Vec<Entry<V>>,
}

/// Whether an entry has the key.
pub open spec fn keyed<V>(entries: Seq<Entry<V>>, key: Seq<char>, i: int) -> bool {
    0 <= i < entries.len() && entries[i].key@ == key
}

/// The table that a list of entries stands for.
pub open spec fn dict<V: View>(entries: Seq<Entry<V>>) -> Map<Seq<char>, V::V> {
    Map::new(
        |key: Seq<char>| exists|i: int| keyed(entries, key, i),
        |key: Seq<char>| entries[choose|i: int| keyed(entries, key, i)].value@,
    )
}

impl<V: View> View for Table<V> {
    type V = Map<Seq<char>, V::V>;

    open spec fn view(&self) -> Map<Seq<char>, V::V> {
        dict(self.entries@)
    }
}

/// What a table holds under a key.
pub open spec fn lookup<T>(table: Map<Seq<char>, T>, key: Seq<char>) -> Option<T> {
    if table.dom().contains(key) {
        Some(table[key])
    } else {
        None
    }
}

impl<V: View> Table<V> {
    /// Whether every key occurs once.
    pub open spec fn wf(self) -> bool {
        forall|i: int, j: int|
            #![trigger self.entries@[i], self.entries@[j]]
            0 <= i < j < self.entries@.len() ==> self.entries@[i].key@ != self.entries@[j].key@
    }

    /// A table without entries.
    pub fn new() -> (table: Self)
        ensures
            table.wf(),
            table@ == Map::<Seq<char>, V::V>::empty(),
    {
        let table = Table { entries: Vec::new() };
        assert forall|key: Seq<char>, i: int| !keyed(table.entries@, key, i) by {}
        assert(table@ =~= Map::<Seq<char>, V::V>::empty());
        table
    }

    proof fn lemma_entry(self, i: int)
        requires
            self.wf(),
            0 <= i < self.entries@.len(),
        ensures
            self@.dom().contains(self.entries@[i].key@),
            self@[self.entries@[i].key@] == self.entries@[i].value@,
    {
        let key = self.entries@[i].key@;
        assert(keyed(self.entries@, key, i));
        let j = choose|j: int| keyed(self.entries@, key, j);
        assert(keyed(self.entries@, key, j));
        assert(self.entries@[i].key@ == self.entries@[j].key@);
    }

    /// Where a key stands in the list of entries.
    fn find(&self, key: &String) -> (place: Option<usize>)
        requires
            self.wf(),
        ensures
            match place {
                Some(i) => keyed(self.entries@, key@, i as int) && self@.dom().contains(key@)
                    && self@[key@] == self.entries@[i as int].value@,
                None => !self@.dom().contains(key@) && forall|j: int|
                    !keyed(self.entries@, key@, j),
            },
    {
        let mut i: usize = 0;
        while i < self.entries.len()
            invariant
                i <= self.entries.len(),
                self.wf(),
                forall|j: int| 0 <= j < i ==> !keyed(self.entries@, key@, j),
            decreases self.entries.len() - i,
        {
            if self.entries[i].key == *key {
                proof {
                    self.lemma_entry(i as int);
                }
                return Some(i);
            }
            i = i + 1;
        }
        None
    }

    /// Whether every key occurs once.
    pub fn has_distinct_keys(&self) -> (yes: bool)
        ensures
            yes == self.wf(),
    {
        let mut j: usize = 0;
        while j < self.entries.len()
            invariant
                j <= self.entries.len(),
                forall|a: int, b: int|
                    #![trigger self.entries@[a], self.entries@[b]]
                    0 <= a < b < j ==> self.entries@[a].key@ != self.entries@[b].key@,
            decreases self.entries.len() - j,
        {
            let mut i: usize = 0;
            while i < j
                invariant
                    i <= j < self.entries.len(),
                    forall|a: int|
                        0 <= a < i ==> (#[trigger] self.entries@[a]).key@
                            != self.entries@[j as int].key@,
                decreases j - i,
            {
                if self.entries[i].key == self.entries[j].key {
                    assert(self.entries@[i as int].key@ == self.entries@[j as int].key@);
                    return false;
                }
                i = i + 1;
            }
            j = j + 1;
        }
        true
    }

    /// What is stored under a key.
    pub fn get(&self, key: &String) -> (value: Option<&V>)
        requires
            self.wf(),
        ensures
            match value {
                Some(v) => lookup(self@, key@) == Some(v@),
                None => lookup(self@, key@) is None,
            },
    {
        match self.find(key) {
            Some(i) => Some(&self.entries[i].value),
            None => None,
        }
    }

    /// Stores a value under a key, in place of what was there.
    pub fn set(&mut self, key: &String, value: V)
        requires
            old(self).wf(),
        ensures
            final(self).wf(),
            final(self)@ == old(self)@.insert(key@, value@),
    {
        let ghost before = *self;
        match self.find(key) {
            Some(i) => {
                let ghost entries = self.entries@;
                self.entries.set(i, Entry { key: key.clone(), value });
                proof {
                    assert(self.entries@ == entries.update(i as int, self.entries@[i as int]));
                    assert forall|a: int, b: int|
                        #![trigger self.entries@[a], self.entries@[b]]
                        0 <= a < b < self.entries@.len() implies self.entries@[a].key@
                        != self.entries@[b].key@ by {
                        assert(entries[a].key@ != entries[b].key@);
                    }
                    assert(self.wf());
                    lemma_replaced(before, *self, key@, value@, i as int);
                }
            },
            None => {
                let ghost entries = self.entries@;
                self.entries.push(Entry { key: key.clone(), value });
                proof {
                    let last = entries.len() as int;
                    assert forall|a: int, b: int|
                        #![trigger self.entries@[a], self.entries@[b]]
                        0 <= a < b < self.entries@.len() implies self.entries@[a].key@
                        != self.entries@[b].key@ by {
                        assert(!keyed(entries, key@, a));
                        if b < last {
                            assert(entries[a].key@ != entries[b].key@);
                        }
                    }
                    assert(self.wf());
                    lemma_replaced(before, *self, key@, value@, last);
                }
            },
        }
    }
}

proof fn lemma_replaced<V: View>(
    before: Table<V>,
    after: Table<V>,
    key: Seq<char>,
    value: V::V,
    place: int,
)
    requires
        before.wf(),
        after.wf(),
        keyed(after.entries@, key, place),
        after.entries@[place].value@ == value,
        after.entries@.len() >= before.entries@.len(),
        forall|i: int|
            0 <= i < before.entries@.len() && i != place ==> #[trigger] after.entries@[i]
                == before.entries@[i],
        forall|i: int|
            before.entries@.len() <= i < after.entries@.len() ==> #[trigger] after.entries@[i].key@
                == key,
        place < before.entries@.len() ==> before.entries@[place].key@ == key,
    ensures
        after@ == before@.insert(key, value),
{
    after.lemma_entry(place);
    let target = before@.insert(key, value);
    assert forall|k: Seq<char>| after@.dom().contains(k) <==> target.dom().contains(k) by {
        if after@.dom().contains(k) && k != key {
            let i = choose|i: int| keyed(after.entries@, k, i);
            assert(after.entries@[i].key@ == k);
            assert(keyed(before.entries@, k, i));
        }
        if before@.dom().contains(k) && k != key {
            let i = choose|i: int| keyed(before.entries@, k, i);
            assert(after.entries@[i] == before.entries@[i]);
            assert(keyed(after.entries@, k, i));
        }
    }
    assert forall|k: Seq<char>| after@.dom().contains(k) implies after@[k] == target[k] by {
        if k != key {
            assert(target.dom().contains(k));
            assert(before@.dom().contains(k));
            let i = choose|i: int| keyed(before.entries@, k, i);
            assert(keyed(before.entries@, k, i));
            assert(after.entries@[i] == before.entries@[i]);
            before.lemma_entry(i);
            after.lemma_entry(i);
        }
    }
    assert(after@ =~= target);
}

} // verus!
