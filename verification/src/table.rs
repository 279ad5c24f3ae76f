//! A table of values under text keys.

use vstd::prelude::*;

use crate::text;

verus! {

/// Values under text keys, no key twice.
#[derive(Debug)]
pub struct StringTable<V> {
    entries: Vec<(String, V)>,
}

/// The entry at position `i` is under `key`.
spec fn under<V>(entries: Seq<(String, V)>, key: Seq<char>, i: int) -> bool {
    0 <= i < entries.len() && entries[i].0@ == key
}

/// No key stands twice.
spec fn distinct<V>(entries: Seq<(String, V)>) -> bool {
    forall|i: int, j: int|
        0 <= i < j < entries.len() ==> (#[trigger] entries[i]).0@ != (#[trigger] entries[j]).0@
}

/// The entries as a map.
spec fn entries_map<V>(entries: Seq<(String, V)>) -> Map<Seq<char>, V> {
    Map::new(
        |key: Seq<char>| exists|i: int| under(entries, key, i),
        |key: Seq<char>| entries[choose|i: int| under(entries, key, i)].1,
    )
}

impl<V> View for StringTable<V> {
    type V = Map<Seq<char>, V>;

    closed spec fn view(&self) -> Map<Seq<char>, V> {
        entries_map(self.entries@)
    }
}

/// What stands under a key is found there.
proof fn lemma_entry<V>(entries: Seq<(String, V)>, i: int)
    requires
        distinct(entries),
        0 <= i < entries.len(),
    ensures
        entries_map(entries).contains_key(entries[i].0@),
        entries_map(entries)[entries[i].0@] == entries[i].1,
{
    let key = entries[i].0@;
    assert(under(entries, key, i));
    let k = choose|k: int| under(entries, key, k);
    assert(under(entries, key, k));
    if k < i {
        assert(entries[k].0@ != entries[i].0@);
    } else if i < k {
        assert(entries[i].0@ != entries[k].0@);
    }
}

impl<V> StringTable<V> {
    /// No key stands twice.
    pub closed spec fn wf(&self) -> bool {
        distinct(self.entries@)
    }

    /// An empty table.
    pub fn new() -> (r: StringTable<V>)
        ensures
            r.wf(),
            r@ == Map::<Seq<char>, V>::empty(),
    {
        let r = StringTable { entries: Vec::new() };
        assert(r@ =~= Map::<Seq<char>, V>::empty()) by {
            assert forall|key: Seq<char>| !r@.contains_key(key) by {
                if r@.contains_key(key) {
                    let i = choose|i: int| under(r.entries@, key, i);
                    assert(under(r.entries@, key, i));
                }
            }
        }
        r
    }

    /// The position of the entry under `key`.
    fn position(&self, key: &str) -> (r: Option<usize>)
        requires
            self.wf(),
        ensures
            match r {
                Some(i) => {
                    &&& i < self.entries.len()
                    &&& self.entries[i as int].0@ == key@
                    &&& self@.contains_key(key@)
                    &&& self@[key@] == self.entries[i as int].1
                },
                None => {
                    &&& !self@.contains_key(key@)
                    &&& forall|j: int|
                        0 <= j < self.entries.len() ==> (#[trigger] self.entries[j]).0@ != key@
                },
            },
    {
        let mut i: usize = 0;
        while i < self.entries.len()
            invariant
                self.wf(),
                i <= self.entries.len(),
                forall|j: int| 0 <= j < i ==> (#[trigger] self.entries[j]).0@ != key@,
            decreases self.entries.len() - i,
        {
            if text::same(self.entries[i].0.as_str(), key) {
                proof {
                    lemma_entry(self.entries@, i as int);
                }
                return Some(i);
            }
            i += 1;
        }
        proof {
            if self@.contains_key(key@) {
                let j = choose|j: int| under(self.entries@, key@, j);
                assert(under(self.entries@, key@, j));
            }
        }
        None
    }

    /// Whether something stands under `key`.
    pub fn contains(&self, key: &str) -> (r: bool)
        requires
            self.wf(),
        ensures
            r == self@.contains_key(key@),
    {
        self.position(key).is_some()
    }

    /// What stands under `key`.
    pub fn get(&self, key: &str) -> (r: Option<&V>)
        requires
            self.wf(),
        ensures
            match r {
                Some(value) => self@.contains_key(key@) && self@[key@] == *value,
                None => !self@.contains_key(key@),
            },
    {
        match self.position(key) {
            Some(i) => Some(&self.entries[i].1),
            None => None,
        }
    }

    /// Puts `value` under `key`, in the place of what stood there.
    pub fn insert(&mut self, key: String, value: V)
        requires
            old(self).wf(),
        ensures
            final(self).wf(),
            final(self)@ == old(self)@.insert(key@, value),
    {
        let found = self.position(key.as_str());
        let ghost before = self.entries@;
        let ghost name = key@;
        match found {
            Some(i) => {
                self.entries.set(i, (key, value));
                proof {
                    let now = self.entries@;
                    assert forall|a: int, b: int| 0 <= a < b < now.len() implies (
                    #[trigger] now[a]).0@ != (#[trigger] now[b]).0@ by {
                        assert(before[a].0@ != before[b].0@);
                    }
                    lemma_replaced(before, now, i as int, name, value);
                }
            },
            None => {
                self.entries.push((key, value));
                proof {
                    let now = self.entries@;
                    assert forall|a: int, b: int| 0 <= a < b < now.len() implies (
                    #[trigger] now[a]).0@ != (#[trigger] now[b]).0@ by {
                        if b < before.len() {
                            assert(before[a].0@ != before[b].0@);
                        } else {
                            assert(before[a].0@ != name);
                        }
                    }
                    lemma_added(before, now, name, value);
                }
            },
        }
    }

    /// Takes out what stands under `key`.
    pub fn remove(&mut self, key: &str) -> (r: Option<V>)
        requires
            old(self).wf(),
        ensures
            final(self).wf(),
            final(self)@ == old(self)@.remove(key@),
            match r {
                Some(value) => old(self)@.contains_key(key@) && old(self)@[key@] == value,
                None => !old(self)@.contains_key(key@),
            },
    {
        let found = self.position(key);
        let ghost before = self.entries@;
        match found {
            Some(i) => {
                let (_, value) = self.entries.remove(i);
                proof {
                    let now = self.entries@;
                    assert forall|a: int, b: int| 0 <= a < b < now.len() implies (
                    #[trigger] now[a]).0@ != (#[trigger] now[b]).0@ by {
                        let x = if a < i {
                            a
                        } else {
                            a + 1
                        };
                        let y = if b < i {
                            b
                        } else {
                            b + 1
                        };
                        assert(now[a] == before[x] && now[b] == before[y]);
                        assert(before[x].0@ != before[y].0@);
                    }
                    lemma_taken_out(before, now, i as int, key@);
                }
                Some(value)
            },
            None => {
                assert(self@.remove(key@) =~= self@);
                None
            },
        }
    }
}

proof fn lemma_replaced<V>(
    before: Seq<(String, V)>,
    now: Seq<(String, V)>,
    i: int,
    key: Seq<char>,
    value: V,
)
    requires
        distinct(before),
        distinct(now),
        0 <= i < before.len(),
        before[i].0@ == key,
        now.len() == before.len(),
        now[i].0@ == key,
        now[i].1 == value,
        forall|j: int| 0 <= j < now.len() && j != i ==> now[j] == before[j],
    ensures
        entries_map(now) == entries_map(before).insert(key, value),
{
    let a = entries_map(now);
    let b = entries_map(before).insert(key, value);
    assert forall|k: Seq<char>| a.contains_key(k) == b.contains_key(k) by {
        if a.contains_key(k) {
            let j = choose|j: int| under(now, k, j);
            assert(under(now, k, j));
            assert(under(before, k, j));
        }
        if b.contains_key(k) {
            if k == key {
                assert(under(now, k, i));
            } else {
                let j = choose|j: int| under(before, k, j);
                assert(under(before, k, j));
                assert(under(now, k, j));
            }
        }
    }
    assert forall|k: Seq<char>| a.contains_key(k) implies a[k] == b[k] by {
        let j = choose|j: int| under(now, k, j);
        assert(under(now, k, j));
        lemma_entry(now, j);
        if j != i {
            assert(now[i].0@ != now[j].0@) by {
                if i < j {
                    assert(now[i].0@ != now[j].0@);
                } else {
                    assert(now[j].0@ != now[i].0@);
                }
            }
            lemma_entry(before, j);
        }
    }
    assert(a =~= b);
}

proof fn lemma_added<V>(
    before: Seq<(String, V)>,
    now: Seq<(String, V)>,
    key: Seq<char>,
    value: V,
)
    requires
        distinct(before),
        distinct(now),
        now.len() == before.len() + 1,
        now.last().0@ == key,
        now.last().1 == value,
        forall|j: int| 0 <= j < before.len() ==> now[j] == before[j],
    ensures
        entries_map(now) == entries_map(before).insert(key, value),
{
    let a = entries_map(now);
    let b = entries_map(before).insert(key, value);
    let last = before.len() as int;
    assert forall|k: Seq<char>| a.contains_key(k) == b.contains_key(k) by {
        if a.contains_key(k) {
            let j = choose|j: int| under(now, k, j);
            assert(under(now, k, j));
            if j < last {
                assert(under(before, k, j));
            }
        }
        if b.contains_key(k) {
            if k == key {
                assert(under(now, k, last));
            } else {
                let j = choose|j: int| under(before, k, j);
                assert(under(before, k, j));
                assert(under(now, k, j));
            }
        }
    }
    assert forall|k: Seq<char>| a.contains_key(k) implies a[k] == b[k] by {
        let j = choose|j: int| under(now, k, j);
        assert(under(now, k, j));
        lemma_entry(now, j);
        if j < last {
            assert(now[j].0@ != now[last].0@);
            lemma_entry(before, j);
        }
    }
    assert(a =~= b);
}

proof fn lemma_taken_out<V>(
    before: Seq<(String, V)>,
    now: Seq<(String, V)>,
    i: int,
    key: Seq<char>,
)
    requires
        distinct(before),
        distinct(now),
        0 <= i < before.len(),
        before[i].0@ == key,
        now == before.remove(i),
    ensures
        entries_map(now) == entries_map(before).remove(key),
{
    let a = entries_map(now);
    let b = entries_map(before).remove(key);
    assert forall|k: Seq<char>| a.contains_key(k) == b.contains_key(k) by {
        if a.contains_key(k) {
            let j = choose|j: int| under(now, k, j);
            assert(under(now, k, j));
            let x = if j < i {
                j
            } else {
                j + 1
            };
            assert(under(before, k, x));
            if x < i {
                assert(before[x].0@ != before[i].0@);
            } else {
                assert(before[i].0@ != before[x].0@);
            }
        }
        if b.contains_key(k) {
            let j = choose|j: int| under(before, k, j);
            assert(under(before, k, j));
            let x = if j < i {
                j
            } else {
                j - 1
            };
            assert(under(now, k, x));
        }
    }
    assert forall|k: Seq<char>| a.contains_key(k) implies a[k] == b[k] by {
        let j = choose|j: int| under(now, k, j);
        assert(under(now, k, j));
        lemma_entry(now, j);
        let x = if j < i {
            j
        } else {
            j + 1
        };
        assert(now[j] == before[x]);
        lemma_entry(before, x);
    }
    assert(a =~= b);
}

} // verus!
