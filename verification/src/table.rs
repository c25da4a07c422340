//! A map from strings to values that keeps its entries in a vector.

use vstd::prelude::*;
use crate::text::str_eq;

verus! {

/// A map from strings. No key occurs twice.
#[derive(Debug)]
pub struct Table<V> {
    pub entries: Vec<(String, V)>,
}

/// Where a key stands among some entries, or how many there are.
pub open spec fn key_at<V>(entries: Seq<(String, V)>, key: Seq<char>) -> nat
    decreases entries.len(),
{
    if entries.len() == 0 || entries[0].0@ == key {
        0
    } else {
        1 + key_at(entries.skip(1), key)
    }
}

/// The map that some entries make up.
pub open spec fn map_of<V>(entries: Seq<(String, V)>) -> Map<Seq<char>, V> {
    Map::new(
        |k: Seq<char>| key_at(entries, k) < entries.len(),
        |k: Seq<char>| entries[key_at(entries, k) as int].1,
    )
}

/// Whether no key occurs twice.
pub open spec fn distinct<V>(entries: Seq<(String, V)>) -> bool {
    forall|i: int, j: int|
        0 <= i < j < entries.len() ==> (#[trigger] entries[i]).0@ != (#[trigger] entries[j]).0@
}

pub proof fn lemma_key_at<V>(entries: Seq<(String, V)>, key: Seq<char>)
    ensures
        key_at(entries, key) <= entries.len(),
        forall|i: int| 0 <= i < key_at(entries, key) ==> (#[trigger] entries[i]).0@ != key,
        key_at(entries, key) < entries.len() ==> entries[key_at(entries, key) as int].0@ == key,
    decreases entries.len(),
{
    if entries.len() > 0 && entries[0].0@ != key {
        let rest = entries.skip(1);
        lemma_key_at(rest, key);
        assert forall|i: int| 0 <= i < key_at(entries, key) implies (#[trigger] entries[i]).0@ != key by {
            if i > 0 {
                assert(entries[i] == rest[i - 1]);
            }
        }
        if key_at(rest, key) < rest.len() {
            assert(entries[key_at(entries, key) as int] == rest[key_at(rest, key) as int]);
        }
    }
}

/// In a table, an entry is what its key maps to.
pub proof fn lemma_entry<V>(entries: Seq<(String, V)>, i: int)
    requires
        distinct(entries),
        0 <= i < entries.len(),
    ensures
        key_at(entries, entries[i].0@) == i,
        map_of(entries).dom().contains(entries[i].0@),
        map_of(entries)[entries[i].0@] == entries[i].1,
{
    let key = entries[i].0@;
    lemma_key_at(entries, key);
    let k = key_at(entries, key) as int;
    if k < i {
        assert(entries[k].0@ != entries[i].0@);
    } else if k > i {
        assert(entries[i].0@ != key);
    }
}

/// A key that no entry has is not in the map.
pub proof fn lemma_absent<V>(entries: Seq<(String, V)>, key: Seq<char>)
    requires
        forall|i: int| 0 <= i < entries.len() ==> (#[trigger] entries[i]).0@ != key,
    ensures
        !map_of(entries).dom().contains(key),
{
    lemma_key_at(entries, key);
}

impl<V> View for Table<V> {
    type V = Map<Seq<char>, V>;

    open spec fn view(&self) -> Map<Seq<char>, V> {
        map_of(self.entries@)
    }
}

impl<V> Table<V> {
    /// No key occurs twice.
    pub open spec fn wf(&self) -> bool {
        distinct(self.entries@)
    }

    /// A table without entries.
    pub fn new() -> (r: Table<V>)
        ensures
            r.wf(),
            r.entries@.len() == 0,
            r@ == Map::<Seq<char>, V>::empty(),
    {
        let r: Table<V> = Table { entries: Vec::new() };
        proof {
            assert(r@ =~= Map::<Seq<char>, V>::empty());
        }
        r
    }

    /// How many entries there are.
    pub fn len(&self) -> (r: usize)
        ensures
            r == self.entries@.len(),
    {
        self.entries.len()
    }

    /// Where a key stands, or how many entries there are.
    pub fn find(&self, key: &str) -> (r: usize)
        ensures
            r == key_at(self.entries@, key@),
            r <= self.entries@.len(),
            (r < self.entries@.len()) == self@.dom().contains(key@),
    {
        let mut i: usize = 0;
        proof {
            lemma_key_at(self.entries@, key@);
        }
        while i < self.entries.len() && !str_eq(self.entries[i].0.as_str(), key)
            invariant
                i <= self.entries@.len(),
                i <= key_at(self.entries@, key@) <= self.entries@.len(),
                key_at(self.entries@, key@) < self.entries@.len() ==> self.entries@[key_at(
                    self.entries@,
                    key@,
                ) as int].0@ == key@,
            decreases self.entries@.len() - i,
        {
            i += 1;
        }
        proof {
            if i < key_at(self.entries@, key@) {
                assert(self.entries@[i as int].0@ != key@);
            }
        }
        i
    }

    /// What a key maps to.
    pub fn get(&self, key: &str) -> (r: Option<&V>)
        ensures
            match r {
                Some(v) => self@.dom().contains(key@) && self@[key@] == *v,
                None => !self@.dom().contains(key@),
            },
    {
        let i: usize = self.find(key);
        if i < self.entries.len() {
            Some(&self.entries[i].1)
        } else {
            None
        }
    }

    /// Whether a key maps to anything.
    pub fn contains(&self, key: &str) -> (r: bool)
        ensures
            r == self@.dom().contains(key@),
    {
        self.find(key) < self.entries.len()
    }

    /// Lets a key map to a value; the one it had is dropped.
    pub fn insert(&mut self, key: String, value: V)
        requires
            old(self).wf(),
        ensures
            final(self).wf(),
            final(self)@ == old(self)@.insert(key@, value),
            final(self).entries@.len() == old(self).entries@.len() + (if old(self)@.dom().contains(key@) {
                0int
            } else {
                1
            }),
    {
        let i: usize = self.find(key.as_str());
        let ghost was = self.entries@;
        let ghost kv = key@;
        proof {
            lemma_key_at(was, kv);
        }
        if i < self.entries.len() {
            self.entries.set(i, (key, value));
        } else {
            self.entries.push((key, value));
        }
        proof {
            let now = self.entries@;
            assert forall|a: int, b: int| 0 <= a < b < now.len() implies (#[trigger] now[a]).0@ != (
            #[trigger] now[b]).0@ by {
                if b < was.len() {
                    assert(was[a].0@ != was[b].0@);
                } else {
                    assert(now[a] == was[a]);
                }
            }
            lemma_entry(now, i as int);
            assert forall|k: Seq<char>| k != kv implies #[trigger] map_of(now).dom().contains(k) == map_of(
                was,
            ).dom().contains(k) && (map_of(was).dom().contains(k) ==> map_of(now)[k] == map_of(was)[k]) by {
                lemma_key_at(was, k);
                let p = key_at(was, k) as int;
                if p < was.len() {
                    assert(now[p] == was[p]);
                    lemma_entry(now, p);
                } else {
                    assert forall|j: int| 0 <= j < now.len() implies (#[trigger] now[j]).0@ != k by {
                        if j < was.len() && j != i {
                            assert(now[j] == was[j]);
                        }
                    }
                    lemma_absent(now, k);
                }
            }
            let goal = map_of(was).insert(kv, value);
            assert forall|k: Seq<char>| #[trigger] map_of(now).dom().contains(k) == goal.dom().contains(k) by {
                if k != kv {
                    assert(map_of(now).dom().contains(k) == map_of(was).dom().contains(k));
                }
            }
            assert(map_of(now).dom() =~= goal.dom());
            assert forall|k: Seq<char>| map_of(now).dom().contains(k) implies #[trigger] map_of(now)[k]
                == goal[k] by {
                if k != kv {
                    assert(map_of(was).dom().contains(k));
                }
            }
            assert(map_of(now) =~= goal);
        }
    }

    /// Lets a key map to nothing.
    pub fn remove(&mut self, key: &str)
        requires
            old(self).wf(),
        ensures
            final(self).wf(),
            final(self)@ == old(self)@.remove(key@),
            final(self).entries@.len() == old(self).entries@.len() - (if old(self)@.dom().contains(key@) {
                1int
            } else {
                0
            }),
    {
        let i: usize = self.find(key);
        let ghost was = self.entries@;
        proof {
            lemma_key_at(was, key@);
        }
        if i < self.entries.len() {
            self.entries.remove(i);
            proof {
                let now = self.entries@;
                assert(now =~= was.remove(i as int));
                assert forall|a: int, b: int| 0 <= a < b < now.len() implies (#[trigger] now[a]).0@ != (
                #[trigger] now[b]).0@ by {
                    let a2 = if a < i {
                        a
                    } else {
                        a + 1
                    };
                    let b2 = if b < i {
                        b
                    } else {
                        b + 1
                    };
                    assert(was[a2].0@ != was[b2].0@);
                }
                assert forall|k: Seq<char>| k != key@ implies #[trigger] map_of(now).dom().contains(k) == map_of(
                    was,
                ).dom().contains(k) && (map_of(was).dom().contains(k) ==> map_of(now)[k] == map_of(was)[k]) by {
                    lemma_key_at(was, k);
                    let p = key_at(was, k) as int;
                    if p < was.len() {
                        let q = if p < i {
                            p
                        } else {
                            p - 1
                        };
                        assert(now[q] == was[p]);
                        lemma_entry(now, q);
                    } else {
                        assert forall|j: int| 0 <= j < now.len() implies (#[trigger] now[j]).0@ != k by {
                            if j < i {
                                assert(now[j] == was[j]);
                            } else {
                                assert(now[j] == was[j + 1]);
                            }
                        }
                        lemma_absent(now, k);
                    }
                }
                assert forall|j: int| 0 <= j < now.len() implies (#[trigger] now[j]).0@ != key@ by {
                    if j < i {
                        assert(was[j].0@ != was[i as int].0@);
                    } else {
                        assert(was[i as int].0@ != was[j + 1].0@);
                    }
                }
                lemma_absent(now, key@);
                let goal = map_of(was).remove(key@);
                assert forall|k: Seq<char>| #[trigger] map_of(now).dom().contains(k) == goal.dom().contains(
                    k,
                ) by {
                    if k != key@ {
                        assert(map_of(now).dom().contains(k) == map_of(was).dom().contains(k));
                    }
                }
                assert(map_of(now).dom() =~= goal.dom());
                assert forall|k: Seq<char>| map_of(now).dom().contains(k) implies #[trigger] map_of(now)[k]
                    == goal[k] by {
                    assert(map_of(was).dom().contains(k));
                }
                assert(map_of(now) =~= goal);
            }
        } else {
            proof {
                assert(map_of(was) =~= map_of(was).remove(key@));
            }
        }
    }
}

} // verus!
