//! Maps keyed by text.

use vstd::prelude::*;

use crate::text;

verus! {

/// A map from text to values, in the order in which the keys came.
pub struct TextMap<V> {
    entries: Vec<(String, V)>,
}

/// Whether no two entries have the same key.
pub open spec fn distinct_keys<V>(entries: Seq<(String, V)>) -> bool {
    forall|i: int, j: int|
        0 <= i < j < entries.len() ==> (#[trigger] entries[i]).0@ != (#[trigger] entries[j]).0@
}

/// The map that a list of entries with distinct keys stands for.
pub open spec fn map_of<V>(entries: Seq<(String, V)>) -> Map<Seq<char>, V>
    decreases entries.len(),
{
    if entries.len() == 0 {
        Map::empty()
    } else {
        map_of(entries.drop_last()).insert(entries.last().0@, entries.last().1)
    }
}

/// The keys of a list of entries are the domain of its map.
pub proof fn lemma_map_of<V>(entries: Seq<(String, V)>)
    requires
        distinct_keys(entries),
    ensures
        forall|i: int|
            0 <= i < entries.len() ==> map_of(entries).dom().contains((#[trigger] entries[i]).0@)
                && map_of(entries)[entries[i].0@] == entries[i].1,
        forall|k: Seq<char>|
            map_of(entries).dom().contains(k) ==> exists|i: int|
                0 <= i < entries.len() && (#[trigger] entries[i]).0@ == k,
        map_of(entries).dom().finite(),
        map_of(entries).dom().len() == entries.len(),
    decreases entries.len(),
{
    if entries.len() > 0 {
        let t = entries.drop_last();
        assert forall|i: int, j: int| 0 <= i < j < t.len() implies (#[trigger] t[i]).0@ != (
        #[trigger] t[j]).0@ by {
            assert(entries[i].0@ != entries[j].0@);
        }
        lemma_map_of(t);
        assert forall|i: int| 0 <= i < entries.len() implies map_of(entries).dom().contains(
            (#[trigger] entries[i]).0@,
        ) && map_of(entries)[entries[i].0@] == entries[i].1 by {
            if i < t.len() {
                assert(t[i] == entries[i]);
                assert(entries[i].0@ != entries[entries.len() - 1].0@);
            }
        }
        assert forall|k: Seq<char>| map_of(entries).dom().contains(k) implies exists|i: int|
            0 <= i < entries.len() && (#[trigger] entries[i]).0@ == k by {
            if k == entries.last().0@ {
                assert(entries[entries.len() - 1].0@ == k);
            } else {
                let i = choose|i: int| 0 <= i < t.len() && (#[trigger] t[i]).0@ == k;
                assert(entries[i].0@ == k);
            }
        }
        assert(!map_of(t).dom().contains(entries.last().0@)) by {
            if map_of(t).dom().contains(entries.last().0@) {
                let i = choose|i: int|
                    0 <= i < t.len() && (#[trigger] t[i]).0@ == entries.last().0@;
                assert(entries[i].0@ != entries[entries.len() - 1].0@);
            }
        }
        assert(map_of(entries).dom() =~= map_of(t).dom().insert(entries.last().0@));
    } else {
        assert(map_of(entries).dom() =~= Set::empty());
    }
}

proof fn lemma_map_of_update<V>(entries: Seq<(String, V)>, at: int, v: V)
    requires
        distinct_keys(entries),
        0 <= at < entries.len(),
    ensures
        distinct_keys(entries.update(at, (entries[at].0, v))),
        map_of(entries.update(at, (entries[at].0, v))) == map_of(entries).insert(
            entries[at].0@,
            v,
        ),
{
    let new = entries.update(at, (entries[at].0, v));
    assert forall|i: int, j: int| 0 <= i < j < new.len() implies (#[trigger] new[i]).0@ != (
    #[trigger] new[j]).0@ by {
        assert(entries[i].0@ != entries[j].0@);
    }
    lemma_map_of(entries);
    lemma_map_of(new);
    let a = map_of(new);
    let b = map_of(entries).insert(entries[at].0@, v);
    assert forall|k: Seq<char>| a.dom().contains(k) <==> b.dom().contains(k) by {
        if a.dom().contains(k) {
            let i = choose|i: int| 0 <= i < new.len() && (#[trigger] new[i]).0@ == k;
            assert(entries[i].0@ == k);
        }
        if b.dom().contains(k) {
            if k == entries[at].0@ {
                assert(new[at].0@ == k);
            } else {
                let i = choose|i: int| 0 <= i < entries.len() && (#[trigger] entries[i]).0@ == k;
                assert(new[i].0@ == k);
            }
        }
    }
    assert forall|k: Seq<char>| a.dom().contains(k) implies a[k] == b[k] by {
        let i = choose|i: int| 0 <= i < new.len() && (#[trigger] new[i]).0@ == k;
        assert(entries[i].0@ == k);
        assert(a[k] == new[i].1);
        if i != at {
            if i < at {
                assert(entries[i].0@ != entries[at].0@);
            } else {
                assert(entries[at].0@ != entries[i].0@);
            }
        }
    }
    assert(a =~= b);
}

proof fn lemma_map_of_remove<V>(entries: Seq<(String, V)>, at: int)
    requires
        distinct_keys(entries),
        0 <= at < entries.len(),
    ensures
        distinct_keys(entries.remove(at)),
        map_of(entries.remove(at)) == map_of(entries).remove(entries[at].0@),
{
    let new = entries.remove(at);
    let from = |i: int| if i < at { i } else { i + 1 };
    assert forall|i: int, j: int| 0 <= i < j < new.len() implies (#[trigger] new[i]).0@ != (
    #[trigger] new[j]).0@ by {
        assert(new[i] == entries[from(i)]);
        assert(new[j] == entries[from(j)]);
    }
    lemma_map_of(entries);
    lemma_map_of(new);
    let a = map_of(new);
    let b = map_of(entries).remove(entries[at].0@);
    assert forall|k: Seq<char>| a.dom().contains(k) <==> b.dom().contains(k) by {
        if a.dom().contains(k) {
            let i = choose|i: int| 0 <= i < new.len() && (#[trigger] new[i]).0@ == k;
            assert(entries[from(i)].0@ == k);
            assert(from(i) != at);
            if from(i) < at {
                assert(entries[from(i)].0@ != entries[at].0@);
            } else {
                assert(entries[at].0@ != entries[from(i)].0@);
            }
        }
        if b.dom().contains(k) {
            let i = choose|i: int| 0 <= i < entries.len() && (#[trigger] entries[i]).0@ == k;
            let j = if i < at {
                i
            } else {
                i - 1
            };
            assert(new[j].0@ == k);
        }
    }
    assert forall|k: Seq<char>| a.dom().contains(k) implies a[k] == b[k] by {
        let i = choose|i: int| 0 <= i < new.len() && (#[trigger] new[i]).0@ == k;
        assert(entries[from(i)].0@ == k);
    }
    assert(a =~= b);
}

impl<V> TextMap<V> {
    #[verifier::type_invariant]
    spec fn inv(self) -> bool {
        distinct_keys(self.entries@)
    }

    /// The map itself.
    pub closed spec fn view(&self) -> Map<Seq<char>, V> {
        map_of(self.entries@)
    }

    /// The empty map.
    pub fn new() -> (r: Self)
        ensures
            r@ == Map::<Seq<char>, V>::empty(),
    {
        TextMap { entries: Vec::new() }
    }

    /// The place of a key in the list of entries.
    fn position(&self, key: &str) -> (r: Option<usize>)
        ensures
            r is Some ==> r->0 < self.entries@.len() && self.entries@[r->0 as int].0@ == key@,
            r is None ==> forall|i: int|
                0 <= i < self.entries@.len() ==> (#[trigger] self.entries@[i]).0@ != key@,
    {
        let mut i: usize = 0;
        while i < self.entries.len()
            invariant
                i <= self.entries@.len(),
                forall|k: int| 0 <= k < i ==> (#[trigger] self.entries@[k]).0@ != key@,
            decreases self.entries@.len() - i,
        {
            if text::same(&self.entries[i].0, key) {
                return Some(i);
            }
            i += 1;
        }
        None
    }

    /// Looks a key up.
    pub fn get(&self, key: &str) -> (r: Option<&V>)
        ensures
            r == (if self@.dom().contains(key@) {
                Some(&self@[key@])
            } else {
                None
            }),
    {
        proof {
            use_type_invariant(self);
            lemma_map_of(self.entries@);
        }
        match self.position(key) {
            Some(i) => {
                assert(self.entries@[i as int].0@ == key@);
                Some(&self.entries[i].1)
            },
            None => None,
        }
    }

    /// Whether a key is there.
    pub fn contains_key(&self, key: &str) -> (r: bool)
        ensures
            r == self@.dom().contains(key@),
    {
        self.get(key).is_some()
    }

    /// Sets the value of a key.
    pub fn insert(&mut self, key: String, value: V)
        ensures
            final(self)@ == old(self)@.insert(key@, value),
    {
        proof {
            use_type_invariant(&*self);
        }
        let at = self.position(&key);
        let mut entries: Vec<(String, V)> = Vec::new();
        std::mem::swap(&mut entries, &mut self.entries);
        let ghost before = entries@;
        match at {
            Some(i) => {
                let (k, _) = entries.remove(i);
                entries.insert(i, (k, value));
                proof {
                    lemma_map_of_update(before, i as int, value);
                    assert(entries@ =~= before.update(i as int, (before[i as int].0, value)));
                }
            },
            None => {
                entries.push((key, value));
                proof {
                    assert(entries@.drop_last() =~= before);
                    assert forall|i: int, j: int| 0 <= i < j < entries@.len() implies (
                    #[trigger] entries@[i]).0@ != (#[trigger] entries@[j]).0@ by {
                        if j < before.len() {
                            assert(before[i].0@ != before[j].0@);
                        } else {
                            assert(before[i].0@ != key@);
                        }
                    }
                }
            },
        }
        self.entries = entries;
    }

    /// Takes a key out.
    pub fn remove(&mut self, key: &str)
        ensures
            final(self)@ == old(self)@.remove(key@),
    {
        proof {
            use_type_invariant(&*self);
        }
        let at = self.position(key);
        let mut entries: Vec<(String, V)> = Vec::new();
        std::mem::swap(&mut entries, &mut self.entries);
        let ghost before = entries@;
        match at {
            Some(i) => {
                proof {
                    lemma_map_of_remove(before, i as int);
                }
                let _ = entries.remove(i);
            },
            None => {
                proof {
                    lemma_map_of(before);
                    assert(map_of(before).remove(key@) =~= map_of(before));
                }
            },
        }
        self.entries = entries;
    }

    /// The number of keys.
    pub fn len(&self) -> (r: usize)
        ensures
            r == self@.dom().len(),
            self@.dom().finite(),
    {
        proof {
            use_type_invariant(self);
            lemma_map_of(self.entries@);
        }
        self.entries.len()
    }

    /// The entries, in the order in which the keys came.
    pub fn entries(&self) -> (r: &Vec<(String, V)>)
        ensures
            distinct_keys(r@),
            map_of(r@) == self@,
    {
        proof {
            use_type_invariant(self);
        }
        &self.entries
    }
}

} // verus!
