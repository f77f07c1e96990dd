//! A map from texts to values that keeps the order in which its keys came.

use crate::text;
use vstd::prelude::*;
use vstd::string::*;

verus! {

/// A map from texts to values.
pub struct TextMap<V> {
    entries: Vec<(String, V)>,
}

spec fn map_of<V>(entries: Seq<(String, V)>) -> Map<Seq<char>, V>
    decreases entries.len(),
{
    if entries.len() == 0 {
        Map::empty()
    } else {
        map_of(entries.drop_last()).insert(entries.last().0@, entries.last().1)
    }
}

spec fn distinct<V>(entries: Seq<(String, V)>) -> bool {
    forall|i: int, j: int|
        0 <= i < j < entries.len() ==> (#[trigger] entries[i]).0@ != (#[trigger] entries[j]).0@
}

proof fn lemma_map_of<V>(entries: Seq<(String, V)>)
    requires
        distinct(entries),
    ensures
        forall|i: int|
            0 <= i < entries.len() ==> map_of(entries).contains_key((#[trigger] entries[i]).0@)
                && map_of(entries)[entries[i].0@] == entries[i].1,
        forall|k: Seq<char>| #[trigger]
            map_of(entries).contains_key(k) ==> exists|i: int|
                0 <= i < entries.len() && (#[trigger] entries[i]).0@ == k,
    decreases entries.len(),
{
    if entries.len() > 0 {
        let short = entries.drop_last();
        assert forall|i: int, j: int| 0 <= i < j < short.len() implies (#[trigger] short[i]).0@ != (
        #[trigger] short[j]).0@ by {
            assert(entries[i].0@ != entries[j].0@);
        }
        lemma_map_of(short);
        assert forall|i: int| 0 <= i < entries.len() implies map_of(entries).contains_key(
            (#[trigger] entries[i]).0@,
        ) && map_of(entries)[entries[i].0@] == entries[i].1 by {
            if i < short.len() {
                assert(short[i] == entries[i]);
                assert(entries[i].0@ != entries[entries.len() - 1].0@);
            }
        }
        assert forall|k: Seq<char>| #[trigger]
            map_of(entries).contains_key(k) implies exists|i: int|
            0 <= i < entries.len() && (#[trigger] entries[i]).0@ == k by {
            if k == entries.last().0@ {
                assert(entries[entries.len() - 1].0@ == k);
            } else {
                assert(map_of(short).contains_key(k));
                let i = choose|i: int| 0 <= i < short.len() && (#[trigger] short[i]).0@ == k;
                assert(entries[i] == short[i]);
            }
        }
    }
}

impl<V> View for TextMap<V> {
    type V = Map<Seq<char>, V>;

    closed spec fn view(&self) -> Map<Seq<char>, V> {
        map_of(self.entries@)
    }
}

impl<V> TextMap<V> {
    /// Whether no key is there twice.
    pub closed spec fn wf(&self) -> bool {
        distinct(self.entries@)
    }

    /// The keys in the order in which they came.
    pub closed spec fn keys(&self) -> Seq<Seq<char>> {
        Seq::new(self.entries@.len(), |i: int| self.entries@[i].0@)
    }

    /// The keys are those of the map, each of them once.
    pub proof fn lemma_keys(&self)
        requires
            self.wf(),
        ensures
            self.keys().no_duplicates(),
            forall|k: Seq<char>| self.keys().contains(k) <==> #[trigger] self@.contains_key(k),
    {
        lemma_map_of(self.entries@);
        assert forall|i: int, j: int|
            0 <= i < self.keys().len() && 0 <= j < self.keys().len() && i != j implies self.keys()[i]
            != self.keys()[j] by {
            if i < j {
                assert(self.entries@[i].0@ != self.entries@[j].0@);
            } else {
                assert(self.entries@[j].0@ != self.entries@[i].0@);
            }
        }
        assert forall|k: Seq<char>| self.keys().contains(k) <==> #[trigger] self@.contains_key(
            k,
        ) by {
            if self.keys().contains(k) {
                let i = choose|i: int| 0 <= i < self.keys().len() && self.keys()[i] == k;
                assert(self.entries@[i].0@ == k);
            }
            if self@.contains_key(k) {
                let i = choose|i: int|
                    0 <= i < self.entries@.len() && (#[trigger] self.entries@[i]).0@ == k;
                assert(self.keys()[i] == k);
            }
        }
    }

    /// An empty map.
    pub fn new() -> (r: Self)
        ensures
            r.wf(),
            r@ == Map::<Seq<char>, V>::empty(),
            r.keys() == Seq::<Seq<char>>::empty(),
    {
        let r = TextMap { entries: Vec::new() };
        assert(r.keys() =~= Seq::<Seq<char>>::empty());
        r
    }

    /// How many entries there are.
    pub fn len(&self) -> (r: usize)
        ensures
            r == self.keys().len(),
    {
        self.entries.len()
    }

    /// The key and the value at a place in the order.
    pub fn entry(&self, i: usize) -> (r: (&str, &V))
        requires
            self.wf(),
            i < self.keys().len(),
        ensures
            r.0@ == self.keys()[i as int],
            self@.contains_key(r.0@),
            *r.1 == self@[r.0@],
    {
        proof {
            lemma_map_of(self.entries@);
        }
        let e = &self.entries[i];
        (e.0.as_str(), &e.1)
    }

    fn index_of(&self, k: &str) -> (r: Option<usize>)
        requires
            self.wf(),
        ensures
            match r {
                Some(i) => {
                    &&& i < self.entries@.len()
                    &&& self.entries@[i as int].0@ == k@
                    &&& self@.contains_key(k@)
                    &&& self@[k@] == self.entries@[i as int].1
                },
                None => {
                    &&& !self@.contains_key(k@)
                    &&& forall|j: int|
                        0 <= j < self.entries@.len() ==> (#[trigger] self.entries@[j]).0@ != k@
                },
            },
    {
        proof {
            lemma_map_of(self.entries@);
        }
        for i in 0..self.entries.len()
            invariant
                forall|j: int| 0 <= j < i ==> (#[trigger] self.entries@[j]).0@ != k@,
                forall|j: int|
                    0 <= j < self.entries@.len() ==> self@.contains_key(
                        (#[trigger] self.entries@[j]).0@,
                    ) && self@[self.entries@[j].0@] == self.entries@[j].1,
        {
            if text::same(self.entries[i].0.as_str(), k) {
                return Some(i);
            }
        }
        None
    }

    /// Looks a key up.
    pub fn get(&self, k: &str) -> (r: Option<&V>)
        requires
            self.wf(),
        ensures
            match r {
                Some(v) => self@.contains_key(k@) && *v == self@[k@],
                None => !self@.contains_key(k@),
            },
    {
        match self.index_of(k) {
            Some(i) => Some(&self.entries[i].1),
            None => None,
        }
    }

    /// Adds an entry, or replaces the value of one.
    pub fn insert(&mut self, k: String, v: V)
        requires
            old(self).wf(),
        ensures
            final(self).wf(),
            final(self)@ == old(self)@.insert(k@, v),
            final(self).keys() == if old(self)@.contains_key(k@) {
                old(self).keys()
            } else {
                old(self).keys().push(k@)
            },
    {
        let ghost before = self.entries@;
        proof {
            lemma_map_of(before);
        }
        match self.index_of(k.as_str()) {
            Some(i) => {
                let ghost gk = k@;
                self.entries.set(i, (k, v));
                proof {
                    let now = self.entries@;
                    assert forall|a: int, b: int| 0 <= a < b < now.len() implies (
                    #[trigger] now[a]).0@ != (#[trigger] now[b]).0@ by {
                        assert(before[a].0@ != before[b].0@);
                    }
                    lemma_map_of(now);
                    assert forall|x: Seq<char>| map_of(now).contains_key(x) == map_of(
                        before,
                    ).insert(gk, v).contains_key(x) by {
                        if map_of(now).contains_key(x) {
                            let j = choose|j: int|
                                0 <= j < now.len() && (#[trigger] now[j]).0@ == x;
                            assert(before[j].0@ == x);
                        }
                        if map_of(before).insert(gk, v).contains_key(x) && x != gk {
                            let j = choose|j: int|
                                0 <= j < before.len() && (#[trigger] before[j]).0@ == x;
                            assert(now[j].0@ == x);
                        }
                        assert(now[i as int].0@ == gk);
                    }
                    assert forall|x: Seq<char>| map_of(now).contains_key(x) implies map_of(now)[x]
                        == map_of(before).insert(gk, v)[x] by {
                        let j = choose|j: int| 0 <= j < now.len() && (#[trigger] now[j]).0@ == x;
                        if j != i {
                            assert(now[j] == before[j]);
                            if j < i {
                                assert(before[j].0@ != before[i as int].0@);
                            } else {
                                assert(before[i as int].0@ != before[j].0@);
                            }
                        }
                    }
                    assert(map_of(now) =~= map_of(before).insert(gk, v));
                    assert(self.keys() =~= old(self).keys());
                }
            },
            None => {
                let ghost gk = k@;
                self.entries.push((k, v));
                proof {
                    assert(self.entries@.drop_last() =~= before);
                    assert(self.keys() =~= old(self).keys().push(gk));
                }
            },
        }
    }

    /// Removes an entry and returns its value.
    pub fn remove(&mut self, k: &str) -> (r: Option<V>)
        requires
            old(self).wf(),
        ensures
            final(self).wf(),
            final(self)@ == old(self)@.remove(k@),
            match r {
                Some(v) => old(self)@.contains_key(k@) && v == old(self)@[k@],
                None => !old(self)@.contains_key(k@),
            },
    {
        let ghost before = self.entries@;
        match self.index_of(k) {
            None => {
                assert(self@ =~= old(self)@.remove(k@));
                None
            },
            Some(i) => {
                let (key, v) = self.entries.remove(i);
                proof {
                    let now = self.entries@;
                    assert forall|a: int, b: int| 0 <= a < b < now.len() implies (
                    #[trigger] now[a]).0@ != (#[trigger] now[b]).0@ by {
                        let x = if a < i {
                            a
                        } else {
                            a + 1
                        };
                        let y = if b < i {
                            b
                        } else {
                            b + 1
                        };
                        assert(before[x].0@ != before[y].0@);
                    }
                    lemma_map_of(before);
                    lemma_map_of(now);
                    assert forall|x: Seq<char>| map_of(now).contains_key(x) == map_of(
                        before,
                    ).remove(k@).contains_key(x) by {
                        if map_of(now).contains_key(x) {
                            let j = choose|j: int|
                                0 <= j < now.len() && (#[trigger] now[j]).0@ == x;
                            let y = if j < i {
                                j
                            } else {
                                j + 1
                            };
                            assert(before[y].0@ == x);
                            if y < i {
                                assert(before[y].0@ != before[i as int].0@);
                            } else {
                                assert(before[i as int].0@ != before[y].0@);
                            }
                        }
                        if map_of(before).remove(k@).contains_key(x) {
                            let j = choose|j: int|
                                0 <= j < before.len() && (#[trigger] before[j]).0@ == x;
                            let y = if j < i {
                                j
                            } else {
                                j - 1
                            };
                            assert(j != i);
                            assert(now[y].0@ == x);
                        }
                    }
                    assert forall|x: Seq<char>| map_of(now).contains_key(x) implies map_of(now)[x]
                        == map_of(before).remove(k@)[x] by {
                        let j = choose|j: int| 0 <= j < now.len() && (#[trigger] now[j]).0@ == x;
                        let y = if j < i {
                            j
                        } else {
                            j + 1
                        };
                        assert(before[y] == now[j]);
                    }
                    assert(map_of(now) =~= map_of(before).remove(k@));
                }
                Some(v)
            },
        }
    }
}

} // verus!
