//! Maps whose keys are texts, as lists of pairs in which no key occurs twice.
use vstd::prelude::*;

use crate::text;

verus! {

/// A map from texts to values. New keys go to the end.
pub struct TextMap<V> {
    pub entries: Vec<(String, V)>,
}

/// Whether `k` is the key at index `i`.
pub open spec fn key_at<V>(s: Seq<(String, V)>, k: Seq<char>, i: int) -> bool {
    0 <= i < s.len() && s[i].0@ == k
}

/// Whether no key occurs twice.
pub open spec fn distinct_keys<V>(s: Seq<(String, V)>) -> bool {
    forall|i: int, j: int| 0 <= i < j < s.len() ==> (#[trigger] s[i]).0@ != (#[trigger] s[j]).0@
}

impl<V> View for TextMap<V> {
    type V = Map<Seq<char>, V>;

    open spec fn view(&self) -> Map<Seq<char>, V> {
        Map::new(
            |k: Seq<char>| exists|i: int| key_at(self.entries@, k, i),
            |k: Seq<char>| self.entries@[choose|i: int| key_at(self.entries@, k, i)].1,
        )
    }
}

impl<V> TextMap<V> {
    pub open spec fn wf(self) -> bool {
        distinct_keys(self.entries@)
    }

    /// What stands at an index is what the map holds under its key.
    pub proof fn lemma_at(self, k: Seq<char>, i: int)
        requires
            self.wf(),
            key_at(self.entries@, k, i),
        ensures
            self@.contains_key(k),
            self@[k] == self.entries@[i].1,
    {
        let j = choose|j: int| key_at(self.entries@, k, j);
        assert(key_at(self.entries@, k, j));
        if i < j {
            assert(self.entries@[i].0@ != self.entries@[j].0@);
        } else if j < i {
            assert(self.entries@[j].0@ != self.entries@[i].0@);
        }
    }

    /// The empty map.
    pub fn new() -> (r: TextMap<V>)
        ensures
            r.wf(),
            r@ == Map::<Seq<char>, V>::empty(),
            r.entries@.len() == 0,
    {
        let r: TextMap<V> = TextMap { entries: Vec::new() };
        assert(r@ =~= Map::<Seq<char>, V>::empty());
        r
    }

    /// The index of the key `k`, if it is there.
    pub fn index_of(&self, k: &str) -> (r: Option<usize>)
        requires
            self.wf(),
        ensures
            match r {
                Some(i) => key_at(self.entries@, k@, i as int) && self@.contains_key(k@)
                    && self@[k@] == self.entries@[i as int].1,
                None => !self@.contains_key(k@),
            },
    {
        let mut i: usize = 0;
        while i < self.entries.len()
            invariant
                i <= self.entries@.len(),
                self.wf(),
                forall|j: int| 0 <= j < i ==> !key_at(self.entries@, k@, j),
            decreases self.entries@.len() - i,
        {
            if text::same_text(self.entries[i].0.as_str(), k) {
                proof {
                    self.lemma_at(k@, i as int);
                }
                return Some(i);
            }
            i = i + 1;
        }
        None
    }

    /// What the map holds under `k`, if anything.
    pub fn get(&self, k: &str) -> (r: Option<&V>)
        requires
            self.wf(),
        ensures
            match r {
                Some(v) => self@.contains_key(k@) && *v == self@[k@],
                None => !self@.contains_key(k@),
            },
    {
        match self.index_of(k) {
            Some(i) => Some(&self.entries[i].1),
            None => None,
        }
    }

    /// Puts `v` under `k`, in place of what was there.
    pub fn insert(&mut self, k: String, v: V)
        requires
            old(self).wf(),
        ensures
            final(self).wf(),
            final(self)@ == old(self)@.insert(k@, v),
    {
        let ghost before = *self;
        match self.index_of(k.as_str()) {
            Some(i) => {
                self.entries[i] = (k, v);
                proof {
                    assert forall|a: int, b: int| 0 <= a < b < self.entries@.len() implies (
                    #[trigger] self.entries@[a]).0@ != (#[trigger] self.entries@[b]).0@ by {
                        assert(before.entries@[a].0@ != before.entries@[b].0@);
                    }
                    lemma_same_keys(before, *self, k@, v, i as int);
                }
            },
            None => {
                self.entries.push((k, v));
                proof {
                    assert forall|a: int, b: int| 0 <= a < b < self.entries@.len() implies (
                    #[trigger] self.entries@[a]).0@ != (#[trigger] self.entries@[b]).0@ by {
                        if b < before.entries@.len() {
                            assert(before.entries@[a].0@ != before.entries@[b].0@);
                        } else {
                            if before.entries@[a].0@ == k@ {
                                assert(key_at(before.entries@, k@, a));
                            }
                        }
                    }
                    lemma_same_keys(before, *self, k@, v, before.entries@.len() as int);
                }
            },
        }
    }

    /// Takes out what the map holds under `k`, if anything.
    pub fn remove(&mut self, k: &str) -> (r: Option<V>)
        requires
            old(self).wf(),
        ensures
            final(self).wf(),
            final(self)@ == old(self)@.remove(k@),
            match r {
                Some(v) => old(self)@.contains_key(k@) && v == old(self)@[k@],
                None => !old(self)@.contains_key(k@),
            },
            match r {
                Some(_) => final(self).entries@.len() + 1 == old(self).entries@.len(),
                None => final(self).entries@ == old(self).entries@,
            },
    {
        let ghost before = *self;
        match self.index_of(k) {
            Some(i) => {
                let (_, v): (String, V) = self.entries.remove(i);
                proof {
                    let old_s = before.entries@;
                    let new_s = self.entries@;
                    let at = i as int;
                    assert forall|a: int, b: int| 0 <= a < b < new_s.len() implies (
                    #[trigger] new_s[a]).0@ != (#[trigger] new_s[b]).0@ by {
                        let x = if a < at {
                            a
                        } else {
                            a + 1
                        };
                        let y = if b < at {
                            b
                        } else {
                            b + 1
                        };
                        assert(old_s[x].0@ != old_s[y].0@);
                    }
                    assert forall|q: Seq<char>| before@.remove(k@).contains_key(
                        q,
                    ) implies #[trigger] self@.contains_key(q) && self@[q] == before@[q] by {
                        let x = choose|x: int| key_at(old_s, q, x);
                        before.lemma_at(q, x);
                        let y = if x < at {
                            x
                        } else {
                            x - 1
                        };
                        assert(key_at(new_s, q, y));
                        self.lemma_at(q, y);
                    }
                    assert forall|q: Seq<char>| #[trigger] self@.contains_key(
                        q,
                    ) implies before@.remove(k@).contains_key(q) by {
                        let y = choose|y: int| key_at(new_s, q, y);
                        let x = if y < at {
                            y
                        } else {
                            y + 1
                        };
                        assert(key_at(old_s, q, x));
                        if q == k@ {
                            if x < at {
                                assert(old_s[x].0@ != old_s[at].0@);
                            } else {
                                assert(old_s[at].0@ != old_s[x].0@);
                            }
                        }
                    }
                    assert(self@ =~= before@.remove(k@));
                }
                Some(v)
            },
            None => {
                assert(self@ =~= before@.remove(k@));
                None
            },
        }
    }
}

/// A map with the texts of its values.
pub open spec fn texts_under<K>(m: Map<K, String>) -> Map<K, Seq<char>> {
    m.map_values(|s: String| s@)
}

impl TextMap<String> {
    /// Takes over all that `other` holds, in place of what was there under its keys.
    pub fn extend(&mut self, other: &TextMap<String>)
        requires
            old(self).wf(),
            other.wf(),
        ensures
            final(self).wf(),
            texts_under(final(self)@) == texts_under(old(self)@).union_prefer_right(
                texts_under(other@),
            ),
    {
        let ghost start = self@;
        let ghost all = other.entries@;
        let mut i: usize = 0;
        while i < other.entries.len()
            invariant
                i <= all.len(),
                all == other.entries@,
                self.wf(),
                other.wf(),
                forall|k: Seq<char>| #[trigger]
                    self@.contains_key(k) <==> start.contains_key(k) || exists|j: int|
                        j < i && key_at(all, k, j),
                forall|k: Seq<char>|
                    self@.contains_key(k) ==> (#[trigger] self@[k])@ == (if exists|j: int|
                        j < i && key_at(all, k, j) {
                        other@[k]@
                    } else {
                        start[k]@
                    }),
            decreases all.len() - i,
        {
            let ghost before = self@;
            let k: String = other.entries[i].0.clone();
            let v: String = other.entries[i].1.clone();
            let ghost key = k@;
            self.insert(k, v);
            proof {
                assert(key_at(all, key, i as int));
                other.lemma_at(key, i as int);
                assert forall|q: Seq<char>| #[trigger] self@.contains_key(q)
                    <==> start.contains_key(q) || exists|j: int|
                    j < i + 1 && key_at(all, q, j) by {
                    if q == key {
                        assert(i < i + 1 && key_at(all, q, i as int));
                    } else {
                        assert(before.contains_key(q) == self@.contains_key(q));
                        if exists|j: int| j < i && key_at(all, q, j) {
                            let j = choose|j: int| j < i && key_at(all, q, j);
                            assert(j < i + 1 && key_at(all, q, j));
                        }
                    }
                }
                assert forall|q: Seq<char>| self@.contains_key(q) implies (#[trigger] self@[q])@
                    == (if exists|j: int| j < i + 1 && key_at(all, q, j) {
                    other@[q]@
                } else {
                    start[q]@
                }) by {
                    if q == key {
                        assert(i < i + 1 && key_at(all, q, i as int));
                    } else {
                        assert(before.contains_key(q));
                        assert(self@[q] == before[q]);
                        if exists|j: int| j < i && key_at(all, q, j) {
                            let j = choose|j: int| j < i && key_at(all, q, j);
                            assert(j < i + 1 && key_at(all, q, j));
                        }
                    }
                }
            }
            i = i + 1;
        }
        proof {
            let a = texts_under(self@);
            let b = texts_under(start).union_prefer_right(texts_under(other@));
            assert forall|k: Seq<char>| #[trigger] a.contains_key(k) <==> b.contains_key(k) by {
                assert(self@.contains_key(k) == a.contains_key(k));
                if other@.contains_key(k) {
                    let j = choose|j: int| key_at(all, k, j);
                    assert(j < i && key_at(all, k, j));
                }
            }
            assert forall|k: Seq<char>| a.contains_key(k) implies #[trigger] a[k] == b[k] by {
                assert(self@.contains_key(k));
                assert(a[k] == self@[k]@);
                if other@.contains_key(k) {
                    let j = choose|j: int| key_at(all, k, j);
                    assert(j < i && key_at(all, k, j));
                }
            }
            assert(a =~= b);
        }
    }
}

/// Setting the value at the index of a key, or behind all others, inserts it.
proof fn lemma_same_keys<V>(before: TextMap<V>, after: TextMap<V>, k: Seq<char>, v: V, at: int)
    requires
        before.wf(),
        after.wf(),
        0 <= at < after.entries@.len(),
        after.entries@[at].0@ == k,
        after.entries@[at].1 == v,
        before.entries@.len() == after.entries@.len() || (before.entries@.len() == at
            && after.entries@.len() == at + 1),
        at < before.entries@.len() ==> before.entries@[at].0@ == k,
        forall|i: int|
            0 <= i < before.entries@.len() && i != at ==> before.entries@[i] == after.entries@[i],
    ensures
        after@ == before@.insert(k, v),
{
    let b = before.entries@;
    let a = after.entries@;
    assert(key_at(a, k, at));
    after.lemma_at(k, at);
    assert forall|q: Seq<char>| before@.insert(k, v).contains_key(
        q,
    ) implies #[trigger] after@.contains_key(q) && after@[q] == before@.insert(k, v)[q] by {
        if q != k {
            let x = choose|x: int| key_at(b, q, x);
            before.lemma_at(q, x);
            assert(key_at(a, q, x));
            after.lemma_at(q, x);
        }
    }
    assert forall|q: Seq<char>| #[trigger] after@.contains_key(q) implies before@.insert(
        k,
        v,
    ).contains_key(q) by {
        if q != k {
            let x = choose|x: int| key_at(a, q, x);
            assert(x != at);
            assert(key_at(b, q, x));
        }
    }
    assert(after@ =~= before@.insert(k, v));
}

// ---- what the calls give ----

/// What is put into a map is found under its key, in place of what was there; under other keys the
/// same is found as before.
pub proof fn values_are_found<V>(
    m: &mut TextMap<V>,
    k: String,
    v: V,
    after: &TextMap<V>,
    key: &str,
    found: Option<&V>,
)
    requires
        call_ensures(TextMap::<V>::insert, (m, k, v), ()),
        *after == *final(m),
        call_ensures(TextMap::<V>::get, (after, key), found),
    ensures
        key@ == k@ ==> found is Some && *found->0 == v,
        key@ != k@ ==> (found is Some <==> old(m)@.contains_key(key@)) && (found is Some
            ==> *found->0 == old(m)@[key@]),
{
}

/// What is taken out of a map is found no more; other keys are not affected.
pub proof fn values_are_taken_out<V>(
    m: &mut TextMap<V>,
    k: &str,
    r: Option<V>,
    after: &TextMap<V>,
    key: &str,
    found: Option<&V>,
)
    requires
        call_ensures(TextMap::<V>::remove, (m, k), r),
        *after == *final(m),
        call_ensures(TextMap::<V>::get, (after, key), found),
    ensures
        r is Some <==> old(m)@.contains_key(k@),
        r is Some ==> r->0 == old(m)@[k@],
        key@ == k@ ==> found is None,
        key@ != k@ ==> (found is Some <==> old(m)@.contains_key(key@)) && (found is Some
            ==> *found->0 == old(m)@[key@]),
{
}

} // verus!
