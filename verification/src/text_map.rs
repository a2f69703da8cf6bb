//! A small map keyed by text, kept as a vector of distinct keys.

use vstd::prelude::*;
use crate::text::chars_of;

verus! {

/// Whether two strings hold the same characters.
pub fn same_text(a: &str, b: &str) -> (r: bool)
    ensures
        r == (a@ == b@),
{
    let x = chars_of(a);
    let y = chars_of(b);
    if x.len() != y.len() {
        return false;
    }
    let mut i: usize = 0;
    while i < x.len()
        invariant
            x@.len() == y@.len(),
            x@ == a@,
            y@ == b@,
            i <= x@.len(),
            forall|j: int| 0 <= j < i ==> x@[j] == y@[j],
        decreases x.len() - i,
    {
        if x[i] != y[i] {
            assert(x@[i as int] != y@[i as int]);
            assert(a@ != b@);
            return false;
        }
        i += 1;
    }
    assert(x@ =~= y@);
    true
}

/// A map from text keys to values.
#[derive(Debug)]
pub struct TextMap<V> {
    entries: Vec<(String, V)>,
}

impl<V> TextMap<V> {
    pub closed spec fn has_key(&self, k: Seq<char>) -> bool {
        exists|i: int| 0 <= i < self.entries@.len() && (#[trigger] self.entries@[i]).0@ == k
    }

    pub closed spec fn index_of(&self, k: Seq<char>) -> int {
        choose|i: int| 0 <= i < self.entries@.len() && (#[trigger] self.entries@[i]).0@ == k
    }

    /// The map's contents.
    pub closed spec fn map(&self) -> Map<Seq<char>, V> {
        Map::new(|k: Seq<char>| self.has_key(k), |k: Seq<char>| self.entries@[self.index_of(k)].1)
    }

    /// The keys are distinct.
    pub closed spec fn wf(&self) -> bool {
        forall|i: int, j: int|
            0 <= i < self.entries@.len() && 0 <= j < self.entries@.len() && i != j ==> (#[trigger] self.entries@[i]).0@
                != (#[trigger] self.entries@[j]).0@
    }

    proof fn lemma_entry(&self, i: int)
        requires
            self.wf(),
            0 <= i < self.entries@.len(),
        ensures
            self.map().contains_key(self.entries@[i].0@),
            self.map()[self.entries@[i].0@] == self.entries@[i].1,
    {
        let k = self.entries@[i].0@;
        assert(self.has_key(k));
        let j = self.index_of(k);
        assert(self.entries@[j].0@ == k);
    }

    pub fn new() -> (r: Self)
        ensures
            r.wf(),
            r.map() == Map::<Seq<char>, V>::empty(),
    {
        let r = TextMap { entries: Vec::new() };
        assert(r.map() =~= Map::<Seq<char>, V>::empty());
        r
    }

    fn find(&self, key: &str) -> (r: Option<usize>)
        requires
            self.wf(),
        ensures
            match r {
                Some(i) => i < self.entries@.len() && self.entries@[i as int].0@ == key@,
                None => !self.map().contains_key(key@),
            },
    {
        let mut i: usize = 0;
        while i < self.entries.len()
            invariant
                i <= self.entries@.len(),
                forall|j: int| 0 <= j < i ==> (#[trigger] self.entries@[j]).0@ != key@,
            decreases self.entries.len() - i,
        {
            if same_text(self.entries[i].0.as_str(), key) {
                return Some(i);
            }
            i += 1;
        }
        None
    }

    /// The value stored under `key`.
    pub fn get(&self, key: &str) -> (r: Option<&V>)
        requires
            self.wf(),
        ensures
            self.map().contains_key(key@) ==> r == Some(&self.map()[key@]),
            !self.map().contains_key(key@) ==> r is None,
    {
        match self.find(key) {
            Some(i) => {
                proof {
                    self.lemma_entry(i as int);
                }
                Some(&self.entries[i].1)
            },
            None => None,
        }
    }

    /// Stores `value` under `key`, replacing any earlier value.
    pub fn insert(&mut self, key: String, value: V)
        requires
            old(self).wf(),
        ensures
            final(self).wf(),
            final(self).map() == old(self).map().insert(key@, value),
    {
        let ghost k = key@;
        match self.find(key.as_str()) {
            Some(i) => {
                let ghost old_entries = self.entries@;
                self.entries.set(i, (key, value));
                assert(self.wf());
                assert forall|q: Seq<char>| #![auto] self.has_key(q) == (old(self).has_key(q) || q == k) by {
                    if self.has_key(q) {
                        let j = choose|j: int| 0 <= j < self.entries@.len() && (#[trigger] self.entries@[j]).0@ == q;
                        if j != i {
                            assert(old_entries[j].0@ == q);
                        }
                    }
                    if old(self).has_key(q) {
                        let j = choose|j: int| 0 <= j < old_entries.len() && (#[trigger] old_entries[j]).0@ == q;
                        assert(self.entries@[j].0@ == q || j == i);
                    }
                    if q == k {
                        assert(self.entries@[i as int].0@ == q);
                    }
                }
                assert forall|q: Seq<char>| #![auto] self.has_key(q) implies self.map()[q] == old(self).map().insert(k, value)[q] by {
                    let j = self.index_of(q);
                    self.lemma_entry(j);
                    if q != k {
                        assert(j != i);
                        assert(old_entries[j].0@ == q);
                        old(self).lemma_entry(j);
                    }
                }
                assert(self.map() =~= old(self).map().insert(k, value));
            },
            None => {
                let ghost old_entries = self.entries@;
                self.entries.push((key, value));
                let ghost n = old_entries.len();
                assert(self.wf()) by {
                    assert forall|a: int, b: int|
                        0 <= a < self.entries@.len() && 0 <= b < self.entries@.len() && a != b implies (#[trigger] self.entries@[a]).0@
                        != (#[trigger] self.entries@[b]).0@ by {
                        if a == n {
                            assert(!old(self).has_key(k));
                            assert(old_entries[b].0@ != k);
                        } else if b == n {
                            assert(!old(self).has_key(k));
                            assert(old_entries[a].0@ != k);
                        }
                    }
                }
                assert forall|q: Seq<char>| #![auto] self.has_key(q) == (old(self).has_key(q) || q == k) by {
                    if self.has_key(q) {
                        let j = choose|j: int| 0 <= j < self.entries@.len() && (#[trigger] self.entries@[j]).0@ == q;
                        if j < n {
                            assert(old_entries[j].0@ == q);
                        }
                    }
                    if old(self).has_key(q) {
                        let j = choose|j: int| 0 <= j < old_entries.len() && (#[trigger] old_entries[j]).0@ == q;
                        assert(self.entries@[j].0@ == q);
                    }
                    if q == k {
                        assert(self.entries@[n as int].0@ == q);
                    }
                }
                assert forall|q: Seq<char>| #![auto] self.has_key(q) implies self.map()[q] == old(self).map().insert(k, value)[q] by {
                    let j = self.index_of(q);
                    self.lemma_entry(j);
                    if q != k {
                        assert(j != n);
                        assert(old_entries[j].0@ == q);
                        old(self).lemma_entry(j);
                    }
                }
                assert(self.map() =~= old(self).map().insert(k, value));
            },
        }
    }

    /// Removes `key` and its value, if present.
    pub fn remove(&mut self, key: &str)
        requires
            old(self).wf(),
        ensures
            final(self).wf(),
            final(self).map() == old(self).map().remove(key@),
    {
        match self.find(key) {
            Some(i) => {
                let ghost old_entries = self.entries@;
                let ghost k = key@;
                self.entries.remove(i);
                assert(self.wf()) by {
                    assert forall|a: int, b: int|
                        0 <= a < self.entries@.len() && 0 <= b < self.entries@.len() && a != b implies (#[trigger] self.entries@[a]).0@
                        != (#[trigger] self.entries@[b]).0@ by {
                        let oa = if a < i { a } else { a + 1 };
                        let ob = if b < i { b } else { b + 1 };
                        assert(self.entries@[a] == old_entries[oa]);
                        assert(self.entries@[b] == old_entries[ob]);
                    }
                }
                assert forall|q: Seq<char>| #![auto] self.has_key(q) == (old(self).has_key(q) && q != k) by {
                    if self.has_key(q) {
                        let j = choose|j: int| 0 <= j < self.entries@.len() && (#[trigger] self.entries@[j]).0@ == q;
                        let oj = if j < i { j } else { j + 1 };
                        assert(old_entries[oj].0@ == q);
                        assert(oj != i);
                    }
                    if old(self).has_key(q) && q != k {
                        let j = choose|j: int| 0 <= j < old_entries.len() && (#[trigger] old_entries[j]).0@ == q;
                        assert(j != i);
                        let nj = if j < i { j } else { j - 1 };
                        assert(self.entries@[nj].0@ == q);
                    }
                }
                assert forall|q: Seq<char>| #![auto] self.has_key(q) implies self.map()[q] == old(self).map()[q] by {
                    let j = self.index_of(q);
                    self.lemma_entry(j);
                    let oj = if j < i { j } else { j + 1 };
                    assert(old_entries[oj] == self.entries@[j]);
                    old(self).lemma_entry(oj);
                }
                assert(self.map() =~= old(self).map().remove(k));
            },
            None => {
                assert(self.map() =~= old(self).map().remove(key@));
            },
        }
    }
}

} // verus!
