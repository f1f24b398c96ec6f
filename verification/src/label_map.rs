//! A map from string labels to values, stored as a vector of entries with
//! pairwise-distinct keys. It stands in for a hash map where the order of the
//! entries matters to callers: iteration follows insertion order, and the
//! mathematical `Map` it denotes is exposed through [`map_of`].

use vstd::prelude::*;

verus! {

/// A label-keyed map. The entry order is part of the view; the denoted
/// mathematical map is `self.as_map()`.
pub struct LabelMap<T> {
    entries: Vec<(String, T)>,
}

impl<T> View for LabelMap<T> {
    type V = Seq<(Seq<char>, T)>;

    closed spec fn view(&self) -> Seq<(Seq<char>, T)> {
        self.entries@.map_values(|e: (String, T)| (e.0@, e.1))
    }
}

/// The keys of the entries are pairwise distinct.
pub open spec fn entries_wf<T>(s: Seq<(Seq<char>, T)>) -> bool {
    forall|i: int, j: int|
        0 <= i < s.len() && 0 <= j < s.len() && i != j ==> (#[trigger] s[i]).0 != (#[trigger] s[j]).0
}

/// Whether some entry of `s` carries the key `k`.
pub open spec fn seq_contains_key<T>(s: Seq<(Seq<char>, T)>, k: Seq<char>) -> bool {
    exists|i: int| 0 <= i < s.len() && (#[trigger] s[i]).0 == k
}

/// The position of the entry carrying `k`; meaningful when the keys are
/// distinct and `k` is present.
pub open spec fn index_of_key<T>(s: Seq<(Seq<char>, T)>, k: Seq<char>) -> int {
    choose|i: int| 0 <= i < s.len() && (#[trigger] s[i]).0 == k
}

/// The mathematical map denoted by a sequence of entries; a later entry wins
/// over an earlier one with the same key.
pub open spec fn map_of<T>(s: Seq<(Seq<char>, T)>) -> Map<Seq<char>, T>
    decreases s.len(),
{
    if s.len() == 0 {
        Map::empty()
    } else {
        map_of(s.drop_last()).insert(s.last().0, s.last().1)
    }
}

/// A key is in the denoted map exactly when some entry carries it.
pub proof fn lemma_map_of_dom<T>(s: Seq<(Seq<char>, T)>)
    ensures
        forall|k: Seq<char>| #[trigger]
            map_of(s).dom().contains(k) <==> seq_contains_key(s, k),
    decreases s.len(),
{
    if s.len() > 0 {
        lemma_map_of_dom(s.drop_last());
        assert forall|k: Seq<char>| #[trigger]
            map_of(s).dom().contains(k) <==> seq_contains_key(s, k) by {
            if map_of(s).dom().contains(k) {
                if k == s.last().0 {
                    assert((#[trigger] s[s.len() - 1]).0 == k);
                } else {
                    assert(map_of(s.drop_last()).dom().contains(k));
                    assert(seq_contains_key(s.drop_last(), k));
                    let i = choose|i: int|
                        0 <= i < s.drop_last().len() && (#[trigger] s.drop_last()[i]).0 == k;
                    assert(s.drop_last()[i] == s[i]);
                    assert((#[trigger] s[i]).0 == k);
                }
                assert(seq_contains_key(s, k));
            }
            if seq_contains_key(s, k) {
                let i = choose|i: int| 0 <= i < s.len() && (#[trigger] s[i]).0 == k;
                if i < s.len() - 1 {
                    assert((#[trigger] s.drop_last()[i]).0 == k);
                    assert(seq_contains_key(s.drop_last(), k));
                    assert(map_of(s.drop_last()).dom().contains(k));
                }
                assert(map_of(s).dom().contains(k));
            }
        }
    }
}

/// With distinct keys, the denoted map sends each key to its entry's value.
pub proof fn lemma_map_of_index<T>(s: Seq<(Seq<char>, T)>, i: int)
    requires
        entries_wf(s),
        0 <= i < s.len(),
    ensures
        map_of(s).dom().contains(s[i].0),
        map_of(s)[s[i].0] == s[i].1,
    decreases s.len(),
{
    lemma_map_of_dom(s);
    if i < s.len() - 1 {
        assert(entries_wf(s.drop_last()));
        lemma_map_of_index(s.drop_last(), i);
        assert(s[i].0 != s.last().0);
    }
}

/// Appending an entry inserts its pair into the denoted map.
pub proof fn lemma_map_of_push<T>(s: Seq<(Seq<char>, T)>, k: Seq<char>, v: T)
    ensures
        map_of(s.push((k, v))) == map_of(s).insert(k, v),
{
    assert(s.push((k, v)).drop_last() =~= s);
    assert(s.push((k, v)).last() == (k, v));
}

/// Overwriting the entry that carries `k` inserts the new pair into the
/// denoted map.
pub proof fn lemma_map_of_update<T>(s: Seq<(Seq<char>, T)>, j: int, k: Seq<char>, v: T)
    requires
        entries_wf(s),
        0 <= j < s.len(),
        s[j].0 == k,
    ensures
        map_of(s.update(j, (k, v))) == map_of(s).insert(k, v),
    decreases s.len(),
{
    let t = s.update(j, (k, v));
    if j == s.len() - 1 {
        assert(t.drop_last() =~= s.drop_last());
        assert(map_of(t) == map_of(s.drop_last()).insert(k, v));
        assert(map_of(s).insert(k, v) =~= map_of(s.drop_last()).insert(k, v));
    } else {
        assert(entries_wf(s.drop_last()));
        assert(s.drop_last()[j] == s[j]);
        lemma_map_of_update(s.drop_last(), j, k, v);
        assert(t.drop_last() =~= s.drop_last().update(j, (k, v)));
        assert(t.last() == s.last());
        assert(s[j].0 != s.last().0);
        assert(map_of(t) == map_of(s.drop_last()).insert(k, v).insert(s.last().0, s.last().1));
        assert(map_of(s.drop_last()).insert(k, v).insert(s.last().0, s.last().1) =~= map_of(
            s.drop_last(),
        ).insert(s.last().0, s.last().1).insert(k, v));
    }
}

impl<T> LabelMap<T> {
    /// The keys of the stored entries are pairwise distinct.
    pub open spec fn wf(&self) -> bool {
        entries_wf(self@)
    }

    /// The mathematical map this value denotes.
    pub open spec fn as_map(&self) -> Map<Seq<char>, T> {
        map_of(self@)
    }

    pub fn new() -> (m: Self)
        ensures
            m@ == Seq::<(Seq<char>, T)>::empty(),
            m.wf(),
    {
        let m = LabelMap { entries: Vec::new() };
        proof {
            assert(m@ =~= Seq::<(Seq<char>, T)>::empty());
        }
        m
    }

    pub fn len(&self) -> (n: usize)
        ensures
            n == self@.len(),
    {
        self.entries.len()
    }

    pub fn is_empty(&self) -> (b: bool)
        ensures
            b <==> self@.len() == 0,
    {
        self.entries.len() == 0
    }

    /// The label at position `i`, in insertion order.
    pub fn key_at(&self, i: usize) -> (k: &String)
        requires
            i < self@.len(),
        ensures
            k@ == self@[i as int].0,
    {
        &self.entries[i].0
    }

    /// The value at position `i`, in insertion order.
    pub fn value_at(&self, i: usize) -> (v: &T)
        requires
            i < self@.len(),
        ensures
            *v == self@[i as int].1,
    {
        &self.entries[i].1
    }

    pub fn contains_key(&self, k: &String) -> (b: bool)
        requires
            self.wf(),
        ensures
            b == self.as_map().dom().contains(k@),
            b == seq_contains_key(self@, k@),
    {
        proof {
            lemma_map_of_dom(self@);
        }
        let n = self.entries.len();
        let mut i: usize = 0;
        while i < n
            invariant
                n == self@.len(),
                i <= n,
                forall|j: int| 0 <= j < i ==> (#[trigger] self@[j]).0 != k@,
            decreases n - i,
        {
            if self.entries[i].0 == *k {
                proof {
                    lemma_map_of_dom(self@);
                    assert((#[trigger] self@[i as int]).0 == k@);
                    assert(seq_contains_key(self@, k@));
                }
                return true;
            }
            i = i + 1;
        }
        false
    }

    pub fn get(&self, k: &String) -> (r: Option<&T>)
        requires
            self.wf(),
        ensures
            match r {
                Some(v) => self.as_map().dom().contains(k@) && *v == self.as_map()[k@],
                None => !self.as_map().dom().contains(k@),
            },
    {
        proof {
            lemma_map_of_dom(self@);
        }
        let n = self.entries.len();
        let mut i: usize = 0;
        while i < n
            invariant
                self.wf(),
                n == self@.len(),
                i <= n,
                forall|j: int| 0 <= j < i ==> (#[trigger] self@[j]).0 != k@,
            decreases n - i,
        {
            if self.entries[i].0 == *k {
                proof {
                    lemma_map_of_dom(self@);
                    lemma_map_of_index(self@, i as int);
                }
                return Some(&self.entries[i].1);
            }
            i = i + 1;
        }
        None
    }

    /// Insert a pair. An existing entry with the same label is overwritten in
    /// place; a new label is appended at the end.
    pub fn insert(&mut self, k: String, v: T)
        requires
            old(self).wf(),
        ensures
            final(self).wf(),
            final(self).as_map() == old(self).as_map().insert(k@, v),
            seq_contains_key(old(self)@, k@) ==> final(self)@ == old(self)@.update(
                index_of_key(old(self)@, k@),
                (k@, v),
            ),
            !seq_contains_key(old(self)@, k@) ==> final(self)@ == old(self)@.push((k@, v)),
    {
        let n = self.entries.len();
        let mut i: usize = 0;
        while i < n
            invariant
                self.wf(),
                *self == *old(self),
                n == self@.len(),
                i <= n,
                forall|j: int| 0 <= j < i ==> (#[trigger] self@[j]).0 != k@,
            decreases n - i,
        {
            if self.entries[i].0 == k {
                proof {
                    assert(self@[i as int].0 == k@);
                    assert(index_of_key(self@, k@) == i as int) by {
                        let w = index_of_key(self@, k@);
                        assert(0 <= w < self@.len() && self@[w].0 == k@);
                    }
                    lemma_map_of_update(self@, i as int, k@, v);
                }
                let ghost prior = self@;
                self.entries[i] = (k, v);
                proof {
                    assert(self@ =~= prior.update(i as int, (k@, v)));
                    assert(self.wf());
                }
                return;
            }
            i = i + 1;
        }
        proof {
            assert(!seq_contains_key(self@, k@));
            lemma_map_of_push(self@, k@, v);
        }
        let ghost prior = self@;
        self.entries.push((k, v));
        proof {
            assert(self@ =~= prior.push((k@, v)));
            assert forall|a: int, b: int|
                0 <= a < self@.len() && 0 <= b < self@.len() && a != b implies (#[trigger] self@[a]).0
                != (#[trigger] self@[b]).0 by {
                if a < self@.len() - 1 && b < self@.len() - 1 {
                    assert(prior[a].0 != prior[b].0);
                }
            }
        }
    }
}

impl<T: Copy> LabelMap<T> {
    /// A copy of the map: same entries, in the same order.
    pub fn duplicate(&self) -> (m: Self)
        ensures
            m@ == self@,
            m.wf() == self.wf(),
    {
        let n = self.entries.len();
        let mut entries: Vec<(String, T)> = Vec::new();
        let mut i: usize = 0;
        while i < n
            invariant
                n == self.entries@.len(),
                i <= n,
                entries@ =~= self.entries@.take(i as int),
            decreases n - i,
        {
            entries.push((self.entries[i].0.clone(), self.entries[i].1));
            proof {
                assert(entries@ =~= self.entries@.take(i + 1));
            }
            i = i + 1;
        }
        proof {
            assert(entries@ =~= self.entries@);
        }
        let m = LabelMap { entries };
        proof {
            assert(m@ =~= self@);
        }
        m
    }
}

} // verus!
