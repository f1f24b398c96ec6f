//! A map whose entries expire: each insertion stamps the entry with a
//! deadline, lookups past the deadline answer as if the entry were gone, and
//! expired entries can be swept out. Time is plain seconds, handed in by the
//! caller.

use crate::label_map::{
    entries_wf, index_of_key, lemma_map_of_dom, lemma_map_of_index, lemma_map_of_update, map_of,
    seq_contains_key,
};
use vstd::prelude::*;

verus! {

/// A stored value together with the time it expires.
pub struct ValueContainer<V> {
    pub value: V,
    pub expire_time: u64,
}

impl<V> ValueContainer<V> {
    pub fn new(value: V, expire_time: u64) -> (c: Self)
        ensures
            c.value == value,
            c.expire_time == expire_time,
    {
        ValueContainer { value, expire_time }
    }
}

/// A string-keyed map whose entries live `time_to_live` seconds.
pub struct ExpiringMap<V> {
    entries: Vec<(String, ValueContainer<V>)>,
    time_to_live: u64,
}

impl<V> View for ExpiringMap<V> {
    type V = Seq<(Seq<char>, ValueContainer<V>)>;

    closed spec fn view(&self) -> Seq<(Seq<char>, ValueContainer<V>)> {
        self.entries@.map_values(|e: (String, ValueContainer<V>)| (e.0@, e.1))
    }
}

/// The value a lookup at time `t` finds in the denoted map: present and not
/// yet expired.
pub open spec fn live_value<V>(
    m: Map<Seq<char>, ValueContainer<V>>,
    k: Seq<char>,
    t: u64,
) -> Option<V> {
    if m.dom().contains(k) && t <= m[k].expire_time {
        Some(m[k].value)
    } else {
        None
    }
}

/// The entries of `s` that are not yet expired at time `t`, in order.
pub open spec fn live_entries<V>(s: Seq<(Seq<char>, ValueContainer<V>)>, t: u64) -> Seq<
    (Seq<char>, ValueContainer<V>),
>
    decreases s.len(),
{
    if s.len() == 0 {
        Seq::empty()
    } else {
        let rest = live_entries(s.drop_last(), t);
        if t <= s.last().1.expire_time {
            rest.push(s.last())
        } else {
            rest
        }
    }
}

/// Every live entry is one of the original entries.
proof fn lemma_live_entries_sub<V>(s: Seq<(Seq<char>, ValueContainer<V>)>, t: u64)
    ensures
        forall|j: int|
            0 <= j < live_entries(s, t).len() ==> exists|i: int|
                0 <= i < s.len() && (#[trigger] live_entries(s, t)[j]) == s[i],
    decreases s.len(),
{
    if s.len() > 0 {
        let rest = live_entries(s.drop_last(), t);
        lemma_live_entries_sub(s.drop_last(), t);
        assert forall|j: int| 0 <= j < live_entries(s, t).len() implies exists|i: int|
            0 <= i < s.len() && (#[trigger] live_entries(s, t)[j]) == s[i] by {
            if j < rest.len() {
                assert(live_entries(s, t)[j] == rest[j]);
                let w = choose|w: int|
                    0 <= w < s.drop_last().len() && (#[trigger] rest[j]) == s.drop_last()[w];
                assert(live_entries(s, t)[j] == s[w]);
            } else {
                assert(live_entries(s, t)[j] == s[s.len() - 1]);
            }
        }
    }
}

/// Sweeping keeps the keys pairwise distinct.
proof fn lemma_live_entries_wf<V>(s: Seq<(Seq<char>, ValueContainer<V>)>, t: u64)
    requires
        entries_wf(s),
    ensures
        entries_wf(live_entries(s, t)),
        forall|k: Seq<char>|
            seq_contains_key(live_entries(s, t), k) ==> seq_contains_key(s, k),
    decreases s.len(),
{
    lemma_live_entries_sub(s, t);
    let live = live_entries(s, t);
    assert forall|a: int, b: int|
        0 <= a < live.len() && 0 <= b < live.len() && a != b implies (#[trigger] live[a]).0 != (
    #[trigger] live[b]).0 by {
        let ia = choose|i: int| 0 <= i < s.len() && live[a] == s[i];
        let ib = choose|i: int| 0 <= i < s.len() && live[b] == s[i];
        if ia == ib {
            // Two distinct positions of `live` cannot come from one original
            // position: the live entries at distinct positions differ.
            lemma_live_entries_distinct_positions(s, t, a, b);
        }
    }
    assert forall|k: Seq<char>| seq_contains_key(live, k) implies seq_contains_key(s, k) by {
        let j = choose|j: int| 0 <= j < live.len() && (#[trigger] live[j]).0 == k;
        let i = choose|i: int| 0 <= i < s.len() && live[j] == s[i];
        assert((#[trigger] s[i]).0 == k);
    }
}

/// Distinct positions of the live entries come from distinct original
/// positions, because the live entries preserve the original order.
proof fn lemma_live_entries_distinct_positions<V>(
    s: Seq<(Seq<char>, ValueContainer<V>)>,
    t: u64,
    a: int,
    b: int,
)
    requires
        entries_wf(s),
        0 <= a < live_entries(s, t).len(),
        0 <= b < live_entries(s, t).len(),
        a != b,
    ensures
        live_entries(s, t)[a].0 != live_entries(s, t)[b].0,
    decreases s.len(),
{
    let live = live_entries(s, t);
    let rest = live_entries(s.drop_last(), t);
    assert(s.len() > 0);
    assert(entries_wf(s.drop_last()));
    lemma_live_entries_sub(s.drop_last(), t);
    if a < rest.len() && b < rest.len() {
        lemma_live_entries_distinct_positions(s.drop_last(), t, a, b);
        assert(live[a] == rest[a] && live[b] == rest[b]);
    } else {
        // One of the two is the pushed last entry; the other comes from the
        // dropped prefix, whose keys all differ from the last key.
        let (lo, hi) = if a < b {
            (a, b)
        } else {
            (b, a)
        };
        assert(hi == rest.len() && lo < rest.len());
        assert(live[hi] == s.last());
        assert(live[lo] == rest[lo]);
        let w = choose|w: int| 0 <= w < s.drop_last().len() && (#[trigger] rest[lo]) == s.drop_last()[w];
        assert(s.drop_last()[w] == s[w]);
        assert(s[w].0 != s[s.len() - 1].0);
    }
}

impl<V> ExpiringMap<V> {
    /// The keys of the stored entries are pairwise distinct.
    pub open spec fn wf(&self) -> bool {
        entries_wf(self@)
    }

    /// The mathematical map this value denotes, deadlines included.
    pub open spec fn as_map(&self) -> Map<Seq<char>, ValueContainer<V>> {
        map_of(self@)
    }

    /// How long an inserted entry lives.
    pub closed spec fn spec_ttl(&self) -> u64 {
        self.time_to_live
    }

    pub fn new(time_to_live: u64) -> (m: Self)
        ensures
            m@ == Seq::<(Seq<char>, ValueContainer<V>)>::empty(),
            m.spec_ttl() == time_to_live,
            m.wf(),
    {
        let m = ExpiringMap { entries: Vec::new(), time_to_live };
        proof {
            assert(m@ =~= Seq::<(Seq<char>, ValueContainer<V>)>::empty());
        }
        m
    }

    pub fn len(&self) -> (n: usize)
        ensures
            n == self@.len(),
    {
        self.entries.len()
    }

    /// Store `v` under `k` until `current_time` plus the map's time to live;
    /// hand back the value this replaces, unless it had already expired.
    pub fn insert(&mut self, k: String, v: V, current_time: u64) -> (prev: Option<V>)
        requires
            old(self).wf(),
            current_time + old(self).spec_ttl() <= u64::MAX,
        ensures
            final(self).wf(),
            final(self).spec_ttl() == old(self).spec_ttl(),
            final(self).as_map() == old(self).as_map().insert(
                k@,
                (ValueContainer {
                    value: v,
                    expire_time: (current_time + old(self).spec_ttl()) as u64,
                }),
            ),
            prev == live_value(old(self).as_map(), k@, current_time),
    {
        proof {
            lemma_map_of_dom(self@);
        }
        let expire_time = current_time + self.time_to_live;
        let n = self.entries.len();
        let mut i: usize = 0;
        while i < n
            invariant
                self.wf(),
                *self == *old(self),
                expire_time == current_time + old(self).spec_ttl(),
                n == self@.len(),
                i <= n,
                forall|j: int| 0 <= j < i ==> (#[trigger] self@[j]).0 != k@,
            decreases n - i,
        {
            if self.entries[i].0 == k {
                proof {
                    lemma_map_of_dom(self@);
                    lemma_map_of_index(self@, i as int);
                    assert(index_of_key(self@, k@) == i as int) by {
                        let w = index_of_key(self@, k@);
                        assert((#[trigger] self@[i as int]).0 == k@);
                        assert(0 <= w < self@.len() && self@[w].0 == k@);
                    }
                    lemma_map_of_update(self@, i as int, k@, (ValueContainer { value: v, expire_time }));
                }
                let ghost prior = self@;
                let mut pair = (k, ValueContainer { value: v, expire_time });
                core::mem::swap(&mut pair, &mut self.entries[i]);
                proof {
                    assert(self@ =~= prior.update(i as int, (pair.0@, ValueContainer { value: v, expire_time })));
                    assert(self.wf());
                }
                return if current_time <= pair.1.expire_time {
                    Some(pair.1.value)
                } else {
                    None
                };
            }
            i = i + 1;
        }
        proof {
            lemma_map_of_dom(self@);
            assert(!seq_contains_key(self@, k@));
            crate::label_map::lemma_map_of_push(self@, k@, (ValueContainer { value: v, expire_time }));
        }
        let ghost prior = self@;
        self.entries.push((k, ValueContainer { value: v, expire_time }));
        proof {
            assert(self@ =~= prior.push((k@, ValueContainer { value: v, expire_time })));
            assert forall|a: int, b: int|
                0 <= a < self@.len() && 0 <= b < self@.len() && a != b implies (#[trigger] self@[a]).0
                != (#[trigger] self@[b]).0 by {
                if a < self@.len() - 1 && b < self@.len() - 1 {
                    assert(prior[a].0 != prior[b].0);
                }
            }
        }
        None
    }

    /// The value stored under `k`, unless it is absent or expired at
    /// `current_time`.
    pub fn get(&self, k: &String, current_time: u64) -> (r: Option<&V>)
        requires
            self.wf(),
        ensures
            match r {
                Some(v) => live_value(self.as_map(), k@, current_time) == Some(*v),
                None => live_value(self.as_map(), k@, current_time) is None,
            },
    {
        let n = self.entries.len();
        let mut i: usize = 0;
        while i < n
            invariant
                self.wf(),
                n == self@.len(),
                i <= n,
                forall|j: int| 0 <= j < i ==> (#[trigger] self@[j]).0 != k@,
            decreases n - i,
        {
            if self.entries[i].0 == *k {
                proof {
                    lemma_map_of_dom(self@);
                    lemma_map_of_index(self@, i as int);
                }
                return if current_time <= self.entries[i].1.expire_time {
                    Some(&self.entries[i].1.value)
                } else {
                    None
                };
            }
            i = i + 1;
        }
        proof {
            lemma_map_of_dom(self@);
        }
        None
    }

    /// A mutable borrow of the value stored under `k`, unless it is absent
    /// or expired at `current_time`. The deadline stays as it was.
    pub fn get_mut(&mut self, k: &String, current_time: u64) -> (r: Option<&mut V>)
        requires
            old(self).wf(),
        ensures
            match r {
                Some(v) => {
                    &&& live_value(old(self).as_map(), k@, current_time) == Some(*v)
                    &&& final(self)@.len() == old(self)@.len()
                    &&& final(self).spec_ttl() == old(self).spec_ttl()
                    &&& ({
                        let idx = index_of_key(old(self)@, k@);
                        &&& forall|j: int|
                            0 <= j < old(self)@.len() && j != idx ==> final(self)@[j] == old(
                                self,
                            )@[j]
                        &&& final(self)@[idx] == (
                            k@,
                            (ValueContainer {
                                value: *final(v),
                                expire_time: old(self).as_map()[k@].expire_time,
                            }),
                        )
                    })
                },
                None => {
                    &&& live_value(old(self).as_map(), k@, current_time) is None
                    &&& *final(self) == *old(self)
                },
            },
    {
        let n = self.entries.len();
        let mut i: usize = 0;
        while i < n
            invariant
                self.wf(),
                *self == *old(self),
                n == self@.len(),
                i <= n,
                forall|j: int| 0 <= j < i ==> (#[trigger] self@[j]).0 != k@,
            decreases n - i,
        {
            if self.entries[i].0 == *k {
                proof {
                    lemma_map_of_dom(self@);
                    lemma_map_of_index(self@, i as int);
                    assert(index_of_key(self@, k@) == i as int) by {
                        let w = index_of_key(self@, k@);
                        assert((#[trigger] self@[i as int]).0 == k@);
                        assert(0 <= w < self@.len() && self@[w].0 == k@);
                    }
                }
                if current_time <= self.entries[i].1.expire_time {
                    let r = &mut self.entries[i].1.value;
                    return Some(r);
                } else {
                    return None;
                }
            }
            i = i + 1;
        }
        proof {
            lemma_map_of_dom(self@);
        }
        None
    }

    /// Drop every entry that is expired at `current_time`.
    pub fn remove_expired_entries(&mut self, current_time: u64)
        requires
            old(self).wf(),
        ensures
            final(self).wf(),
            final(self)@ == live_entries(old(self)@, current_time),
            final(self).spec_ttl() == old(self).spec_ttl(),
    {
        let ghost orig = self@;
        let mut source: Vec<(String, ValueContainer<V>)> = Vec::new();
        core::mem::swap(&mut source, &mut self.entries);
        proof {
            assert(self@ =~= Seq::<(Seq<char>, ValueContainer<V>)>::empty());
            assert(source@.map_values(|e: (String, ValueContainer<V>)| (e.0@, e.1)) == orig);
            assert(orig.subrange(0, orig.len() as int) =~= orig);
            assert(live_entries(orig.take(0), current_time) =~= Seq::<
                (Seq<char>, ValueContainer<V>),
            >::empty());
        }
        let n = source.len();
        let mut i: usize = 0;
        while i < n
            invariant
                n == orig.len(),
                i <= n,
                self.spec_ttl() == old(self).spec_ttl(),
                source@.len() == n - i,
                source@.map_values(|e: (String, ValueContainer<V>)| (e.0@, e.1)) == orig.subrange(
                    i as int,
                    n as int,
                ),
                self@ == live_entries(orig.take(i as int), current_time),
            decreases n - i,
        {
            let ghost before = source@;
            let entry = source.remove(0);
            proof {
                let ghost oi = orig[i as int];
                assert(before.map_values(|e: (String, ValueContainer<V>)| (e.0@, e.1))[0] == oi);
                assert(before.map_values(|e: (String, ValueContainer<V>)| (e.0@, e.1))[0] == (
                before[0].0@,
                before[0].1,
                ));
                assert((entry.0@, entry.1) == orig[i as int]);
                assert(source@ =~= before.subrange(1, before.len() as int));
                assert(source@.map_values(|e: (String, ValueContainer<V>)| (e.0@, e.1))
                    =~= before.map_values(|e: (String, ValueContainer<V>)| (e.0@, e.1)).subrange(
                    1,
                    before.len() as int,
                ));
                assert(orig.subrange(i as int, n as int).subrange(1, (n - i) as int)
                    =~= orig.subrange(i + 1, n as int));
                assert(source@.map_values(|e: (String, ValueContainer<V>)| (e.0@, e.1))
                    =~= orig.subrange(i + 1, n as int));
                assert(orig.take(i + 1).drop_last() =~= orig.take(i as int));
                assert(orig.take(i + 1).last() == orig[i as int]);
            }
            let ghost prior = self@;
            if current_time <= entry.1.expire_time {
                self.entries.push(entry);
                proof {
                    assert(self@ =~= prior.push(orig[i as int]));
                }
            }
            i = i + 1;
        }
        proof {
            assert(orig.take(n as int) =~= orig);
            lemma_live_entries_wf(orig, current_time);
        }
    }
}

} // verus!
