//! The aggregate status summary: how many labels of all alerts currently
//! carry each status kind. It backs the pinned summary message.

use crate::state::AlertState;
use crate::status::AlertStatus;
use vstd::multiset::Multiset;
use vstd::prelude::*;

verus! {

/// One line of the status overview: a label, its status, and when the status
/// was entered (0 when unknown).
pub struct LabelRecency {
    pub label: String,
    pub status: AlertStatus,
    pub changed_at: u64,
}

/// The spec-level shape of a [`LabelRecency`].
pub open spec fn recency_view(r: LabelRecency) -> (Seq<char>, AlertStatus, u64) {
    (r.label@, r.status, r.changed_at)
}

/// What the status overview of one alert lists: every label of the state
/// with its status and transition time, in storage order.
pub open spec fn recency_of(state: AlertState) -> Seq<(Seq<char>, AlertStatus, u64)> {
    Seq::new(
        state.status@.len(),
        |i: int|
            (
                state.status@[i].0,
                state.status@[i].1,
                if state.status_last_changed.as_map().dom().contains(state.status@[i].0) {
                    state.status_last_changed.as_map()[state.status@[i].0]
                } else {
                    0u64
                },
            ),
    )
}

proof fn lemma_empty_recency_multiset()
    ensures
        Seq::<(Seq<char>, AlertStatus, u64)>::empty().to_multiset() == Multiset::<
            (Seq<char>, AlertStatus, u64),
        >::empty(),
{
    let emp = Seq::<(Seq<char>, AlertStatus, u64)>::empty();
    emp.to_multiset_ensures();
    assert forall|x: (Seq<char>, AlertStatus, u64)| emp.to_multiset().count(x) == 0 by {
        assert(!emp.contains(x));
    }
    assert(emp.to_multiset() =~= Multiset::empty());
}

/// The labels of one alert with their statuses and transition times, newest
/// transition first: the same lines as [`recency_of`], reordered.
pub fn sorted_by_recency(state: &AlertState) -> (r: Vec<LabelRecency>)
    requires
        state.wf(),
    ensures
        r@.map_values(|e: LabelRecency| recency_view(e)).to_multiset() == recency_of(
            *state,
        ).to_multiset(),
        forall|i: int, j: int|
            0 <= i < j < r@.len() ==> (#[trigger] r@[i]).changed_at >= (#[trigger] r@[j]).changed_at,
{
    let ghost target = recency_of(*state);
    let mut work: Vec<LabelRecency> = Vec::new();
    let n = state.status.len();
    let mut i: usize = 0;
    while i < n
        invariant
            state.wf(),
            target == recency_of(*state),
            n == state.status@.len(),
            i <= n,
            work@.map_values(|e: LabelRecency| recency_view(e)) =~= target.take(i as int),
        decreases n - i,
    {
        let label = state.status.key_at(i).clone();
        let status = *state.status.value_at(i);
        let changed_at = state.status_last_changed(label.clone());
        let ghost prior = work@.map_values(|e: LabelRecency| recency_view(e));
        work.push(LabelRecency { label, status, changed_at });
        proof {
            assert(work@.map_values(|e: LabelRecency| recency_view(e)) =~= prior.push(
                target[i as int],
            ));
            assert(work@.map_values(|e: LabelRecency| recency_view(e)) =~= target.take(i + 1));
        }
        i = i + 1;
    }
    proof {
        assert(target.take(n as int) =~= target);
    }

    let mut out: Vec<LabelRecency> = Vec::new();
    proof {
        assert(out@.map_values(|e: LabelRecency| recency_view(e)) =~= Seq::<
            (Seq<char>, AlertStatus, u64),
        >::empty());
        lemma_empty_recency_multiset();
        assert(Multiset::<(Seq<char>, AlertStatus, u64)>::empty().add(target.to_multiset())
            =~= target.to_multiset());
    }
    while work.len() > 0
        invariant
            out@.map_values(|e: LabelRecency| recency_view(e)).to_multiset().add(
                work@.map_values(|e: LabelRecency| recency_view(e)).to_multiset(),
            ) =~= target.to_multiset(),
            forall|i: int, j: int|
                0 <= i < j < out@.len() ==> (#[trigger] out@[i]).changed_at >= (
                #[trigger] out@[j]).changed_at,
            forall|i: int, j: int|
                0 <= i < out@.len() && 0 <= j < work@.len() ==> (#[trigger] out@[i]).changed_at
                    >= (#[trigger] work@[j]).changed_at,
        decreases work@.len(),
    {
        let m = position_of_newest(&work);
        let ghost before = work@.map_values(|e: LabelRecency| recency_view(e));
        let ghost picked = work@[m as int];
        let e = work.remove(m);
        proof {
            assert(work@.map_values(|e: LabelRecency| recency_view(e)) =~= before.remove(
                m as int,
            ));
            before.to_multiset_ensures();
            assert(before.remove(m as int).to_multiset() =~= before.to_multiset().remove(
                before[m as int],
            ));
            assert(before.to_multiset().count(before[m as int]) > 0) by {
                assert(before.contains(before[m as int]));
            }
        }
        let ghost out_before = out@.map_values(|e: LabelRecency| recency_view(e));
        out.push(e);
        proof {
            assert(out@.map_values(|e: LabelRecency| recency_view(e)) =~= out_before.push(
                recency_view(picked),
            ));
            out_before.to_multiset_ensures();
            assert(out_before.push(recency_view(picked)).to_multiset() =~= out_before.to_multiset()
                .insert(recency_view(picked)));
            assert(recency_view(picked) == before[m as int]);
            assert(out_before.to_multiset().insert(before[m as int]).add(
                before.to_multiset().remove(before[m as int]),
            ) =~= out_before.to_multiset().add(before.to_multiset()));
        }
    }
    proof {
        assert(work@.map_values(|e: LabelRecency| recency_view(e)) =~= Seq::<
            (Seq<char>, AlertStatus, u64),
        >::empty());
        lemma_empty_recency_multiset();
        assert(out@.map_values(|e: LabelRecency| recency_view(e)).to_multiset().add(
            Multiset::<(Seq<char>, AlertStatus, u64)>::empty(),
        ) =~= out@.map_values(|e: LabelRecency| recency_view(e)).to_multiset());
        assert(out@.map_values(|e: LabelRecency| recency_view(e)).to_multiset()
            =~= target.to_multiset());
    }
    out
}

/// The position of an entry with the newest transition time.
fn position_of_newest(work: &Vec<LabelRecency>) -> (m: usize)
    requires
        work@.len() > 0,
    ensures
        m < work@.len(),
        forall|j: int| 0 <= j < work@.len() ==> work@[m as int].changed_at >= (#[trigger] work@[j]).changed_at,
{
    let mut m: usize = 0;
    let mut k: usize = 1;
    while k < work.len()
        invariant
            m < k,
            k <= work@.len(),
            forall|j: int| 0 <= j < k ==> work@[m as int].changed_at >= (#[trigger] work@[j]).changed_at,
        decreases work@.len() - k,
    {
        if work[k].changed_at > work[m].changed_at {
            m = k;
        }
        k = k + 1;
    }
    m
}

/// Number of labels per status kind across a set of alert states.
#[derive(Clone, Copy, Debug, PartialEq, Eq, Structural)]
pub struct StatusCounts {
    pub ok: usize,
    pub err: usize,
    pub no_data: usize,
}

/// How many entries of one state's status map carry `st`.
pub open spec fn count_entries_with(s: Seq<(Seq<char>, AlertStatus)>, st: AlertStatus) -> nat
    decreases s.len(),
{
    if s.len() == 0 {
        0
    } else {
        count_entries_with(s.drop_last(), st) + if s.last().1 == st {
            1nat
        } else {
            0nat
        }
    }
}

/// How many labels across all states carry `st`.
pub open spec fn count_states_with(states: Seq<AlertState>, st: AlertStatus) -> nat
    decreases states.len(),
{
    if states.len() == 0 {
        0
    } else {
        count_states_with(states.drop_last(), st) + count_entries_with(
            states.last().status@,
            st,
        )
    }
}

proof fn lemma_count_entries_prefix(s: Seq<(Seq<char>, AlertStatus)>, st: AlertStatus, j: int)
    requires
        0 <= j <= s.len(),
    ensures
        count_entries_with(s.take(j), st) <= count_entries_with(s, st),
    decreases s.len() - j,
{
    if j < s.len() {
        assert(s.take(j + 1).drop_last() =~= s.take(j));
        lemma_count_entries_prefix(s, st, j + 1);
    } else {
        assert(s.take(j) =~= s);
    }
}

proof fn lemma_count_states_prefix(states: Seq<AlertState>, st: AlertStatus, i: int)
    requires
        0 <= i <= states.len(),
    ensures
        count_states_with(states.take(i), st) <= count_states_with(states, st),
    decreases states.len() - i,
{
    if i < states.len() {
        assert(states.take(i + 1).drop_last() =~= states.take(i));
        lemma_count_states_prefix(states, st, i + 1);
    } else {
        assert(states.take(i) =~= states);
    }
}

/// Count the labels per status kind across all alert states; the input of
/// the pinned summary refresh after a pass.
pub fn status_counts(states: &Vec<AlertState>) -> (c: StatusCounts)
    requires
        count_states_with(states@, AlertStatus::Okay) <= usize::MAX,
        count_states_with(states@, AlertStatus::Firing) <= usize::MAX,
        count_states_with(states@, AlertStatus::NoData) <= usize::MAX,
    ensures
        c.ok == count_states_with(states@, AlertStatus::Okay),
        c.err == count_states_with(states@, AlertStatus::Firing),
        c.no_data == count_states_with(states@, AlertStatus::NoData),
{
    let mut c = StatusCounts { ok: 0, err: 0, no_data: 0 };
    let n = states.len();
    let mut i: usize = 0;
    while i < n
        invariant
            n == states@.len(),
            i <= n,
            count_states_with(states@, AlertStatus::Okay) <= usize::MAX,
            count_states_with(states@, AlertStatus::Firing) <= usize::MAX,
            count_states_with(states@, AlertStatus::NoData) <= usize::MAX,
            c.ok == count_states_with(states@.take(i as int), AlertStatus::Okay),
            c.err == count_states_with(states@.take(i as int), AlertStatus::Firing),
            c.no_data == count_states_with(states@.take(i as int), AlertStatus::NoData),
        decreases n - i,
    {
        let ghost entries = states@[i as int].status@;
        let m = states[i].status.len();
        let mut j: usize = 0;
        while j < m
            invariant
                n == states@.len(),
                i < n,
                entries == states@[i as int].status@,
                m == entries.len(),
                j <= m,
                count_states_with(states@, AlertStatus::Okay) <= usize::MAX,
                count_states_with(states@, AlertStatus::Firing) <= usize::MAX,
                count_states_with(states@, AlertStatus::NoData) <= usize::MAX,
                c.ok == count_states_with(states@.take(i as int), AlertStatus::Okay)
                    + count_entries_with(entries.take(j as int), AlertStatus::Okay),
                c.err == count_states_with(states@.take(i as int), AlertStatus::Firing)
                    + count_entries_with(entries.take(j as int), AlertStatus::Firing),
                c.no_data == count_states_with(states@.take(i as int), AlertStatus::NoData)
                    + count_entries_with(entries.take(j as int), AlertStatus::NoData),
            decreases m - j,
        {
            let st = *states[i].status.value_at(j);
            proof {
                assert(entries.take(j + 1).drop_last() =~= entries.take(j as int));
                assert(entries.take(j + 1).last() == entries[j as int]);
                lemma_count_entries_prefix(entries, st, j + 1);
                assert(states@.take(i + 1).drop_last() =~= states@.take(i as int));
                assert(states@.take(i + 1).last() == states@[i as int]);
                lemma_count_states_prefix(states@, st, i + 1);
            }
            match st {
                AlertStatus::Okay => c.ok = c.ok + 1,
                AlertStatus::Firing => c.err = c.err + 1,
                AlertStatus::NoData => c.no_data = c.no_data + 1,
            }
            j = j + 1;
        }
        proof {
            assert(entries.take(m as int) =~= entries);
            assert(states@.take(i + 1).drop_last() =~= states@.take(i as int));
            assert(states@.take(i + 1).last() == states@[i as int]);
        }
        i = i + 1;
    }
    proof {
        assert(states@.take(n as int) =~= states@);
    }
    c
}

} // verus!
