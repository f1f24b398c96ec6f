//! The alert evaluation engine: per tick and per alert it applies the
//! cadence gate, evaluates every fetched label, diffs the result against the
//! persisted statuses, applies the repeat and no-data policy, and records
//! what must be notified.

use crate::condition::{evaluate, spec_evaluate, AlertCondition, Sample};
use crate::config::Alert;
use crate::label_map::{
    entries_wf, lemma_map_of_dom, lemma_map_of_index, lemma_map_of_push, map_of, seq_contains_key,
    LabelMap,
};
use crate::state::AlertState;
use crate::status::AlertStatus;
use vstd::prelude::*;

verus! {

/// One fetched time series: a formatted label and its ordered samples.
pub struct FetchedSeries {
    pub label: String,
    pub samples: Vec<Sample>,
}

/// What one tick hands the engine for one alert: nothing when the cadence
/// gate skips the evaluation, the fetched series otherwise. A failed fetch
/// degrades to an empty vector.
pub enum TickInput {
    Skip,
    Evaluate(Vec<FetchedSeries>),
}

/// One per-label notification decision, carrying what the message shows.
pub struct LabelNotice {
    pub label: String,
    /// The label's status after this tick.
    pub status: AlertStatus,
    /// The label's status before this tick; `NoData` when never seen.
    pub prev_status: AlertStatus,
    /// Whether this is a genuine transition rather than a repeat.
    pub changed: bool,
    /// When the previous status was entered (epoch seconds, 0 when unknown).
    pub since: u64,
}

/// What one tick decided for one alert.
pub struct TickOutcome {
    /// Whether a real evaluation ran (the cadence gate passed).
    pub evaluated: bool,
    /// Whether the repeat window had elapsed at this tick.
    pub repeat_needed: bool,
    /// Per-label notifications to send, in evaluation order.
    pub notices: Vec<LabelNotice>,
    /// Whether to send the single alert-level no-data notification.
    pub send_no_data: bool,
}

/// The labels of the fetched series are pairwise distinct, as a mapping
/// returned by the fetcher has them.
pub open spec fn labels_distinct(series: Seq<FetchedSeries>) -> bool {
    forall|i: int, j: int|
        0 <= i < series.len() && 0 <= j < series.len() && i != j ==> (
        #[trigger] series[i]).label@ != (#[trigger] series[j]).label@
}

/// The previous status the evaluator sees for a label: `None` when the label
/// was never observed.
pub open spec fn spec_prev_status(
    old_status: Map<Seq<char>, AlertStatus>,
    label: Seq<char>,
) -> Option<AlertStatus> {
    if old_status.dom().contains(label) {
        Some(old_status[label])
    } else {
        None
    }
}

/// The statuses a real evaluation assigns: one entry per fetched series, in
/// fetch order, each evaluated against the label's previous status.
pub open spec fn new_status_entries(
    cond: AlertCondition,
    old_status: Map<Seq<char>, AlertStatus>,
    series: Seq<FetchedSeries>,
) -> Seq<(Seq<char>, AlertStatus)> {
    series.map_values(
        |fs: FetchedSeries|
            (fs.label@, spec_evaluate(cond, spec_prev_status(old_status, fs.label@), fs.samples@)),
    )
}

/// The repeat window has elapsed: at least `repeat_interval` seconds passed
/// since the last repeat pass.
pub open spec fn spec_repeat_needed(last_repeated: u64, repeat_interval: u64, now: u64) -> bool {
    last_repeated + repeat_interval <= now
}

/// The label's status differs from the persisted one (a never-seen label
/// always transitions).
pub open spec fn is_transition(
    old_status: Map<Seq<char>, AlertStatus>,
    label: Seq<char>,
    status: AlertStatus,
) -> bool {
    !old_status.dom().contains(label) || old_status[label] != status
}

/// A label is notified when its status transitioned, or when a repeat pass
/// is due and the label is not healthy.
pub open spec fn notice_due(
    old_status: Map<Seq<char>, AlertStatus>,
    label: Seq<char>,
    status: AlertStatus,
    repeat_needed: bool,
) -> bool {
    is_transition(old_status, label, status) || (repeat_needed && status != AlertStatus::Okay)
}

/// The subsequence of the new entries that is notified, in order.
pub open spec fn notified_entries(
    entries: Seq<(Seq<char>, AlertStatus)>,
    old_status: Map<Seq<char>, AlertStatus>,
    repeat_needed: bool,
) -> Seq<(Seq<char>, AlertStatus)>
    decreases entries.len(),
{
    if entries.len() == 0 {
        Seq::empty()
    } else {
        let rest = notified_entries(entries.drop_last(), old_status, repeat_needed);
        if notice_due(old_status, entries.last().0, entries.last().1, repeat_needed) {
            rest.push(entries.last())
        } else {
            rest
        }
    }
}

/// The transition times a tick writes: `now` for every entry whose status
/// transitioned.
pub open spec fn transition_times(
    entries: Seq<(Seq<char>, AlertStatus)>,
    old_status: Map<Seq<char>, AlertStatus>,
    now: u64,
) -> Map<Seq<char>, u64>
    decreases entries.len(),
{
    if entries.len() == 0 {
        Map::empty()
    } else {
        let rest = transition_times(entries.drop_last(), old_status, now);
        if is_transition(old_status, entries.last().0, entries.last().1) {
            rest.insert(entries.last().0, now)
        } else {
            rest
        }
    }
}

/// A recorded notice carries exactly what the old state knew of the label.
pub open spec fn notice_matches(
    n: LabelNotice,
    label: Seq<char>,
    status: AlertStatus,
    old_status: Map<Seq<char>, AlertStatus>,
    old_changed: Map<Seq<char>, u64>,
) -> bool {
    &&& n.label@ == label
    &&& n.status == status
    &&& n.prev_status == if old_status.dom().contains(label) {
        old_status[label]
    } else {
        AlertStatus::NoData
    }
    &&& n.changed == is_transition(old_status, label, status)
    &&& n.since == if old_changed.dom().contains(label) {
        old_changed[label]
    } else {
        0u64
    }
}

/// The statuses a tick works with: the persisted entries on a skipped tick,
/// the freshly evaluated ones on an evaluating tick.
pub open spec fn tick_entries(alert: Alert, st: AlertState, input: TickInput) -> Seq<
    (Seq<char>, AlertStatus),
> {
    match input {
        TickInput::Skip => st.status@,
        TickInput::Evaluate(series) => new_status_entries(
            alert.condition,
            st.status.as_map(),
            series@,
        ),
    }
}

/// A key is in the written transition times exactly when some entry carries
/// it with a transitioning status.
pub proof fn lemma_transition_times_dom(
    s: Seq<(Seq<char>, AlertStatus)>,
    m: Map<Seq<char>, AlertStatus>,
    now: u64,
)
    ensures
        forall|k: Seq<char>| #[trigger]
            transition_times(s, m, now).dom().contains(k) <==> exists|i: int|
                0 <= i < s.len() && (#[trigger] s[i]).0 == k && is_transition(m, k, s[i].1),
    decreases s.len(),
{
    if s.len() > 0 {
        lemma_transition_times_dom(s.drop_last(), m, now);
        assert forall|k: Seq<char>| #[trigger]
            transition_times(s, m, now).dom().contains(k) <==> exists|i: int|
                0 <= i < s.len() && (#[trigger] s[i]).0 == k && is_transition(m, k, s[i].1) by {
            if transition_times(s, m, now).dom().contains(k) {
                if is_transition(m, s.last().0, s.last().1) && k == s.last().0 {
                    assert((#[trigger] s[s.len() - 1]).0 == k && is_transition(m, k, s[s.len()
                        - 1].1));
                } else {
                    assert(transition_times(s.drop_last(), m, now).dom().contains(k));
                    let i = choose|i: int|
                        0 <= i < s.drop_last().len() && (#[trigger] s.drop_last()[i]).0 == k
                            && is_transition(m, k, s.drop_last()[i].1);
                    assert(s.drop_last()[i] == s[i]);
                    assert((#[trigger] s[i]).0 == k && is_transition(m, k, s[i].1));
                }
            }
            if exists|i: int|
                0 <= i < s.len() && (#[trigger] s[i]).0 == k && is_transition(m, k, s[i].1) {
                let i = choose|i: int|
                    0 <= i < s.len() && (#[trigger] s[i]).0 == k && is_transition(m, k, s[i].1);
                if i < s.len() - 1 {
                    assert((#[trigger] s.drop_last()[i]).0 == k && is_transition(
                        m,
                        k,
                        s.drop_last()[i].1,
                    ));
                    assert(transition_times(s.drop_last(), m, now).dom().contains(k));
                }
                assert(transition_times(s, m, now).dom().contains(k));
            }
        }
    }
}

/// Whether the cadence gate lets this tick run a real evaluation.
pub fn evaluation_due(state: &AlertState, alert: &Alert) -> (b: bool)
    ensures
        b == (state.counter >= alert.interval_s),
{
    state.counter >= alert.interval_s
}

/// Evaluate every fetched label against the alert's condition and the
/// label's previous status. Labels absent from `series` are not carried
/// forward. An empty fetch yields an empty result.
pub fn calculate_status(
    cond: &AlertCondition,
    old_statuses: &LabelMap<AlertStatus>,
    series: &Vec<FetchedSeries>,
) -> (res: LabelMap<AlertStatus>)
    requires
        old_statuses.wf(),
        labels_distinct(series@),
    ensures
        res.wf(),
        res@ == new_status_entries(*cond, old_statuses.as_map(), series@),
{
    let ghost target = new_status_entries(*cond, old_statuses.as_map(), series@);
    let mut res: LabelMap<AlertStatus> = LabelMap::new();
    let n = series.len();
    let mut i: usize = 0;
    while i < n
        invariant
            old_statuses.wf(),
            labels_distinct(series@),
            target == new_status_entries(*cond, old_statuses.as_map(), series@),
            n == series@.len(),
            i <= n,
            res.wf(),
            res@ == target.take(i as int),
        decreases n - i,
    {
        let prev: Option<AlertStatus> = match old_statuses.get(&series[i].label) {
            Some(s) => Some(*s),
            None => None,
        };
        let st = evaluate(cond, prev, &series[i].samples);
        proof {
            assert(st == target[i as int].1);
            let ghost li = series@[i as int].label@;
            assert forall|j: int| 0 <= j < res@.len() implies (#[trigger] res@[j]).0 != li by {
                assert(res@[j].0 == series@[j].label@);
            }
            assert(!seq_contains_key(res@, series@[i as int].label@));
        }
        res.insert(series[i].label.clone(), st);
        proof {
            assert(res@ =~= target.take(i + 1));
        }
        i = i + 1;
    }
    proof {
        assert(res@ =~= target);
    }
    res
}

/// Run one tick of one alert against its persisted state.
///
/// The cadence gate decides what the tick works with: below the alert's
/// interval the counter advances and the persisted statuses are reused;
/// otherwise the counter resets to 1 and the fetched series are evaluated
/// (`input` carries them exactly in that case). Every label of the resulting
/// entries whose status transitioned, or that is unhealthy while a repeat
/// pass is due, is notified; transitions also stamp the label's
/// `status_last_changed` with `now`. A repeat pass over an evaluation that
/// returned no series at all asks for the single alert-level no-data
/// notification, and a repeat pass always stamps `status_last_repeated`.
pub fn run_alert_tick(
    alert: &Alert,
    state: &mut AlertState,
    input: TickInput,
    now: u64,
    repeat_interval: u64,
) -> (out: TickOutcome)
    requires
        old(state).wf(),
        (input is Skip <==> old(state).counter < alert.interval_s),
        (input matches TickInput::Evaluate(series) ==> labels_distinct(series@)),
    ensures
        final(state).wf(),
        out.evaluated == (old(state).counter >= alert.interval_s),
        out.evaluated ==> final(state).counter == 1,
        !out.evaluated ==> final(state).counter == old(state).counter + 1,
        final(state).counter >= 1,
        out.repeat_needed == spec_repeat_needed(
            old(state).status_last_repeated,
            repeat_interval,
            now,
        ),
        final(state).status_last_repeated == if out.repeat_needed {
            now
        } else {
            old(state).status_last_repeated
        },
        final(state).id == old(state).id,
        ({
            let entries = tick_entries(*alert, *old(state), input);
            let old_status = old(state).status.as_map();
            let old_changed = old(state).status_last_changed.as_map();
            let notified = notified_entries(entries, old_status, out.repeat_needed);
            &&& final(state).status.as_map() == old_status.union_prefer_right(map_of(entries))
            &&& final(state).status_last_changed.as_map() == old_changed.union_prefer_right(
                transition_times(entries, old_status, now),
            )
            &&& out.send_no_data == (out.evaluated && out.repeat_needed && entries.len() == 0)
            &&& entries.len() == 0 ==> out.notices@.len() == 0
            &&& out.notices@.len() == notified.len()
            &&& forall|j: int|
                0 <= j < out.notices@.len() ==> notice_matches(
                    #[trigger] out.notices@[j],
                    notified[j].0,
                    notified[j].1,
                    old_status,
                    old_changed,
                )
        }),
        !out.evaluated ==> final(state).status@ == old(state).status@,
        old(state).keys_matched() ==> final(state).keys_matched(),
{
    let ghost entries = tick_entries(*alert, *old(state), input);
    let ghost old_status = old(state).status.as_map();
    let ghost old_changed = old(state).status_last_changed.as_map();

    let evaluated: bool;
    let new_statuses: LabelMap<AlertStatus>;
    match input {
        TickInput::Skip => {
            state.counter = state.counter + 1;
            evaluated = false;
            new_statuses = state.status.duplicate();
        },
        TickInput::Evaluate(series) => {
            state.counter = 1;
            evaluated = true;
            new_statuses = calculate_status(&alert.condition, &state.status, &series);
        },
    }
    proof {
        assert(new_statuses@ == entries);
        assert(entries_wf(entries));
    }

    let repeat_needed = repeat_interval <= now && state.status_last_repeated <= now
        - repeat_interval;

    let mut notices: Vec<LabelNotice> = Vec::new();
    let n = new_statuses.len();
    let mut i: usize = 0;
    while i < n
        invariant
            state.wf(),
            new_statuses.wf(),
            new_statuses@ == entries,
            entries_wf(entries),
            n == entries.len(),
            i <= n,
            state.status.as_map() == old_status.union_prefer_right(
                map_of(entries.take(i as int)),
            ),
            state.status_last_changed.as_map() == old_changed.union_prefer_right(
                transition_times(entries.take(i as int), old_status, now),
            ),
            notices@.len() == notified_entries(
                entries.take(i as int),
                old_status,
                repeat_needed,
            ).len(),
            forall|j: int|
                0 <= j < notices@.len() ==> notice_matches(
                    #[trigger] notices@[j],
                    notified_entries(entries.take(i as int), old_status, repeat_needed)[j].0,
                    notified_entries(entries.take(i as int), old_status, repeat_needed)[j].1,
                    old_status,
                    old_changed,
                ),
            !evaluated ==> state.status@ == old(state).status@ && entries == old(state).status@,
            evaluated ==> state.counter == 1,
            !evaluated ==> state.counter == old(state).counter + 1,
            state.status_last_repeated == old(state).status_last_repeated,
            state.id == old(state).id,
        decreases n - i,
    {
        let ghost taken = entries.take(i as int);
        let ghost lab = entries[i as int].0;
        proof {
            // The label at `i` is not among the already-processed entries,
            // so the evolving maps still answer for it as the old ones did.
            lemma_map_of_dom(taken);
            lemma_transition_times_dom(taken, old_status, now);
            assert forall|j: int| 0 <= j < taken.len() implies (#[trigger] taken[j]).0 != lab by {
                assert(taken[j] == entries[j]);
            }
            assert(!seq_contains_key(taken, lab));
            assert(!map_of(taken).dom().contains(lab));
            assert(!transition_times(taken, old_status, now).dom().contains(lab));
        }
        let label: &String = new_statuses.key_at(i);
        let st: AlertStatus = *new_statuses.value_at(i);
        let (prev_known, prev_val) = match state.status.get(label) {
            Some(p) => (true, *p),
            None => (false, AlertStatus::NoData),
        };
        let since_val = match state.status_last_changed.get(label) {
            Some(t) => *t,
            None => 0,
        };
        let changed = !prev_known || prev_val != st;
        let due = changed || (repeat_needed && st != AlertStatus::Okay);
        proof {
            assert(prev_known == old_status.dom().contains(lab));
            assert(prev_known ==> prev_val == old_status[lab]);
            assert(changed == is_transition(old_status, lab, st));
            assert(due == notice_due(old_status, lab, st, repeat_needed));
            assert(entries.take(i + 1).drop_last() =~= taken);
            assert(entries.take(i + 1).last() == entries[i as int]);
        }
        if due {
            notices.push(
                LabelNotice {
                    label: label.clone(),
                    status: st,
                    prev_status: prev_val,
                    changed,
                    since: since_val,
                },
            );
            let owned = label.clone();
            state.update_status_at(owned, st, changed, now);
            proof {
                lemma_map_of_push(taken, lab, st);
                assert(entries.take(i + 1) =~= taken.push(entries[i as int]));
                assert(state.status.as_map() =~= old_status.union_prefer_right(
                    map_of(entries.take(i + 1)),
                ));
                if changed {
                    assert(transition_times(entries.take(i + 1), old_status, now)
                        == transition_times(taken, old_status, now).insert(lab, now));
                    assert(state.status_last_changed.as_map() =~= old_changed.union_prefer_right(
                        transition_times(entries.take(i + 1), old_status, now),
                    ));
                } else {
                    assert(transition_times(entries.take(i + 1), old_status, now)
                        == transition_times(taken, old_status, now));
                }
                assert(notified_entries(entries.take(i + 1), old_status, repeat_needed)
                    == notified_entries(taken, old_status, repeat_needed).push(
                    entries[i as int],
                ));
                if !evaluated {
                    // On a skipped tick the entries are the persisted ones,
                    // so the overwrite stores the value already there.
                    assert(old(state).status@[i as int] == (lab, st));
                    lemma_map_of_index(old(state).status@, i as int);
                    assert(!changed);
                    assert(old(state).status@[i as int] == (lab, st));
                    assert(crate::label_map::index_of_key(old(state).status@, lab) == i as int)
                        by {
                        let w = crate::label_map::index_of_key(old(state).status@, lab);
                        assert((#[trigger] old(state).status@[i as int]).0 == lab);
                        assert(0 <= w < old(state).status@.len() && old(state).status@[w].0
                            == lab);
                    }
                    assert(state.status@ =~= old(state).status@);
                }
            }
        } else {
            proof {
                lemma_map_of_push(taken, lab, st);
                assert(entries.take(i + 1) =~= taken.push(entries[i as int]));
                // The label keeps the value the union already gives it.
                assert(old_status.dom().contains(lab) && old_status[lab] == st);
                assert(state.status.as_map() =~= old_status.union_prefer_right(
                    map_of(entries.take(i + 1)),
                ));
                assert(transition_times(entries.take(i + 1), old_status, now) == transition_times(
                    taken,
                    old_status,
                    now,
                ));
                assert(notified_entries(entries.take(i + 1), old_status, repeat_needed)
                    == notified_entries(taken, old_status, repeat_needed));
            }
        }
        i = i + 1;
    }
    proof {
        assert(entries.take(n as int) =~= entries);
    }

    let no_series = new_statuses.is_empty();
    let send_no_data = evaluated && repeat_needed && no_series;
    if repeat_needed {
        state.update_repeat_at(now);
    }

    proof {
        if old(state).keys_matched() {
            lemma_map_of_dom(entries);
            lemma_transition_times_dom(entries, old_status, now);
            assert forall|k: Seq<char>| #[trigger]
                state.status.as_map().dom().contains(k)
                    == state.status_last_changed.as_map().dom().contains(k) by {
                if state.status.as_map().dom().contains(k) && !old_status.dom().contains(k) {
                    // A fresh key comes from an entry, and a fresh entry is a
                    // transition, so its time was written too.
                    assert(map_of(entries).dom().contains(k));
                    let w = choose|w: int| 0 <= w < entries.len() && (#[trigger] entries[w]).0 == k;
                    assert(is_transition(old_status, k, entries[w].1));
                    assert(transition_times(entries, old_status, now).dom().contains(k));
                }
                if state.status_last_changed.as_map().dom().contains(k) && !old_changed.dom()
                    .contains(k) {
                    assert(transition_times(entries, old_status, now).dom().contains(k));
                    let w = choose|w: int|
                        0 <= w < entries.len() && (#[trigger] entries[w]).0 == k && is_transition(
                            old_status,
                            k,
                            entries[w].1,
                        );
                    assert(map_of(entries).dom().contains(k));
                }
                assert(old_status.dom().contains(k) == old_changed.dom().contains(k));
            }
            assert(state.status.as_map().dom() =~= state.status_last_changed.as_map().dom());
        }
    }

    TickOutcome { evaluated, repeat_needed, notices, send_no_data }
}

/// A tick that computes only statuses the state already holds, with no
/// repeat pass due, notifies nothing and leaves both per-label maps
/// unchanged: passes without new information are idempotent.
pub proof fn lemma_idempotent_tick(
    entries: Seq<(Seq<char>, AlertStatus)>,
    old_status: Map<Seq<char>, AlertStatus>,
    old_changed: Map<Seq<char>, u64>,
    now: u64,
)
    requires
        forall|i: int|
            0 <= i < entries.len() ==> old_status.dom().contains((#[trigger] entries[i]).0)
                && old_status[entries[i].0] == entries[i].1,
    ensures
        notified_entries(entries, old_status, false).len() == 0,
        old_status.union_prefer_right(map_of(entries)) == old_status,
        transition_times(entries, old_status, now) == Map::<Seq<char>, u64>::empty(),
        old_changed.union_prefer_right(transition_times(entries, old_status, now)) == old_changed,
    decreases entries.len(),
{
    if entries.len() == 0 {
        assert(old_status.union_prefer_right(map_of(entries)) =~= old_status);
        assert(old_changed.union_prefer_right(transition_times(entries, old_status, now))
            =~= old_changed);
    } else {
        let rest = entries.drop_last();
        assert(forall|i: int| 0 <= i < rest.len() ==> (#[trigger] rest[i]) == entries[i]);
        lemma_idempotent_tick(rest, old_status, old_changed, now);
        let l = entries.last().0;
        let st = entries.last().1;
        assert((#[trigger] entries[entries.len() - 1]) == entries.last());
        assert(!is_transition(old_status, l, st));
        assert(!notice_due(old_status, l, st, false));
        assert(old_status.union_prefer_right(map_of(entries)) =~= old_status);
        assert(old_changed.union_prefer_right(transition_times(entries, old_status, now))
            =~= old_changed);
    }
}

/// Every notified entry is one of the tick's entries that was due, and every
/// due entry is notified.
pub proof fn lemma_notified_entries_elems(
    entries: Seq<(Seq<char>, AlertStatus)>,
    old_status: Map<Seq<char>, AlertStatus>,
    repeat_needed: bool,
)
    ensures
        forall|j: int|
            0 <= j < notified_entries(entries, old_status, repeat_needed).len() ==> {
                let e = #[trigger] notified_entries(entries, old_status, repeat_needed)[j];
                entries.contains(e) && notice_due(old_status, e.0, e.1, repeat_needed)
            },
        forall|i: int|
            0 <= i < entries.len() && notice_due(
                old_status,
                (#[trigger] entries[i]).0,
                entries[i].1,
                repeat_needed,
            ) ==> notified_entries(entries, old_status, repeat_needed).contains(entries[i]),
    decreases entries.len(),
{
    let notified = notified_entries(entries, old_status, repeat_needed);
    if entries.len() > 0 {
        let rest = entries.drop_last();
        lemma_notified_entries_elems(rest, old_status, repeat_needed);
        let rest_notified = notified_entries(rest, old_status, repeat_needed);
        assert forall|j: int| 0 <= j < notified.len() implies {
            let e = #[trigger] notified[j];
            entries.contains(e) && notice_due(old_status, e.0, e.1, repeat_needed)
        } by {
            if j < rest_notified.len() {
                assert(notified[j] == rest_notified[j]);
                let w = choose|w: int| 0 <= w < rest.len() && rest[w] == rest_notified[j];
                assert(entries[w] == notified[j]);
            } else {
                assert(notified[j] == entries.last());
                assert(entries[entries.len() - 1] == entries.last());
            }
        }
        assert forall|i: int|
            0 <= i < entries.len() && notice_due(
                old_status,
                (#[trigger] entries[i]).0,
                entries[i].1,
                repeat_needed,
            ) implies notified.contains(entries[i]) by {
            if i < entries.len() - 1 {
                assert(rest[i] == entries[i]);
                assert(rest_notified.contains(entries[i]));
                let w = choose|w: int| 0 <= w < rest_notified.len() && rest_notified[w]
                    == entries[i];
                assert(notified[w] == entries[i]);
            } else {
                assert(notified[notified.len() - 1] == entries[i]);
            }
        }
    }
}

/// Repeat suppression: a label whose status stayed `Okay` is never notified,
/// also when a repeat pass is due; a label whose status stayed `Firing` is
/// notified on every due repeat pass.
pub proof fn lemma_repeat_suppression(
    entries: Seq<(Seq<char>, AlertStatus)>,
    old_status: Map<Seq<char>, AlertStatus>,
    repeat_needed: bool,
    i: int,
)
    requires
        entries_wf(entries),
        0 <= i < entries.len(),
        old_status.dom().contains(entries[i].0),
        old_status[entries[i].0] == entries[i].1,
    ensures
        entries[i].1 == AlertStatus::Okay ==> forall|j: int|
            0 <= j < notified_entries(entries, old_status, repeat_needed).len() ==> (
            #[trigger] notified_entries(entries, old_status, repeat_needed)[j]).0 != entries[i].0,
        repeat_needed && entries[i].1 == AlertStatus::Firing ==> notified_entries(
            entries,
            old_status,
            repeat_needed,
        ).contains(entries[i]),
{
    lemma_notified_entries_elems(entries, old_status, repeat_needed);
    let notified = notified_entries(entries, old_status, repeat_needed);
    if entries[i].1 == AlertStatus::Okay {
        assert forall|j: int| 0 <= j < notified.len() implies (#[trigger] notified[j]).0
            != entries[i].0 by {
            let e = notified[j];
            assert(entries.contains(e) && notice_due(old_status, e.0, e.1, repeat_needed));
            let w = choose|w: int| 0 <= w < entries.len() && entries[w] == e;
            if e.0 == entries[i].0 {
                assert(w == i);
                assert(!notice_due(old_status, e.0, e.1, repeat_needed));
            }
        }
    }
    if repeat_needed && entries[i].1 == AlertStatus::Firing {
        assert(notice_due(old_status, entries[i].0, entries[i].1, repeat_needed));
    }
}

} // verus!
