use vm_telegram::condition::{evaluate, AlertCondition, Condition, Sample};
use vm_telegram::config::{Alert, StatusDescriptions};
use vm_telegram::engine::{calculate_status, evaluation_due, run_alert_tick, FetchedSeries, TickInput};
use vm_telegram::label_map::LabelMap;
use vm_telegram::state::AlertState;
use vm_telegram::status::AlertStatus;

fn samples(values: &[i64]) -> Vec<Sample> {
    values
        .iter()
        .enumerate()
        .map(|(i, v)| Sample { timestamp: i as u64, value: *v })
        .collect()
}

fn test_alert(name: &str, condition: AlertCondition, interval_s: u32) -> Alert {
    Alert {
        name: name.to_owned(),
        datasource: "vm".to_owned(),
        interval_s,
        query: "cpu_usage".to_owned(),
        condition,
        condition_range_s: 300,
        graph_range_s: 3600,
        step: "10s".to_owned(),
        label: "host={{host}}".to_owned(),
        description: "".to_owned(),
        statuses: StatusDescriptions {
            ok: "".to_owned(),
            err: "".to_owned(),
            no_data: "".to_owned(),
        },
    }
}

fn greater_80_60() -> AlertCondition {
    AlertCondition::Avg { condition: Condition::Greater, value: 80, value_ok: 60 }
}

fn less_10_20() -> AlertCondition {
    AlertCondition::Avg { condition: Condition::Less, value: 10, value_ok: 20 }
}

/// Hysteresis: with previous status Err and LessThan(value=10, value_ok=20),
/// a mean of 15 stays Err because the comparison uses value_ok; 25 recovers.
#[test]
fn hysteresis_uses_recovery_threshold_when_firing() {
    let cond = less_10_20();
    let firing = Some(AlertStatus::Firing);
    assert_eq!(AlertStatus::Firing, evaluate(&cond, firing, &samples(&[15])));
    assert_eq!(AlertStatus::Okay, evaluate(&cond, firing, &samples(&[25])));
    // with previous status Ok the firing threshold 10 is used, so 15 is fine
    assert_eq!(AlertStatus::Okay, evaluate(&cond, Some(AlertStatus::Okay), &samples(&[15])));
}

#[test]
fn evaluate_averages_the_samples() {
    let cond = greater_80_60();
    // mean of 70, 90, 95 is 85 > 80
    assert_eq!(AlertStatus::Firing, evaluate(&cond, None, &samples(&[70, 90, 95])));
    // mean of 70, 80, 90 is 80, not strictly greater
    assert_eq!(AlertStatus::Okay, evaluate(&cond, None, &samples(&[70, 80, 90])));
}

#[test]
fn evaluate_treats_empty_series_as_mean_zero() {
    // a label present with zero samples: mean 0, and 0 < 10 fires
    assert_eq!(AlertStatus::Firing, evaluate(&less_10_20(), None, &samples(&[])));
    assert_eq!(AlertStatus::Okay, evaluate(&greater_80_60(), None, &samples(&[])));
}

#[test]
fn calculate_status_covers_exactly_the_fetched_labels() {
    let mut old = LabelMap::new();
    old.insert("host=a".to_owned(), AlertStatus::Firing);
    old.insert("host=gone".to_owned(), AlertStatus::Okay);
    let series = vec![
        FetchedSeries { label: "host=a".to_owned(), samples: samples(&[70]) },
        FetchedSeries { label: "host=b".to_owned(), samples: samples(&[90]) },
    ];
    let res = calculate_status(&greater_80_60(), &old, &series);
    assert_eq!(2, res.len());
    // host=a was firing, so 70 is compared against value_ok=60 and stays firing
    assert_eq!(Some(&AlertStatus::Firing), res.get(&"host=a".to_owned()));
    assert_eq!(Some(&AlertStatus::Firing), res.get(&"host=b".to_owned()));
    // a label that disappeared from the result is not carried forward
    assert_eq!(None, res.get(&"host=gone".to_owned()));
}

/// Scenario: alert cpu_high, GreaterThan(value=80, value_ok=60), label
/// host=a previously Ok, new mean 85: status Err, one notification, and
/// status_last_changed["host=a"] updated to now.
#[test]
fn scenario_cpu_high_fires_and_stamps_transition() {
    let alert = test_alert("cpu_high", greater_80_60(), 1);
    let mut state = AlertState::new("cpu_high".to_owned());
    state.status.insert("host=a".to_owned(), AlertStatus::Okay);
    state.status_last_changed.insert("host=a".to_owned(), 4_000);
    state.status_last_repeated = 5_000;
    state.counter = 1;

    let now: u64 = 5_000;
    assert!(evaluation_due(&state, &alert));
    let input = TickInput::Evaluate(vec![FetchedSeries {
        label: "host=a".to_owned(),
        samples: samples(&[85]),
    }]);
    let out = run_alert_tick(&alert, &mut state, input, now, 600);

    assert!(out.evaluated);
    assert!(!out.repeat_needed);
    assert!(!out.send_no_data);
    assert_eq!(1, out.notices.len());
    let notice = &out.notices[0];
    assert_eq!("host=a", notice.label);
    assert_eq!(AlertStatus::Firing, notice.status);
    assert_eq!(AlertStatus::Okay, notice.prev_status);
    assert!(notice.changed);
    assert_eq!(4_000, notice.since);
    assert_eq!(Some(&AlertStatus::Firing), state.status.get(&"host=a".to_owned()));
    assert_eq!(now, state.status_last_changed("host=a".to_owned()));
    assert_eq!(1, state.counter);
}

/// Scenario: same alert, host=a previously Err, new mean 70: stays Err
/// (70 is not below value_ok=60), no transition, no notification while no
/// repeat is due.
#[test]
fn scenario_cpu_high_stays_firing_without_notice() {
    let alert = test_alert("cpu_high", greater_80_60(), 1);
    let mut state = AlertState::new("cpu_high".to_owned());
    state.status.insert("host=a".to_owned(), AlertStatus::Firing);
    state.status_last_changed.insert("host=a".to_owned(), 4_000);
    state.status_last_repeated = 5_000;
    state.counter = 1;

    let input = TickInput::Evaluate(vec![FetchedSeries {
        label: "host=a".to_owned(),
        samples: samples(&[70]),
    }]);
    let out = run_alert_tick(&alert, &mut state, input, 5_000, 600);

    assert!(out.evaluated);
    assert_eq!(0, out.notices.len());
    assert_eq!(Some(&AlertStatus::Firing), state.status.get(&"host=a".to_owned()));
    // no transition: the old timestamp stays
    assert_eq!(4_000, state.status_last_changed("host=a".to_owned()));
}

/// Below the alert's interval the tick leaves the statuses alone and only
/// advances the counter by one.
#[test]
fn skipped_tick_increments_counter_and_keeps_status() {
    let alert = test_alert("cpu_high", greater_80_60(), 3);
    let mut state = AlertState::new("cpu_high".to_owned());
    state.status.insert("host=a".to_owned(), AlertStatus::Okay);
    state.status_last_changed.insert("host=a".to_owned(), 4_000);
    state.status_last_repeated = 5_000;
    state.counter = 1;

    assert!(!evaluation_due(&state, &alert));
    let out = run_alert_tick(&alert, &mut state, TickInput::Skip, 5_000, 600);

    assert!(!out.evaluated);
    assert_eq!(2, state.counter);
    assert_eq!(0, out.notices.len());
    assert_eq!(Some(&AlertStatus::Okay), state.status.get(&"host=a".to_owned()));
    assert_eq!(4_000, state.status_last_changed("host=a".to_owned()));
}

/// At the interval the counter resets to 1.
#[test]
fn evaluating_tick_resets_counter_to_one() {
    let alert = test_alert("cpu_high", greater_80_60(), 3);
    let mut state = AlertState::new("cpu_high".to_owned());
    state.status_last_repeated = 5_000;
    state.counter = 3;

    assert!(evaluation_due(&state, &alert));
    let out = run_alert_tick(&alert, &mut state, TickInput::Evaluate(vec![]), 5_000, 600);

    assert!(out.evaluated);
    assert_eq!(1, state.counter);
}

/// No-data: an empty fetch result with a due repeat pass emits exactly the
/// one alert-level no-data notification and zero per-label notifications.
#[test]
fn empty_evaluation_with_repeat_due_sends_no_data() {
    let alert = test_alert("cpu_high", greater_80_60(), 1);
    let mut state = AlertState::new("cpu_high".to_owned());
    state.status_last_repeated = 1_000;
    state.counter = 1;

    // 5_000 - 1_000 >= 600: the repeat window has elapsed
    let out = run_alert_tick(&alert, &mut state, TickInput::Evaluate(vec![]), 5_000, 600);

    assert!(out.evaluated);
    assert!(out.repeat_needed);
    assert!(out.send_no_data);
    assert_eq!(0, out.notices.len());
    // the repeat pass is stamped
    assert_eq!(5_000, state.status_last_repeated);
}

/// Without a due repeat pass an empty evaluation stays quiet.
#[test]
fn empty_evaluation_without_repeat_stays_quiet() {
    let alert = test_alert("cpu_high", greater_80_60(), 1);
    let mut state = AlertState::new("cpu_high".to_owned());
    state.status_last_repeated = 5_000;
    state.counter = 1;

    let out = run_alert_tick(&alert, &mut state, TickInput::Evaluate(vec![]), 5_200, 600);

    assert!(!out.repeat_needed);
    assert!(!out.send_no_data);
    assert_eq!(0, out.notices.len());
    assert_eq!(5_000, state.status_last_repeated);
}

/// Idempotence: a second pass with no new samples and no repeat due changes
/// nothing but the counter.
#[test]
fn pass_without_news_is_idempotent() {
    let alert = test_alert("cpu_high", greater_80_60(), 2);
    let mut state = AlertState::new("cpu_high".to_owned());
    state.status.insert("host=a".to_owned(), AlertStatus::Firing);
    state.status_last_changed.insert("host=a".to_owned(), 4_000);
    state.status_last_repeated = 5_000;
    state.counter = 2;

    let series = || vec![FetchedSeries { label: "host=a".to_owned(), samples: samples(&[70]) }];
    let first = run_alert_tick(&alert, &mut state, TickInput::Evaluate(series()), 5_000, 600);
    assert_eq!(0, first.notices.len());
    // counter is 1 now, below the interval: the next tick skips
    let second = run_alert_tick(&alert, &mut state, TickInput::Skip, 5_001, 600);

    assert_eq!(0, second.notices.len());
    assert!(!second.send_no_data);
    assert_eq!(2, state.counter);
    assert_eq!(1, state.status.len());
    assert_eq!(Some(&AlertStatus::Firing), state.status.get(&"host=a".to_owned()));
    assert_eq!(4_000, state.status_last_changed("host=a".to_owned()));
    assert_eq!(5_000, state.status_last_repeated);
}

/// Repeat suppression: with a due repeat pass, a still-firing label is
/// notified again (without a transition stamp) and a healthy label is not.
#[test]
fn repeat_notifies_firing_labels_only() {
    let alert = test_alert("cpu_high", greater_80_60(), 3);
    let mut state = AlertState::new("cpu_high".to_owned());
    state.status.insert("host=ok".to_owned(), AlertStatus::Okay);
    state.status.insert("host=bad".to_owned(), AlertStatus::Firing);
    state.status_last_changed.insert("host=ok".to_owned(), 3_000);
    state.status_last_changed.insert("host=bad".to_owned(), 3_500);
    state.status_last_repeated = 1_000;
    state.counter = 1;

    // a skipped tick still applies the repeat policy to the kept statuses
    let out = run_alert_tick(&alert, &mut state, TickInput::Skip, 5_000, 600);

    assert!(out.repeat_needed);
    assert_eq!(1, out.notices.len());
    let notice = &out.notices[0];
    assert_eq!("host=bad", notice.label);
    assert_eq!(AlertStatus::Firing, notice.status);
    assert_eq!(AlertStatus::Firing, notice.prev_status);
    assert!(!notice.changed);
    assert_eq!(3_500, notice.since);
    // no transition: the stamp stays, the repeat time moves
    assert_eq!(3_500, state.status_last_changed("host=bad".to_owned()));
    assert_eq!(5_000, state.status_last_repeated);
}

/// A label seen for the first time is a transition from unknown: it is
/// notified with prev status NoData and since 0.
#[test]
fn first_seen_label_is_notified_as_new() {
    let alert = test_alert("cpu_high", greater_80_60(), 1);
    let mut state = AlertState::new("cpu_high".to_owned());
    state.status_last_repeated = 5_000;
    state.counter = 1;

    let input = TickInput::Evaluate(vec![FetchedSeries {
        label: "host=a".to_owned(),
        samples: samples(&[10]),
    }]);
    let out = run_alert_tick(&alert, &mut state, input, 5_000, 600);

    assert_eq!(1, out.notices.len());
    let notice = &out.notices[0];
    assert_eq!(AlertStatus::Okay, notice.status);
    assert_eq!(AlertStatus::NoData, notice.prev_status);
    assert!(notice.changed);
    assert_eq!(0, notice.since);
    assert_eq!(5_000, state.status_last_changed("host=a".to_owned()));
}
