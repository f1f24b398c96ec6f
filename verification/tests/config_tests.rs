use vm_telegram::condition::{AlertCondition, Condition};
use vm_telegram::config::{Alert, Config, Datasource, DatasourceAuth, StatusDescriptions};
use vm_telegram::label_map::LabelMap;
use vm_telegram::state::AlertState;
use vm_telegram::status::AlertStatus;
use vm_telegram::summary::status_counts;
use vm_telegram::user::User;

fn test_alert(name: &str, datasource: &str) -> Alert {
    Alert {
        name: name.to_owned(),
        datasource: datasource.to_owned(),
        interval_s: 1,
        query: "cpu_usage".to_owned(),
        condition: AlertCondition::Avg { condition: Condition::Less, value: 10, value_ok: 20 },
        condition_range_s: 300,
        graph_range_s: 3600,
        step: "10s".to_owned(),
        label: "host={{host}}".to_owned(),
        description: "cpu".to_owned(),
        statuses: StatusDescriptions {
            ok: "all good".to_owned(),
            err: "".to_owned(),
            no_data: "".to_owned(),
        },
    }
}

fn test_config(alerts: Vec<Alert>) -> Config {
    let mut datasources = LabelMap::new();
    datasources.insert(
        "vm".to_owned(),
        Datasource { url: "http://localhost:8428".to_owned(), auth: DatasourceAuth::NoAuth },
    );
    Config {
        repeat_interval_secs: 600,
        no_data_message: "no data arrived".to_owned(),
        datasources,
        alerts,
    }
}

#[test]
fn validate_accepts_known_datasources() {
    let config = test_config(vec![test_alert("a", "vm"), test_alert("b", "vm")]);
    assert_eq!(Ok(()), config.validate());
}

#[test]
fn validate_names_the_unknown_datasource() {
    let config = test_config(vec![test_alert("a", "vm"), test_alert("b", "missing")]);
    assert_eq!(Err("missing".to_owned()), config.validate());
}

#[test]
fn datasource_instance_resolves_by_key() {
    let config = test_config(vec![test_alert("a", "vm"), test_alert("b", "missing")]);
    let found = config.alerts[0].datasource_instance(&config);
    assert!(found.is_some());
    assert_eq!("http://localhost:8428", found.unwrap().url);
    assert!(config.alerts[1].datasource_instance(&config).is_none());
}

#[test]
fn status_description_defaults_to_empty() {
    let alert = test_alert("a", "vm");
    assert_eq!("all good", alert.status_description(&AlertStatus::Okay));
    assert_eq!("", alert.status_description(&AlertStatus::Firing));
    assert_eq!("", alert.status_description(&AlertStatus::NoData));
}

#[test]
fn status_counts_totals_labels_per_kind() {
    let mut first = AlertState::new("a".to_owned());
    first.status.insert("host=a".to_owned(), AlertStatus::Okay);
    first.status.insert("host=b".to_owned(), AlertStatus::Firing);
    let mut second = AlertState::new("b".to_owned());
    second.status.insert("host=a".to_owned(), AlertStatus::Okay);
    second.status.insert("host=c".to_owned(), AlertStatus::NoData);
    let counts = status_counts(&vec![first, second]);
    assert_eq!(2, counts.ok);
    assert_eq!(1, counts.err);
    assert_eq!(1, counts.no_data);
}

#[test]
fn sorted_by_recency_orders_newest_first() {
    let mut state = AlertState::new("a".to_owned());
    state.status.insert("host=a".to_owned(), AlertStatus::Okay);
    state.status.insert("host=b".to_owned(), AlertStatus::Firing);
    state.status.insert("host=c".to_owned(), AlertStatus::NoData);
    state.status_last_changed.insert("host=a".to_owned(), 2_000);
    state.status_last_changed.insert("host=b".to_owned(), 3_000);
    // host=c has no recorded transition: it sorts last with time 0

    let sorted = vm_telegram::summary::sorted_by_recency(&state);
    assert_eq!(3, sorted.len());
    assert_eq!("host=b", sorted[0].label);
    assert_eq!(AlertStatus::Firing, sorted[0].status);
    assert_eq!(3_000, sorted[0].changed_at);
    assert_eq!("host=a", sorted[1].label);
    assert_eq!(2_000, sorted[1].changed_at);
    assert_eq!("host=c", sorted[2].label);
    assert_eq!(0, sorted[2].changed_at);
}

#[test]
fn fresh_state_has_empty_maps_and_zero_counter() {
    let state = AlertState::new("cpu_high".to_owned());
    assert_eq!("cpu_high", state.id);
    assert_eq!(0, state.status.len());
    assert_eq!(0, state.status_last_changed.len());
    assert_eq!(0, state.status_last_repeated);
    assert_eq!(0, state.counter);
    assert_eq!(0, state.status_last_changed("host=a".to_owned()));
}

#[test]
fn update_status_stamps_only_transitions() {
    let mut state = AlertState::new("cpu_high".to_owned());
    let t = state.update_status("host=a".to_owned(), AlertStatus::Firing, true);
    assert_eq!(Some(&AlertStatus::Firing), state.status.get(&"host=a".to_owned()));
    assert_eq!(t, state.status_last_changed("host=a".to_owned()));

    let later = state.update_status("host=a".to_owned(), AlertStatus::Firing, false);
    assert!(later >= t);
    // the stamp is untouched on a repeat-only update
    assert_eq!(t, state.status_last_changed("host=a".to_owned()));
}

#[test]
fn update_repeat_stamps_the_pass() {
    let mut state = AlertState::new("cpu_high".to_owned());
    let t = state.update_repeat();
    assert_eq!(t, state.status_last_repeated);
    assert!(t > 0);
}

#[test]
fn new_user_is_unpinned() {
    let user = User::new("42".to_owned(), true);
    assert_eq!("42", user.id);
    assert!(user.authorized);
    assert_eq!(0, user.pinned_message_id);
}

#[test]
fn label_map_overwrites_in_place() {
    let mut map: LabelMap<i64> = LabelMap::new();
    map.insert("a".to_owned(), 1);
    map.insert("b".to_owned(), 2);
    map.insert("a".to_owned(), 3);
    assert_eq!(2, map.len());
    assert_eq!(Some(&3), map.get(&"a".to_owned()));
    assert_eq!(Some(&2), map.get(&"b".to_owned()));
    assert!(map.contains_key(&"b".to_owned()));
    assert!(!map.contains_key(&"c".to_owned()));
    assert_eq!("a", map.key_at(0));
    assert_eq!(&3, map.value_at(0));
}
