//! Alerting configuration: datasources, alert definitions, and the
//! referential check that every alert points at a known datasource.

use crate::condition::AlertCondition;
use crate::label_map::LabelMap;
use crate::status::AlertStatus;
use vstd::prelude::*;

verus! {

/// How a datasource authenticates its range queries.
#[derive(Clone, Debug)]
pub enum DatasourceAuth {
    NoAuth,
    AuthorizationHeader(String),
}

/// A metrics backend that answers range queries.
#[derive(Clone, Debug)]
pub struct Datasource {
    pub url: String,
    pub auth: DatasourceAuth,
}

/// Human-readable description per status kind, shown in notifications.
/// An unset description is the empty string.
#[derive(Clone, Debug)]
pub struct StatusDescriptions {
    pub ok: String,
    pub err: String,
    pub no_data: String,
}

/// One configured alert, immutable at runtime.
#[derive(Clone, Debug)]
pub struct Alert {
    pub name: String,
    pub datasource: String,
    /// Evaluate once every `interval_s` scheduler ticks.
    pub interval_s: u32,
    pub query: String,
    pub condition: AlertCondition,
    /// Lookback window of an evaluation, in seconds.
    pub condition_range_s: u64,
    /// Lookback window of a rendered chart, in seconds.
    pub graph_range_s: u64,
    /// Query resolution handed to the datasource.
    pub step: String,
    /// Label template; the fetcher substitutes the series tags into it.
    pub label: String,
    pub description: String,
    pub statuses: StatusDescriptions,
}

impl Alert {
    /// The configured description of a status; empty when unset.
    pub open spec fn spec_status_description(&self, status: AlertStatus) -> Seq<char> {
        match status {
            AlertStatus::Okay => self.statuses.ok@,
            AlertStatus::Firing => self.statuses.err@,
            AlertStatus::NoData => self.statuses.no_data@,
        }
    }

    pub fn status_description(&self, status: &AlertStatus) -> (r: String)
        ensures
            r@ == self.spec_status_description(*status),
    {
        match status {
            AlertStatus::Okay => self.statuses.ok.clone(),
            AlertStatus::Firing => self.statuses.err.clone(),
            AlertStatus::NoData => self.statuses.no_data.clone(),
        }
    }

    /// The datasource this alert queries, or `None` when the configuration
    /// does not know it (ruled out by [`Config::validate`]).
    pub fn datasource_instance<'a>(&self, config: &'a Config) -> (r: Option<&'a Datasource>)
        requires
            config.wf(),
        ensures
            match r {
                Some(d) => config.datasources.as_map().dom().contains(self.datasource@) && *d
                    == config.datasources.as_map()[self.datasource@],
                None => !config.datasources.as_map().dom().contains(self.datasource@),
            },
    {
        config.datasources.get(&self.datasource)
    }
}

/// The whole alerting configuration.
pub struct Config {
    /// Minimum spacing of duplicate notifications for a still-firing
    /// condition, in seconds.
    pub repeat_interval_secs: u64,
    /// Text of the alert-level notification sent when a query returns no
    /// series at all.
    pub no_data_message: String,
    pub datasources: LabelMap<Datasource>,
    pub alerts: Vec<Alert>,
}

impl Config {
    pub open spec fn wf(&self) -> bool {
        self.datasources.wf()
    }

    /// Every alert references a known datasource.
    pub open spec fn datasources_resolved(&self) -> bool {
        forall|i: int|
            0 <= i < self.alerts@.len() ==> self.datasources.as_map().dom().contains(
                (#[trigger] self.alerts@[i]).datasource@,
            )
    }

    /// The referential check run once at startup: `Ok` exactly when every
    /// alert's datasource key exists, else the first unknown key.
    pub fn validate(&self) -> (r: Result<(), String>)
        requires
            self.wf(),
        ensures
            r is Ok <==> self.datasources_resolved(),
            r matches Err(name) ==> exists|i: int|
                0 <= i < self.alerts@.len() && name@ == (#[trigger] self.alerts@[i]).datasource@
                    && !self.datasources.as_map().dom().contains(self.alerts@[i].datasource@)
                    && (forall|j: int|
                    0 <= j < i ==> self.datasources.as_map().dom().contains(
                        (#[trigger] self.alerts@[j]).datasource@,
                    )),
    {
        let n = self.alerts.len();
        let mut i: usize = 0;
        while i < n
            invariant
                self.wf(),
                n == self.alerts@.len(),
                i <= n,
                forall|j: int|
                    0 <= j < i ==> self.datasources.as_map().dom().contains(
                        (#[trigger] self.alerts@[j]).datasource@,
                    ),
            decreases n - i,
        {
            if !self.datasources.contains_key(&self.alerts[i].datasource) {
                return Err(self.alerts[i].datasource.clone());
            }
            i = i + 1;
        }
        Ok(())
    }
}

} // verus!
