//! Alert evaluation with per-label status tracking.
//!
//! Alerts reduce a time series to a per-label status with a hysteresis
//! threshold rule ([`condition`]), keep one persisted record per alert
//! ([`state`]), and decide per tick what to notify: transitions, periodic
//! repeats for labels that stay unhealthy, and an alert-level signal when a
//! query returns no data at all ([`engine`]). [`summary`] aggregates the
//! statuses across alerts, [`config`] checks the configuration's referential
//! integrity, and [`util`] words counts and elapsed durations. Fetching,
//! storage and delivery stay outside; they hand the library plain values.

mod clock;
pub mod condition;
pub mod config;
pub mod engine;
pub mod expiring_map;
pub mod label_map;
pub mod state;
pub mod status;
pub mod summary;
pub mod user;
pub mod util;
