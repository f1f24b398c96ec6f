//! The per-label firing status of an alert, with its user-facing glyph and
//! wording.

use vstd::prelude::*;

verus! {

/// Status of one label of an alert: healthy, firing, or without data.
#[derive(Clone, Copy, Debug, PartialEq, Eq, Hash, Structural)]
pub enum AlertStatus {
    Okay,
    Firing,
    NoData,
}

/// The glyph shown in front of a status in messages.
pub open spec fn spec_emoji(status: AlertStatus) -> Seq<char> {
    match status {
        AlertStatus::Okay => "✅"@,
        AlertStatus::Firing => "‼"@,
        AlertStatus::NoData => "️⚠️"@,
    }
}

/// The human-readable wording of a status.
pub open spec fn spec_status_text(status: AlertStatus) -> Seq<char> {
    match status {
        AlertStatus::Okay => "Ok"@,
        AlertStatus::Firing => "Firing"@,
        AlertStatus::NoData => "No data"@,
    }
}

impl AlertStatus {
    pub fn emoji(&self) -> (r: &'static str)
        ensures
            r@ == spec_emoji(*self),
    {
        match self {
            AlertStatus::Okay => "✅",
            AlertStatus::Firing => "‼",
            AlertStatus::NoData => "️⚠️",
        }
    }

    /// The wording used when a status is rendered in a message.
    pub fn text(&self) -> (r: String)
        ensures
            r@ == spec_status_text(*self),
    {
        match self {
            AlertStatus::Okay => "Ok".to_owned(),
            AlertStatus::Firing => "Firing".to_owned(),
            AlertStatus::NoData => "No data".to_owned(),
        }
    }
}

impl Default for AlertStatus {
    fn default() -> (r: Self)
        ensures
            r == AlertStatus::Okay,
    {
        AlertStatus::Okay
    }
}

} // verus!
