//! A notification subscriber: a chat identity, whether it is authorized to
//! receive alerts, and its pinned summary message.

use vstd::prelude::*;

verus! {

/// One subscriber of the notification channel.
#[derive(Clone, Debug)]
pub struct User {
    pub id: String,
    pub authorized: bool,
    /// Identifier of the subscriber's pinned summary message; 0 when none
    /// was created yet.
    pub pinned_message_id: i32,
}

impl User {
    /// A subscriber record as first created: not yet pinned.
    pub fn new(id: String, authorized: bool) -> (u: Self)
        ensures
            u.id@ == id@,
            u.authorized == authorized,
            u.pinned_message_id == 0,
    {
        User { id, authorized, pinned_message_id: 0 }
    }
}

} // verus!
