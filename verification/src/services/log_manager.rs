//! The runtime log and its follow stream: at most one follower at a time.

use vstd::prelude::*;

use crate::errors::{error_details_of, error_kind_of, error_message_of, AlfredError, ErrorKind};
use crate::json::{json_text, object_entries, push_entry, text_value, JsonValue};

verus! {

broadcast use vstd::string::group_string_axioms;

/// `e` is the conflict `message` with details `{"reason": reason}`.
pub open spec fn follow_conflict(e: AlfredError, message: Seq<char>, reason: Seq<char>) -> bool {
    &&& e is ConflictWithDetails
    &&& error_kind_of(e) == ErrorKind::Conflict
    &&& error_message_of(e)@ == message
    &&& error_details_of(e) matches Some(d) && d is Object && object_entries(d).len() == 1
        && object_entries(d)[0].0@ == "reason"@ && text_value(object_entries(d)[0].1, reason)
}

fn follow_error(message: &str, reason: &str) -> (e: AlfredError)
    ensures
        follow_conflict(e, message@, reason@),
{
    let mut entries: Vec<(String, JsonValue)> = Vec::new();
    push_entry(&mut entries, "reason", json_text(reason));
    AlfredError::ConflictWithDetails {
        message: message.to_string(),
        details: Some(JsonValue::Object(entries)),
    }
}

/// Manages the runtime log: its path and whether a follow stream is active.
pub struct LogManager {
    log_path: String,
    follow_active: bool,
}

impl LogManager {
    /// The log path.
    pub closed spec fn path_view(&self) -> Seq<char> {
        self.log_path@
    }

    /// Whether a follow stream is active.
    pub closed spec fn following(&self) -> bool {
        self.follow_active
    }

    /// A log manager for the NDJSON log at `log_path`, with no follow stream.
    pub fn new(log_path: String) -> (m: Self)
        ensures
            m.path_view() == log_path@,
            !m.following(),
    {
        LogManager { log_path, follow_active: false }
    }

    /// Returns the configured log path.
    pub fn log_path(&self) -> (r: &str)
        ensures
            r@ == self.path_view(),
    {
        self.log_path.as_str()
    }

    /// Starts the follow stream; a second one is refused while the first is active.
    pub fn try_start_follow(&mut self) -> (r: Result<(), AlfredError>)
        ensures
            final(self).path_view() == old(self).path_view(),
            final(self).following(),
            old(self).following() ==> r is Err && follow_conflict(
                r->Err_0,
                "follow stream already active"@,
                "stream_active"@,
            ),
            !old(self).following() ==> r is Ok,
    {
        if self.follow_active {
            return Err(follow_error("follow stream already active", "stream_active"));
        }
        self.follow_active = true;
        Ok(())
    }

    /// Stops the follow stream; an error when none is active.
    pub fn stop_follow(&mut self) -> (r: Result<(), AlfredError>)
        ensures
            final(self).path_view() == old(self).path_view(),
            !final(self).following(),
            !old(self).following() ==> r is Err && follow_conflict(
                r->Err_0,
                "no follow stream active"@,
                "stream_not_active"@,
            ),
            old(self).following() ==> r is Ok,
    {
        if !self.follow_active {
            return Err(follow_error("no follow stream active", "stream_not_active"));
        }
        self.follow_active = false;
        Ok(())
    }
}

} // verus!
