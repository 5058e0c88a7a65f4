//! The notification dispatcher's decision side.
//!
//! Submitting the task and reading the task-result store are outside work;
//! here stand the retry budget (ten attempts, a hundred milliseconds apart),
//! the payload building, and the rule that an exhausted acknowledgment poll
//! is non-fatal and reports a fallback message.

use vstd::prelude::*;
use vstd::string::StringExecFns;
use vstd::std_specs::convert::FromSpec;
use crate::dtos::{Notify, NotifyEmail};
use crate::retry::PollResult;

verus! {

/// How many times the task-result store is read before giving up.
pub const ACK_MAX_ATTEMPTS: u64 = 10;

/// Milliseconds between two reads of the task-result store.
pub const ACK_INTERVAL_MS: u64 = 100;

/// Joins the payload with the recipient address.
pub fn build_notify_email(notify: Notify, email: String) -> (r: NotifyEmail)
    ensures
        r == NotifyEmail::from_spec((notify, email)),
{
    NotifyEmail::from((notify, email))
}

/// The message a finished acknowledgment poll reports: the stored value when
/// one arrived, the fallback text when the poll timed out.
pub fn notification_message(r: PollResult) -> (s: String)
    ensures
        match r {
            PollResult::Found(v) => s == v,
            PollResult::TimedOut => s@ == "Error to send notification"@,
        },
{
    match r {
        PollResult::Found(v) => v,
        PollResult::TimedOut => String::from_str("Error to send notification"),
    }
}

} // verus!
