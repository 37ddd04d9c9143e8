//! The outside crates that the relay builds on. Nothing in this file is
//! proved: each item is taken on trust, and states what its crate's source
//! or documentation says of the type or function that it names.

use crate::types::ServerMessage;
use dashmap::DashMap;
use serde_json::Value;
use std::time::{Duration, SystemTime};
use tokio::sync::mpsc::UnboundedSender;
use vstd::prelude::*;

verus! {

/// `dashmap::DashMap`, a sharded concurrent hash map. Nothing is known of
/// what is inside but what the functions on the relay's tables state.
#[verifier::external_type_specification]
#[verifier::external_body]
#[verifier::reject_recursive_types(K)]
#[verifier::reject_recursive_types(V)]
#[verifier::reject_recursive_types(S)]
pub struct ExDashMap<K, V, S>(DashMap<K, V, S>);

/// `tokio::sync::mpsc::UnboundedSender`, the sending half of an unbounded
/// channel. The relay keeps such handles and sends on them, and never looks
/// inside.
#[verifier::external_type_specification]
#[verifier::external_body]
#[verifier::reject_recursive_types(T)]
pub struct ExUnboundedSender<T>(UnboundedSender<T>);

/// `serde_json::Value`, any JSON value. The relay carries such values through
/// and never looks inside.
#[verifier::external_type_specification]
#[verifier::external_body]
pub struct ExValue(Value);

/// `std::time::SystemTime`, a reading of the system clock.
#[verifier::external_type_specification]
#[verifier::external_body]
pub struct ExSystemTime(SystemTime);

/// `Clone::clone` of `serde_json::Value`: the copy is the same JSON value.
pub assume_specification[ <Value as Clone>::clone ](v: &Value) -> (res: Value)
    ensures
        res == *v,
;

/// `Clone::clone` of `UnboundedSender`: the copy is a handle to the same
/// channel.
pub assume_specification<T>[ <UnboundedSender<T> as Clone>::clone ](
    tx: &UnboundedSender<T>,
) -> (res: UnboundedSender<T>)
    ensures
        res == *tx,
;

/// `UnboundedSender::send`: hands the envelope to the channel without
/// waiting. The answer is `false` when the receiving half is closed or
/// dropped, in which case the envelope is lost. Which of the two happens
/// depends on the receiver, so nothing is promised of the answer.
#[verifier::external_body]
pub(crate) fn channel_send(
    tx: &UnboundedSender<ServerMessage>,
    message: ServerMessage,
) -> (accepted: bool) {
    tx.send(message).is_ok()
}

/// `Uuid::new_v4`, written out as text: a random identifier. Nothing is
/// promised of a random value.
#[verifier::external_body]
pub(crate) fn random_id() -> (id: String) {
    uuid::Uuid::new_v4().to_string()
}

/// How far a reading of the clock is past the Unix epoch, as
/// `SystemTime::duration_since` gives it; `None` for a reading that is
/// earlier than the epoch.
pub uninterp spec fn elapsed_since_epoch(reading: SystemTime) -> Option<Duration>;

/// The whole seconds of a duration, as `Duration::as_secs` gives them.
pub uninterp spec fn seconds_in(elapsed: Duration) -> u64;

/// `SystemTime::now`: the current reading of the system clock. Nothing is
/// promised of the time.
#[verifier::external_body]
pub(crate) fn clock_now() -> (now: SystemTime) {
    SystemTime::now()
}

/// `SystemTime::duration_since` the Unix epoch: how far the reading is past
/// the epoch; `None` when it is earlier than the epoch. The answer depends
/// on the reading alone.
#[verifier::external_body]
pub(crate) fn since_epoch(t: &SystemTime) -> (elapsed: Option<Duration>)
    ensures
        elapsed == elapsed_since_epoch(*t),
{
    t.duration_since(std::time::UNIX_EPOCH).ok()
}

/// `Duration::as_secs`: the whole seconds of the duration. The answer
/// depends on the duration alone.
#[verifier::external_body]
pub(crate) fn whole_seconds(elapsed: &Duration) -> (secs: u64)
    ensures
        secs == seconds_in(*elapsed),
{
    elapsed.as_secs()
}

} // verus!
