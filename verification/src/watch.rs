//! Notifying the watchers of an object.

use crate::error::{plain_rejection, RadosError, Rejected};
use vstd::prelude::*;

verus! {

/// The answer of one watcher to a notification.
#[derive(Debug, PartialEq, Eq)]
pub struct NotifyAck {
    /// The watcher's gid.
    pub notifier_id: u64,
    /// What the watcher acked with.
    pub payload: Vec<u8>,
}

/// The nanoseconds of a second.
pub const NANOS_PER_SEC: u32 = 1_000_000_000;

/// The whole seconds that a notification waits for its acks, where the caller asked for `secs`
/// seconds and `nanos` nanoseconds: rounded up, because librados divides the millisecond value
/// by 1000.
///
/// librados replaces a 0 with the client's `client_notify_timeout` (10s by default) before the
/// op is sent (`IoCtxImpl.cc:1849-1851`), so 0 is that config value rather than any OSD-side
/// default.
pub fn notify_seconds(secs: u64, nanos: u32) -> (whole: u64)
    requires
        nanos < NANOS_PER_SEC,
    ensures
        nanos == 0 ==> whole == secs,
        nanos > 0 && secs < u64::MAX ==> whole == secs + 1,
        nanos > 0 && secs == u64::MAX ==> whole == u64::MAX,
{
    if nanos == 0 {
        secs
    } else {
        secs.saturating_add(1)
    }
}

/// Whether `acks` pairs the gid of each answer with its payload, in the order of the answers.
pub open spec fn pairs_acks(acks: Seq<(u64, Vec<u8>)>, answers: Seq<NotifyAck>) -> bool {
    &&& acks.len() == answers.len()
    &&& forall|i: int|
        0 <= i < acks.len() ==> (#[trigger] acks[i]).0 == answers[i].notifier_id && acks[i].1
            == answers[i].payload
}

/// What a notification comes to: the gid of each acking watcher with the bytes that it acked
/// with. A watcher that did not ack in time is simply absent.
pub fn notify_outcome(reply: Result<Vec<NotifyAck>, RadosError>) -> (result: Result<
    Vec<(u64, Vec<u8>)>,
    Rejected,
>)
    ensures
        match reply {
            Ok(answers) => {
                &&& result matches Ok(acks)
                &&& pairs_acks(acks@, answers@)
                &&& acks@.len() == answers@.len()
                &&& forall|i: int|
                    0 <= i < answers@.len() ==> acks@[i].0 == answers@[i].notifier_id && acks@[i].1
                        == (#[trigger] answers@[i]).payload
            },
            Err(err) => result is Err && result->Err_0@ == plain_rejection(err),
        },
{
    match reply {
        Ok(answers) => {
            let mut acks: Vec<(u64, Vec<u8>)> = Vec::new();
            for answer in iter: answers.into_iter()
                invariant
                    iter.seq() == answers@,
                    acks@.len() == iter.index(),
                    pairs_acks(acks@, answers@.take(iter.index() as int)),
            {
                acks.push((answer.notifier_id, answer.payload));
            }
            assert(answers@.take(answers@.len() as int) =~= answers@);
            Ok(acks)
        },
        Err(err) => Err(Rejected::from(err)),
    }
}

} // verus!
