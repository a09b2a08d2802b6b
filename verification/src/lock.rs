//! `cls_lock` leases.
//!
//! A lease decides who should be the writer. It does not fence a write on its own: `cls_lock`
//! expires on the OSD's wall clock, and fencing requires a write guard such as an epoch comparison.

use crate::errno;
use crate::error::{plain_rejection, RadosError, Rejected, RejectedView};
use std::time::Duration;
use vstd::prelude::*;

verus! {

/// A holder of a lease.
#[derive(Debug, PartialEq, Eq)]
pub struct Locker {
    /// The client, in the form that `break_lock` takes.
    pub client: String,
    pub cookie: String,
    /// The address the OSD sees, which is what `blocklist_add` takes.
    pub addr: String,
}

/// The arguments of an exclusive `cls_lock` lock.
#[derive(Debug, Clone, Copy, PartialEq, Eq)]
pub struct LockCall<'a> {
    pub oid: &'a str,
    pub name: &'a str,
    pub cookie: &'a str,
    pub desc: &'a str,
    /// How long the lock lasts; without it, for ever.
    pub duration: Option<Duration>,
    /// Whether the call carries `LOCK_FLAG_MUST_RENEW`.
    pub must_renew: bool,
}

/// A [`LockCall`] by its characters.
pub struct LockCallView {
    pub oid: Seq<char>,
    pub name: Seq<char>,
    pub cookie: Seq<char>,
    pub desc: Seq<char>,
    pub duration: Option<Duration>,
    pub must_renew: bool,
}

impl<'a> View for LockCall<'a> {
    type V = LockCallView;

    open spec fn view(&self) -> LockCallView {
        LockCallView {
            oid: self.oid@,
            name: self.name@,
            cookie: self.cookie@,
            desc: self.desc@,
            duration: self.duration,
            must_renew: self.must_renew,
        }
    }
}

/// The call that takes the lease for `ttl`.
pub fn lock_exclusive_call<'a>(
    oid: &'a str,
    name: &'a str,
    cookie: &'a str,
    desc: &'a str,
    ttl: Duration,
) -> (call: LockCall<'a>)
    ensures
        call == (LockCall { oid, name, cookie, desc, duration: Some(ttl), must_renew: false }),
{
    LockCall { oid, name, cookie, desc, duration: Some(ttl), must_renew: false }
}

/// The call that extends a lease this client holds to `now + ttl`.
pub fn renew_call<'a>(
    oid: &'a str,
    name: &'a str,
    cookie: &'a str,
    desc: &'a str,
    ttl: Duration,
) -> (call: LockCall<'a>)
    ensures
        call == (LockCall { oid, name, cookie, desc, duration: Some(ttl), must_renew: true }),
{
    LockCall { oid, name, cookie, desc, duration: Some(ttl), must_renew: true }
}

/// What taking a lease comes to: `-EBUSY` means another holder has it.
pub open spec fn lock_result(reply: Result<(), RadosError>) -> Result<bool, RejectedView> {
    match reply {
        Ok(_) => Ok(true),
        Err(err) => if err == RadosError::Rados(errno::EBUSY) {
            Ok(false)
        } else {
            Err(plain_rejection(err))
        },
    }
}

/// What renewing a lease comes to: `-ENOENT` means it is not held any more.
pub open spec fn renew_result(reply: Result<(), RadosError>) -> Result<bool, RejectedView> {
    match reply {
        Ok(_) => Ok(true),
        Err(err) => if err == RadosError::NotFound {
            Ok(false)
        } else {
            Err(plain_rejection(err))
        },
    }
}

/// The lease is taken exactly where the lock call succeeded, someone else has it exactly where
/// the call failed with `-EBUSY` (16), and every other failure is one, with its own errno.
pub proof fn law_lease_is_taken_where_the_call_succeeded(reply: Result<(), RadosError>)
    ensures
        lock_result(reply) == Ok::<bool, RejectedView>(true) <==> reply is Ok,
        lock_result(reply) == Ok::<bool, RejectedView>(false) <==> reply == Err::<(), RadosError>(
            RadosError::Rados(16),
        ),
        reply matches Err(RadosError::Rados(e)) ==> (e != 16 ==> lock_result(reply) == Err::<
            bool,
            RejectedView,
        >(RejectedView::Rados(e))),
        reply == Err::<(), RadosError>(RadosError::AlreadyExists) ==> lock_result(reply) == Err::<
            bool,
            RejectedView,
        >(RejectedView::Exists),
        reply == Err::<(), RadosError>(RadosError::NotFound) ==> lock_result(reply) == Err::<
            bool,
            RejectedView,
        >(RejectedView::NotFound),
        reply == Err::<(), RadosError>(RadosError::Nul) ==> lock_result(reply) == Err::<
            bool,
            RejectedView,
        >(RejectedView::Rados(22)),
{
}

/// The lease is renewed exactly where the lock call succeeded, it is not held any more exactly
/// where the call failed with `-ENOENT`, and every other failure is one, with its own errno.
pub proof fn law_lease_is_renewed_where_the_call_succeeded(reply: Result<(), RadosError>)
    ensures
        renew_result(reply) == Ok::<bool, RejectedView>(true) <==> reply is Ok,
        renew_result(reply) == Ok::<bool, RejectedView>(false) <==> reply == Err::<(), RadosError>(
            RadosError::NotFound,
        ),
        reply matches Err(RadosError::Rados(e)) ==> renew_result(reply) == Err::<
            bool,
            RejectedView,
        >(RejectedView::Rados(e)),
        reply == Err::<(), RadosError>(RadosError::AlreadyExists) ==> renew_result(reply) == Err::<
            bool,
            RejectedView,
        >(RejectedView::Exists),
        reply == Err::<(), RadosError>(RadosError::Nul) ==> renew_result(reply) == Err::<
            bool,
            RejectedView,
        >(RejectedView::Rados(22)),
{
}

/// The answer of an operation that says yes or no, by its bytes and characters.
pub open spec fn answer_view(result: Result<bool, Rejected>) -> Result<bool, RejectedView> {
    match result {
        Ok(yes) => Ok(yes),
        Err(rejected) => Err(rejected@),
    }
}

/// Reads the answer to [`lock_exclusive_call`]. `Ok(false)` means another holder has the lease.
///
/// Taking a lease this client already holds under the same cookie is [`Rejected::Exists`], not
/// a renewal; [`renew_call`] renews.
pub fn lock_exclusive_outcome(reply: Result<(), RadosError>) -> (result: Result<bool, Rejected>)
    ensures
        answer_view(result) == lock_result(reply),
        result matches Ok(true) <==> reply is Ok,
        result matches Ok(false) <==> reply == Err::<(), RadosError>(RadosError::Rados(16)),
        reply matches Err(RadosError::Rados(e)) ==> e != 16 ==> (result matches Err(
            Rejected::Rados(kept),
        ) && kept == e),
        reply matches Err(RadosError::AlreadyExists) ==> result matches Err(Rejected::Exists),
        reply matches Err(RadosError::NotFound) ==> result matches Err(Rejected::NotFound),
        reply matches Err(RadosError::Nul) ==> (result matches Err(Rejected::Rados(e)) && e == 22),
{
    match reply {
        Ok(_) => Ok(true),
        Err(err) => {
            if let RadosError::Rados(e) = err {
                if e == errno::EBUSY {
                    return Ok(false);
                }
            }
            Err(Rejected::from(err))
        },
    }
}

/// Reads the answer to [`renew_call`]. `Ok(false)` means the lease is not held any more, which
/// `MUST_RENEW` reports as `-ENOENT` (`cls_lock.cc:145-217`).
pub fn renew_outcome(reply: Result<(), RadosError>) -> (result: Result<bool, Rejected>)
    ensures
        answer_view(result) == renew_result(reply),
        result matches Ok(true) <==> reply is Ok,
        result matches Ok(false) <==> reply == Err::<(), RadosError>(RadosError::NotFound),
        reply matches Err(RadosError::Rados(e)) ==> (result matches Err(Rejected::Rados(kept))
            && kept == e),
        reply matches Err(RadosError::AlreadyExists) ==> result matches Err(Rejected::Exists),
        reply matches Err(RadosError::Nul) ==> (result matches Err(Rejected::Rados(e)) && e == 22),
{
    match reply {
        Ok(_) => Ok(true),
        Err(RadosError::NotFound) => Ok(false),
        Err(err) => Err(Rejected::from(err)),
    }
}

} // verus!
