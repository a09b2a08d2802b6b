//! The rejection type and errno mapping.

use crate::errno;
use crate::text::{
    decimal, decimal_text, lossy_text, os_error_text, os_error_worded, utf8_lossy,
};
use crate::Version;
use vstd::prelude::*;
use vstd::string::*;
use vstd::utf8::*;

verus! {

/// How a librados call fails.
#[derive(Debug, Clone, Copy, PartialEq, Eq, Structural)]
pub enum RadosError {
    /// `-ENOENT`.
    NotFound,
    /// `-EEXIST`.
    AlreadyExists,
    /// Any other errno.
    Rados(i32),
    /// A NUL byte in what has to be a C string.
    Nul,
}

/// Why an operation did not happen.
///
/// `Fenced`, `Exists` and `NotFound` are the OSD's decision: it stops the op at the first
/// sub-op that fails (`PrimaryLogPG.cc:8379-8386`), so the write applied nothing. `Rados`
/// carries every other errno, including one raised while the outcome is unknown: with
/// `rados_osd_op_timeout` set, Objecter cancels an in-flight op client-side with `-ETIMEDOUT`
/// (`Objecter.cc:2478`) while the OSD may still commit it. Retries, timeouts and the
/// reconciliation of an unknown outcome are the caller's, through its own request outcome.
#[derive(Debug)]
pub enum Rejected {
    /// A guard did not hold, naming the guard.
    Fenced(Fence),
    /// `-EEXIST` from an exclusive create, or from taking a lease this client already holds.
    Exists,
    /// `-ENOENT` from a read, or from a write with no `Guard::Exists`.
    NotFound,
    /// Any other errno, including `EBLOCKLISTED` (108). Whether the write applied is not
    /// decided here.
    Rados(i32),
}

/// The guard that rejected the operation.
#[derive(Debug, Clone, PartialEq, Eq)]
pub enum Fence {
    /// `assert_version`: `-ERANGE` (the object moved past `expected`) or `-EOVERFLOW`.
    Version { expected: Version },
    /// `assert_exists` on an object that does not exist.
    Exists,
    /// `omap_cmp`: the value under `key` is not the one the guard named.
    Omap { key: Vec<u8> },
    /// `cmpxattr`: the xattr `name` does not hold the value the guard named.
    Xattr { name: String },
}

/// A [`Fence`] by its bytes and characters.
pub enum FenceView {
    Version { expected: Version },
    Exists,
    Omap { key: Seq<u8> },
    Xattr { name: Seq<char> },
}

/// A [`Rejected`] by its bytes and characters.
pub enum RejectedView {
    Fenced(FenceView),
    Exists,
    NotFound,
    Rados(i32),
}

impl View for Fence {
    type V = FenceView;

    open spec fn view(&self) -> FenceView {
        match self {
            Fence::Version { expected } => FenceView::Version { expected: *expected },
            Fence::Exists => FenceView::Exists,
            Fence::Omap { key } => FenceView::Omap { key: key@ },
            Fence::Xattr { name } => FenceView::Xattr { name: name@ },
        }
    }
}

impl View for Rejected {
    type V = RejectedView;

    open spec fn view(&self) -> RejectedView {
        match self {
            Rejected::Fenced(fence) => RejectedView::Fenced(fence@),
            Rejected::Exists => RejectedView::Exists,
            Rejected::NotFound => RejectedView::NotFound,
            Rejected::Rados(errno) => RejectedView::Rados(*errno),
        }
    }
}

/// The rejection that a failed librados call stands for when no guard explains it.
pub open spec fn plain_rejection(err: RadosError) -> RejectedView {
    match err {
        RadosError::NotFound => RejectedView::NotFound,
        RadosError::AlreadyExists => RejectedView::Exists,
        RadosError::Rados(errno) => RejectedView::Rados(errno),
        RadosError::Nul => RejectedView::Rados(errno::EINVAL),
    }
}

impl From<RadosError> for Rejected {
    fn from(err: RadosError) -> (rejected: Rejected) {
        match err {
            RadosError::NotFound => Rejected::NotFound,
            RadosError::AlreadyExists => Rejected::Exists,
            RadosError::Rados(errno) => Rejected::Rados(errno),
            // A NUL byte in an oid, an xattr name or an omap bound: librados passes those as C
            // strings, so the op is rejected before it is sent.
            RadosError::Nul => Rejected::Rados(errno::EINVAL),
        }
    }
}

impl vstd::std_specs::convert::FromSpecImpl<RadosError> for Rejected {
    open spec fn obeys_from_spec() -> bool {
        true
    }

    open spec fn from_spec(err: RadosError) -> Rejected {
        match err {
            RadosError::NotFound => Rejected::NotFound,
            RadosError::AlreadyExists => Rejected::Exists,
            RadosError::Rados(errno) => Rejected::Rados(errno),
            RadosError::Nul => Rejected::Rados(errno::EINVAL),
        }
    }
}

/// What a librados call comes to when no guard can explain its failure: the value it
/// returned, or the rejection that its error stands for.
pub fn outcome<T>(reply: Result<T, RadosError>) -> (result: Result<T, Rejected>)
    ensures
        match reply {
            Ok(value) => result == Ok::<T, Rejected>(value),
            Err(err) => result is Err && result->Err_0@ == plain_rejection(err),
        },
        match reply {
            Ok(_) => result is Ok,
            Err(RadosError::NotFound) => result matches Err(Rejected::NotFound),
            Err(RadosError::AlreadyExists) => result matches Err(Rejected::Exists),
            Err(RadosError::Rados(e)) => result matches Err(Rejected::Rados(kept)) && kept == e,
            Err(RadosError::Nul) => result matches Err(Rejected::Rados(e)) && e == 22,
        },
{
    match reply {
        Ok(value) => Ok(value),
        Err(err) => Err(Rejected::from(err)),
    }
}

/// A failure that no guard explains keeps what it is: every errno is carried through, and a NUL
/// byte is an invalid argument (22).
pub proof fn law_failure_keeps_its_errno(err: RadosError)
    ensures
        match err {
            RadosError::NotFound => plain_rejection(err) == RejectedView::NotFound,
            RadosError::AlreadyExists => plain_rejection(err) == RejectedView::Exists,
            RadosError::Rados(e) => plain_rejection(err) == RejectedView::Rados(e),
            RadosError::Nul => plain_rejection(err) == RejectedView::Rados(22),
        },
{
}

/// A rejection is seen as what it is.
pub proof fn law_rejection_is_seen_as_it_is(rejected: Rejected)
    ensures
        match rejected {
            Rejected::Exists => rejected@ == RejectedView::Exists,
            Rejected::NotFound => rejected@ == RejectedView::NotFound,
            Rejected::Rados(e) => rejected@ == RejectedView::Rados(e),
            Rejected::Fenced(Fence::Exists) => rejected@ == RejectedView::Fenced(FenceView::Exists),
            Rejected::Fenced(Fence::Version { expected }) => rejected@ == RejectedView::Fenced(
                FenceView::Version { expected },
            ),
            Rejected::Fenced(Fence::Omap { key }) => rejected@ == RejectedView::Fenced(
                FenceView::Omap { key: key@ },
            ),
            Rejected::Fenced(Fence::Xattr { name }) => rejected@ == RejectedView::Fenced(
                FenceView::Xattr { name: name@ },
            ),
        },
{
}

/// The message of an omap fence, where `key_text` is the key in characters.
pub open spec fn omap_fence_message(key_text: Seq<char>) -> Seq<char> {
    "omap key "@ + key_text + " does not hold the expected value"@
}

/// The message of a fence.
pub open spec fn fence_message(fence: FenceView) -> Seq<char> {
    match fence {
        FenceView::Version { expected } => "object is not at version "@ + decimal(
            expected.0 as nat,
        ),
        FenceView::Exists => "object does not exist"@,
        FenceView::Omap { key } => omap_fence_message(utf8_lossy(key)),
        FenceView::Xattr { name } => "xattr "@ + name + " does not hold the expected value"@,
    }
}

/// The message of a rejection, where `os_error` is the operating system's wording of an errno.
pub open spec fn rejection_message(rejected: RejectedView, os_error: Seq<char>) -> Seq<char> {
    match rejected {
        RejectedView::Fenced(fence) => "fenced: "@ + fence_message(fence),
        RejectedView::Exists => "object already exists"@,
        RejectedView::NotFound => "object not found"@,
        RejectedView::Rados(_) => "librados: "@ + os_error,
    }
}

/// The message of a fence names its guard: between the words of its kind stand the version in
/// decimal, the whole of the key in characters, or the whole of the name.
pub proof fn law_message_names_the_guard(fence: FenceView)
    ensures
        ({
            let message = fence_message(fence);
            let before_version = "object is not at version "@;
            let before_key = "omap key "@;
            let before_name = "xattr "@;
            let behind = " does not hold the expected value"@;
            match fence {
                FenceView::Version { expected } => {
                    &&& before_version.is_prefix_of(message)
                    &&& message.skip(before_version.len() as int) == decimal(expected.0 as nat)
                },
                FenceView::Exists => message == "object does not exist"@,
                FenceView::Omap { key } => {
                    &&& before_key.is_prefix_of(message)
                    &&& behind.is_suffix_of(message)
                    &&& message.subrange(
                        before_key.len() as int,
                        message.len() - behind.len(),
                    ) == utf8_lossy(key)
                },
                FenceView::Xattr { name } => {
                    &&& before_name.is_prefix_of(message)
                    &&& behind.is_suffix_of(message)
                    &&& message.subrange(
                        before_name.len() as int,
                        message.len() - behind.len(),
                    ) == name
                },
            }
        }),
{
    let message = fence_message(fence);
    let before_key = "omap key "@;
    let before_name = "xattr "@;
    let behind = " does not hold the expected value"@;
    match fence {
        FenceView::Version { expected } => {
            let before = "object is not at version "@;
            assert(message.skip(before.len() as int) =~= decimal(expected.0 as nat));
        },
        FenceView::Omap { key } => {
            assert(message.subrange(before_key.len() as int, message.len() - behind.len())
                =~= utf8_lossy(key));
        },
        FenceView::Xattr { name } => {
            assert(message.subrange(before_name.len() as int, message.len() - behind.len())
                =~= name);
        },
        _ => {},
    }
}

/// The message of a rejection says of which kind it is, and goes on with the whole message of the
/// fence or the whole wording of the errno.
pub proof fn law_message_tells_the_rejections_apart(rejected: RejectedView, os_error: Seq<char>)
    ensures
        ({
            let message = rejection_message(rejected, os_error);
            match rejected {
                RejectedView::Fenced(fence) => {
                    &&& "fenced: "@.is_prefix_of(message)
                    &&& message.skip("fenced: "@.len() as int) == fence_message(fence)
                },
                RejectedView::Exists => message == "object already exists"@,
                RejectedView::NotFound => message == "object not found"@,
                RejectedView::Rados(_) => {
                    &&& "librados: "@.is_prefix_of(message)
                    &&& message.skip("librados: "@.len() as int) == os_error
                },
            }
        }),
{
    let message = rejection_message(rejected, os_error);
    match rejected {
        RejectedView::Fenced(fence) => {
            assert(message.skip("fenced: "@.len() as int) =~= fence_message(fence));
        },
        RejectedView::Rados(_) => {
            assert(message.skip("librados: "@.len() as int) =~= os_error);
        },
        _ => {},
    }
}

impl Fence {
    /// The guard that rejected the operation, in words. An omap key that is UTF-8 is spelled as
    /// it is.
    pub fn message(&self) -> (message: String)
        ensures
            message@ == fence_message(self@),
            self@ matches FenceView::Omap { key } ==> valid_utf8(key) ==> message@
                == omap_fence_message(decode_utf8(key)),
    {
        match self {
            Fence::Version { expected } => {
                "object is not at version ".to_owned().concat(decimal_text(expected.0).as_str())
            },
            Fence::Exists => "object does not exist".to_owned(),
            Fence::Omap { key } => {
                let key_text = lossy_text(key.as_slice());
                "omap key ".to_owned().concat(key_text.as_str()).concat(
                    " does not hold the expected value",
                )
            },
            Fence::Xattr { name } => {
                "xattr ".to_owned().concat(name.as_str()).concat(
                    " does not hold the expected value",
                )
            },
        }
    }
}

impl Rejected {
    /// Why the operation did not happen, in words. An errno is given in the operating system's
    /// own wording of it.
    pub fn message(&self) -> (message: String)
        ensures
            exists|os_error: Seq<char>|
                message@ == #[trigger] rejection_message(self@, os_error) && (
                self@ matches RejectedView::Rados(errno) ==> os_error_worded(errno, os_error)),
            self@ matches RejectedView::Fenced(FenceView::Omap { key }) ==> valid_utf8(key)
                ==> message@ == "fenced: "@ + omap_fence_message(decode_utf8(key)),
    {
        match self {
            Rejected::Rados(errno) => {
                let os_error = os_error_text(*errno);
                self.message_with(os_error.as_str())
            },
            _ => self.message_with(""),
        }
    }

    /// Why the operation did not happen, with `os_error` for the wording of an errno.
    pub fn message_with(&self, os_error: &str) -> (message: String)
        ensures
            message@ == rejection_message(self@, os_error@),
            self@ matches RejectedView::Fenced(FenceView::Omap { key }) ==> valid_utf8(key)
                ==> message@ == "fenced: "@ + omap_fence_message(decode_utf8(key)),
    {
        match self {
            Rejected::Fenced(fence) => "fenced: ".to_owned().concat(fence.message().as_str()),
            Rejected::Exists => "object already exists".to_owned(),
            Rejected::NotFound => "object not found".to_owned(),
            Rejected::Rados(_) => "librados: ".to_owned().concat(os_error),
        }
    }
}

} // verus!
