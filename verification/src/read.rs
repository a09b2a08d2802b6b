//! Reads, and the version they were taken at.

use crate::bytes::{is_nul_free, nul_free};
use crate::entries::{
    in_key_order, law_last_value_of_a_key_wins, lemma_lookup, pair_views, set_in_turn, OmapEntries,
};
use crate::errno;
use crate::error::{plain_rejection, Fence, FenceView, RadosError, Rejected, RejectedView};
use crate::op::{key_views, ReadStep, ReadStepView};
use crate::Version;
use vstd::prelude::*;

verus! {

/// One page of omap entries and the object version they were read at.
#[derive(Debug)]
pub struct Page {
    /// Key/value pairs in key order.
    pub entries: Vec<(Vec<u8>, Vec<u8>)>,
    /// The OSD stopped before the end of the prefix. Any of three caps does it: `limit`,
    /// `osd_max_omap_bytes_per_request`, or `osd_max_omap_entries_per_request`, which clamps
    /// `limit` down (`PrimaryLogPG.cc:7957-7959`, `7983-7985`). Read on from the last key.
    pub more: bool,
    pub version: Version,
}

/// A [`Page`] by what its entries hold.
pub struct PageView {
    pub entries: Map<Seq<u8>, Seq<u8>>,
    pub more: bool,
    pub version: Version,
}

impl View for Page {
    type V = PageView;

    open spec fn view(&self) -> PageView {
        PageView {
            entries: set_in_turn(pair_views(self.entries@)),
            more: self.more,
            version: self.version,
        }
    }
}

impl Page {
    /// The entries come in key order.
    pub open spec fn wf(&self) -> bool {
        in_key_order(pair_views(self.entries@))
    }
}

/// What an `omap_get_vals` found.
#[derive(Debug)]
pub struct OmapFound {
    pub entries: OmapEntries,
    pub more: bool,
}

/// What a read op that ran came back with: the version that the ioctx then reported, and what
/// the sub-op that fetches values gave.
#[derive(Debug)]
pub struct ReadReply<T> {
    pub version: u64,
    pub values: Result<T, RadosError>,
}

/// The sub-ops that read a page. Where the page is pinned, the check of the version comes
/// first.
pub open spec fn page_steps(
    prefix: Seq<u8>,
    start_after: Seq<u8>,
    limit: u32,
    at: Option<Version>,
) -> Seq<ReadStepView> {
    let values = ReadStepView::OmapValues { start_after, prefix, max: limit as u64 };
    match at {
        Some(version) => seq![ReadStepView::AssertVersion(version.0), values],
        None => seq![values],
    }
}

/// A list of read sub-ops by their bytes.
pub open spec fn read_step_views(steps: Seq<ReadStep>) -> Seq<ReadStepView> {
    steps.map_values(|s: ReadStep| s@)
}

/// The operation that reads at most `limit` entries whose key starts with `prefix`, after
/// `start_after`.
///
/// `at` pins the object: the `assert_version` rides in the same operation as the read, so a
/// page is either from that exact version of the object or is
/// [`Fenced`](Rejected::Fenced). Replay reads the whole object at the version its head read
/// saw.
///
/// `prefix` and `start_after` reach the OSD as C strings (`librados_c.cc:4411-4412`), so
/// neither can hold an interior NUL byte.
pub fn page_op<'a>(
    prefix: &'a [u8],
    start_after: &'a [u8],
    limit: u32,
    at: Option<Version>,
) -> (result: Result<Vec<ReadStep<'a>>, Rejected>)
    ensures
        result is Ok <==> nul_free(prefix@) && nul_free(start_after@),
        match result {
            Ok(steps) => {
                &&& read_step_views(steps@) == page_steps(prefix@, start_after@, limit, at)
                &&& at matches Some(version) ==> steps@.len() == 2 && steps@[0]
                    == ReadStep::AssertVersion(version.0)
                &&& at is None ==> steps@.len() == 1
                &&& steps@.last() == (ReadStep::OmapValues {
                    start_after,
                    prefix,
                    max: limit as u64,
                })
            },
            Err(rejected) => rejected@ == RejectedView::Rados(errno::EINVAL),
        },
{
    if !is_nul_free(start_after) || !is_nul_free(prefix) {
        return Err(Rejected::from(RadosError::Nul));
    }
    let mut steps: Vec<ReadStep<'a>> = Vec::new();
    if let Some(version) = at {
        steps.push(ReadStep::AssertVersion(version.0));
    }
    steps.push(ReadStep::OmapValues { start_after, prefix, max: limit as u64 });
    assert(read_step_views(steps@) =~= page_steps(prefix@, start_after@, limit, at));
    Ok(steps)
}

/// The rejection that a failed read stands for, where `at` is the version it was pinned to.
pub open spec fn read_rejection(err: RadosError, at: Option<Version>) -> RejectedView {
    if (err == RadosError::Rados(errno::ERANGE) || err == RadosError::Rados(errno::EOVERFLOW))
        && at is Some {
        RejectedView::Fenced(FenceView::Version { expected: at->Some_0 })
    } else {
        plain_rejection(err)
    }
}

/// A read op carrying an `assert_version` reports the stale object the same way a write does.
pub fn fenced(err: RadosError, at: Option<Version>) -> (rejected: Rejected)
    ensures
        rejected@ == read_rejection(err, at),
{
    if let (RadosError::Rados(e), Some(expected)) = (err, at) {
        if e == errno::ERANGE || e == errno::EOVERFLOW {
            return Rejected::Fenced(Fence::Version { expected });
        }
    }
    Rejected::from(err)
}

/// A page and the sub-ops of a read are seen as what they are: every entry, in its order, and
/// every sub-op, in its order.
pub proof fn law_page_is_seen_as_it_is(page: Page, steps: Seq<ReadStep>, i: int)
    ensures
        page@.version == page.version && page@.more == page.more,
        page.wf() && 0 <= i < page.entries@.len() ==> page@.entries.contains_key(
            page.entries@[i].0@,
        ) && page@.entries[page.entries@[i].0@] == page.entries@[i].1@,
        forall|key: Seq<u8>| #[trigger]
            page@.entries.contains_key(key) ==> exists|n: int|
                0 <= n < page.entries@.len() && (#[trigger] page.entries@[n]).0@ == key,
        read_step_views(steps).len() == steps.len(),
        0 <= i < steps.len() ==> read_step_views(steps)[i] == steps[i]@,
{
    let pairs = pair_views(page.entries@);
    assert(forall|n: int|
        0 <= n < page.entries@.len() ==> (#[trigger] pairs[n]).0 == page.entries@[n].0@);
    if page.wf() {
        lemma_lookup(pairs);
        if 0 <= i < pairs.len() {
            assert(set_in_turn(pairs)[pairs[i].0] == pairs[i].1);
        }
    }
    assert forall|key: Seq<u8>| #[trigger] page@.entries.contains_key(key) implies exists|n: int|
        0 <= n < page.entries@.len() && (#[trigger] page.entries@[n]).0@ == key by {
        law_last_value_of_a_key_wins(pairs, key);
        let n = choose|n: int| 0 <= n < pairs.len() && (#[trigger] pairs[n]).0 == key;
        assert(page.entries@[n].0@ == key);
    }
}

/// A failed read is fenced exactly where it was pinned and the version did not match
/// (`-ERANGE`, 34, or `-EOVERFLOW`, 75), with the version that it was pinned to; every other
/// failure keeps its errno.
pub proof fn law_failed_read_is_fenced_by_its_pin(err: RadosError, at: Option<Version>)
    ensures
        read_rejection(err, at) is Fenced <==> at is Some && (err == RadosError::Rados(34) || err
            == RadosError::Rados(75)),
        read_rejection(err, at) matches RejectedView::Fenced(fence) ==> fence
            == (FenceView::Version { expected: at->Some_0 }),
        !(read_rejection(err, at) is Fenced) ==> match err {
            RadosError::NotFound => read_rejection(err, at) == RejectedView::NotFound,
            RadosError::AlreadyExists => read_rejection(err, at) == RejectedView::Exists,
            RadosError::Rados(e) => read_rejection(err, at) == RejectedView::Rados(e),
            RadosError::Nul => read_rejection(err, at) == RejectedView::Rados(22),
        },
{
}

/// A page is what the read found, all of it, at the version that the read reports; and there is a
/// page exactly where both the op and the fetching of the values succeeded.
pub proof fn law_page_is_what_was_found(
    reply: Result<ReadReply<OmapFound>, RadosError>,
    at: Option<Version>,
)
    ensures
        page_result(reply, at) is Ok <==> reply is Ok && reply->Ok_0.values is Ok,
        page_result(reply, at) matches Ok(page) ==> {
            &&& page.entries == reply->Ok_0.values->Ok_0.entries@
            &&& page.more == reply->Ok_0.values->Ok_0.more
            &&& page.version.0 == reply->Ok_0.version
        },
        reply matches Err(err) ==> page_result(reply, at) == Err::<PageView, RejectedView>(
            read_rejection(err, at),
        ),
        reply is Ok && reply->Ok_0.values is Err ==> page_result(reply, at) == Err::<
            PageView,
            RejectedView,
        >(read_rejection(reply->Ok_0.values->Err_0, None)),
{
}

/// What the answer to [`page_op`] comes to: a failure of the op is read in the light of the
/// pin, one to fetch the values is not.
pub open spec fn page_result(
    reply: Result<ReadReply<OmapFound>, RadosError>,
    at: Option<Version>,
) -> Result<PageView, RejectedView> {
    match reply {
        Err(err) => Err(read_rejection(err, at)),
        Ok(ran) => match ran.values {
            Err(err) => Err(plain_rejection(err)),
            Ok(found) => Ok(
                PageView {
                    entries: found.entries@,
                    more: found.more,
                    version: Version(ran.version),
                },
            ),
        },
    }
}

/// The entries of an answer are kept in key order.
pub open spec fn page_reply_wf(reply: Result<ReadReply<OmapFound>, RadosError>) -> bool {
    reply matches Ok(ran) ==> (ran.values matches Ok(found) ==> found.entries.wf())
}

/// Reads the answer to [`page_op`], where `at` is the version that it was pinned to.
pub fn page_outcome(
    reply: Result<ReadReply<OmapFound>, RadosError>,
    at: Option<Version>,
) -> (result: Result<Page, Rejected>)
    requires
        page_reply_wf(reply),
    ensures
        match (result, page_result(reply, at)) {
            (Ok(page), Ok(expected)) => page.wf() && page@ == expected,
            (Err(rejected), Err(expected)) => rejected@ == expected,
            _ => false,
        },
{
    match reply {
        Err(err) => Err(fenced(err, at)),
        Ok(ran) => match ran.values {
            Err(err) => Err(Rejected::from(err)),
            Ok(found) => Ok(
                Page {
                    entries: found.entries.into_pairs(),
                    more: found.more,
                    version: Version(ran.version),
                },
            ),
        },
    }
}

/// How the OSD answers a read pinned to `at` of an object at `object_version`: an object at
/// another version with `-ERANGE` or `-EOVERFLOW`, and a read that ran with the object's own
/// version.
pub open spec fn checks_the_pin(
    at: Version,
    object_version: u64,
    reply: Result<ReadReply<OmapFound>, RadosError>,
) -> bool {
    &&& object_version != at.0 ==> reply is Err && (reply->Err_0 == RadosError::Rados(errno::ERANGE)
        || reply->Err_0 == RadosError::Rados(errno::EOVERFLOW))
    &&& reply matches Ok(ran) ==> ran.version == object_version
}

/// A pinned page is from that exact version of the object or is fenced: where the OSD checks
/// the pin, a page that comes back has its version, and an object at another version fences
/// the read.
pub proof fn law_pinned_page_is_from_its_version(
    at: Version,
    object_version: u64,
    reply: Result<ReadReply<OmapFound>, RadosError>,
)
    requires
        checks_the_pin(at, object_version, reply),
    ensures
        page_result(reply, Some(at)) matches Ok(page) ==> page.version == at,
        object_version != at.0 ==> page_result(reply, Some(at)) == Err::<PageView, RejectedView>(
            RejectedView::Fenced(FenceView::Version { expected: at }),
        ),
{
}

/// Pages pinned to one version are consistent: where the OSD checks the pin, and each page shows
/// the object at the version it reports, two pages pinned to the same version never tell
/// different values for a key, whatever version the object was at when either was read.
pub proof fn law_pinned_pages_are_consistent(
    at: Version,
    contents: spec_fn(u64) -> Map<Seq<u8>, Seq<u8>>,
    one_version: u64,
    one: Result<ReadReply<OmapFound>, RadosError>,
    other_version: u64,
    other: Result<ReadReply<OmapFound>, RadosError>,
    key: Seq<u8>,
)
    requires
        checks_the_pin(at, one_version, one),
        checks_the_pin(at, other_version, other),
        shows_the_object(contents, one),
        shows_the_object(contents, other),
    ensures
        page_result(one, Some(at)) matches Ok(a) ==> page_result(other, Some(at)) matches Ok(b)
            ==> a.entries.contains_key(key) && b.entries.contains_key(key) ==> a.entries[key]
            == b.entries[key],
{
    if let (Ok(a), Ok(b)) = (page_result(one, Some(at)), page_result(other, Some(at))) {
        if a.entries.contains_key(key) && b.entries.contains_key(key) {
            assert(contents(at.0)[key] == a.entries[key]);
            assert(contents(at.0)[key] == b.entries[key]);
        }
    }
}

/// What a read found is part of what the object held at the version that the answer reports.
pub open spec fn shows_the_object(
    contents: spec_fn(u64) -> Map<Seq<u8>, Seq<u8>>,
    reply: Result<ReadReply<OmapFound>, RadosError>,
) -> bool {
    reply matches Ok(ran) ==> (ran.values matches Ok(found) ==> forall|
        k: Seq<u8>,
    | #[trigger]
        found.entries@.contains_key(k) ==> contents(ran.version).contains_key(k) && contents(
            ran.version,
        )[k] == found.entries@[k])
}

/// The operation that reads the named keys.
pub fn get_op<'a>(keys: &'a [&'a [u8]]) -> (steps: Vec<ReadStep<'a>>)
    ensures
        read_step_views(steps@) == seq![ReadStepView::OmapValuesByKeys(key_views(keys@))],
{
    let mut steps: Vec<ReadStep<'a>> = Vec::new();
    steps.push(ReadStep::OmapValuesByKeys(keys));
    assert(read_step_views(steps@) =~= seq![ReadStepView::OmapValuesByKeys(key_views(keys@))]);
    steps
}

/// Reads the answer to [`get_op`]. Keys with no value are absent from the map.
pub fn get_outcome(reply: Result<ReadReply<OmapEntries>, RadosError>) -> (result: Result<
    (OmapEntries, Version),
    Rejected,
>)
    ensures
        match reply {
            Err(err) => result is Err && result->Err_0@ == plain_rejection(err),
            Ok(ran) => match ran.values {
                Err(err) => result is Err && result->Err_0@ == plain_rejection(err),
                Ok(entries) => result == Ok::<(OmapEntries, Version), Rejected>(
                    (entries, Version(ran.version)),
                ),
            },
        },
{
    match reply {
        Err(err) => Err(Rejected::from(err)),
        Ok(ran) => match ran.values {
            Err(err) => Err(Rejected::from(err)),
            Ok(entries) => Ok((entries, Version(ran.version))),
        },
    }
}

/// What a read into `buf` comes to: the bytes that were read, truncated to what the object
/// holds.
pub fn read_outcome(buf: Vec<u8>, reply: Result<usize, RadosError>) -> (result: Result<
    Vec<u8>,
    Rejected,
>)
    ensures
        match reply {
            Ok(read) => result is Ok && result->Ok_0@ == buf@.take(
                if read <= buf@.len() {
                    read as int
                } else {
                    buf@.len() as int
                },
            ),
            Err(err) => result is Err && result->Err_0@ == plain_rejection(err),
        },
{
    match reply {
        Ok(read) => {
            let mut bytes = buf;
            bytes.truncate(read);
            assert(read > buf@.len() ==> bytes@ =~= buf@.take(buf@.len() as int));
            Ok(bytes)
        },
        Err(err) => Err(Rejected::from(err)),
    }
}

} // verus!
