//! What holds of every run of an acquisition, whatever its calls come back with.

use crate::election::{
    acquire_start, answers, holder_in, is_other_holder, own_entry, raw_epoch_in,
    AcquireView, ActionView, ClaimView, EpochWriteView, EventView, StageView,
};
use crate::entries::{set_in_turn, value_or_empty};
use crate::epoch::{
    decoded_epoch, epoch_encoding, law_decoding_undoes_encoding,
    law_next_epoch_fences_those_before,
};
use crate::errno;
use crate::error::{RadosError, RejectedView};
use crate::guard::GuardView;
use crate::lock::Locker;
use vstd::prelude::*;
use vstd::utf8::*;

verus! {

/// The acquisition after a sequence of answers.
pub open spec fn after(start: AcquireView, events: Seq<EventView>) -> AcquireView
    decreases events.len(),
{
    if events.len() == 0 {
        start
    } else {
        after(start, events.drop_last()).next(events.last())
    }
}

/// A run from the beginning: each event answers the call that was asked for.
pub open spec fn is_run(start: AcquireView, events: Seq<EventView>) -> bool {
    &&& start == acquire_start(start.election, start.cookie, start.ttl)
    &&& forall|i: int|
        0 <= i < events.len() ==> answers(
            after(start, #[trigger] events.take(i)).stage,
            events[i],
        )
}

/// The lease was taken, or this client held it already.
pub open spec fn lease_taken(events: Seq<EventView>) -> bool {
    &&& events.len() >= 1
    &&& events[0] == EventView::Locked(Ok(true)) || events[0] == EventView::Locked(
        Err(RejectedView::Exists),
    )
}

/// `own_addr` was found in the locker entry, and a renewal showed the entry to be this
/// client's.
pub open spec fn address_found(
    start: AcquireView,
    events: Seq<EventView>,
    own_addr: Seq<char>,
) -> bool {
    &&& events.len() >= 3
    &&& events[1] matches EventView::Listed(Ok(lockers))
    &&& own_entry(lockers, start.cookie) == Some(own_addr)
    &&& events[2] == EventView::Renewed(Ok(true))
}

/// The epoch was read and decoded.
pub open spec fn epoch_read(
    start: AcquireView,
    events: Seq<EventView>,
    claim: ClaimView,
) -> bool {
    &&& events.len() >= 4
    &&& events[3] matches EventView::Read(Ok(state))
    &&& claim.raw_epoch == raw_epoch_in(start.election, state)
    &&& decoded_epoch(claim.raw_epoch) == Ok::<u64, RejectedView>(claim.epoch)
}

/// The previous holder that was read.
pub open spec fn previous_holder(start: AcquireView, events: Seq<EventView>) -> Seq<u8> {
    match events[3] {
        EventView::Read(Ok(state)) => holder_in(start.election, state),
        _ => Seq::empty(),
    }
}

/// The previous holder was dealt with in the first `n` events: there is none other than this
/// client; or the call to blocklist it was made and then, unless the monitor does not allow
/// it, the OSDMap was waited for.
pub open spec fn holder_fenced(
    start: AcquireView,
    events: Seq<EventView>,
    own_addr: Seq<char>,
    n: int,
) -> bool {
    let holder = previous_holder(start, events);
    if !is_other_holder(holder, own_addr) {
        n == 4
    } else {
        &&& valid_utf8(holder)
        &&& n >= 5
        &&& after(start, events.take(4)).action() == (ActionView::Blocklist {
            addr: decode_utf8(holder),
            ttl: start.ttl,
        })
        &&& match events[4] {
            EventView::Blocklisted(Ok(_)) => {
                &&& n == 6
                &&& after(start, events.take(5)).action() == ActionView::AwaitMap
                &&& events[5] matches EventView::MapAwaited(Ok(_))
            },
            EventView::Blocklisted(Err(err)) => {
                &&& n == 5
                &&& err == RadosError::Rados(errno::EACCES)
            },
            _ => false,
        }
    }
}

/// What the events so far must have been for the acquisition to have come this far.
spec fn history(start: AcquireView, events: Seq<EventView>) -> bool {
    let len = events.len() as int;
    match after(start, events).stage {
        StageView::Locking => len == 0,
        StageView::Listing => len == 1 && lease_taken(events),
        StageView::Renewing { own_addr } => {
            &&& len == 2
            &&& lease_taken(events)
            &&& events[1] matches EventView::Listed(Ok(lockers))
            &&& own_entry(lockers, start.cookie) == Some(own_addr)
        },
        StageView::Reading { own_addr } => {
            &&& len == 3
            &&& lease_taken(events)
            &&& address_found(start, events, own_addr)
        },
        StageView::Blocklisting { claim, holder } => {
            &&& len == 4
            &&& lease_taken(events)
            &&& address_found(start, events, claim.own_addr)
            &&& epoch_read(start, events, claim)
            &&& is_other_holder(previous_holder(start, events), claim.own_addr)
            &&& valid_utf8(previous_holder(start, events))
            &&& holder == decode_utf8(previous_holder(start, events))
        },
        StageView::AwaitingMap { claim } => {
            &&& len == 5
            &&& lease_taken(events)
            &&& address_found(start, events, claim.own_addr)
            &&& epoch_read(start, events, claim)
            &&& is_other_holder(previous_holder(start, events), claim.own_addr)
            &&& valid_utf8(previous_holder(start, events))
            &&& after(start, events.take(4)).action() == (ActionView::Blocklist {
                addr: decode_utf8(previous_holder(start, events)),
                ttl: start.ttl,
            })
            &&& events[4] matches EventView::Blocklisted(Ok(_))
        },
        StageView::RenewingAgain { claim } => {
            &&& 4 <= len <= 6
            &&& lease_taken(events)
            &&& address_found(start, events, claim.own_addr)
            &&& epoch_read(start, events, claim)
            &&& holder_fenced(start, events, claim.own_addr, len)
        },
        StageView::Writing { claim, next_epoch } => {
            &&& 5 <= len <= 7
            &&& lease_taken(events)
            &&& address_found(start, events, claim.own_addr)
            &&& epoch_read(start, events, claim)
            &&& holder_fenced(start, events, claim.own_addr, len - 1)
            &&& events.last() == EventView::Renewed(Ok(true))
            &&& next_epoch == claim.epoch + 1
        },
        StageView::Unlocking { .. } => 2 <= len <= 8 && lease_taken(events),
        StageView::Done(Ok(Some(next_epoch))) => {
            &&& len <= 8
            &&& after(start, events.drop_last()).stage matches StageView::Writing {
                next_epoch: written,
                ..
            }
            &&& written == next_epoch
            &&& events.last() matches EventView::Written(Ok(_))
        },
        StageView::Done(Ok(None)) => 1 <= len <= 7 && !(after(
            start,
            events.drop_last(),
        ).stage is Writing),
        StageView::Done(Err(rejected)) => {
            ||| len == 1 && events[0] == EventView::Locked(Err(rejected)) && rejected
                != RejectedView::Exists
            ||| len <= 9 && lease_taken(events) && events.last() == EventView::Unlocked && after(
                start,
                events.drop_last(),
            ).stage == (StageView::Unlocking { rejected })
        },
    }
}

/// An acquisition keeps what it was started with.
proof fn lemma_same_election(start: AcquireView, events: Seq<EventView>)
    ensures
        after(start, events).election == start.election,
        after(start, events).cookie == start.cookie,
        after(start, events).ttl == start.ttl,
    decreases events.len(),
{
    if events.len() > 0 {
        lemma_same_election(start, events.drop_last());
    }
}

/// The beginning of a run is a run.
proof fn lemma_shorter_run(start: AcquireView, events: Seq<EventView>, n: int)
    requires
        is_run(start, events),
        0 <= n <= events.len(),
    ensures
        is_run(start, events.take(n)),
{
    let first = events.take(n);
    assert forall|i: int| 0 <= i < first.len() implies answers(
        after(start, #[trigger] first.take(i)).stage,
        first[i],
    ) by {
        assert(first.take(i) =~= events.take(i));
    }
}

/// Every run has the history that its stage stands for.
proof fn lemma_history(start: AcquireView, events: Seq<EventView>)
    requires
        is_run(start, events),
    ensures
        history(start, events),
    decreases events.len(),
{
    if events.len() > 0 {
        let before = events.drop_last();
        let n = before.len() as int;
        assert(before =~= events.take(n));
        lemma_shorter_run(start, events, n);
        lemma_history(start, before);
        lemma_same_election(start, before);
        assert(answers(after(start, events.take(n)).stage, events[n]));
        assert(forall|i: int| 0 <= i < n ==> #[trigger] before[i] == events[i]);
        if n >= 4 {
            assert(before.take(4) =~= events.take(4));
        }
        if n >= 5 {
            assert(before.take(5) =~= events.take(5));
        }
        if n == 4 {
            assert(events.take(4) =~= before);
        }
        if n == 5 {
            assert(events.take(5) =~= before);
        }
    }
}

/// The new writer writes nothing before the fence is durable: by the time the write of the
/// epoch is asked for, the lease was taken, this client's address was read and renewed under,
/// the epoch was read, the previous holder was dealt with, and the lease was still held after
/// that. The write then is the one guarded on the epoch that was read.
pub proof fn law_epoch_is_written_behind_the_fence(
    start: AcquireView,
    events: Seq<EventView>,
)
    requires
        is_run(start, events),
        after(start, events).action() is Write,
    ensures
        lease_taken(events),
        events.last() == EventView::Renewed(Ok(true)),
        exists|claim: ClaimView| #[trigger]
            epoch_read(start, events, claim) && address_found(start, events, claim.own_addr)
                && holder_fenced(start, events, claim.own_addr, events.len() - 1) && claim.epoch
                < u64::MAX && after(start, events).action() == (ActionView::Write {
                oid: start.election.oid,
                write: EpochWriteView {
                    guard: GuardView::OmapEq(start.election.epoch_key, claim.raw_epoch),
                    entries: seq![
                        (start.election.epoch_key, epoch_encoding((claim.epoch + 1) as u64)),
                        (start.election.holder_key, encode_utf8(claim.own_addr)),
                    ],
                },
            }),
{
    lemma_history(start, events);
    lemma_same_election(start, events);
    if let StageView::Writing { claim, next_epoch } = after(start, events).stage {
        assert(epoch_read(start, events, claim));
    }
}

/// There is no fencing side effect before the cookie and the client were checked together, and
/// this client never fences itself: by the time a client is to be blocklisted, the lease was
/// renewed under the locker entry that was read, and the client is the previous holder, whose
/// address is another one.
pub proof fn law_fencing_follows_a_renewal(start: AcquireView, events: Seq<EventView>)
    requires
        is_run(start, events),
        after(start, events).action() is Blocklist,
    ensures
        lease_taken(events),
        exists|own_addr: Seq<char>| #[trigger]
            address_found(start, events, own_addr) && is_other_holder(
                previous_holder(start, events),
                own_addr,
            ) && after(start, events).action() == (ActionView::Blocklist {
                addr: decode_utf8(previous_holder(start, events)),
                ttl: start.ttl,
            }),
{
    lemma_history(start, events);
    lemma_same_election(start, events);
    if let StageView::Blocklisting { claim, .. } = after(start, events).stage {
        assert(address_found(start, events, claim.own_addr));
    }
}

/// The epoch that an acquisition is about to write.
pub open spec fn epoch_to_write(start: AcquireView, events: Seq<EventView>) -> u64
    recommends
        after(start, events).action() is Write,
{
    match after(start, events).stage {
        StageView::Writing { next_epoch, .. } => next_epoch,
        _ => 0,
    }
}

/// The epoch that is handed out is one more than the epoch that was read, and its write was
/// applied.
pub proof fn law_epoch_handed_out_was_written(
    start: AcquireView,
    events: Seq<EventView>,
    epoch: u64,
)
    requires
        is_run(start, events),
        after(start, events).stage == StageView::Done(Ok(Some(epoch))),
    ensures
        after(start, events.drop_last()).action() is Write,
        events.last() matches EventView::Written(Ok(_)),
        epoch == epoch_to_write(start, events.drop_last()),
        exists|claim: ClaimView| #[trigger]
            epoch_read(start, events, claim) && epoch == claim.epoch + 1,
{
    lemma_history(start, events);
    let before = events.drop_last();
    assert(before =~= events.take(events.len() - 1));
    lemma_shorter_run(start, events, events.len() - 1);
    lemma_history(start, before);
    if let StageView::Writing { claim, next_epoch } = after(start, before).stage {
        assert(before[3] == events[3]);
        assert(epoch_read(start, events, claim));
    }
}

/// A failure after the lease was taken releases it: an acquisition that fails either never had
/// the lease, or has made the call that releases it.
pub proof fn law_failure_releases_the_lease(
    start: AcquireView,
    events: Seq<EventView>,
    rejected: RejectedView,
)
    requires
        is_run(start, events),
        after(start, events).stage == StageView::Done(Err(rejected)),
    ensures
        lease_taken(events) ==> after(start, events.drop_last()).action() == (ActionView::Unlock {
            oid: start.election.oid,
            name: start.election.name,
            cookie: start.cookie,
        }),
        !lease_taken(events) ==> events == seq![EventView::Locked(Err(rejected))],
{
    lemma_history(start, events);
    lemma_same_election(start, events.drop_last());
    if !lease_taken(events) {
        assert(events =~= seq![EventView::Locked(Err(rejected))]);
    }
}

/// Without an epoch nothing was written: an acquisition that ends with `None` never asked for
/// the write.
pub proof fn law_no_epoch_no_write(start: AcquireView, events: Seq<EventView>, n: int)
    requires
        is_run(start, events),
        after(start, events).stage == StageView::Done(Ok(None)),
        0 <= n <= events.len(),
    ensures
        !(after(start, events.take(n)).action() is Write),
{
    assert(events.take(events.len() as int) =~= events);
    if n < events.len() {
        lemma_write_is_near_the_end(start, events, n);
    }
}

/// What follows the write of the epoch is its success, or the release of the lease.
proof fn lemma_write_is_near_the_end(start: AcquireView, events: Seq<EventView>, n: int)
    requires
        is_run(start, events),
        0 <= n < events.len(),
    ensures
        after(start, events.take(n)).action() is Write ==> match after(start, events).stage {
            StageView::Done(Ok(None)) => false,
            _ => true,
        },
{
    let len = events.len() as int;
    let first = events.take(n);
    lemma_shorter_run(start, events, n);
    lemma_history(start, first);
    lemma_history(start, events);
    if after(start, first).action() is Write {
        assert(answers(after(start, events.take(n)).stage, events[n]));
        let second = events.take(n + 1);
        assert(second.drop_last() =~= first);
        if n + 1 == len {
            assert(second =~= events);
        } else {
            assert(answers(after(start, events.take(n + 1)).stage, events[n + 1]));
            let third = events.take(n + 2);
            assert(third.drop_last() =~= second);
            if n + 2 == len {
                assert(third =~= events);
            } else {
                assert(answers(after(start, events.take(n + 2)).stage, events[n + 2]));
            }
        }
    }
}

/// Whether an omap guard holds on an object that exists: a missing key compares as empty.
pub open spec fn omap_guard_holds(
    omap: Map<Seq<u8>, Seq<u8>>,
    key: Seq<u8>,
    value: Seq<u8>,
) -> bool {
    value_or_empty(omap, key) == value
}

/// The omap once an epoch write was applied to it.
pub open spec fn omap_after(
    omap: Map<Seq<u8>, Seq<u8>>,
    write: EpochWriteView,
) -> Map<Seq<u8>, Seq<u8>> {
    omap.union_prefer_right(set_in_turn(write.entries))
}

/// An epoch write leaves the epoch and this client's address behind.
proof fn lemma_epoch_is_left(
    start: AcquireView,
    events: Seq<EventView>,
    omap: Map<Seq<u8>, Seq<u8>>,
)
    requires
        start.election.epoch_key != start.election.holder_key,
        after(start, events).action() is Write,
    ensures
        ({
            let now = omap_after(omap, after(start, events).action()->write);
            &&& value_or_empty(now, start.election.epoch_key) == epoch_encoding(
                epoch_to_write(start, events),
            )
            &&& after(start, events).stage matches StageView::Writing { claim, .. }
            &&& value_or_empty(now, start.election.holder_key) == encode_utf8(claim.own_addr)
        }),
{
    lemma_same_election(start, events);
    let write = after(start, events).action()->write;
    let epoch_entry = write.entries[0];
    let holder_entry = write.entries[1];
    assert(write.entries.drop_last() =~= seq![epoch_entry]);
    assert(seq![epoch_entry].drop_last() =~= Seq::empty());
    reveal_with_fuel(set_in_turn, 3);
    assert(set_in_turn(write.entries) =~= Map::empty().insert(epoch_entry.0, epoch_entry.1).insert(
        holder_entry.0,
        holder_entry.1,
    ));
}

/// The epoch is the guard that the new writer writes with: once the write of an acquisition is
/// applied, a guard on the new epoch holds, and a guard on the value that was read, on the
/// empty value or on any epoch up to the one that was read does not. So of two acquisitions
/// that read the same epoch only one can write it, and writers from before are fenced without
/// any blocklisting.
pub proof fn law_acquired_epoch_guards_the_writer(
    start: AcquireView,
    events: Seq<EventView>,
    omap: Map<Seq<u8>, Seq<u8>>,
    earlier: u64,
)
    requires
        is_run(start, events),
        after(start, events).action() is Write,
        start.election.epoch_key != start.election.holder_key,
    ensures
        exists|claim: ClaimView| #[trigger]
            epoch_read(start, events, claim) && claim.epoch < u64::MAX && ({
                let now = omap_after(omap, after(start, events).action()->write);
                let key = start.election.epoch_key;
                &&& omap_guard_holds(now, key, epoch_encoding((claim.epoch + 1) as u64))
                &&& !omap_guard_holds(now, key, claim.raw_epoch)
                &&& !omap_guard_holds(now, key, Seq::empty())
                &&& earlier <= claim.epoch ==> !omap_guard_holds(now, key, epoch_encoding(earlier))
                &&& value_or_empty(now, start.election.holder_key) == encode_utf8(claim.own_addr)
            }),
{
    lemma_history(start, events);
    lemma_same_election(start, events);
    if let StageView::Writing { claim, next_epoch } = after(start, events).stage {
        assert(epoch_read(start, events, claim));
        lemma_epoch_is_left(start, events, omap);
        law_next_epoch_fences_those_before(
            claim.raw_epoch,
            if earlier <= claim.epoch {
                earlier
            } else {
                0
            },
        );
    }
}

/// An epoch write that was applied: the run that asked for it, and the omap that it found.
pub struct AppliedWrite {
    pub start: AcquireView,
    pub events: Seq<EventView>,
    pub omap: Map<Seq<u8>, Seq<u8>>,
}

impl AppliedWrite {
    /// The run asked for the write, and the guard of the write held on what it found.
    pub open spec fn wf(self) -> bool {
        &&& is_run(self.start, self.events)
        &&& after(self.start, self.events).action() matches ActionView::Write { write, .. }
        &&& write.guard matches GuardView::OmapEq(key, value)
        &&& omap_guard_holds(self.omap, key, value)
    }

    /// The epoch that was written.
    pub open spec fn epoch(self) -> u64 {
        epoch_to_write(self.start, self.events)
    }

    /// The omap that the write left behind.
    pub open spec fn left(self) -> Map<Seq<u8>, Seq<u8>> {
        omap_after(self.omap, after(self.start, self.events).action()->write)
    }
}

/// Whether `later` is the epoch write after `earlier`: it is on the same object and under the
/// same key, whose value nothing changed between the two.
pub open spec fn follows(earlier: AppliedWrite, later: AppliedWrite) -> bool {
    let key = earlier.start.election.epoch_key;
    &&& later.start.election.oid == earlier.start.election.oid
    &&& later.start.election.epoch_key == key
    &&& value_or_empty(later.omap, key) == value_or_empty(earlier.left(), key)
}

/// Epoch writes that were applied one after the other, under an epoch key that is not the holder
/// key too.
pub open spec fn is_chain(writes: Seq<AppliedWrite>) -> bool {
    &&& forall|n: int|
        0 <= n < writes.len() ==> (#[trigger] writes[n]).wf()
            && writes[n].start.election.epoch_key != writes[n].start.election.holder_key
    &&& forall|n: int, m: int|
        0 <= n && m == n + 1 && m < writes.len() ==> follows(
            #[trigger] writes[n],
            #[trigger] writes[m],
        )
}

/// Epochs progress one by one: of two epoch writes that were applied one after the other, the
/// later one wrote the epoch after the earlier one's, whoever acquired, and whatever either of
/// them came to know of its write.
pub proof fn law_next_epoch_write_is_of_the_next_epoch(
    earlier: AppliedWrite,
    later: AppliedWrite,
)
    requires
        earlier.wf(),
        later.wf(),
        follows(earlier, later),
        earlier.start.election.epoch_key != earlier.start.election.holder_key,
    ensures
        later.epoch() == earlier.epoch() + 1,
{
    lemma_history(later.start, later.events);
    lemma_same_election(earlier.start, earlier.events);
    lemma_same_election(later.start, later.events);
    lemma_epoch_is_left(earlier.start, earlier.events, earlier.omap);
    law_decoding_undoes_encoding(earlier.epoch());
    if let StageView::Writing { claim, next_epoch } = after(later.start, later.events).stage {
        assert(claim.raw_epoch == epoch_encoding(earlier.epoch()));
    }
}

/// Epochs are counted: along a chain of epoch writes each is as many epochs ahead of an
/// earlier one as it is writes after it. So they increase strictly, and none is written twice.
pub proof fn law_epoch_writes_count_up(writes: Seq<AppliedWrite>, i: int, j: int)
    requires
        is_chain(writes),
        0 <= i <= j < writes.len(),
    ensures
        writes[j].epoch() == writes[i].epoch() + (j - i),
    decreases j - i,
{
    if i < j {
        law_epoch_writes_count_up(writes, i, j - 1);
        law_next_epoch_write_is_of_the_next_epoch(writes[j - 1], writes[j]);
    }
}

/// No epoch is handed out twice: of two acquisitions whose writes stand in a chain, the
/// later one is handed an epoch that is greater by as many writes as lie between them.
pub proof fn law_later_acquisition_gets_a_greater_epoch(
    writes: Seq<AppliedWrite>,
    i: int,
    j: int,
    first: Seq<EventView>,
    second: Seq<EventView>,
    first_epoch: u64,
    second_epoch: u64,
)
    requires
        is_chain(writes),
        0 <= i < j < writes.len(),
        is_run(writes[i].start, first),
        first.len() > 0 && first.drop_last() == writes[i].events,
        after(writes[i].start, first).stage == StageView::Done(Ok(Some(first_epoch))),
        is_run(writes[j].start, second),
        second.len() > 0 && second.drop_last() == writes[j].events,
        after(writes[j].start, second).stage == StageView::Done(Ok(Some(second_epoch))),
    ensures
        first_epoch < second_epoch,
        second_epoch == first_epoch + (j - i),
{
    law_epoch_writes_count_up(writes, i, j);
    law_epoch_handed_out_was_written(writes[i].start, first, first_epoch);
    law_epoch_handed_out_was_written(writes[j].start, second, second_epoch);
}

/// While someone else holds the lease, the one call is the attempt to take it, and there is no
/// epoch.
pub proof fn law_contended_acquisition_leaves_it_there(
    start: AcquireView,
    events: Seq<EventView>,
)
    requires
        is_run(start, events),
        events.len() > 0,
        events[0] == EventView::Locked(Ok(false)),
    ensures
        events.len() == 1,
        after(start, events).stage == StageView::Done(Ok(None)),
{
    let first = events.take(1);
    assert(first.drop_last() =~= Seq::empty());
    assert(first.last() == events[0]);
    reveal_with_fuel(after, 2);
    if events.len() > 1 {
        assert(answers(after(start, events.take(1)).stage, events[1]));
    } else {
        assert(events =~= first);
    }
}

/// An acquisition whose calls all succeed hands out the epoch after the one that was read,
/// provided the lease shows this client's entry, the epoch decodes and has one after it, and a
/// previous holder to be blocklisted is text.
pub proof fn law_untroubled_acquisition_succeeds(
    start: AcquireView,
    lockers: Seq<Locker>,
    state: Map<Seq<u8>, Seq<u8>>,
)
    requires
        start == acquire_start(start.election, start.cookie, start.ttl),
        own_entry(lockers, start.cookie) is Some,
        decoded_epoch(raw_epoch_in(start.election, state)) matches Ok(epoch) && epoch < u64::MAX,
        valid_utf8(holder_in(start.election, state)),
    ensures
        ({
            let events = untroubled_events(start, lockers, state);
            &&& is_run(start, events)
            &&& after(start, events).stage == StageView::Done(
                Ok(Some((decoded_epoch(raw_epoch_in(start.election, state))->Ok_0 + 1) as u64)),
            )
        }),
{
    let events = untroubled_events(start, lockers, state);
    let own_addr = own_entry(lockers, start.cookie)->Some_0;
    let holder = holder_in(start.election, state);
    let raw_epoch = raw_epoch_in(start.election, state);
    let epoch = decoded_epoch(raw_epoch)->Ok_0;
    let claim = ClaimView { own_addr, raw_epoch, epoch };
    let next_epoch = (epoch + 1) as u64;
    assert(events.take(0) =~= Seq::empty());
    assert(after(start, events.take(0)).stage == StageView::Locking);
    lemma_one_more(start, events, 0);
    assert(after(start, events.take(1)).stage == StageView::Listing);
    lemma_one_more(start, events, 1);
    assert(after(start, events.take(2)).stage == (StageView::Renewing { own_addr }));
    lemma_one_more(start, events, 2);
    assert(after(start, events.take(3)).stage == (StageView::Reading { own_addr }));
    lemma_one_more(start, events, 3);
    let last = events.len() - 2;
    if is_other_holder(holder, own_addr) {
        assert(after(start, events.take(4)).stage == (StageView::Blocklisting {
            claim,
            holder: decode_utf8(holder),
        }));
        lemma_one_more(start, events, 4);
        assert(after(start, events.take(5)).stage == (StageView::AwaitingMap { claim }));
        lemma_one_more(start, events, 5);
    }
    assert(after(start, events.take(last)).stage == (StageView::RenewingAgain { claim }));
    lemma_one_more(start, events, last);
    assert(after(start, events.take(last + 1)).stage == (StageView::Writing {
        claim,
        next_epoch,
    }));
    lemma_one_more(start, events, last + 1);
    assert(events.take(last + 2) =~= events);
    assert forall|i: int| 0 <= i < events.len() implies answers(
        after(start, #[trigger] events.take(i)).stage,
        events[i],
    ) by {
        assert(i == 0 || i == 1 || i == 2 || i == 3 || i == 4 || i == 5 || i == 6 || i == 7);
    }
}

/// The answers of an acquisition whose calls all succeed.
pub open spec fn untroubled_events(
    start: AcquireView,
    lockers: Seq<Locker>,
    state: Map<Seq<u8>, Seq<u8>>,
) -> Seq<EventView> {
    let own_addr = own_entry(lockers, start.cookie)->Some_0;
    let read = seq![
        EventView::Locked(Ok(true)),
        EventView::Listed(Ok(lockers)),
        EventView::Renewed(Ok(true)),
        EventView::Read(Ok(state)),
    ];
    let fenced = if is_other_holder(holder_in(start.election, state), own_addr) {
        seq![EventView::Blocklisted(Ok(())), EventView::MapAwaited(Ok(()))]
    } else {
        Seq::empty()
    };
    read + fenced + seq![EventView::Renewed(Ok(true)), EventView::Written(Ok(()))]
}

/// One more answer is one more step.
proof fn lemma_one_more(start: AcquireView, events: Seq<EventView>, n: int)
    requires
        0 <= n < events.len(),
    ensures
        after(start, events.take(n + 1)) == after(start, events.take(n)).next(events[n]),
        after(start, events.take(n + 1)).election == start.election,
        after(start, events.take(n + 1)).cookie == start.cookie,
{
    assert(events.take(n + 1).drop_last() =~= events.take(n));
    lemma_same_election(start, events.take(n + 1));
}

/// An acquisition comes to an end: no run makes more than nine calls.
pub proof fn law_acquisition_ends(start: AcquireView, events: Seq<EventView>)
    requires
        is_run(start, events),
    ensures
        events.len() <= 9,
{
    lemma_history(start, events);
}

} // verus!
