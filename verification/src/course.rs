//! What each answer leads to in the course of an acquisition, said of what came back.

use crate::election::{
    acquire_start, own_entry, AcquireView, Action, ActionView, Election, ElectionView, Event,
    EventView, StageView,
};
use crate::epoch::{epoch_encoding, law_decoding_undoes_encoding, law_epochs_are_big_endian};
use crate::error::{RadosError, RejectedView};
use crate::guard::GuardView;
use crate::lock::{LockCall, Locker};
use std::time::Duration;
use vstd::prelude::*;
use vstd::utf8::*;

verus! {

/// An election and a call are seen as what they are, with the whole of their arguments.
pub proof fn law_call_is_seen_as_it_is(election: Election, call: LockCall, action: Action)
    ensures
        election@.oid == election.oid@ && election@.name == election.name@,
        election@.epoch_key == election.epoch_key@ && election@.holder_key == election.holder_key@,
        call@.oid == call.oid@ && call@.name == call.name@ && call@.cookie == call.cookie@,
        call@.desc == call.desc@ && call@.duration == call.duration,
        call@.must_renew == call.must_renew,
        match action {
            Action::Lock(call) => action@ == ActionView::Lock(call@),
            Action::List { oid, name } => action@ == (ActionView::List { oid: oid@, name: name@ }),
            Action::Renew(call) => action@ == ActionView::Renew(call@),
            Action::Read { oid, keys } => action@ matches ActionView::Read { oid: o, keys: k } && o
                == oid@ && k.len() == 2 && k[0] == keys@[0]@ && k[1] == keys@[1]@,
            Action::Blocklist { addr, ttl } => action@ == (ActionView::Blocklist {
                addr: addr@,
                ttl,
            }),
            Action::AwaitMap => action@ == ActionView::AwaitMap,
            Action::Write { oid, write } => action@ == (ActionView::Write {
                oid: oid@,
                write: write@,
            }),
            Action::Unlock { oid, name, cookie } => action@ == (ActionView::Unlock {
                oid: oid@,
                name: name@,
                cookie: cookie@,
            }),
            Action::Finish => action@ == ActionView::Finish,
        },
{
}

/// An answer is seen as what it is, with all that came back.
pub proof fn law_answer_is_seen_as_it_is(event: Event)
    ensures
        match event {
            Event::Locked(Ok(taken)) => event@ == EventView::Locked(Ok(taken)),
            Event::Locked(Err(rejected)) => event@ == EventView::Locked(Err(rejected@)),
            Event::Listed(Ok(lockers)) => event@ == EventView::Listed(Ok(lockers@)),
            Event::Listed(Err(rejected)) => event@ == EventView::Listed(Err(rejected@)),
            Event::Renewed(Ok(renewed)) => event@ == EventView::Renewed(Ok(renewed)),
            Event::Renewed(Err(rejected)) => event@ == EventView::Renewed(Err(rejected@)),
            Event::Read(Ok((state, _))) => event@ == EventView::Read(Ok(state@)),
            Event::Read(Err(rejected)) => event@ == EventView::Read(Err(rejected@)),
            Event::Blocklisted(Ok(_)) => event@ matches EventView::Blocklisted(Ok(_)),
            Event::Blocklisted(Err(err)) => event@ == EventView::Blocklisted(Err(err)),
            Event::MapAwaited(Ok(_)) => event@ matches EventView::MapAwaited(Ok(_)),
            Event::MapAwaited(Err(err)) => event@ == EventView::MapAwaited(Err(err)),
            Event::Written(Ok(_)) => event@ matches EventView::Written(Ok(_)),
            Event::Written(Err(rejected)) => event@ == EventView::Written(Err(rejected@)),
            Event::Unlocked => event@ == EventView::Unlocked,
        },
{
}

/// `i` is the first of the locker entries with this cookie.
pub open spec fn is_first_entry(lockers: Seq<Locker>, cookie: Seq<char>, i: int) -> bool {
    &&& 0 <= i < lockers.len()
    &&& lockers[i].cookie@ == cookie
    &&& forall|j: int| 0 <= j < i ==> (#[trigger] lockers[j]).cookie@ != cookie
}

/// The next call releases the lease, and then the acquisition fails with `rejected`.
pub open spec fn releases(
    election: ElectionView,
    cookie: Seq<char>,
    now: AcquireView,
    rejected: RejectedView,
) -> bool {
    &&& now.action() == (ActionView::Unlock { oid: election.oid, name: election.name, cookie })
    &&& now.next(EventView::Unlocked).stage == StageView::Done(Err(rejected))
    &&& now.next(EventView::Unlocked).action() == ActionView::Finish
}

/// The next call renews the lease of this client under its cookie, for the whole of `ttl`.
pub open spec fn renews(
    election: ElectionView,
    cookie: Seq<char>,
    ttl: Duration,
    now: AcquireView,
) -> bool {
    &&& now.action() matches ActionView::Renew(call)
    &&& call.oid == election.oid
    &&& call.name == election.name
    &&& call.cookie == cookie
    &&& call.desc.len() == 0
    &&& call.duration == Some(ttl)
    &&& call.must_renew
}

/// The acquisition ended without an epoch.
pub open spec fn ends_without_epoch(now: AcquireView) -> bool {
    now.stage == StageView::Done(Ok(None)) && now.action() == ActionView::Finish
}

/// The acquisition once the lease was taken.
pub open spec fn once_locked(
    election: ElectionView,
    cookie: Seq<char>,
    ttl: Duration,
) -> AcquireView {
    acquire_start(election, cookie, ttl).next(EventView::Locked(Ok(true)))
}

/// The acquisition once the lockers were listed.
pub open spec fn once_listed(
    election: ElectionView,
    cookie: Seq<char>,
    ttl: Duration,
    lockers: Seq<Locker>,
) -> AcquireView {
    once_locked(election, cookie, ttl).next(EventView::Listed(Ok(lockers)))
}

/// The acquisition once the lease was renewed under the entry that was found.
pub open spec fn once_renewed(
    election: ElectionView,
    cookie: Seq<char>,
    ttl: Duration,
    lockers: Seq<Locker>,
) -> AcquireView {
    once_listed(election, cookie, ttl, lockers).next(EventView::Renewed(Ok(true)))
}

/// The acquisition once the epoch and the holder were read.
pub open spec fn once_read(
    election: ElectionView,
    cookie: Seq<char>,
    ttl: Duration,
    lockers: Seq<Locker>,
    state: Map<Seq<u8>, Seq<u8>>,
) -> AcquireView {
    once_renewed(election, cookie, ttl, lockers).next(EventView::Read(Ok(state)))
}

/// An acquisition starts by taking the lease, for the whole of `ttl` and not as a renewal. With
/// the lease, taken now or held before, it goes on to list the lockers; without it, it ends at
/// once, and a failure to take it is the failure of the acquisition.
pub proof fn law_acquisition_starts_with_the_lease(
    election: ElectionView,
    cookie: Seq<char>,
    ttl: Duration,
    answer: Result<bool, RejectedView>,
)
    ensures
        ({
            let start = acquire_start(election, cookie, ttl);
            let now = start.next(EventView::Locked(answer));
            &&& start.action() matches ActionView::Lock(call)
            &&& call.oid == election.oid && call.name == election.name && call.cookie == cookie
            &&& call.desc.len() == 0 && call.duration == Some(ttl) && !call.must_renew
            &&& answer == Ok::<bool, RejectedView>(true) || answer == Err::<bool, RejectedView>(
                RejectedView::Exists,
            ) ==> {
                &&& now.action() == (ActionView::List { oid: election.oid, name: election.name })
                &&& now == once_locked(election, cookie, ttl)
            }
            &&& answer == Ok::<bool, RejectedView>(false) ==> ends_without_epoch(now)
            &&& answer matches Err(rejected) ==> rejected != RejectedView::Exists ==> now.stage
                == StageView::Done(Err(rejected)) && now.action() == ActionView::Finish
        }),
{
}

/// The address of this client is that of the first locker entry with its cookie.
proof fn lemma_first_entry(lockers: Seq<Locker>, cookie: Seq<char>)
    ensures
        forall|i: int| #[trigger]
            is_first_entry(lockers, cookie, i) ==> own_entry(lockers, cookie) == Some(
                lockers[i].addr@,
            ),
        (forall|i: int| 0 <= i < lockers.len() ==> (#[trigger] lockers[i]).cookie@ != cookie)
            ==> own_entry(lockers, cookie) is None,
    decreases lockers.len(),
{
    if lockers.len() > 0 {
        let rest = lockers.drop_first();
        lemma_first_entry(rest, cookie);
        assert(forall|i: int| 0 <= i < rest.len() ==> #[trigger] rest[i] == lockers[i + 1]);
        assert forall|i: int| #[trigger] is_first_entry(lockers, cookie, i) implies own_entry(
            lockers,
            cookie,
        ) == Some(lockers[i].addr@) by {
            if i > 0 {
                assert(lockers[0].cookie@ != cookie);
                assert forall|j: int| 0 <= j < i - 1 implies (#[trigger] rest[j]).cookie@
                    != cookie by {
                    assert(lockers[j + 1].cookie@ != cookie);
                }
                assert(is_first_entry(rest, cookie, i - 1));
            }
        }
    }
}

/// With the lockers listed, the lease is renewed where an entry has this cookie; where none has,
/// the lease was lost. The renewal decides whether the epoch and the holder are read.
pub proof fn law_own_entry_is_renewed_before_reading(
    election: ElectionView,
    cookie: Seq<char>,
    ttl: Duration,
    lockers: Seq<Locker>,
    rejected: RejectedView,
)
    ensures
        ({
            let listed = once_listed(election, cookie, ttl, lockers);
            let found = exists|i: int|
                0 <= i < lockers.len() && (#[trigger] lockers[i]).cookie@ == cookie;
            &&& !found ==> ends_without_epoch(listed)
            &&& found ==> {
                &&& renews(election, cookie, ttl, listed)
                &&& once_renewed(election, cookie, ttl, lockers).action() == (ActionView::Read {
                    oid: election.oid,
                    keys: seq![election.epoch_key, election.holder_key],
                })
                &&& ends_without_epoch(listed.next(EventView::Renewed(Ok(false))))
                &&& releases(
                    election,
                    cookie,
                    listed.next(EventView::Renewed(Err(rejected))),
                    rejected,
                )
                &&& releases(
                    election,
                    cookie,
                    once_renewed(election, cookie, ttl, lockers).next(
                        EventView::Read(Err(rejected)),
                    ),
                    rejected,
                )
            }
            &&& releases(
                election,
                cookie,
                once_locked(election, cookie, ttl).next(EventView::Listed(Err(rejected))),
                rejected,
            )
        }),
{
    lemma_first_entry(lockers, cookie);
    if exists|i: int| 0 <= i < lockers.len() && (#[trigger] lockers[i]).cookie@ == cookie {
        let i = choose|i: int| 0 <= i < lockers.len() && (#[trigger] lockers[i]).cookie@ == cookie;
        lemma_some_first_entry(lockers, cookie, i);
    }
}

/// Where an entry has the cookie, there is a first one.
proof fn lemma_some_first_entry(lockers: Seq<Locker>, cookie: Seq<char>, i: int)
    requires
        0 <= i < lockers.len(),
        lockers[i].cookie@ == cookie,
    ensures
        exists|k: int| #[trigger] is_first_entry(lockers, cookie, k),
    decreases i,
{
    if exists|j: int| 0 <= j < i && (#[trigger] lockers[j]).cookie@ == cookie {
        let j = choose|j: int| 0 <= j < i && (#[trigger] lockers[j]).cookie@ == cookie;
        lemma_some_first_entry(lockers, cookie, j);
    } else {
        assert(is_first_entry(lockers, cookie, i));
    }
}

/// The previous holder is blocklisted exactly where it is another client: the value under the
/// holder key is not empty, is text, and is not the address of this client's own locker entry,
/// byte for byte and whatever the lengths of the two. The blocklisting is of that very address,
/// for `ttl`. Where there is no other holder, the lease is renewed for the write. A holder that
/// is no text, and an epoch that is neither missing nor eight bytes long, fail the acquisition.
///
/// Where one key is both the epoch's and the holder's, its value is the epoch's.
pub proof fn law_other_holder_is_blocklisted(
    election: ElectionView,
    cookie: Seq<char>,
    ttl: Duration,
    lockers: Seq<Locker>,
    i: int,
    state: Map<Seq<u8>, Seq<u8>>,
)
    requires
        is_first_entry(lockers, cookie, i),
    ensures
        ({
            let now = once_read(election, cookie, ttl, lockers, state);
            let own = encode_utf8(lockers[i].addr@);
            let decodes = !state.contains_key(election.epoch_key)
                || state[election.epoch_key].len() == 0 || state[election.epoch_key].len() == 8;
            let held = election.holder_key != election.epoch_key && state.contains_key(
                election.holder_key,
            ) && state[election.holder_key].len() > 0;
            let holder = state[election.holder_key];
            &&& !decodes ==> releases(election, cookie, now, RejectedView::Rados(22))
            &&& decodes ==> {
                &&& now.action() is Blocklist <==> held && holder != own && valid_utf8(holder)
                &&& held && holder != own && valid_utf8(holder) ==> now.action() == (
                ActionView::Blocklist { addr: decode_utf8(holder), ttl })
                &&& held && holder != own && !valid_utf8(holder) ==> releases(
                    election,
                    cookie,
                    now,
                    RejectedView::Rados(22),
                )
                &&& !held || holder == own ==> renews(election, cookie, ttl, now)
            }
        }),
{
    lemma_first_entry(lockers, cookie);
}

/// The rejection that an error of the monitor stands for.
pub open spec fn monitor_rejection(err: RadosError) -> RejectedView {
    match err {
        RadosError::NotFound => RejectedView::NotFound,
        RadosError::AlreadyExists => RejectedView::Exists,
        RadosError::Rados(e) => RejectedView::Rados(e),
        RadosError::Nul => RejectedView::Rados(22),
    }
}

/// A blocklisting that the monitor took is waited for before anything else, and only then is the
/// lease renewed. One that it does not allow (`-EACCES`, 13) is passed over, and every other
/// failure, of the blocklisting or of the wait, fails the acquisition with its own error.
pub proof fn law_blocklisting_is_waited_for(
    election: ElectionView,
    cookie: Seq<char>,
    ttl: Duration,
    lockers: Seq<Locker>,
    i: int,
    state: Map<Seq<u8>, Seq<u8>>,
    err: RadosError,
)
    requires
        is_first_entry(lockers, cookie, i),
        once_read(election, cookie, ttl, lockers, state).action() is Blocklist,
    ensures
        ({
            let now = once_read(election, cookie, ttl, lockers, state);
            let listed = now.next(EventView::Blocklisted(Ok(())));
            let failed = now.next(EventView::Blocklisted(Err(err)));
            &&& listed.action() == ActionView::AwaitMap
            &&& renews(election, cookie, ttl, listed.next(EventView::MapAwaited(Ok(()))))
            &&& releases(
                election,
                cookie,
                listed.next(EventView::MapAwaited(Err(err))),
                monitor_rejection(err),
            )
            &&& err == RadosError::Rados(13) ==> renews(election, cookie, ttl, failed)
            &&& err != RadosError::Rados(13) ==> releases(
                election,
                cookie,
                failed,
                monitor_rejection(err),
            )
        }),
{
    lemma_first_entry(lockers, cookie);
}

/// `ready` is an acquisition that has dealt with the previous holder: there was no other, it was
/// blocklisted and waited for, or the monitor does not allow it.
pub open spec fn is_ready(now: AcquireView, ready: AcquireView) -> bool {
    ||| now.action() is Renew && ready == now
    ||| now.action() is Blocklist && ready == now.next(EventView::Blocklisted(Ok(()))).next(
        EventView::MapAwaited(Ok(())),
    )
    ||| now.action() is Blocklist && ready == now.next(
        EventView::Blocklisted(Err(RadosError::Rados(13))),
    )
}

/// Once the previous holder was dealt with and the lease is still held, the write puts the epoch
/// after the one that was read, and the address of this client's own locker entry, in the place
/// of what was there, guarded on the very bytes that were read, and on the empty value where
/// there were none. The epoch is handed out once the write was applied, and not before. Without
/// the lease nothing is written; after the last epoch there is none; and a failure is the
/// failure of the acquisition.
pub proof fn law_next_epoch_is_written_and_handed_out(
    election: ElectionView,
    cookie: Seq<char>,
    ttl: Duration,
    lockers: Seq<Locker>,
    i: int,
    state: Map<Seq<u8>, Seq<u8>>,
    epoch: u64,
    ready: AcquireView,
    rejected: RejectedView,
)
    requires
        is_first_entry(lockers, cookie, i),
        if state.contains_key(election.epoch_key) && state[election.epoch_key].len() > 0 {
            state[election.epoch_key] == epoch_encoding(epoch)
        } else {
            epoch == 0
        },
        is_ready(once_read(election, cookie, ttl, lockers, state), ready),
    ensures
        ({
            let written = ready.next(EventView::Renewed(Ok(true)));
            let read = if state.contains_key(election.epoch_key) {
                state[election.epoch_key]
            } else {
                Seq::empty()
            };
            &&& renews(election, cookie, ttl, ready)
            &&& ends_without_epoch(ready.next(EventView::Renewed(Ok(false))))
            &&& releases(
                election,
                cookie,
                ready.next(EventView::Renewed(Err(rejected))),
                rejected,
            )
            &&& epoch == u64::MAX ==> releases(election, cookie, written, RejectedView::Rados(75))
            &&& epoch < u64::MAX ==> {
                &&& written.action() matches ActionView::Write { oid, write }
                &&& oid == election.oid
                &&& write.guard == GuardView::OmapEq(election.epoch_key, read)
                &&& write.entries.len() == 2
                &&& write.entries[0].0 == election.epoch_key
                &&& write.entries[0].1 == epoch_encoding((epoch + 1) as u64)
                &&& write.entries[1].0 == election.holder_key
                &&& write.entries[1].1 == encode_utf8(lockers[i].addr@)
                &&& written.next(EventView::Written(Ok(()))).stage == StageView::Done(
                    Ok(Some((epoch + 1) as u64)),
                )
                &&& written.next(EventView::Written(Ok(()))).action() == ActionView::Finish
                &&& releases(
                    election,
                    cookie,
                    written.next(EventView::Written(Err(rejected))),
                    rejected,
                )
            }
        }),
{
    lemma_first_entry(lockers, cookie);
    law_decoding_undoes_encoding(epoch);
    law_epochs_are_big_endian(epoch_encoding(epoch));
}

} // verus!
