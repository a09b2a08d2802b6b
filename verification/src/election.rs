//! Writer election.
//!
//! Becoming the writer takes several calls, and what comes next depends on what came back.
//! [`Acquire`] decides: [`Acquire::action`] says which call to make, and [`Acquire::step`]
//! takes the answer.

use crate::bytes::{bytes_equal, strings_equal};
use crate::entries::{value_or_empty, OmapEntries};
use crate::epoch::{
    decode_epoch, decoded_epoch, epoch_bytes, epoch_encoding, increment_epoch, incremented_epoch,
};
use crate::errno;
use crate::error::{plain_rejection, RadosError, Rejected, RejectedView};
use crate::guard::{guard_views, Guard, GuardView};
use crate::lock::{
    answer_view, lock_exclusive_call, renew_call, LockCall, LockCallView, Locker,
};
use crate::op::{entry_views, key_views, StepView};
use crate::text::utf8_text;
use crate::write::{mutation_steps, Mutation, Write};
use crate::Version;
use std::time::Duration;
use vstd::pervasive::unreached;
use vstd::prelude::*;
use vstd::string::*;
use vstd::utf8::*;

verus! {

/// Where an election keeps its lease and its epoch. All four live on one object, so the epoch
/// bump is a single-object write.
#[derive(Debug, Clone, Copy)]
pub struct Election<'a> {
    pub oid: &'a str,
    /// The `cls_lock` name.
    pub name: &'a str,
    /// The omap key holding the epoch.
    pub epoch_key: &'a [u8],
    /// The omap key holding the current holder's address.
    pub holder_key: &'a [u8],
}

/// An [`Election`] by its bytes and characters.
pub struct ElectionView {
    pub oid: Seq<char>,
    pub name: Seq<char>,
    pub epoch_key: Seq<u8>,
    pub holder_key: Seq<u8>,
}

impl<'a> View for Election<'a> {
    type V = ElectionView;

    open spec fn view(&self) -> ElectionView {
        ElectionView {
            oid: self.oid@,
            name: self.name@,
            epoch_key: self.epoch_key@,
            holder_key: self.holder_key@,
        }
    }
}

/// What was read before the epoch is claimed.
#[derive(Debug)]
struct Claim {
    /// This client's own address, as the OSD sees it.
    own_addr: String,
    /// The value of the epoch key, empty where it is missing.
    raw_epoch: Vec<u8>,
    /// The epoch that this value stands for.
    epoch: u64,
}

/// What was read before the epoch is claimed, by its bytes and characters.
pub struct ClaimView {
    pub own_addr: Seq<char>,
    pub raw_epoch: Seq<u8>,
    pub epoch: u64,
}

impl Claim {
    spec fn claim_view(&self) -> ClaimView {
        ClaimView {
            own_addr: self.own_addr@,
            raw_epoch: self.raw_epoch@,
            epoch: self.epoch,
        }
    }
}

/// How far an acquisition has come: which call's answer it waits for.
#[derive(Debug)]
enum Stage {
    Locking,
    Listing,
    Renewing { own_addr: String },
    Reading { own_addr: String },
    Blocklisting { claim: Claim, holder: String },
    AwaitingMap { claim: Claim },
    RenewingAgain { claim: Claim },
    Writing { claim: Claim, next_epoch: u64, next: [u8; 8] },
    Unlocking { rejected: Rejected },
    Done(Result<Option<u64>, Rejected>),
}

/// How far an acquisition has come.
pub enum StageView {
    /// Taking the lease.
    Locking,
    /// Reading this client's own address out of the locker entry.
    Listing,
    /// Checking, before any fencing side effect, that the entry is this client's.
    Renewing { own_addr: Seq<char> },
    /// Reading the epoch and the previous holder.
    Reading { own_addr: Seq<char> },
    /// Blocklisting the previous holder.
    Blocklisting { claim: ClaimView, holder: Seq<char> },
    /// Waiting for the OSDMap that carries the blocklisting.
    AwaitingMap { claim: ClaimView },
    /// Checking that fencing did not outlast the lease.
    RenewingAgain { claim: ClaimView },
    /// Writing the next epoch and this client's address.
    Writing { claim: ClaimView, next_epoch: u64 },
    /// Releasing the lease after a failure.
    Unlocking { rejected: RejectedView },
    /// Nothing more to do.
    Done(Result<Option<u64>, RejectedView>),
}

/// The result of an acquisition, by its bytes and characters.
pub open spec fn acquired_view(result: Result<Option<u64>, Rejected>) -> Result<
    Option<u64>,
    RejectedView,
> {
    match result {
        Ok(epoch) => Ok(epoch),
        Err(rejected) => Err(rejected@),
    }
}

impl Stage {
    spec fn stage_view(&self) -> StageView {
        match self {
            Stage::Locking => StageView::Locking,
            Stage::Listing => StageView::Listing,
            Stage::Renewing { own_addr } => StageView::Renewing { own_addr: own_addr@ },
            Stage::Reading { own_addr } => StageView::Reading { own_addr: own_addr@ },
            Stage::Blocklisting { claim, holder } => StageView::Blocklisting {
                claim: claim.claim_view(),
                holder: holder@,
            },
            Stage::AwaitingMap { claim } => StageView::AwaitingMap { claim: claim.claim_view() },
            Stage::RenewingAgain { claim } => StageView::RenewingAgain {
                claim: claim.claim_view(),
            },
            Stage::Writing { claim, next_epoch, .. } => StageView::Writing {
                claim: claim.claim_view(),
                next_epoch: *next_epoch,
            },
            Stage::Unlocking { rejected } => StageView::Unlocking { rejected: rejected@ },
            Stage::Done(result) => StageView::Done(acquired_view(*result)),
        }
    }
}

/// What came back from the call that [`Acquire::action`] asked for.
#[derive(Debug)]
pub enum Event {
    /// From taking the lease.
    Locked(Result<bool, Rejected>),
    /// From listing the lockers.
    Listed(Result<Vec<Locker>, Rejected>),
    /// From renewing the lease.
    Renewed(Result<bool, Rejected>),
    /// From reading the epoch key and the holder key.
    Read(Result<(OmapEntries, Version), Rejected>),
    /// From adding to the blocklist.
    Blocklisted(Result<(), RadosError>),
    /// From waiting for the latest OSDMap.
    MapAwaited(Result<(), RadosError>),
    /// From writing the epoch.
    Written(Result<(), Rejected>),
    /// From releasing the lease, whatever it came to.
    Unlocked,
}

/// An [`Event`] by its bytes and characters.
pub enum EventView {
    Locked(Result<bool, RejectedView>),
    Listed(Result<Seq<Locker>, RejectedView>),
    Renewed(Result<bool, RejectedView>),
    Read(Result<Map<Seq<u8>, Seq<u8>>, RejectedView>),
    Blocklisted(Result<(), RadosError>),
    MapAwaited(Result<(), RadosError>),
    Written(Result<(), RejectedView>),
    Unlocked,
}

impl View for Event {
    type V = EventView;

    open spec fn view(&self) -> EventView {
        match self {
            Event::Locked(result) => EventView::Locked(answer_view(*result)),
            Event::Listed(result) => EventView::Listed(
                match result {
                    Ok(lockers) => Ok(lockers@),
                    Err(rejected) => Err(rejected@),
                },
            ),
            Event::Renewed(result) => EventView::Renewed(answer_view(*result)),
            Event::Read(result) => EventView::Read(
                match result {
                    Ok((entries, _)) => Ok(entries@),
                    Err(rejected) => Err(rejected@),
                },
            ),
            Event::Blocklisted(result) => EventView::Blocklisted(*result),
            Event::MapAwaited(result) => EventView::MapAwaited(*result),
            Event::Written(result) => EventView::Written(
                match result {
                    Ok(_) => Ok(()),
                    Err(rejected) => Err(rejected@),
                },
            ),
            Event::Unlocked => EventView::Unlocked,
        }
    }
}

impl Event {
    /// What was read is kept in key order.
    pub open spec fn wf(&self) -> bool {
        self matches Event::Read(Ok((entries, _))) ==> entries.wf()
    }
}

/// Whether `event` answers the call that `stage` waits for.
pub open spec fn answers(stage: StageView, event: EventView) -> bool {
    match stage {
        StageView::Locking => event is Locked,
        StageView::Listing => event is Listed,
        StageView::Renewing { .. } => event is Renewed,
        StageView::Reading { .. } => event is Read,
        StageView::Blocklisting { .. } => event is Blocklisted,
        StageView::AwaitingMap { .. } => event is MapAwaited,
        StageView::RenewingAgain { .. } => event is Renewed,
        StageView::Writing { .. } => event is Written,
        StageView::Unlocking { .. } => event is Unlocked,
        StageView::Done(_) => false,
    }
}

/// The address of the first locker entry with this cookie.
pub open spec fn own_entry(lockers: Seq<Locker>, cookie: Seq<char>) -> Option<Seq<char>>
    decreases lockers.len(),
{
    if lockers.len() == 0 {
        None
    } else if lockers[0].cookie@ == cookie {
        Some(lockers[0].addr@)
    } else {
        own_entry(lockers.drop_first(), cookie)
    }
}

/// The value of the epoch key.
pub open spec fn raw_epoch_in(election: ElectionView, state: Map<Seq<u8>, Seq<u8>>) -> Seq<u8> {
    value_or_empty(state, election.epoch_key)
}

/// The value of the holder key, which is no holder's where the epoch key is the same key.
pub open spec fn holder_in(election: ElectionView, state: Map<Seq<u8>, Seq<u8>>) -> Seq<u8> {
    value_or_empty(state.remove(election.epoch_key), election.holder_key)
}

/// Whether `holder` is someone else, who has to be blocklisted.
pub open spec fn is_other_holder(holder: Seq<u8>, own_addr: Seq<char>) -> bool {
    holder.len() > 0 && holder != encode_utf8(own_addr)
}

/// What follows once the epoch and the previous holder were read.
pub open spec fn after_reading(
    election: ElectionView,
    own_addr: Seq<char>,
    state: Map<Seq<u8>, Seq<u8>>,
) -> StageView {
    let raw_epoch = raw_epoch_in(election, state);
    let holder = holder_in(election, state);
    match decoded_epoch(raw_epoch) {
        Err(rejected) => StageView::Unlocking { rejected },
        Ok(epoch) => {
            let claim = ClaimView { own_addr, raw_epoch, epoch };
            if !is_other_holder(holder, own_addr) {
                StageView::RenewingAgain { claim }
            } else if valid_utf8(holder) {
                StageView::Blocklisting { claim, holder: decode_utf8(holder) }
            } else {
                StageView::Unlocking { rejected: RejectedView::Rados(errno::EINVAL) }
            }
        },
    }
}

/// What follows on an answer. Losing the lease ends the acquisition without an epoch; a
/// failure after the lease was taken leads to its release.
pub open spec fn next_stage(
    election: ElectionView,
    cookie: Seq<char>,
    stage: StageView,
    event: EventView,
) -> StageView {
    let lost = StageView::Done(Ok(None));
    match (stage, event) {
        (StageView::Locking, EventView::Locked(Ok(true))) => StageView::Listing,
        (StageView::Locking, EventView::Locked(Err(RejectedView::Exists))) => StageView::Listing,
        (StageView::Locking, EventView::Locked(Ok(false))) => lost,
        (StageView::Locking, EventView::Locked(Err(rejected))) => StageView::Done(Err(rejected)),
        (StageView::Listing, EventView::Listed(Ok(lockers))) => match own_entry(lockers, cookie) {
            Some(own_addr) => StageView::Renewing { own_addr },
            None => lost,
        },
        (StageView::Listing, EventView::Listed(Err(rejected))) => StageView::Unlocking { rejected },
        (StageView::Renewing { own_addr }, EventView::Renewed(Ok(true))) => StageView::Reading {
            own_addr,
        },
        (StageView::Renewing { .. }, EventView::Renewed(Ok(false))) => lost,
        (StageView::Renewing { .. }, EventView::Renewed(Err(rejected))) => StageView::Unlocking {
            rejected,
        },
        (StageView::Reading { own_addr }, EventView::Read(Ok(state))) => after_reading(
            election,
            own_addr,
            state,
        ),
        (StageView::Reading { .. }, EventView::Read(Err(rejected))) => StageView::Unlocking {
            rejected,
        },
        (StageView::Blocklisting { claim, .. }, EventView::Blocklisted(Ok(_))) => {
            StageView::AwaitingMap { claim }
        },
        (StageView::Blocklisting { claim, .. }, EventView::Blocklisted(Err(err))) => {
            if err == RadosError::Rados(errno::EACCES) {
                StageView::RenewingAgain { claim }
            } else {
                StageView::Unlocking { rejected: plain_rejection(err) }
            }
        },
        (StageView::AwaitingMap { claim }, EventView::MapAwaited(Ok(_))) => {
            StageView::RenewingAgain { claim }
        },
        (StageView::AwaitingMap { .. }, EventView::MapAwaited(Err(err))) => StageView::Unlocking {
            rejected: plain_rejection(err),
        },
        (StageView::RenewingAgain { claim }, EventView::Renewed(Ok(true))) => {
            match incremented_epoch(claim.epoch) {
                Ok(next_epoch) => StageView::Writing { claim, next_epoch },
                Err(rejected) => StageView::Unlocking { rejected },
            }
        },
        (StageView::RenewingAgain { .. }, EventView::Renewed(Ok(false))) => lost,
        (StageView::RenewingAgain { .. }, EventView::Renewed(Err(rejected))) => {
            StageView::Unlocking { rejected }
        },
        (StageView::Writing { next_epoch, .. }, EventView::Written(Ok(_))) => StageView::Done(
            Ok(Some(next_epoch)),
        ),
        (StageView::Writing { .. }, EventView::Written(Err(rejected))) => StageView::Unlocking {
            rejected,
        },
        (StageView::Unlocking { rejected }, EventView::Unlocked) => StageView::Done(Err(rejected)),
        _ => stage,
    }
}

/// The write that claims the epoch, with what it borrows.
#[derive(Debug, Clone, Copy)]
pub struct EpochWrite<'s> {
    epoch_key: &'s [u8],
    raw_epoch: &'s [u8],
    entries: [(&'s [u8], &'s [u8]); 2],
}

/// An [`EpochWrite`] by its bytes.
pub struct EpochWriteView {
    pub guard: GuardView,
    pub entries: Seq<(Seq<u8>, Seq<u8>)>,
}

impl<'s> View for EpochWrite<'s> {
    type V = EpochWriteView;

    closed spec fn view(&self) -> EpochWriteView {
        EpochWriteView {
            guard: GuardView::OmapEq(self.epoch_key@, self.raw_epoch@),
            entries: entry_views(self.entries@),
        }
    }
}

impl<'s> EpochWrite<'s> {
    /// One guard on the raw value that was read, and one mutation that sets the epoch and the
    /// holder together.
    ///
    /// A missing epoch key guards on `b""`: `omap_cmp` compares a missing key as empty
    /// (`PrimaryLogPG.cc:8088-8090`). Taking the lease created the object with the `cls_lock`
    /// xattr, so the `-ENOENT` that `omap_cmp` returns on a missing object
    /// (`PrimaryLogPG.cc:8047-8050`) cannot arrive here.
    pub fn write<'w>(&'w self) -> (write: Write<'w>)
        ensures
            guard_views(write.guards@) == seq![self@.guard],
            mutation_steps(write.mutations@) == seq![StepView::OmapSet(self@.entries)],
    {
        let mut guards: Vec<Guard<'w>> = Vec::new();
        guards.push(Guard::OmapEq(self.epoch_key, self.raw_epoch));
        let mut mutations: Vec<Mutation<'w>> = Vec::new();
        mutations.push(Mutation::OmapSet(self.entries.as_slice()));
        assert(guard_views(guards@) =~= seq![self@.guard]);
        assert(mutation_steps(mutations@) =~= seq![StepView::OmapSet(self@.entries)]);
        Write { guards, mutations }
    }
}

/// A call that an acquisition asks for.
#[derive(Debug, Clone, Copy)]
pub enum Action<'s> {
    /// Take the lease; answered by [`Event::Locked`].
    Lock(LockCall<'s>),
    /// List the lockers; answered by [`Event::Listed`].
    List { oid: &'s str, name: &'s str },
    /// Renew the lease; answered by [`Event::Renewed`].
    Renew(LockCall<'s>),
    /// Read the two keys; answered by [`Event::Read`].
    Read { oid: &'s str, keys: [&'s [u8]; 2] },
    /// Blocklist a client; answered by [`Event::Blocklisted`].
    Blocklist { addr: &'s str, ttl: Duration },
    /// Wait for the latest OSDMap; answered by [`Event::MapAwaited`].
    AwaitMap,
    /// Send the write; answered by [`Event::Written`].
    Write { oid: &'s str, write: EpochWrite<'s> },
    /// Release the lease; answered by [`Event::Unlocked`].
    Unlock { oid: &'s str, name: &'s str, cookie: &'s str },
    /// Nothing: [`Acquire::into_result`] has the result.
    Finish,
}

/// An [`Action`] by its bytes and characters.
pub enum ActionView {
    Lock(LockCallView),
    List { oid: Seq<char>, name: Seq<char> },
    Renew(LockCallView),
    Read { oid: Seq<char>, keys: Seq<Seq<u8>> },
    Blocklist { addr: Seq<char>, ttl: Duration },
    AwaitMap,
    Write { oid: Seq<char>, write: EpochWriteView },
    Unlock { oid: Seq<char>, name: Seq<char>, cookie: Seq<char> },
    Finish,
}

impl<'s> View for Action<'s> {
    type V = ActionView;

    open spec fn view(&self) -> ActionView {
        match self {
            Action::Lock(call) => ActionView::Lock(call@),
            Action::List { oid, name } => ActionView::List { oid: oid@, name: name@ },
            Action::Renew(call) => ActionView::Renew(call@),
            Action::Read { oid, keys } => ActionView::Read { oid: oid@, keys: key_views(keys@) },
            Action::Blocklist { addr, ttl } => ActionView::Blocklist { addr: addr@, ttl: *ttl },
            Action::AwaitMap => ActionView::AwaitMap,
            Action::Write { oid, write } => ActionView::Write { oid: oid@, write: write@ },
            Action::Unlock { oid, name, cookie } => ActionView::Unlock {
                oid: oid@,
                name: name@,
                cookie: cookie@,
            },
            Action::Finish => ActionView::Finish,
        }
    }
}

/// Becoming the writer: the new epoch, or `None` while someone else holds the lease.
///
/// The four steps run in this order so that the fence is durable before the new writer writes
/// anything, as `fail_mds_gid` does:
///
/// 1. take the lease, renewing it if this client already holds it;
/// 2. read this client's own address out of the locker entry, and the epoch and the previous
///    holder out of the omap;
/// 3. blocklist the previous holder and wait for the new OSDMap;
/// 4. write epoch `E+1` and this client's address, guarded on the epoch that was read.
///
/// A failure after step 1 releases the lease. The caller guards its own writes with the
/// returned epoch; that guard, not the lease, is what stops the previous writer, so an
/// environment where step 3 is skipped is still fenced.
#[derive(Debug)]
pub struct Acquire<'a> {
    election: Election<'a>,
    cookie: &'a str,
    ttl: Duration,
    stage: Stage,
}

/// An [`Acquire`] by its bytes and characters.
pub struct AcquireView {
    pub election: ElectionView,
    pub cookie: Seq<char>,
    pub ttl: Duration,
    pub stage: StageView,
}

impl<'a> View for Acquire<'a> {
    type V = AcquireView;

    closed spec fn view(&self) -> AcquireView {
        AcquireView {
            election: self.election@,
            cookie: self.cookie@,
            ttl: self.ttl,
            stage: self.stage.stage_view(),
        }
    }
}

impl AcquireView {
    /// The arguments with which this acquisition takes or renews its lease.
    pub open spec fn lock_call(self, must_renew: bool) -> LockCallView {
        LockCallView {
            oid: self.election.oid,
            name: self.election.name,
            cookie: self.cookie,
            desc: Seq::empty(),
            duration: Some(self.ttl),
            must_renew,
        }
    }

    /// The write that puts `next_epoch` in the place of the epoch that was read.
    pub open spec fn epoch_write(self, claim: ClaimView, next_epoch: u64) -> EpochWriteView {
        EpochWriteView {
            guard: GuardView::OmapEq(self.election.epoch_key, claim.raw_epoch),
            entries: seq![
                (self.election.epoch_key, epoch_encoding(next_epoch)),
                (self.election.holder_key, encode_utf8(claim.own_addr)),
            ],
        }
    }

    /// The call whose answer the acquisition waits for.
    pub open spec fn action(self) -> ActionView {
        let (oid, name) = (self.election.oid, self.election.name);
        match self.stage {
            StageView::Locking => ActionView::Lock(self.lock_call(false)),
            StageView::Listing => ActionView::List { oid, name },
            StageView::Renewing { .. } => ActionView::Renew(self.lock_call(true)),
            StageView::Reading { .. } => ActionView::Read {
                oid,
                keys: seq![self.election.epoch_key, self.election.holder_key],
            },
            StageView::Blocklisting { holder, .. } => ActionView::Blocklist {
                addr: holder,
                ttl: self.ttl,
            },
            StageView::AwaitingMap { .. } => ActionView::AwaitMap,
            StageView::RenewingAgain { .. } => ActionView::Renew(self.lock_call(true)),
            StageView::Writing { claim, next_epoch } => ActionView::Write {
                oid,
                write: self.epoch_write(claim, next_epoch),
            },
            StageView::Unlocking { .. } => ActionView::Unlock { oid, name, cookie: self.cookie },
            StageView::Done(_) => ActionView::Finish,
        }
    }

    /// The acquisition after an answer.
    pub open spec fn next(self, event: EventView) -> AcquireView {
        AcquireView {
            stage: next_stage(self.election, self.cookie, self.stage, event),
            ..self
        }
    }
}

/// An acquisition that has made no call yet.
pub open spec fn acquire_start(
    election: ElectionView,
    cookie: Seq<char>,
    ttl: Duration,
) -> AcquireView {
    AcquireView { election, cookie, ttl, stage: StageView::Locking }
}

impl<'a> Acquire<'a> {
    /// The bytes that are about to be written are those of the next epoch.
    pub closed spec fn wf(&self) -> bool {
        self.stage matches Stage::Writing { next_epoch, next, .. } ==> next@ == epoch_encoding(
            next_epoch,
        )
    }

    /// An acquisition under `cookie`, with a lease of `ttl`.
    pub fn new(election: &Election<'a>, cookie: &'a str, ttl: Duration) -> (acquire: Acquire<'a>)
        ensures
            acquire.wf(),
            acquire@ == acquire_start(election@, cookie@, ttl),
    {
        Acquire { election: *election, cookie, ttl, stage: Stage::Locking }
    }

    /// The call to make next.
    pub fn action<'s>(&'s self) -> (action: Action<'s>)
        requires
            self.wf(),
        ensures
            action@ == self@.action(),
    {
        let e = &self.election;
        proof {
            reveal_strlit("");
            assert(""@ =~= Seq::<char>::empty());
        }
        match &self.stage {
            Stage::Locking => Action::Lock(
                lock_exclusive_call(e.oid, e.name, self.cookie, "", self.ttl),
            ),
            Stage::Listing => Action::List { oid: e.oid, name: e.name },
            Stage::Renewing { .. } => Action::Renew(
                renew_call(e.oid, e.name, self.cookie, "", self.ttl),
            ),
            Stage::Reading { .. } => {
                let action = Action::Read { oid: e.oid, keys: [e.epoch_key, e.holder_key] };
                assert(action@->keys =~= seq![e.epoch_key@, e.holder_key@]);
                action
            },
            Stage::Blocklisting { holder, .. } => Action::Blocklist {
                addr: holder.as_str(),
                ttl: self.ttl,
            },
            Stage::AwaitingMap { .. } => Action::AwaitMap,
            Stage::RenewingAgain { .. } => Action::Renew(
                renew_call(e.oid, e.name, self.cookie, "", self.ttl),
            ),
            Stage::Writing { claim, next_epoch, next } => {
                let write = EpochWrite {
                    epoch_key: e.epoch_key,
                    raw_epoch: claim.raw_epoch.as_slice(),
                    entries: [
                        (e.epoch_key, next.as_slice()),
                        (e.holder_key, claim.own_addr.as_str().as_bytes()),
                    ],
                };
                assert(write@.entries =~= self@.epoch_write(
                    claim.claim_view(),
                    *next_epoch,
                ).entries);
                Action::Write { oid: e.oid, write }
            },
            Stage::Unlocking { .. } => Action::Unlock {
                oid: e.oid,
                name: e.name,
                cookie: self.cookie,
            },
            Stage::Done(_) => Action::Finish,
        }
    }

    /// Takes the answer to the call that [`Acquire::action`] asked for.
    pub fn step(self, event: Event) -> (next: Acquire<'a>)
        requires
            self.wf(),
            event.wf(),
            answers(self@.stage, event@),
        ensures
            next.wf(),
            next@ == self@.next(event@),
    {
        let Acquire { election, cookie, ttl, stage } = self;
        let stage = match (stage, event) {
            (Stage::Locking, Event::Locked(result)) => after_locking(result),
            (Stage::Listing, Event::Listed(result)) => match result {
                Ok(lockers) => match find_own_entry(lockers.as_slice(), cookie) {
                    Some(own_addr) => Stage::Renewing { own_addr },
                    // The lease expired between taking it and reading it back.
                    None => Stage::Done(Ok(None)),
                },
                Err(rejected) => Stage::Unlocking { rejected },
            },
            (Stage::Renewing { own_addr }, Event::Renewed(result)) => match result {
                Ok(true) => Stage::Reading { own_addr },
                // Another client may have acquired the expired lease under the same cookie.
                Ok(false) => Stage::Done(Ok(None)),
                Err(rejected) => Stage::Unlocking { rejected },
            },
            (Stage::Reading { own_addr }, Event::Read(result)) => match result {
                Ok((state, _)) => take_state(&election, own_addr, state),
                Err(rejected) => Stage::Unlocking { rejected },
            },
            (Stage::Blocklisting { claim, .. }, Event::Blocklisted(result)) => {
                after_blocklisting(claim, result)
            },
            (Stage::AwaitingMap { claim }, Event::MapAwaited(result)) => match result {
                Ok(_) => Stage::RenewingAgain { claim },
                Err(err) => Stage::Unlocking { rejected: Rejected::from(err) },
            },
            (Stage::RenewingAgain { claim }, Event::Renewed(result)) => match result {
                Ok(true) => claim_next_epoch(claim),
                // Fencing can outlast the lease. Do not advance the epoch after losing it.
                Ok(false) => Stage::Done(Ok(None)),
                Err(rejected) => Stage::Unlocking { rejected },
            },
            (Stage::Writing { next_epoch, .. }, Event::Written(result)) => match result {
                Ok(_) => Stage::Done(Ok(Some(next_epoch))),
                Err(rejected) => Stage::Unlocking { rejected },
            },
            (Stage::Unlocking { rejected }, Event::Unlocked) => Stage::Done(Err(rejected)),
            (stage, _) => stage,
        };
        Acquire { election, cookie, ttl, stage }
    }

    /// The result of an acquisition that has nothing more to do.
    pub fn into_result(self) -> (result: Result<Option<u64>, Rejected>)
        requires
            self@.stage is Done,
        ensures
            self@.stage == StageView::Done(acquired_view(result)),
            result matches Ok(epoch) ==> self@.stage == StageView::Done(Ok(epoch)),
            result matches Err(rejected) ==> self@.stage == StageView::Done(Err(rejected@)),
    {
        match self.stage {
            Stage::Done(result) => result,
            _ => unreached(),
        }
    }
}

/// Step 1: the lease was asked for.
fn after_locking(result: Result<bool, Rejected>) -> (stage: Stage)
    ensures
        forall|election: ElectionView, cookie: Seq<char>|
            stage.stage_view() == #[trigger] next_stage(
                election,
                cookie,
                StageView::Locking,
                EventView::Locked(answer_view(result)),
            ),
        !(stage is Writing),
{
    match result {
        Ok(true) => Stage::Listing,
        Ok(false) => Stage::Done(Ok(None)),
        // The lease is renewed once the locker was read, so that the cookie and the client are
        // checked together before any fencing side effect.
        Err(Rejected::Exists) => Stage::Listing,
        Err(rejected) => Stage::Done(Err(rejected)),
    }
}

/// Step 2: this client's own address out of the locker entries.
///
/// The entry carries the address the OSD sees, in the form `rados_blocklist_add` parses
/// (`cls_lock.cc:228-233`). `rados_getaddrs` reports an addrvec instead, which that parser
/// rejects (`RadosClient.cc:781-794`).
fn find_own_entry(lockers: &[Locker], cookie: &str) -> (own_addr: Option<String>)
    ensures
        own_entry(lockers@, cookie@) == (match own_addr {
            Some(addr) => Some(addr@),
            None => None,
        }),
{
    let mut i: usize = 0;
    assert(lockers@.skip(0) =~= lockers@);
    while i < lockers.len()
        invariant
            i <= lockers@.len(),
            own_entry(lockers@, cookie@) == own_entry(lockers@.skip(i as int), cookie@),
        decreases lockers@.len() - i,
    {
        let ghost rest = lockers@.skip(i as int);
        assert(rest[0] == lockers@[i as int]);
        if strings_equal(lockers[i].cookie.as_str(), cookie) {
            return Some(lockers[i].addr.clone());
        }
        assert(rest.drop_first() =~= lockers@.skip(i + 1));
        i += 1;
    }
    None
}

/// Steps 2 and 3: what was read of the epoch and the previous holder.
fn take_state(election: &Election, own_addr: String, state: OmapEntries) -> (stage: Stage)
    requires
        state.wf(),
    ensures
        stage.stage_view() == after_reading(election@, own_addr@, state@),
        !(stage is Writing),
{
    let mut state = state;
    let raw_epoch = state.remove(election.epoch_key).unwrap_or_default();
    let holder = state.remove(election.holder_key).unwrap_or_default();
    let epoch = match decode_epoch(raw_epoch.as_slice()) {
        Ok(epoch) => epoch,
        Err(rejected) => return Stage::Unlocking { rejected },
    };
    let is_own = bytes_equal(holder.as_slice(), own_addr.as_str().as_bytes());
    let claim = Claim { own_addr, raw_epoch, epoch };
    if holder.len() == 0 || is_own {
        return Stage::RenewingAgain { claim };
    }
    match utf8_text(holder.as_slice()) {
        Some(addr) => Stage::Blocklisting { claim, holder: addr.to_owned() },
        None => Stage::Unlocking { rejected: Rejected::Rados(errno::EINVAL) },
    }
}

/// Step 3: the previous holder was to be blocklisted.
///
/// No mon cap for `osd blocklist add`: the monitor refuses a command the session's caps do not
/// allow with `reply_command(op, -EACCES, "access denied")` (`Monitor.cc:3752-3760`), before
/// the command body runs. The epoch guard written in step 4 still fences the previous writer's
/// writes.
fn after_blocklisting(claim: Claim, result: Result<(), RadosError>) -> (stage: Stage)
    ensures
        forall|election: ElectionView, cookie: Seq<char>, holder: Seq<char>|
            stage.stage_view() == #[trigger] next_stage(
                election,
                cookie,
                StageView::Blocklisting { claim: claim.claim_view(), holder },
                EventView::Blocklisted(result),
            ),
        !(stage is Writing),
{
    match result {
        Ok(_) => Stage::AwaitingMap { claim },
        Err(err) => {
            if let RadosError::Rados(e) = err {
                if e == errno::EACCES {
                    return Stage::RenewingAgain { claim };
                }
            }
            Stage::Unlocking { rejected: Rejected::from(err) }
        },
    }
}

/// Step 4: the epoch to write.
fn claim_next_epoch(claim: Claim) -> (stage: Stage)
    ensures
        match incremented_epoch(claim.epoch) {
            Ok(next_epoch) => stage.stage_view() == (StageView::Writing {
                claim: claim.claim_view(),
                next_epoch,
            }),
            Err(rejected) => stage.stage_view() == (StageView::Unlocking { rejected }),
        },
        stage matches Stage::Writing { next_epoch, next, .. } ==> next@ == epoch_encoding(
            next_epoch,
        ),
{
    match increment_epoch(claim.epoch) {
        Ok(next_epoch) => {
            let next = epoch_bytes(next_epoch);
            Stage::Writing { claim, next_epoch, next }
        },
        Err(rejected) => Stage::Unlocking { rejected },
    }
}

} // verus!
