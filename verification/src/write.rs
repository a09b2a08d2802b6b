//! Compound writes: the guards first, then the mutations they protect, in one operation.

use crate::bytes::{is_nul_free, law_nul_free_is_without_nul, nul_free};
use crate::entries::{set_in_turn, value_or_empty};
use crate::errno;
use crate::error::{plain_rejection, FenceView, RadosError, Rejected, RejectedView};
use crate::guard::{
    accepted, admits, answers_guard, guard_fence, guard_step, guard_steps, guard_views,
    law_rejection_names_the_failing_guard, push as push_guards, seen_from, write_rejection, Guard,
    GuardView, Guards,
};
use crate::op::{entry_views, key_views, StepView, WriteError, WriteOp, WriteStep};
use vstd::prelude::*;
use vstd::string::*;
use vstd::utf8::*;

verus! {

/// One step of a compound write. The steps are applied in the order given, all of them or
/// none: a single RADOS operation is one PGTransaction.
#[derive(Debug, Clone, Copy)]
pub enum Mutation<'a> {
    CreateExclusive,
    WriteFull(&'a [u8]),
    Append(&'a [u8]),
    OmapSet(&'a [(&'a [u8], &'a [u8])]),
    OmapRemove(&'a [&'a [u8]]),
    /// Removes the keys in `[begin, end)`.
    OmapRemoveRange { begin: &'a [u8], end: &'a [u8] },
    SetXattr(&'a str, &'a [u8]),
    Remove,
}

/// The guards and the mutations they protect, in one operation.
#[derive(Debug)]
pub struct Write<'a> {
    pub guards: Vec<Guard<'a>>,
    pub mutations: Vec<Mutation<'a>>,
}

/// The sub-op that carries a mutation out.
pub open spec fn mutation_step(mutation: Mutation) -> StepView {
    match mutation {
        Mutation::CreateExclusive => StepView::Create { exclusive: true },
        Mutation::WriteFull(data) => StepView::WriteFull(data@),
        Mutation::Append(data) => StepView::Append(data@),
        Mutation::OmapSet(entries) => StepView::OmapSet(entry_views(entries@)),
        Mutation::OmapRemove(keys) => StepView::OmapRemoveKeys(key_views(keys@)),
        Mutation::OmapRemoveRange { begin, end } => StepView::OmapRemoveRange {
            begin: begin@,
            end: end@,
        },
        Mutation::SetXattr(name, value) => StepView::SetXattr { name: name@, value: value@ },
        Mutation::Remove => StepView::Remove,
    }
}

/// The sub-ops that carry the mutations out, one for each and in their order.
pub open spec fn mutation_steps(mutations: Seq<Mutation>) -> Seq<StepView> {
    mutations.map_values(|m: Mutation| mutation_step(m))
}

/// Whether a mutation can be sent: an xattr name has to be a C string.
pub open spec fn sendable(mutation: Mutation) -> bool {
    mutation matches Mutation::SetXattr(name, _) ==> nul_free(encode_utf8(name@))
}

/// Whether every mutation can be sent.
pub open spec fn all_sendable(mutations: Seq<Mutation>) -> bool {
    forall|i: int| 0 <= i < mutations.len() ==> #[trigger] sendable(mutations[i])
}

/// Pushes `mutation` onto `op`. An xattr name that is no C string is rejected here, before the
/// op is sent, and leaves `op` as it was.
pub fn push<'a>(op: &mut WriteOp<'a>, mutation: &Mutation<'a>) -> (result: Result<(), Rejected>)
    ensures
        result is Ok <==> sendable(*mutation),
        match result {
            Ok(_) => final(op)@ == old(op)@.push(mutation_step(*mutation)),
            Err(rejected) => {
                &&& rejected@ == RejectedView::Rados(errno::EINVAL)
                &&& final(op)@ == old(op)@
            },
        },
{
    let step = match mutation {
        Mutation::CreateExclusive => WriteStep::Create { exclusive: true },
        Mutation::WriteFull(data) => WriteStep::WriteFull(*data),
        Mutation::Append(data) => WriteStep::Append(*data),
        Mutation::OmapSet(entries) => WriteStep::OmapSet(*entries),
        Mutation::OmapRemove(keys) => WriteStep::OmapRemoveKeys(*keys),
        Mutation::OmapRemoveRange { begin, end } => WriteStep::OmapRemoveRange {
            begin: *begin,
            end: *end,
        },
        Mutation::SetXattr(name, value) => {
            if !is_nul_free(name.as_bytes()) {
                return Err(Rejected::from(RadosError::Nul));
            }
            WriteStep::SetXattr { name: *name, value: *value }
        },
        Mutation::Remove => WriteStep::Remove,
    };
    op.add_step(step);
    Ok(())
}

impl<'a> Write<'a> {
    /// The one operation that this write is sent as: the guards first, then the mutations,
    /// each in the order given. With it come the guards that a failure can name.
    ///
    /// A write that cannot be sent, or whose failure could not name its guard, is rejected
    /// here.
    pub fn prepare(&self) -> (result: Result<(WriteOp<'a>, Guards<'a>), Rejected>)
        ensures
            result is Ok <==> accepted(guard_views(self.guards@)) && all_sendable(self.mutations@),
            match result {
                Ok((op, seen)) => {
                    &&& op@ == guard_steps(guard_views(self.guards@)) + mutation_steps(
                        self.mutations@,
                    )
                    &&& seen@ == seen_from(0, guard_views(self.guards@))
                },
                Err(rejected) => rejected@ == RejectedView::Rados(errno::EINVAL),
            },
    {
        let mut op = WriteOp::new();
        let seen = match push_guards(&mut op, self.guards.as_slice()) {
            Ok(seen) => seen,
            Err(rejected) => return Err(rejected),
        };
        let ghost guards = guard_steps(guard_views(self.guards@));
        let mut i: usize = 0;
        assert(op@ =~= guards + mutation_steps(self.mutations@.take(0)));
        while i < self.mutations.len()
            invariant
                i <= self.mutations@.len(),
                forall|j: int| 0 <= j < i ==> #[trigger] sendable(self.mutations@[j]),
                op@ == guards + mutation_steps(self.mutations@.take(i as int)),
            decreases self.mutations@.len() - i,
        {
            match push(&mut op, &self.mutations[i]) {
                Ok(_) => {},
                Err(rejected) => {
                    assert(!sendable(self.mutations@[i as int]));
                    return Err(rejected);
                },
            }
            assert(op@ =~= guards + mutation_steps(self.mutations@.take(i + 1)));
            i += 1;
        }
        assert(self.mutations@.take(i as int) =~= self.mutations@);
        Ok((op, seen))
    }
}

/// A write is sent exactly where its failure could name its guard and its names can be sent: it
/// has at most one version guard and at most one xattr guard, and no name of an xattr holds a NUL
/// byte.
pub proof fn law_write_is_sent(guards: Seq<Guard>, mutations: Seq<Mutation>)
    ensures
        accepted(guard_views(guards)) && all_sendable(mutations) <==> {
            &&& forall|i: int, j: int|
                0 <= i < j < guards.len() ==> !(#[trigger] guards[i] is Version
                    && #[trigger] guards[j] is Version) && !(guards[i] is XattrEq
                    && guards[j] is XattrEq)
            &&& forall|i: int|
                0 <= i < guards.len() ==> (#[trigger] guards[i] matches Guard::XattrEq(name, _)
                    ==> !encode_utf8(name@).contains(0u8))
            &&& forall|i: int|
                0 <= i < mutations.len() ==> (#[trigger] mutations[i] matches Mutation::SetXattr(
                    name,
                    _,
                ) ==> !encode_utf8(name@).contains(0u8))
        },
{
    let views = guard_views(guards);
    assert(forall|i: int| 0 <= i < guards.len() ==> #[trigger] views[i] == guards[i]@);
    if accepted(views) {
        assert forall|i: int, j: int| 0 <= i < j < guards.len() implies !(
        #[trigger] guards[i] is Version && #[trigger] guards[j] is Version) && !(
        guards[i] is XattrEq && guards[j] is XattrEq) by {
            assert(admits(views.take(j), views[j]));
            assert(views.take(j)[i] == views[i]);
        }
        assert forall|i: int| 0 <= i < guards.len() implies (
        #[trigger] guards[i] matches Guard::XattrEq(name, _) ==> !encode_utf8(name@).contains(
            0u8,
        )) by {
            assert(admits(views.take(i), views[i]));
            if let Guard::XattrEq(name, _) = guards[i] {
                law_nul_free_is_without_nul(encode_utf8(name@));
            }
        }
    } else {
        let j = choose|j: int| 0 <= j < views.len() && !(#[trigger] admits(views.take(j), views[j]));
        assert(views[j] == guards[j]@);
        match guards[j] {
            Guard::Version(_) => {
                let i = choose|i: int|
                    0 <= i < views.take(j).len() && #[trigger] views.take(j)[i] is Version;
                assert(views.take(j)[i] == guards[i]@);
                assert(guards[i] is Version);
            },
            Guard::XattrEq(name, _) => {
                law_nul_free_is_without_nul(encode_utf8(name@));
                if nul_free(encode_utf8(name@)) {
                    let i = choose|i: int|
                        0 <= i < views.take(j).len() && #[trigger] views.take(j)[i] is XattrEq;
                    assert(views.take(j)[i] == guards[i]@);
                    assert(guards[i] is XattrEq);
                }
            },
            _ => {},
        }
    }
    assert forall|i: int| 0 <= i < mutations.len() implies (sendable(#[trigger] mutations[i]) <==> (
    mutations[i] matches Mutation::SetXattr(name, _) ==> !encode_utf8(name@).contains(0u8))) by {
        if let Mutation::SetXattr(name, _) = mutations[i] {
            law_nul_free_is_without_nul(encode_utf8(name@));
        }
    }
    assert(all_sendable(mutations) <==> forall|i: int|
        0 <= i < mutations.len() ==> sendable(#[trigger] mutations[i]));
}

/// What a guarded write comes to: nothing more to say of one that was applied, and of one that
/// failed the rejection that its guards explain.
pub fn write_outcome(guards: &Guards, reply: Result<(), WriteError>) -> (result: Result<
    (),
    Rejected,
>)
    ensures
        match reply {
            Ok(_) => result is Ok,
            Err(err) => result is Err && result->Err_0@ == write_rejection(guards@, err),
        },
{
    match reply {
        Ok(_) => Ok(()),
        Err(err) => Err(guards.reject(err)),
    }
}

/// The sub-ops of a write that happens at most once: an exclusive create, then the content.
pub open spec fn write_once_steps(data: Seq<u8>) -> Seq<StepView> {
    seq![StepView::Create { exclusive: true }, StepView::WriteFull(data)]
}

/// The operation that creates an object holding `data`.
pub fn write_once_op<'a>(data: &'a [u8]) -> (op: WriteOp<'a>)
    ensures
        op@ == write_once_steps(data@),
{
    let mut op = WriteOp::new();
    op.add_step(WriteStep::Create { exclusive: true });
    op.add_step(WriteStep::WriteFull(data));
    assert(op@ =~= write_once_steps(data@));
    op
}

/// What the OSD makes of an object when it takes sub-ops in turn and stops at the first that
/// fails, with the place of that one. `run` is what a single sub-op does.
pub open spec fn run_steps<S>(
    object: S,
    steps: Seq<StepView>,
    run: spec_fn(S, StepView) -> Result<S, RadosError>,
) -> Result<S, (nat, RadosError)>
    decreases steps.len(),
{
    if steps.len() == 0 {
        Ok(object)
    } else {
        match run(object, steps[0]) {
            Err(err) => Err((0, err)),
            Ok(next) => match run_steps(next, steps.drop_first(), run) {
                Err((place, err)) => Err((place + 1, err)),
                Ok(end) => Ok(end),
            },
        }
    }
}

/// The object that an operation leaves behind: one transaction, so all of it or none.
pub open spec fn committed<S>(
    object: S,
    steps: Seq<StepView>,
    run: spec_fn(S, StepView) -> Result<S, RadosError>,
) -> S {
    match run_steps(object, steps, run) {
        Ok(end) => end,
        Err(_) => object,
    }
}

/// A guard that holds does nothing to the object.
pub open spec fn guards_only_check<S>(
    run: spec_fn(S, StepView) -> Result<S, RadosError>,
) -> bool {
    forall|object: S, guard: GuardView| #[trigger]
        run(object, guard_step(guard)) matches Ok(next) ==> next == object
}

/// If any guard does not hold, no mutation is applied: the object stays as it was, and the
/// operation stops at the first guard that does not hold, with that guard's error.
pub proof fn law_failed_guard_applies_no_mutation<S>(
    object: S,
    guards: Seq<GuardView>,
    mutations: Seq<StepView>,
    run: spec_fn(S, StepView) -> Result<S, RadosError>,
    i: int,
)
    requires
        guards_only_check(run),
        0 <= i < guards.len(),
        run(object, guard_step(guards[i])) is Err,
    ensures
        committed(object, guard_steps(guards) + mutations, run) == object,
        run_steps(object, guard_steps(guards) + mutations, run) matches Err((place, err)) && place
            <= i && run(object, guard_step(guards[place as int])) == Err::<S, RadosError>(err)
            && forall|j: int|
            0 <= j < place ==> run(object, guard_step(#[trigger] guards[j])) is Ok,
    decreases guards.len(),
{
    let steps = guard_steps(guards) + mutations;
    assert(steps[0] == guard_step(guards[0]));
    if run(object, guard_step(guards[0])) is Ok {
        let rest = guards.drop_first();
        assert(steps.drop_first() =~= guard_steps(rest) + mutations);
        assert(rest[i - 1] == guards[i]);
        law_failed_guard_applies_no_mutation(object, rest, mutations, run, i - 1);
        let (place, err) = run_steps(object, guard_steps(rest) + mutations, run)->Err_0;
        assert(guards[place as int + 1] == rest[place as int]);
        assert forall|j: int| 0 <= j < place + 1 implies run(
            object,
            guard_step(#[trigger] guards[j]),
        ) is Ok by {
            if j > 0 {
                assert(rest[j - 1] == guards[j]);
            }
        }
    }
}

/// A refused write answers for itself: nothing was applied, and the rejection names a guard
/// that does not hold, the first one among them.
pub proof fn law_refused_write_names_its_guard<S>(
    object: S,
    guards: Seq<GuardView>,
    mutations: Seq<StepView>,
    run: spec_fn(S, StepView) -> Result<S, RadosError>,
    i: int,
    reply: WriteError,
)
    requires
        guards_only_check(run),
        accepted(guards),
        0 <= i < guards.len(),
        run(object, guard_step(guards[i])) is Err,
        run_steps(object, guard_steps(guards) + mutations, run) matches Err((place, err)) ==> err
            == reply.error && answers_guard(guards[place as int], place, reply),
    ensures
        committed(object, guard_steps(guards) + mutations, run) == object,
        exists|n: int|
            0 <= n <= i && run(object, guard_step(#[trigger] guards[n])) is Err && (forall|j: int|
                0 <= j < n ==> run(object, guard_step(#[trigger] guards[j])) is Ok)
                && write_rejection(seen_from(0, guards), reply) == RejectedView::Fenced(
                guard_fence(guards[n]),
            ),
{
    law_failed_guard_applies_no_mutation(object, guards, mutations, run, i);
    let (place, err) = run_steps(object, guard_steps(guards) + mutations, run)->Err_0;
    law_rejection_names_the_failing_guard(0, guards, place as int, reply);
    assert(run(object, guard_step(guards[place as int])) is Err);
}

/// If every guard holds, the write does what its mutations do: it succeeds exactly where they
/// do, with the same end, and otherwise stops at the same mutation with the same error.
pub proof fn law_held_guards_let_the_mutations_through<S>(
    object: S,
    guards: Seq<GuardView>,
    mutations: Seq<StepView>,
    run: spec_fn(S, StepView) -> Result<S, RadosError>,
)
    requires
        guards_only_check(run),
        forall|i: int|
            0 <= i < guards.len() ==> run(object, guard_step(#[trigger] guards[i])) is Ok,
    ensures
        run_steps(object, guard_steps(guards) + mutations, run) is Ok <==> run_steps(
            object,
            mutations,
            run,
        ) is Ok,
        match run_steps(object, mutations, run) {
            Ok(end) => run_steps(object, guard_steps(guards) + mutations, run) == Ok::<
                S,
                (nat, RadosError),
            >(end),
            Err((place, err)) => run_steps(object, guard_steps(guards) + mutations, run) == Err::<
                S,
                (nat, RadosError),
            >((guards.len() + place, err)),
        },
        committed(object, guard_steps(guards) + mutations, run) == committed(
            object,
            mutations,
            run,
        ),
    decreases guards.len(),
{
    let steps = guard_steps(guards) + mutations;
    if guards.len() == 0 {
        assert(steps =~= mutations);
    } else {
        let rest = guards.drop_first();
        assert(steps[0] == guard_step(guards[0]));
        assert(steps.drop_first() =~= guard_steps(rest) + mutations);
        assert forall|i: int| 0 <= i < rest.len() implies run(
            object,
            guard_step(#[trigger] rest[i]),
        ) is Ok by {
            assert(rest[i] == guards[i + 1]);
        }
        law_held_guards_let_the_mutations_through(object, rest, mutations, run);
    }
}

/// Whether a failure can leave open what became of the operation, as one does that was given up
/// on while it was in flight. A comparison or a version that does not hold, an object that
/// exists and one that does not are the OSD's decision.
pub open spec fn undecided(err: RadosError) -> bool {
    err matches RadosError::Rados(e) && e != errno::ECANCELED && e != errno::ERANGE && e
        != errno::EOVERFLOW
}

/// Whether `reply` and the object `now` are what an operation comes to that was sent once: it
/// was applied whole; or the OSD stopped at a sub-op and says why; or the outcome is unknown,
/// and it was applied whole or not at all.
pub open spec fn answers_write<S>(
    object: S,
    steps: Seq<StepView>,
    run: spec_fn(S, StepView) -> Result<S, RadosError>,
    reply: Result<(), WriteError>,
    now: S,
) -> bool {
    match reply {
        Ok(_) => run_steps(object, steps, run) == Ok::<S, (nat, RadosError)>(now),
        Err(err) => {
            ||| run_steps(object, steps, run) matches Err((_, e)) && e == err.error && now == object
            ||| undecided(err.error) && (now == object || now == committed(object, steps, run))
        },
    }
}

/// A write happens as a whole or not at all. Where it is applied, every guard held on the object
/// as it was, and the object is what the mutations make of it in their order. Where it is
/// fenced, or the object exists or is not there, the object is as it was. Any other rejection
/// leaves only these two ends.
pub proof fn law_write_is_applied_whole_or_not_at_all<S>(
    object: S,
    guards: Seq<GuardView>,
    mutations: Seq<StepView>,
    run: spec_fn(S, StepView) -> Result<S, RadosError>,
    reply: Result<(), WriteError>,
    now: S,
)
    requires
        guards_only_check(run),
        answers_write(object, guard_steps(guards) + mutations, run, reply, now),
    ensures
        reply is Ok ==> applied_behind_its_guards(object, guards, mutations, run, now),
        reply matches Err(err) ==> {
            &&& !(write_rejection(seen_from(0, guards), err) is Rados) ==> now == object
            &&& now == object || applied_behind_its_guards(object, guards, mutations, run, now)
        },
{
    let steps = guard_steps(guards) + mutations;
    if run_steps(object, steps, run) is Ok {
        assert forall|i: int| 0 <= i < guards.len() implies run(
            object,
            guard_step(#[trigger] guards[i]),
        ) is Ok by {
            if run(object, guard_step(guards[i])) is Err {
                law_failed_guard_applies_no_mutation(object, guards, mutations, run, i);
            }
        }
        law_held_guards_let_the_mutations_through(object, guards, mutations, run);
    }
}

/// Every guard held on `object`, and `now` is what the mutations made of it in their order.
pub open spec fn applied_behind_its_guards<S>(
    object: S,
    guards: Seq<GuardView>,
    mutations: Seq<StepView>,
    run: spec_fn(S, StepView) -> Result<S, RadosError>,
    now: S,
) -> bool {
    &&& forall|i: int|
        0 <= i < guards.len() ==> run(object, guard_step(#[trigger] guards[i])) is Ok
    &&& run_steps(object, mutations, run) == Ok::<S, (nat, RadosError)>(now)
}

/// How the OSD compares and sets omap keys. `omap` is the omap of an object, or `None` where the
/// object does not exist. A comparison with a missing object is `-ENOENT`; a missing key compares
/// as empty; a comparison that does not hold is `-ECANCELED`; and setting entries leaves the
/// other keys as they are.
pub open spec fn compares_and_sets_omap<S>(
    run: spec_fn(S, StepView) -> Result<S, RadosError>,
    omap: spec_fn(S) -> Option<Map<Seq<u8>, Seq<u8>>>,
) -> bool {
    &&& forall|object: S, key: Seq<u8>, value: Seq<u8>| #[trigger]
        run(object, StepView::OmapEquals { key, value }) == match omap(object) {
            None => Err::<S, RadosError>(RadosError::NotFound),
            Some(entries) => if value_or_empty(entries, key) == value {
                Ok(object)
            } else {
                Err(RadosError::Rados(errno::ECANCELED))
            },
        }
    &&& forall|object: S, entries: Seq<(Seq<u8>, Seq<u8>)>| #[trigger]
        run(object, StepView::OmapSet(entries)) matches Ok(next) ==> omap(next) == Some(
            match omap(object) {
                None => set_in_turn(entries),
                Some(before) => before.union_prefer_right(set_in_turn(entries)),
            },
        )
}

/// A guard on a value that the key does not hold fences the write: behind guards that hold, the
/// operation stops at that guard and leaves the object as it is, and the rejection names the
/// key.
pub proof fn law_stale_omap_guard_fences<S>(
    object: S,
    guards: Seq<GuardView>,
    mutations: Seq<StepView>,
    run: spec_fn(S, StepView) -> Result<S, RadosError>,
    omap: spec_fn(S) -> Option<Map<Seq<u8>, Seq<u8>>>,
    i: int,
    reply: WriteError,
)
    requires
        guards_only_check(run),
        compares_and_sets_omap(run, omap),
        accepted(guards),
        0 <= i < guards.len(),
        guards[i] matches GuardView::OmapEq(key, value) && omap(object) matches Some(entries)
            && value_or_empty(entries, key) != value,
        forall|j: int| 0 <= j < i ==> run(object, guard_step(#[trigger] guards[j])) is Ok,
        run_steps(object, guard_steps(guards) + mutations, run) matches Err((place, err)) ==> err
            == reply.error && reply.failed_compare is Some && reply.failed_compare->Some_0 == place,
    ensures
        run_steps(object, guard_steps(guards) + mutations, run) == Err::<S, (nat, RadosError)>(
            (i as nat, RadosError::Rados(errno::ECANCELED)),
        ),
        committed(object, guard_steps(guards) + mutations, run) == object,
        write_rejection(seen_from(0, guards), reply) == RejectedView::Fenced(
            FenceView::Omap { key: guards[i]->OmapEq_0 },
        ),
{
    assert(run(object, guard_step(guards[i])) == Err::<S, RadosError>(
        RadosError::Rados(errno::ECANCELED),
    ));
    law_failed_guard_applies_no_mutation(object, guards, mutations, run, i);
    law_rejection_names_the_failing_guard(0, guards, i, reply);
}

/// Compare and set: of two writes that guard on the same value of a key, at most one succeeds.
/// Once a write guarded on `old` has set the key to something else, and as long as nothing else
/// changes the key, a write guarded on `old` stops at its guard, whatever its mutations are. It
/// leaves the object as it is, the key holds what the first write set, and the rejection names
/// the key.
pub proof fn law_compare_and_set<S>(
    object: S,
    run: spec_fn(S, StepView) -> Result<S, RadosError>,
    omap: spec_fn(S) -> Option<Map<Seq<u8>, Seq<u8>>>,
    key: Seq<u8>,
    old_value: Seq<u8>,
    entries: Seq<(Seq<u8>, Seq<u8>)>,
    later: S,
    mutations: Seq<StepView>,
    reply: WriteError,
)
    requires
        guards_only_check(run),
        compares_and_sets_omap(run, omap),
        set_in_turn(entries).contains_key(key),
        set_in_turn(entries)[key] != old_value,
        run_steps(object, set_behind_guard(key, old_value, entries), run) is Ok,
        key_value(omap, later, key) == key_value(
            omap,
            committed(object, set_behind_guard(key, old_value, entries), run),
            key,
        ),
        run_steps(later, guard_steps(seq![GuardView::OmapEq(key, old_value)]) + mutations, run)
            matches Err((place, err)) ==> err == reply.error && reply.failed_compare is Some
            && reply.failed_compare->Some_0 == place,
    ensures
        key_value(omap, object, key) == Some(old_value),
        key_value(omap, later, key) == Some(set_in_turn(entries)[key]),
        run_steps(later, guard_steps(seq![GuardView::OmapEq(key, old_value)]) + mutations, run)
            == Err::<S, (nat, RadosError)>((0, RadosError::Rados(errno::ECANCELED))),
        committed(later, guard_steps(seq![GuardView::OmapEq(key, old_value)]) + mutations, run)
            == later,
        write_rejection(seen_from(0, seq![GuardView::OmapEq(key, old_value)]), reply)
            == RejectedView::Fenced(FenceView::Omap { key }),
{
    let guards = seq![GuardView::OmapEq(key, old_value)];
    let set = StepView::OmapSet(entries);
    let first = set_behind_guard(key, old_value, entries);
    assert(first[0] == StepView::OmapEquals { key, value: old_value });
    assert(first.drop_first() =~= seq![set]);
    assert(seq![set].drop_first() =~= Seq::empty());
    reveal_with_fuel(run_steps, 3);
    assert(run(object, set) == Ok::<S, RadosError>(committed(object, first, run)));
    law_stale_omap_guard_fences(later, guards, mutations, run, omap, 0, reply);
}

/// The sub-ops of a write that sets entries behind a guard on one key.
pub open spec fn set_behind_guard(
    key: Seq<u8>,
    value: Seq<u8>,
    entries: Seq<(Seq<u8>, Seq<u8>)>,
) -> Seq<StepView> {
    guard_steps(seq![GuardView::OmapEq(key, value)]) + seq![StepView::OmapSet(entries)]
}

/// The value that an object has under `key`, or `None` where there is no object.
pub open spec fn key_value<S>(
    omap: spec_fn(S) -> Option<Map<Seq<u8>, Seq<u8>>>,
    object: S,
    key: Seq<u8>,
) -> Option<Seq<u8>> {
    match omap(object) {
        Some(entries) => Some(value_or_empty(entries, key)),
        None => None,
    }
}

/// Writing once is writing once: where the object is there already, the content stays what it
/// was and the rejection is [`Rejected::Exists`].
pub proof fn law_second_write_once_leaves_the_content<S>(
    object: S,
    data: Seq<u8>,
    run: spec_fn(S, StepView) -> Result<S, RadosError>,
)
    requires
        run(object, StepView::Create { exclusive: true }) == Err::<S, RadosError>(
            RadosError::AlreadyExists,
        ),
    ensures
        committed(object, write_once_steps(data), run) == object,
        run_steps(object, write_once_steps(data), run) matches Err((_, err)) && plain_rejection(err)
            == RejectedView::Exists,
{
}

} // verus!
