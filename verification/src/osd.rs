//! What an OSD makes of the operations that are sent to it, and so what they are for.

use crate::bytes::key_before;
use crate::entries::{law_last_value_of_a_key_wins, lemma_lookup, set_in_turn, value_or_empty};
use crate::errno;
use crate::error::{FenceView, RadosError, RejectedView};
use crate::guard::{
    accepted, guard_step, guard_steps, guard_views, law_rejection_of_a_write, seen_from,
    write_rejection, Guard, GuardView,
};
use crate::op::{entry_views, key_views, ReadStepView, StepView, WriteError};
use crate::paging::{first_part, selected};
use crate::read::{page_result, page_steps, OmapFound, ReadReply};
use crate::write::{
    guards_only_check, law_failed_guard_applies_no_mutation,
    law_held_guards_let_the_mutations_through, mutation_step, mutation_steps, run_steps,
    write_once_steps, Mutation,
};
use crate::Version;
use vstd::prelude::*;

verus! {

/// An object as the OSD keeps it.
pub struct ObjectView {
    pub version: u64,
    pub content: Seq<u8>,
    pub omap: Map<Seq<u8>, Seq<u8>>,
    pub xattrs: Map<Seq<char>, Seq<u8>>,
}

/// The content of an object, empty where there is no object.
pub open spec fn content_of(object: Option<ObjectView>) -> Seq<u8> {
    match object {
        Some(o) => o.content,
        None => Seq::empty(),
    }
}

/// The omap of an object, empty where there is no object.
pub open spec fn omap_of(object: Option<ObjectView>) -> Map<Seq<u8>, Seq<u8>> {
    match object {
        Some(o) => o.omap,
        None => Map::empty(),
    }
}

/// The xattrs of an object, empty where there is no object.
pub open spec fn xattrs_of(object: Option<ObjectView>) -> Map<Seq<char>, Seq<u8>> {
    match object {
        Some(o) => o.xattrs,
        None => Map::empty(),
    }
}

/// The value of an xattr, where a missing one counts as empty.
pub open spec fn xattr_or_empty(object: ObjectView, name: Seq<char>) -> Seq<u8> {
    if object.xattrs.contains_key(name) {
        object.xattrs[name]
    } else {
        Seq::empty()
    }
}

/// `result` leaves an object with this content, this omap and these xattrs.
pub open spec fn leaves(
    result: Result<Option<ObjectView>, RadosError>,
    content: Seq<u8>,
    omap: Map<Seq<u8>, Seq<u8>>,
    xattrs: Map<Seq<char>, Seq<u8>>,
) -> bool {
    result matches Ok(Some(o)) && o.content == content && o.omap == omap && o.xattrs == xattrs
}

/// What the OSD answers where an object at `version` is asserted to be at `asserted`.
pub open spec fn version_error(asserted: u64, version: u64) -> RadosError {
    if asserted < version {
        RadosError::Rados(errno::ERANGE)
    } else {
        RadosError::Rados(errno::EOVERFLOW)
    }
}

/// Whether `result` is what a sub-op comes to on `object`, which may not be there, in a pool that
/// has room for it. No object is at version 0.
pub open spec fn answers_step(
    object: Option<ObjectView>,
    step: StepView,
    result: Result<Option<ObjectView>, RadosError>,
) -> bool {
    let unchanged = Ok::<Option<ObjectView>, RadosError>(object);
    match step {
        StepView::AssertVersion(v) => if v > 0 && object is Some && object->Some_0.version == v {
            result == unchanged
        } else {
            result is Err && (v > 0 && object is Some ==> result->Err_0 == version_error(
                v,
                object->Some_0.version,
            ))
        },
        StepView::AssertExists => if object is Some {
            result == unchanged
        } else {
            result == Err::<Option<ObjectView>, RadosError>(RadosError::NotFound)
        },
        StepView::OmapEquals { key, value } => match object {
            None => result == Err::<Option<ObjectView>, RadosError>(RadosError::NotFound),
            Some(o) => if value_or_empty(o.omap, key) == value {
                result == unchanged
            } else {
                result == Err::<Option<ObjectView>, RadosError>(RadosError::Rados(errno::ECANCELED))
            },
        },
        StepView::XattrEquals { name, value } => match object {
            None => result is Err,
            Some(o) => if xattr_or_empty(o, name) == value {
                result == unchanged
            } else {
                result == Err::<Option<ObjectView>, RadosError>(RadosError::Rados(errno::ECANCELED))
            },
        },
        StepView::Create { exclusive } => if object is None {
            leaves(result, Seq::empty(), Map::empty(), Map::empty())
        } else if exclusive {
            result == Err::<Option<ObjectView>, RadosError>(RadosError::AlreadyExists)
        } else {
            result == unchanged
        },
        StepView::WriteFull(data) => leaves(result, data, omap_of(object), xattrs_of(object)),
        StepView::Append(data) => leaves(
            result,
            content_of(object) + data,
            omap_of(object),
            xattrs_of(object),
        ),
        StepView::OmapSet(entries) => leaves(
            result,
            content_of(object),
            omap_of(object).union_prefer_right(set_in_turn(entries)),
            xattrs_of(object),
        ),
        StepView::OmapRemoveKeys(keys) => match object {
            None => result is Err,
            Some(o) => leaves(
                result,
                o.content,
                Map::new(
                    |k: Seq<u8>| o.omap.contains_key(k) && !keys.contains(k),
                    |k: Seq<u8>| o.omap[k],
                ),
                o.xattrs,
            ),
        },
        StepView::OmapRemoveRange { begin, end } => match object {
            None => result is Err,
            Some(o) => leaves(
                result,
                o.content,
                Map::new(
                    |k: Seq<u8>|
                        o.omap.contains_key(k) && (key_before(k, begin) || !key_before(k, end)),
                    |k: Seq<u8>| o.omap[k],
                ),
                o.xattrs,
            ),
        },
        StepView::SetXattr { name, value } => leaves(
            result,
            content_of(object),
            omap_of(object),
            xattrs_of(object).insert(name, value),
        ),
        StepView::Remove => if object is Some {
            result == Ok::<Option<ObjectView>, RadosError>(None)
        } else {
            result == Err::<Option<ObjectView>, RadosError>(RadosError::NotFound)
        },
    }
}

/// `run` does what an OSD does on every object and for every sub-op.
pub open spec fn is_osd(
    run: spec_fn(Option<ObjectView>, StepView) -> Result<Option<ObjectView>, RadosError>,
) -> bool {
    forall|object: Option<ObjectView>, step: StepView|
        answers_step(object, step, #[trigger] run(object, step))
}

/// What a guard says of an object, which may not be there.
pub open spec fn guard_holds(object: Option<ObjectView>, guard: Guard) -> bool {
    match object {
        None => false,
        Some(o) => match guard {
            Guard::Version(version) => version.0 > 0 && o.version == version.0,
            Guard::Exists => true,
            Guard::OmapEq(key, value) => if o.omap.contains_key(key@) {
                o.omap[key@] == value@
            } else {
                value@.len() == 0
            },
            Guard::XattrEq(name, value) => if o.xattrs.contains_key(name@) {
                o.xattrs[name@] == value@
            } else {
                value@.len() == 0
            },
        },
    }
}

/// An object is let through by a guard exactly where it is as the guard says: at that version,
/// there, or with the whole of that value under that key or that xattr. The check changes
/// nothing.
pub proof fn law_guard_lets_through_what_it_says(
    run: spec_fn(Option<ObjectView>, StepView) -> Result<Option<ObjectView>, RadosError>,
    object: Option<ObjectView>,
    guard: Guard,
)
    requires
        is_osd(run),
    ensures
        run(object, guard_step(guard@)) is Ok <==> guard_holds(object, guard),
        run(object, guard_step(guard@)) matches Ok(next) ==> next == object,
{
    let result = run(object, guard_step(guard@));
    assert(answers_step(object, guard_step(guard@), result));
    match guard {
        Guard::OmapEq(key, value) => {
            assert(value@.len() == 0 ==> value@ =~= Seq::empty());
        },
        Guard::XattrEq(name, value) => {
            assert(value@.len() == 0 ==> value@ =~= Seq::empty());
        },
        _ => {},
    }
}

/// What a mutation makes of an object: `next` holds what the caller asked for, and otherwise
/// what `object` held.
pub open spec fn does(
    object: Option<ObjectView>,
    mutation: Mutation,
    next: Option<ObjectView>,
) -> bool {
    match mutation {
        Mutation::Remove => object is Some && next is None,
        Mutation::CreateExclusive => {
            &&& object is None
            &&& next matches Some(n)
            &&& n.content.len() == 0
            &&& n.omap == Map::<Seq<u8>, Seq<u8>>::empty()
            &&& n.xattrs == Map::<Seq<char>, Seq<u8>>::empty()
        },
        Mutation::WriteFull(data) => {
            &&& next matches Some(n)
            &&& n.content == data@
            &&& n.omap == omap_of(object)
            &&& n.xattrs == xattrs_of(object)
        },
        Mutation::Append(data) => {
            &&& next matches Some(n)
            &&& n.content == content_of(object) + data@
            &&& n.omap == omap_of(object)
            &&& n.xattrs == xattrs_of(object)
        },
        Mutation::SetXattr(name, value) => {
            &&& next matches Some(n)
            &&& n.content == content_of(object)
            &&& n.omap == omap_of(object)
            &&& n.xattrs == xattrs_of(object).insert(name@, value@)
        },
        Mutation::OmapSet(entries) => {
            &&& next matches Some(n)
            &&& n.content == content_of(object)
            &&& n.xattrs == xattrs_of(object)
            &&& sets_each(omap_of(object), entries@, n.omap)
        },
        Mutation::OmapRemove(keys) => {
            &&& object is Some
            &&& next matches Some(n)
            &&& n.content == content_of(object)
            &&& n.xattrs == xattrs_of(object)
            &&& n.omap.submap_of(omap_of(object))
            &&& forall|k: Seq<u8>| #[trigger]
                n.omap.contains_key(k) <==> omap_of(object).contains_key(k) && !(exists|i: int|
                    0 <= i < keys@.len() && #[trigger] keys@[i]@ == k)
        },
        Mutation::OmapRemoveRange { begin, end } => {
            &&& object is Some
            &&& next matches Some(n)
            &&& n.content == content_of(object)
            &&& n.xattrs == xattrs_of(object)
            &&& n.omap.submap_of(omap_of(object))
            &&& forall|k: Seq<u8>| #[trigger]
                n.omap.contains_key(k) <==> omap_of(object).contains_key(k) && (key_before(
                    k,
                    begin@,
                ) || !key_before(k, end@))
        },
    }
}

/// `next` is `omap` with every entry set: the last value that is given for a key is under it, and
/// the other keys are as they were.
pub open spec fn sets_each(
    omap: Map<Seq<u8>, Seq<u8>>,
    entries: Seq<(&[u8], &[u8])>,
    next: Map<Seq<u8>, Seq<u8>>,
) -> bool {
    &&& forall|i: int|
        0 <= i < entries.len() && (forall|j: int|
            i < j < entries.len() ==> (#[trigger] entries[j]).0@ != entries[i].0@)
            ==> next.contains_key((#[trigger] entries[i]).0@) && next[entries[i].0@]
            == entries[i].1@
    &&& forall|k: Seq<u8>|
        (forall|i: int| 0 <= i < entries.len() ==> (#[trigger] entries[i]).0@ != k) ==> (
        #[trigger] next.contains_key(k) <==> omap.contains_key(k)) && (omap.contains_key(k)
            ==> next[k] == omap[k])
    &&& forall|i: int| 0 <= i < entries.len() ==> next.contains_key((#[trigger] entries[i]).0@)
}

/// A mutation that cannot be done, with what the OSD answers to it.
pub open spec fn refuses(object: Option<ObjectView>, mutation: Mutation, err: RadosError) -> bool {
    match mutation {
        Mutation::CreateExclusive => object is Some && err == RadosError::AlreadyExists,
        Mutation::Remove => object is None && err == RadosError::NotFound,
        Mutation::OmapRemove(_) => object is None,
        Mutation::OmapRemoveRange { .. } => object is None,
        _ => false,
    }
}

/// Each mutation does to an object what its name and its arguments say, whatever their length, or
/// is refused.
pub proof fn law_mutation_does_what_it_says(
    run: spec_fn(Option<ObjectView>, StepView) -> Result<Option<ObjectView>, RadosError>,
    object: Option<ObjectView>,
    mutation: Mutation,
)
    requires
        is_osd(run),
    ensures
        match run(object, mutation_step(mutation)) {
            Ok(next) => does(object, mutation, next),
            Err(err) => refuses(object, mutation, err),
        },
{
    let result = run(object, mutation_step(mutation));
    assert(answers_step(object, mutation_step(mutation), result));
    match mutation {
        Mutation::OmapSet(entries) => {
            lemma_sets_each(omap_of(object), entries@);
        },
        Mutation::OmapRemove(keys) => {
            let views = key_views(keys@);
            assert forall|k: Seq<u8>| views.contains(k) <==> (exists|i: int|
                0 <= i < keys@.len() && #[trigger] keys@[i]@ == k) by {
                if views.contains(k) {
                    let i = choose|i: int| 0 <= i < views.len() && views[i] == k;
                    assert(keys@[i]@ == k);
                }
                if exists|i: int| 0 <= i < keys@.len() && #[trigger] keys@[i]@ == k {
                    let i = choose|i: int| 0 <= i < keys@.len() && #[trigger] keys@[i]@ == k;
                    assert(views[i] == k);
                }
            }
        },
        _ => {},
    }
}

/// Entries that are set in turn leave the last value of each key.
proof fn lemma_sets_each(omap: Map<Seq<u8>, Seq<u8>>, entries: Seq<(&[u8], &[u8])>)
    ensures
        sets_each(omap, entries, omap.union_prefer_right(set_in_turn(entry_views(entries)))),
{
    let views = entry_views(entries);
    let set = set_in_turn(views);
    let next = omap.union_prefer_right(set);
    assert forall|i: int| 0 <= i < entries.len() implies next.contains_key(
        (#[trigger] entries[i]).0@,
    ) && ((forall|j: int| i < j < entries.len() ==> (#[trigger] entries[j]).0@ != entries[i].0@)
        ==> next[entries[i].0@] == entries[i].1@) by {
        law_last_value_of_a_key_wins(views, entries[i].0@);
        assert(views[i].0 == entries[i].0@);
        if forall|j: int| i < j < entries.len() ==> (#[trigger] entries[j]).0@ != entries[i].0@ {
            assert forall|j: int| i < j < views.len() implies (#[trigger] views[j]).0
                != entries[i].0@ by {
                assert(entries[j].0@ != entries[i].0@);
            }
        }
    }
    assert forall|k: Seq<u8>|
        (forall|i: int| 0 <= i < entries.len() ==> (#[trigger] entries[i]).0@ != k) implies (
    #[trigger] next.contains_key(k) <==> omap.contains_key(k)) && (omap.contains_key(k) ==> next[k]
        == omap[k]) by {
        law_last_value_of_a_key_wins(views, k);
        if set.contains_key(k) {
            let i = choose|i: int| 0 <= i < views.len() && (#[trigger] views[i]).0 == k;
            assert(entries[i].0@ == k);
        }
    }
}

/// `now` is what the mutations, one after the other, make of `object`.
pub open spec fn mutated(
    object: Option<ObjectView>,
    mutations: Seq<Mutation>,
    now: Option<ObjectView>,
) -> bool
    decreases mutations.len(),
{
    if mutations.len() == 0 {
        now == object
    } else {
        exists|next: Option<ObjectView>| #[trigger]
            does(object, mutations[0], next) && mutated(next, mutations.drop_first(), now)
    }
}

/// The mutations up to one that is refused were done.
pub open spec fn stopped_at(
    object: Option<ObjectView>,
    mutations: Seq<Mutation>,
    place: int,
    err: RadosError,
) -> bool {
    &&& 0 <= place < mutations.len()
    &&& exists|there: Option<ObjectView>| #[trigger]
        mutated(object, mutations.take(place), there) && refuses(there, mutations[place], err)
}

/// What a run of the mutations comes to.
proof fn lemma_mutations(
    run: spec_fn(Option<ObjectView>, StepView) -> Result<Option<ObjectView>, RadosError>,
    object: Option<ObjectView>,
    mutations: Seq<Mutation>,
)
    requires
        is_osd(run),
    ensures
        match run_steps(object, mutation_steps(mutations), run) {
            Ok(now) => mutated(object, mutations, now),
            Err((place, err)) => stopped_at(object, mutations, place as int, err),
        },
    decreases mutations.len(),
{
    let steps = mutation_steps(mutations);
    if mutations.len() > 0 {
        let rest = mutations.drop_first();
        law_mutation_does_what_it_says(run, object, mutations[0]);
        assert(steps[0] == mutation_step(mutations[0]));
        assert(steps.drop_first() =~= mutation_steps(rest));
        match run(object, steps[0]) {
            Err(err) => {
                assert(mutations.take(0) =~= Seq::empty());
                assert(mutated(object, mutations.take(0), object));
            },
            Ok(next) => {
                lemma_mutations(run, next, rest);
                match run_steps(next, mutation_steps(rest), run) {
                    Ok(now) => {
                        assert(does(object, mutations[0], next));
                    },
                    Err((place, err)) => {
                        let p = place as int;
                        let there = choose|there: Option<ObjectView>| #[trigger]
                            mutated(next, rest.take(p), there) && refuses(there, rest[p], err);
                        assert(mutations.take(p + 1).drop_first() =~= rest.take(p));
                        assert(mutations.take(p + 1)[0] == mutations[0]);
                        assert(does(object, mutations.take(p + 1)[0], next));
                        assert(mutated(object, mutations.take(p + 1), there));
                        assert(rest[p] == mutations[p + 1]);
                    },
                }
            },
        }
    }
}

/// An OSD that checks a guard leaves the object alone.
proof fn lemma_guards_only_check(
    run: spec_fn(Option<ObjectView>, StepView) -> Result<Option<ObjectView>, RadosError>,
)
    requires
        is_osd(run),
    ensures
        guards_only_check(run),
{
    assert forall|object: Option<ObjectView>, guard: GuardView| (#[trigger] run(
        object,
        guard_step(guard),
    ) matches Ok(next) ==> next == object) by {
        assert(answers_step(object, guard_step(guard), run(object, guard_step(guard))));
    }
}

/// A write does what its guards and its mutations say. It is applied only where every guard holds
/// of the object as it was, and then leaves what the mutations make of it in their order. It
/// stops at the first guard that does not hold, or, where all of them hold, at the first mutation
/// that is refused.
pub proof fn law_write_does_what_it_says(
    run: spec_fn(Option<ObjectView>, StepView) -> Result<Option<ObjectView>, RadosError>,
    object: Option<ObjectView>,
    guards: Seq<Guard>,
    mutations: Seq<Mutation>,
)
    requires
        is_osd(run),
    ensures
        match run_steps(
            object,
            guard_steps(guard_views(guards)) + mutation_steps(mutations),
            run,
        ) {
            Ok(now) => {
                &&& forall|i: int|
                    0 <= i < guards.len() ==> guard_holds(object, #[trigger] guards[i])
                &&& mutated(object, mutations, now)
            },
            Err((place, err)) => {
                &&& forall|i: int|
                    0 <= i < place && i < guards.len() ==> guard_holds(object, #[trigger] guards[i])
                &&& if place < guards.len() {
                    !guard_holds(object, guards[place as int])
                } else {
                    stopped_at(object, mutations, place - guards.len(), err)
                }
            },
        },
{
    let views = guard_views(guards);
    let tail = mutation_steps(mutations);
    lemma_guards_only_check(run);
    assert forall|i: int| 0 <= i < guards.len() implies run(
        object,
        guard_step(#[trigger] views[i]),
    ) is Ok <==> guard_holds(object, guards[i]) by {
        law_guard_lets_through_what_it_says(run, object, guards[i]);
    }
    if exists|i: int| 0 <= i < guards.len() && !guard_holds(object, #[trigger] guards[i]) {
        let i = choose|i: int| 0 <= i < guards.len() && !guard_holds(object, #[trigger] guards[i]);
        assert(run(object, guard_step(views[i])) is Err);
        law_failed_guard_applies_no_mutation(object, views, tail, run, i);
        let (place, _) = run_steps(object, guard_steps(views) + tail, run)->Err_0;
        assert(run(object, guard_step(views[place as int])) is Err);
        assert forall|j: int| 0 <= j < place && j < guards.len() implies guard_holds(
            object,
            #[trigger] guards[j],
        ) by {
            assert(run(object, guard_step(views[j])) is Ok);
        }
    } else {
        assert forall|i: int| 0 <= i < views.len() implies run(
            object,
            guard_step(#[trigger] views[i]),
        ) is Ok by {
            assert(guard_holds(object, guards[i]));
        }
        law_held_guards_let_the_mutations_through(object, views, tail, run);
        lemma_mutations(run, object, mutations);
    }
}

/// A refused write tells which guard it was: on an object that is there, a write that stops at a
/// guard is fenced with the version, the key or the name that the guard was given. Where the
/// object is not there, the guard that asks for it is the one that is named.
pub proof fn law_refused_write_tells_which_guard(
    run: spec_fn(Option<ObjectView>, StepView) -> Result<Option<ObjectView>, RadosError>,
    object: Option<ObjectView>,
    guards: Seq<Guard>,
    mutations: Seq<Mutation>,
    i: int,
    reply: WriteError,
)
    requires
        is_osd(run),
        accepted(guard_views(guards)),
        0 <= i < guards.len(),
        forall|j: int| 0 <= j < i ==> guard_holds(object, #[trigger] guards[j]),
        !guard_holds(object, guards[i]),
        object is Some || guards[i] is Exists,
        guards[i] matches Guard::Version(version) ==> version.0 > 0,
        run_steps(
            object,
            guard_steps(guard_views(guards)) + mutation_steps(mutations),
            run,
        ) matches Err((place, err)) ==> reply.error == err && (if guards[place as int] is OmapEq {
            reply.failed_compare is Some && reply.failed_compare->Some_0 == place
        } else {
            reply.failed_compare is None
        }),
    ensures
        run_steps(
            object,
            guard_steps(guard_views(guards)) + mutation_steps(mutations),
            run,
        ) matches Err((place, _)) && place == i,
        write_rejection(seen_from(0, guard_views(guards)), reply) == RejectedView::Fenced(
            match guards[i] {
                Guard::Version(expected) => FenceView::Version { expected },
                Guard::Exists => FenceView::Exists,
                Guard::OmapEq(key, _) => FenceView::Omap { key: key@ },
                Guard::XattrEq(name, _) => FenceView::Xattr { name: name@ },
            },
        ),
{
    let views = guard_views(guards);
    law_write_does_what_it_says(run, object, guards, mutations);
    let (place, err) = run_steps(
        object,
        guard_steps(views) + mutation_steps(mutations),
        run,
    )->Err_0;
    if place > i {
        assert(guard_holds(object, guards[i]));
    }
    assert(place == i);
    lemma_guards_only_check(run);
    law_guard_lets_through_what_it_says(run, object, guards[i]);
    assert(views[i] == guards[i]@);
    law_failed_guard_applies_no_mutation(object, views, mutation_steps(mutations), run, i);
    assert(run(object, guard_step(views[i])) == Err::<Option<ObjectView>, RadosError>(err));
    assert(answers_step(object, guard_step(views[i]), run(object, guard_step(views[i]))));
    law_rejection_of_a_write(guards, reply);
}

/// Writing once creates the object with all of the data and nothing else; where there is one
/// already, it is refused at the first sub-op, with the answer for an object that exists.
pub proof fn law_write_once_creates_the_object_with_its_data(
    run: spec_fn(Option<ObjectView>, StepView) -> Result<Option<ObjectView>, RadosError>,
    object: Option<ObjectView>,
    data: Seq<u8>,
)
    requires
        is_osd(run),
    ensures
        object is None ==> {
            &&& run_steps(object, write_once_steps(data), run) matches Ok(Some(now))
            &&& now.content == data
            &&& now.omap == Map::<Seq<u8>, Seq<u8>>::empty()
            &&& now.xattrs == Map::<Seq<char>, Seq<u8>>::empty()
        },
        object is Some ==> run_steps(object, write_once_steps(data), run) == Err::<
            Option<ObjectView>,
            (nat, RadosError),
        >((0, RadosError::AlreadyExists)),
{
    let steps = write_once_steps(data);
    reveal_with_fuel(run_steps, 3);
    assert(answers_step(object, steps[0], run(object, steps[0])));
    if let Ok(next) = run(object, steps[0]) {
        assert(answers_step(next, steps[1], run(next, steps[1])));
        assert(steps.drop_first() =~= seq![steps[1]]);
        assert(steps.drop_first().drop_first() =~= Seq::empty());
    }
}

/// Whether `reply` is what an OSD answers to a read of `object` that takes the sub-ops in turn. It
/// reads only where every version that is asserted is the object's, and then gives the first of
/// the entries that are asked for, as many as it likes up to the maximum.
pub open spec fn answers_read(
    object: Option<ObjectView>,
    steps: Seq<ReadStepView>,
    reply: Result<ReadReply<OmapFound>, RadosError>,
) -> bool {
    &&& reply matches Ok(ran) ==> {
        &&& object matches Some(o)
        &&& ran.version == o.version
        &&& forall|i: int|
            0 <= i < steps.len() ==> match #[trigger] steps[i] {
                ReadStepView::AssertVersion(v) => v > 0 && v == o.version,
                ReadStepView::OmapValues { start_after, prefix, max } => (
                ran.values matches Ok(found) ==> {
                    &&& first_part(
                        found.entries@,
                        found.more,
                        selected(o.omap, prefix, start_after),
                    )
                    &&& found.entries@.dom().len() <= max
                }),
                ReadStepView::OmapValuesByKeys(_) => true,
            }
    }
    &&& object matches Some(o) ==> (steps.len() > 0 ==> (
    steps[0] matches ReadStepView::AssertVersion(v) ==> (v > 0 && v != o.version ==> reply == Err::<
        ReadReply<OmapFound>,
        RadosError,
    >(version_error(v, o.version)))))
}

/// A page is of the object: its version is the object's and, where it is pinned, the pinned one;
/// its entries are the object's, under keys that start with the prefix and come after the start,
/// no more than asked for; and where it says that there is no more, they are all of those. An
/// object at another version than the pinned one does not give a page, but fences the read. All
/// of this follows from the sub-ops that are sent.
pub proof fn law_page_is_of_the_object(
    object: Option<ObjectView>,
    prefix: Seq<u8>,
    start_after: Seq<u8>,
    limit: u32,
    at: Option<Version>,
    reply: Result<ReadReply<OmapFound>, RadosError>,
    key: Seq<u8>,
)
    requires
        answers_read(object, page_steps(prefix, start_after, limit, at), reply),
    ensures
        page_result(reply, at) matches Ok(page) ==> {
            &&& object matches Some(o)
            &&& page.version.0 == o.version
            &&& at matches Some(version) ==> version.0 == o.version
            &&& page.entries.dom().len() <= limit
            &&& page.entries.contains_key(key) ==> o.omap.contains_key(key) && page.entries[key]
                == o.omap[key] && prefix.is_prefix_of(key) && key_before(start_after, key)
            &&& !page.more && o.omap.contains_key(key) && prefix.is_prefix_of(key) && key_before(
                start_after,
                key,
            ) ==> page.entries.contains_key(key)
        },
        at is Some && at->Some_0.0 > 0 && object is Some && object->Some_0.version != at->Some_0.0
            ==> (page_result(reply, at) matches Err(rejected) && rejected == RejectedView::Fenced(
            FenceView::Version { expected: at->Some_0 },
        )),
{
    let steps = page_steps(prefix, start_after, limit, at);
    law_page_op_is_pinned(prefix, start_after, limit, at);
    assert(steps[steps.len() - 1] == steps.last());
    if let Ok(page) = page_result(reply, at) {
        let o = object->Some_0;
        if let Some(version) = at {
            assert(steps[0] == ReadStepView::AssertVersion(version.0));
        }
        let wanted = selected(o.omap, prefix, start_after);
        let (all, n) = choose|all: Seq<(Seq<u8>, Seq<u8>)>, n: int|
            #![trigger all.take(n)]
            crate::paging::lists(all, wanted) && 0 <= n <= all.len() && page.entries == set_in_turn(
                all.take(n),
            ) && page.more == (n < all.len());
        let first = all.take(n);
        assert forall|i: int, j: int|
            #![trigger first[i], first[j]]
            0 <= i < j < first.len() implies key_before(first[i].0, first[j].0) by {
            assert(first[i] == all[i] && first[j] == all[j]);
        }
        lemma_lookup(all);
        lemma_lookup(first);
        if page.entries.contains_key(key) {
            let i = choose|i: int| 0 <= i < first.len() && #[trigger] first[i].0 == key;
            assert(first[i] == all[i]);
            assert(wanted.contains_key(key));
        }
        if !page.more {
            assert(first =~= all);
        }
    }
}

/// The operation of a page asks for that page and no other: the entries of the prefix after the
/// start, up to the limit. Where it is pinned, the check of that very version goes ahead of it,
/// whatever the page; and where it is not, nothing does.
pub proof fn law_page_op_is_pinned(
    prefix: Seq<u8>,
    start_after: Seq<u8>,
    limit: u32,
    at: Option<Version>,
)
    ensures
        ({
            let steps = page_steps(prefix, start_after, limit, at);
            &&& steps.last() == (ReadStepView::OmapValues {
                start_after,
                prefix,
                max: limit as u64,
            })
            &&& at matches Some(version) ==> steps.len() == 2 && steps[0]
                == ReadStepView::AssertVersion(version.0)
            &&& at is None ==> steps.len() == 1
        }),
{
}

} // verus!
