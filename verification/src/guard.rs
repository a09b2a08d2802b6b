//! Stacking the guards of a [`Write`](crate::Write) onto a write op, and reading back which
//! one rejected it.

use crate::bytes::{is_nul_free, nul_free};
use crate::errno;
use crate::error::{plain_rejection, Fence, FenceView, RadosError, Rejected, RejectedView};
use crate::op::{StepView, WriteError, WriteOp, WriteStep};
use crate::Version;
use vstd::prelude::*;
use vstd::slice::*;
use vstd::string::*;
use vstd::utf8::*;

verus! {

/// A comparison placed ahead of the mutations in the same operation. Every guard has to hold
/// or no mutation is applied.
#[derive(Debug, Clone, Copy)]
pub enum Guard<'a> {
    /// The object is at this `user_version`.
    Version(Version),
    /// The object exists.
    Exists,
    /// The omap key holds this value. On an object that exists, a missing key compares equal
    /// to `b""` (`PrimaryLogPG.cc:8088-8090`). On an object that does not, `omap_cmp` returns
    /// `-ENOENT` before it compares anything (`PrimaryLogPG.cc:8047-8050`), so the write is
    /// [`Rejected::NotFound`](crate::Rejected::NotFound) and names no guard: an empty-value
    /// guard does not stand in for "the object is not there yet".
    OmapEq(&'a [u8], &'a [u8]),
    /// The xattr holds this value.
    XattrEq(&'a str, &'a [u8]),
}

/// A [`Guard`] by its bytes and characters.
pub enum GuardView {
    Version(Version),
    Exists,
    OmapEq(Seq<u8>, Seq<u8>),
    XattrEq(Seq<char>, Seq<u8>),
}

impl<'a> View for Guard<'a> {
    type V = GuardView;

    open spec fn view(&self) -> GuardView {
        match self {
            Guard::Version(version) => GuardView::Version(*version),
            Guard::Exists => GuardView::Exists,
            Guard::OmapEq(key, value) => GuardView::OmapEq(key@, value@),
            Guard::XattrEq(name, value) => GuardView::XattrEq(name@, value@),
        }
    }
}

/// A list of guards by their bytes and characters.
pub open spec fn guard_views(guards: Seq<Guard>) -> Seq<GuardView> {
    guards.map_values(|g: Guard| g@)
}

/// The sub-op that checks a guard.
pub open spec fn guard_step(guard: GuardView) -> StepView {
    match guard {
        GuardView::Version(version) => StepView::AssertVersion(version.0),
        GuardView::Exists => StepView::AssertExists,
        GuardView::OmapEq(key, value) => StepView::OmapEquals { key, value },
        GuardView::XattrEq(name, value) => StepView::XattrEquals { name, value },
    }
}

/// The sub-ops that check the guards, one for each and in their order.
pub open spec fn guard_steps(guards: Seq<GuardView>) -> Seq<StepView> {
    guards.map_values(|g: GuardView| guard_step(g))
}

/// The fence that names a guard.
pub open spec fn guard_fence(guard: GuardView) -> FenceView {
    match guard {
        GuardView::Version(expected) => FenceView::Version { expected },
        GuardView::Exists => FenceView::Exists,
        GuardView::OmapEq(key, _) => FenceView::Omap { key },
        GuardView::XattrEq(name, _) => FenceView::Xattr { name },
    }
}

/// Whether `guard` can follow the guards `before` it. A second `Version` or `XattrEq` cannot:
/// the failure would not say which of the two it was. Neither can an xattr name that is no C
/// string.
pub open spec fn admits(before: Seq<GuardView>, guard: GuardView) -> bool {
    match guard {
        GuardView::Version(_) => forall|i: int|
            0 <= i < before.len() ==> !(#[trigger] before[i] is Version),
        GuardView::XattrEq(name, _) => nul_free(encode_utf8(name)) && forall|i: int|
            0 <= i < before.len() ==> !(#[trigger] before[i] is XattrEq),
        _ => true,
    }
}

/// Whether each guard can follow those before it.
pub open spec fn accepted(guards: Seq<GuardView>) -> bool {
    forall|i: int| 0 <= i < guards.len() ==> #[trigger] admits(guards.take(i), guards[i])
}

/// The guard at `n` is the first that cannot follow those before it.
pub open spec fn refused_at(guards: Seq<GuardView>, n: int) -> bool {
    &&& 0 <= n < guards.len()
    &&& accepted(guards.take(n))
    &&& !admits(guards.take(n), guards[n])
}

/// What the guards of one operation left behind, so that a failure can name the guard that
/// caused it.
#[derive(Debug)]
pub struct Guards<'a> {
    /// The omap comparisons in the order they were pushed: the place of each in the op, and
    /// the key it compares.
    omap: Vec<(usize, &'a [u8])>,
    xattr: Option<&'a str>,
    version: Option<Version>,
    exists: bool,
}

/// A [`Guards`] by its bytes and characters.
pub struct GuardsView {
    pub omap: Seq<(nat, Seq<u8>)>,
    pub xattr: Option<Seq<char>>,
    pub version: Option<Version>,
    pub exists: bool,
}

impl<'a> View for Guards<'a> {
    type V = GuardsView;

    closed spec fn view(&self) -> GuardsView {
        GuardsView {
            omap: self.omap@.map_values(|o: (usize, &'a [u8])| (o.0 as nat, o.1@)),
            xattr: match self.xattr {
                Some(name) => Some(name@),
                None => None,
            },
            version: self.version,
            exists: self.exists,
        }
    }
}

/// What a guard at `place` adds to `seen`.
pub open spec fn noted(seen: GuardsView, place: nat, guard: GuardView) -> GuardsView {
    match guard {
        GuardView::Version(version) => GuardsView { version: Some(version), ..seen },
        GuardView::Exists => GuardsView { exists: true, ..seen },
        GuardView::OmapEq(key, _) => GuardsView { omap: seen.omap.push((place, key)), ..seen },
        GuardView::XattrEq(name, _) => GuardsView { xattr: Some(name), ..seen },
    }
}

/// What guards leave behind when the first of them stands at place `base` of the op.
pub open spec fn seen_from(base: nat, guards: Seq<GuardView>) -> GuardsView
    decreases guards.len(),
{
    if guards.len() == 0 {
        GuardsView { omap: Seq::empty(), xattr: None, version: None, exists: false }
    } else {
        noted(
            seen_from(base, guards.drop_last()),
            (base + guards.len() - 1) as nat,
            guards.last(),
        )
    }
}

/// The key of the omap comparison at `place`.
pub open spec fn key_at(omap: Seq<(nat, Seq<u8>)>, place: nat) -> Option<Seq<u8>>
    decreases omap.len(),
{
    if omap.len() == 0 {
        None
    } else if omap[0].0 == place {
        Some(omap[0].1)
    } else {
        key_at(omap.drop_first(), place)
    }
}

/// The rejection for a comparison that did not hold: the omap comparison that reported it, or
/// else the xattr comparison, of which there is at most one.
pub open spec fn canceled_rejection(seen: GuardsView, failed: Option<usize>) -> RejectedView {
    let key = match failed {
        Some(place) => key_at(seen.omap, place as nat),
        None => None,
    };
    match (key, seen.xattr) {
        (Some(key), _) => RejectedView::Fenced(FenceView::Omap { key }),
        (None, Some(name)) => RejectedView::Fenced(FenceView::Xattr { name }),
        (None, None) => RejectedView::Rados(errno::ECANCELED),
    }
}

/// The rejection that a failed write stands for.
pub open spec fn write_rejection(seen: GuardsView, err: WriteError) -> RejectedView {
    if err.error == RadosError::Rados(errno::ECANCELED) {
        canceled_rejection(seen, err.failed_compare)
    } else if (err.error == RadosError::Rados(errno::ERANGE) || err.error == RadosError::Rados(
        errno::EOVERFLOW,
    )) && seen.version is Some {
        RejectedView::Fenced(FenceView::Version { expected: seen.version->Some_0 })
    } else if err.error == RadosError::NotFound && seen.exists {
        RejectedView::Fenced(FenceView::Exists)
    } else {
        plain_rejection(err.error)
    }
}

/// Pushes `guards` onto `op` in the order given.
///
/// A `Write` holding two or more `XattrEq` is rejected here, before the op is sent:
/// `rados_write_op_cmpxattr` has no `prval` out-parameter (`librados.h:2916-2920`), so with
/// more than one xattr comparison a `-ECANCELED` cannot say which one failed, and
/// `Fence::Xattr` would have to name a guard that may have held. Two or more `Version` are
/// rejected for the same reason: neither `-ERANGE` nor `-EOVERFLOW` says which one failed.
pub fn push<'a>(op: &mut WriteOp<'a>, guards: &[Guard<'a>]) -> (result: Result<
    Guards<'a>,
    Rejected,
>)
    ensures
        result is Ok <==> accepted(guard_views(guards@)),
        match result {
            Ok(seen) => {
                &&& final(op)@ == old(op)@ + guard_steps(guard_views(guards@))
                &&& seen@ == seen_from(old(op)@.len(), guard_views(guards@))
            },
            Err(rejected) => {
                &&& rejected@ == RejectedView::Rados(errno::EINVAL)
                &&& exists|n: int| #[trigger]
                    refused_at(guard_views(guards@), n) && final(op)@ == old(op)@ + guard_steps(
                        guard_views(guards@).take(n),
                    )
            },
        },
{
    let ghost views = guard_views(guards@);
    let ghost base = old(op)@.len();
    let mut seen = Guards { omap: Vec::new(), xattr: None, version: None, exists: false };
    let mut i: usize = 0;
    proof {
        assert(views.take(0) =~= Seq::empty());
        assert(seen@.omap =~= Seq::empty());
        assert(op@ =~= old(op)@ + guard_steps(views.take(0)));
    }
    while i < guards.len()
        invariant
            i <= guards@.len(),
            views == guard_views(guards@),
            base == old(op)@.len(),
            accepted(views.take(i as int)),
            op@ == old(op)@ + guard_steps(views.take(i as int)),
            seen@ == seen_from(base, views.take(i as int)),
            seen@.version is Some <==> exists|j: int| 0 <= j < i && #[trigger] views[j] is Version,
            seen@.xattr is Some <==> exists|j: int| 0 <= j < i && #[trigger] views[j] is XattrEq,
        decreases guards@.len() - i,
    {
        let ghost before = views.take(i as int);
        let ghost seen_before = seen@;
        proof {
            assert(views.take(i + 1) =~= before.push(views[i as int]));
            assert(views.take(i + 1).drop_last() =~= before);
            assert(guard_steps(views.take(i + 1)) =~= guard_steps(before).push(
                guard_step(views[i as int]),
            ));
            assert(forall|j: int| 0 <= j < i ==> #[trigger] before[j] == views[j]);
        }
        match &guards[i] {
            Guard::Version(version) => {
                if seen.version.is_some() {
                    assert(refused_at(views, i as int)) by {
                        let j = choose|j: int| 0 <= j < i && #[trigger] views[j] is Version;
                        assert(before[j] is Version);
                    }
                    return Err(Rejected::Rados(errno::EINVAL));
                }
                op.add_step(WriteStep::AssertVersion(version.0));
                seen.version = Some(*version);
            },
            Guard::Exists => {
                op.add_step(WriteStep::AssertExists);
                seen.exists = true;
            },
            Guard::OmapEq(key, value) => {
                let place = op.add_step(WriteStep::OmapEquals { key: *key, value: *value });
                seen.omap.push((place, *key));
                assert(seen@.omap =~= seen_before.omap.push((place as nat, key@)));
            },
            Guard::XattrEq(name, value) => {
                if seen.xattr.is_some() || !is_nul_free(name.as_bytes()) {
                    assert(refused_at(views, i as int)) by {
                        if seen@.xattr is Some {
                            let j = choose|j: int| 0 <= j < i && #[trigger] views[j] is XattrEq;
                            assert(before[j] is XattrEq);
                        }
                    }
                    return Err(Rejected::Rados(errno::EINVAL));
                }
                op.add_step(WriteStep::XattrEquals { name: *name, value: *value });
                seen.xattr = Some(*name);
            },
        }
        proof {
            assert(admits(before, views[i as int]));
            assert forall|j: int| 0 <= j < i + 1 implies #[trigger] admits(
                views.take(i + 1).take(j),
                views.take(i + 1)[j],
            ) by {
                if j < i {
                    assert(views.take(i + 1).take(j) =~= before.take(j));
                    assert(admits(before.take(j), before[j]));
                } else {
                    assert(views.take(i + 1).take(j) =~= before);
                }
            }
            assert(op@ =~= old(op)@ + guard_steps(views.take(i + 1)));
            assert(seen@ == noted(seen_before, (base + i) as nat, views[i as int]));
        }
        i += 1;
    }
    assert(views.take(i as int) =~= views);
    Ok(seen)
}

impl<'a> Guards<'a> {
    /// Maps a failed write onto the guard that rejected it.
    pub fn reject(&self, err: WriteError) -> (rejected: Rejected)
        ensures
            rejected@ == write_rejection(self@, err),
    {
        match err.error {
            RadosError::Rados(e) => {
                if e == errno::ECANCELED {
                    return self.canceled(err.failed_compare);
                }
                if e == errno::ERANGE || e == errno::EOVERFLOW {
                    if let Some(expected) = self.version {
                        return Rejected::Fenced(Fence::Version { expected });
                    }
                }
            },
            RadosError::NotFound => {
                if self.exists {
                    return Rejected::Fenced(Fence::Exists);
                }
            },
            _ => {},
        }
        Rejected::from(err.error)
    }

    /// The OSD stops at the first failing sub-op and leaves the later `rval`s at 0
    /// (`PrimaryLogPG.cc:8379-8386`), so at most one omap comparison reports a mismatch. With
    /// none reporting, the comparison that failed is the `cmpxattr`, of which `push` admits at
    /// most one.
    fn canceled(&self, failed: Option<usize>) -> (rejected: Rejected)
        ensures
            rejected@ == canceled_rejection(self@, failed),
    {
        if let Some(place) = failed {
            let mut i: usize = 0;
            assert(self@.omap.skip(0) =~= self@.omap);
            while i < self.omap.len()
                invariant
                    i <= self.omap@.len(),
                    failed == Some(place),
                    key_at(self@.omap, place as nat) == key_at(
                        self@.omap.skip(i as int),
                        place as nat,
                    ),
                decreases self.omap@.len() - i,
            {
                let ghost rest = self@.omap.skip(i as int);
                assert(rest[0] == (self.omap@[i as int].0 as nat, self.omap@[i as int].1@));
                if self.omap[i].0 == place {
                    return Rejected::Fenced(Fence::Omap { key: slice_to_vec(self.omap[i].1) });
                }
                assert(rest.drop_first() =~= self@.omap.skip(i + 1));
                i += 1;
            }
        }
        match self.xattr {
            Some(name) => Rejected::Fenced(Fence::Xattr { name: name.to_owned() }),
            None => Rejected::Rados(errno::ECANCELED),
        }
    }
}

/// How the OSD answers a write whose guard at `place` of the op does not hold: a version with
/// `-ERANGE` or `-EOVERFLOW`, a missing object with `-ENOENT`, and a comparison with
/// `-ECANCELED`, to which an omap comparison adds where it stands.
pub open spec fn answers_guard(guard: GuardView, place: nat, err: WriteError) -> bool {
    match guard {
        GuardView::Version(_) => err.error == RadosError::Rados(errno::ERANGE) || err.error
            == RadosError::Rados(errno::EOVERFLOW),
        GuardView::Exists => err.error == RadosError::NotFound,
        GuardView::OmapEq(_, _) => err.error == RadosError::Rados(errno::ECANCELED)
            && err.failed_compare is Some && err.failed_compare->Some_0 == place,
        GuardView::XattrEq(_, _) => err.error == RadosError::Rados(errno::ECANCELED)
            && err.failed_compare is None,
    }
}

/// A guard that does not hold is named by the rejection, whichever guard it is and whatever
/// the others are.
pub proof fn law_rejection_names_the_failing_guard(
    base: nat,
    guards: Seq<GuardView>,
    i: int,
    err: WriteError,
)
    requires
        accepted(guards),
        0 <= i < guards.len(),
        answers_guard(guards[i], (base + i) as nat, err),
    ensures
        write_rejection(seen_from(base, guards), err) == RejectedView::Fenced(
            guard_fence(guards[i]),
        ),
{
    lemma_seen(base, guards);
    match guards[i] {
        GuardView::Version(_) => {
            lemma_only_one(guards, i);
        },
        GuardView::XattrEq(_, _) => {
            lemma_only_one(guards, i);
        },
        _ => {},
    }
}

/// A rejection never names a guard that the write does not hold.
pub proof fn law_fence_is_a_guard_of_the_write(
    base: nat,
    guards: Seq<GuardView>,
    err: WriteError,
)
    ensures
        write_rejection(seen_from(base, guards), err) is Fenced ==> exists|i: int|
            0 <= i < guards.len() && write_rejection(seen_from(base, guards), err)
                == RejectedView::Fenced(guard_fence(#[trigger] guards[i])),
{
    lemma_seen(base, guards);
    let seen = seen_from(base, guards);
    match write_rejection(seen, err) {
        RejectedView::Fenced(FenceView::Omap { key }) => {
            let place = err.failed_compare->Some_0 as int;
            assert(guard_fence(guards[place - base]) == FenceView::Omap { key });
        },
        RejectedView::Fenced(FenceView::Xattr { name }) => {
            let i = choose|i: int|
                0 <= i < guards.len() && #[trigger] guards[i] is XattrEq
                    && guards[i]->XattrEq_0 == name;
            assert(guard_fence(guards[i]) == FenceView::Xattr { name });
        },
        RejectedView::Fenced(FenceView::Version { expected }) => {
            assert(guards.contains(GuardView::Version(expected)));
            let i = choose|i: int|
                0 <= i < guards.len() && #[trigger] guards[i] == GuardView::Version(expected);
            assert(guard_fence(guards[i]) == FenceView::Version { expected });
        },
        RejectedView::Fenced(FenceView::Exists) => {
            let i = choose|i: int| 0 <= i < guards.len() && #[trigger] guards[i] is Exists;
            assert(guard_fence(guards[i]) == FenceView::Exists);
        },
        _ => {},
    }
}

/// `-ENOENT` is a fence only when the write asked for the object to exist: without
/// `Guard::Exists` the rejection names no guard, whatever the other guards are.
pub proof fn law_missing_object_without_exists_guard(
    base: nat,
    guards: Seq<GuardView>,
    err: WriteError,
)
    requires
        err.error == RadosError::NotFound,
        forall|i: int| 0 <= i < guards.len() ==> !(#[trigger] guards[i] is Exists),
    ensures
        write_rejection(seen_from(base, guards), err) == RejectedView::NotFound,
{
    lemma_seen(base, guards);
}

/// What a failed write comes to, whatever its guards are. A comparison is named by the key that
/// it was given, and a failed comparison that is none of an omap key by the xattr; a version that
/// does not match by the version; a missing object by the guard that asks for it. What no guard
/// explains is the failure itself, with its errno.
pub proof fn law_rejection_of_a_write(guards: Seq<Guard>, err: WriteError)
    requires
        accepted(guard_views(guards)),
    ensures
        ({
            let rejection = write_rejection(seen_from(0, guard_views(guards)), err);
            match err.error {
                RadosError::AlreadyExists => rejection == RejectedView::Exists,
                RadosError::Nul => rejection == RejectedView::Rados(22),
                RadosError::NotFound => {
                    &&& (exists|i: int| 0 <= i < guards.len() && #[trigger] guards[i] is Exists)
                        ==> rejection == RejectedView::Fenced(FenceView::Exists)
                    &&& (forall|i: int| 0 <= i < guards.len() ==> !(#[trigger] guards[i] is Exists))
                        ==> rejection == RejectedView::NotFound
                },
                RadosError::Rados(e) => if e == 34 || e == 75 {
                    &&& forall|i: int|
                        0 <= i < guards.len() ==> (#[trigger] guards[i] matches Guard::Version(
                            expected,
                        ) ==> rejection == RejectedView::Fenced(FenceView::Version { expected }))
                    &&& (forall|i: int|
                        0 <= i < guards.len() ==> !(#[trigger] guards[i] is Version)) ==> rejection
                        == RejectedView::Rados(e)
                } else if e == 125 {
                    if err.failed_compare is Some && err.failed_compare->Some_0 < guards.len()
                        && guards[err.failed_compare->Some_0 as int] is OmapEq {
                        rejection == RejectedView::Fenced(
                            FenceView::Omap {
                                key: guards[err.failed_compare->Some_0 as int]->OmapEq_0@,
                            },
                        )
                    } else {
                        &&& forall|i: int|
                            0 <= i < guards.len() ==> (#[trigger] guards[i] matches Guard::XattrEq(
                                name,
                                _,
                            ) ==> rejection == RejectedView::Fenced(
                                FenceView::Xattr { name: name@ },
                            ))
                        &&& (forall|i: int|
                            0 <= i < guards.len() ==> !(#[trigger] guards[i] is XattrEq))
                            ==> rejection == RejectedView::Rados(e)
                    }
                } else {
                    rejection == RejectedView::Rados(e)
                },
            }
        }),
{
    let views = guard_views(guards);
    let seen = seen_from(0, views);
    lemma_seen(0, views);
    assert(forall|i: int| 0 <= i < guards.len() ==> #[trigger] views[i] == guards[i]@);
    assert forall|i: int| 0 <= i < guards.len() implies (#[trigger] guards[i] matches Guard::Version(
        expected,
    ) ==> seen.version == Some(expected)) && (guards[i] matches Guard::XattrEq(name, _)
        ==> seen.xattr == Some(name@)) && (guards[i] is Exists ==> seen.exists) by {
        assert(views[i] == guards[i]@);
        lemma_only_one(views, i);
    }
    if forall|i: int| 0 <= i < guards.len() ==> !(#[trigger] guards[i] is Exists) {
        if seen.exists {
            let i = choose|i: int| 0 <= i < views.len() && #[trigger] views[i] is Exists;
            assert(guards[i] is Exists);
        }
    }
    if forall|i: int| 0 <= i < guards.len() ==> !(#[trigger] guards[i] is Version) {
        if seen.version is Some {
            let i = choose|i: int|
                0 <= i < views.len() && #[trigger] views[i] == GuardView::Version(
                    seen.version->Some_0,
                );
            assert(guards[i] is Version);
        }
    }
    if forall|i: int| 0 <= i < guards.len() ==> !(#[trigger] guards[i] is XattrEq) {
        if seen.xattr is Some {
            let i = choose|i: int|
                0 <= i < views.len() && #[trigger] views[i] is XattrEq && views[i]->XattrEq_0
                    == seen.xattr->Some_0;
            assert(guards[i] is XattrEq);
        }
    }
    if let Some(place) = err.failed_compare {
        assert(key_at(seen.omap, place as nat) is Some ==> place < views.len());
        if place < views.len() {
            assert(views[place as int] == guards[place as int]@);
        }
    }
}

/// What guards leave behind says where the omap comparisons stand, and holds a version, an
/// xattr name or the wish for existence exactly where a guard has it.
proof fn lemma_seen(base: nat, guards: Seq<GuardView>)
    ensures
        forall|place: nat| #[trigger]
            key_at(seen_from(base, guards).omap, place) == (if base <= place < base + guards.len()
                && guards[place - base] is OmapEq {
                Some(guards[place - base]->OmapEq_0)
            } else {
                None
            }),
        seen_from(base, guards).version matches Some(version) ==> guards.contains(
            GuardView::Version(version),
        ),
        seen_from(base, guards).version is None ==> forall|i: int|
            0 <= i < guards.len() ==> !(#[trigger] guards[i] is Version),
        seen_from(base, guards).xattr matches Some(name) ==> exists|i: int|
            0 <= i < guards.len() && #[trigger] guards[i] is XattrEq && guards[i]->XattrEq_0
                == name,
        seen_from(base, guards).xattr is None ==> forall|i: int|
            0 <= i < guards.len() ==> !(#[trigger] guards[i] is XattrEq),
        seen_from(base, guards).exists <==> exists|i: int|
            0 <= i < guards.len() && #[trigger] guards[i] is Exists,
    decreases guards.len(),
{
    if guards.len() > 0 {
        let rest = guards.drop_last();
        let last = guards.len() - 1;
        let seen = seen_from(base, rest);
        lemma_seen(base, rest);
        assert(forall|i: int| 0 <= i < last ==> rest[i] == #[trigger] guards[i]);
        assert forall|place: nat| #[trigger]
            key_at(seen_from(base, guards).omap, place) == (if base <= place < base + guards.len()
                && guards[place - base] is OmapEq {
                Some(guards[place - base]->OmapEq_0)
            } else {
                None
            }) by {
            if let GuardView::OmapEq(key, _) = guards[last] {
                lemma_key_at_push(seen.omap, ((base + last) as nat, key), place);
            }
            assert(key_at(seen.omap, place) == key_at(seen_from(base, rest).omap, place));
        }
        assert(guards[last] == guards.last());
        if seen.version is Some && !(guards[last] is Version) {
            let version = seen.version->Some_0;
            let i = choose|i: int|
                0 <= i < rest.len() && #[trigger] rest[i] == GuardView::Version(version);
            assert(guards[i] == GuardView::Version(version));
        }
        if seen.xattr is Some {
            let i = choose|i: int|
                0 <= i < rest.len() && #[trigger] rest[i] is XattrEq && rest[i]->XattrEq_0
                    == seen.xattr->Some_0;
            assert(guards[i] == rest[i]);
        }
        if seen.exists {
            let i = choose|i: int| 0 <= i < rest.len() && #[trigger] rest[i] is Exists;
            assert(guards[i] == rest[i]);
        }
    }
}

/// A comparison pushed last is found where none before it stands at that place.
proof fn lemma_key_at_push(omap: Seq<(nat, Seq<u8>)>, entry: (nat, Seq<u8>), place: nat)
    ensures
        key_at(omap.push(entry), place) == (match key_at(omap, place) {
            Some(key) => Some(key),
            None => if entry.0 == place {
                Some(entry.1)
            } else {
                None
            },
        }),
    decreases omap.len(),
{
    let longer = omap.push(entry);
    if omap.len() == 0 {
        assert(key_at(longer.drop_first(), place) is None);
    } else {
        assert(longer.drop_first() =~= omap.drop_first().push(entry));
        lemma_key_at_push(omap.drop_first(), entry, place);
    }
}

/// Among accepted guards a version or an xattr comparison is the only one of its kind.
proof fn lemma_only_one(guards: Seq<GuardView>, i: int)
    requires
        accepted(guards),
        0 <= i < guards.len(),
    ensures
        guards[i] is Version ==> forall|j: int|
            0 <= j < guards.len() && #[trigger] guards[j] is Version ==> j == i,
        guards[i] is XattrEq ==> forall|j: int|
            0 <= j < guards.len() && #[trigger] guards[j] is XattrEq ==> j == i,
{
    assert forall|j: int|
        0 <= j < guards.len() && j != i && (guards[i] is Version || guards[i] is XattrEq) implies (
    guards[i] is Version ==> !(#[trigger] guards[j] is Version)) && (guards[i] is XattrEq ==> !(
    guards[j] is XattrEq)) by {
        let (first, second) = if i < j {
            (i, j)
        } else {
            (j, i)
        };
        assert(admits(guards.take(second), guards[second]));
        assert(guards.take(second)[first] == guards[first]);
    }
}

} // verus!
