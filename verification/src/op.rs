//! Compound operations: the sub-ops that one RADOS operation carries, in the order in which
//! the OSD takes them.

use crate::error::RadosError;
use vstd::prelude::*;

verus! {

/// One sub-op of a compound write.
#[derive(Debug, Clone, Copy, PartialEq, Eq)]
pub enum WriteStep<'a> {
    /// `assert_version`: the object is at this `user_version`.
    AssertVersion(u64),
    /// `assert_exists`: the object exists.
    AssertExists,
    /// `omap_cmp` for equality: the omap key holds this value.
    OmapEquals { key: &'a [u8], value: &'a [u8] },
    /// `cmpxattr` for equality: the xattr holds this value.
    XattrEquals { name: &'a str, value: &'a [u8] },
    /// `create`.
    Create { exclusive: bool },
    /// `write_full`.
    WriteFull(&'a [u8]),
    /// `append`.
    Append(&'a [u8]),
    /// `omap_set`.
    OmapSet(&'a [(&'a [u8], &'a [u8])]),
    /// `omap_rm_keys`.
    OmapRemoveKeys(&'a [&'a [u8]]),
    /// `omap_rm_range`: the keys in `[begin, end)`.
    OmapRemoveRange { begin: &'a [u8], end: &'a [u8] },
    /// `setxattr`.
    SetXattr { name: &'a str, value: &'a [u8] },
    /// `remove`.
    Remove,
}

/// A [`WriteStep`] by its bytes and characters.
pub enum StepView {
    AssertVersion(u64),
    AssertExists,
    OmapEquals { key: Seq<u8>, value: Seq<u8> },
    XattrEquals { name: Seq<char>, value: Seq<u8> },
    Create { exclusive: bool },
    WriteFull(Seq<u8>),
    Append(Seq<u8>),
    OmapSet(Seq<(Seq<u8>, Seq<u8>)>),
    OmapRemoveKeys(Seq<Seq<u8>>),
    OmapRemoveRange { begin: Seq<u8>, end: Seq<u8> },
    SetXattr { name: Seq<char>, value: Seq<u8> },
    Remove,
}

/// The bytes of a list of borrowed key/value pairs.
pub open spec fn entry_views(entries: Seq<(&[u8], &[u8])>) -> Seq<(Seq<u8>, Seq<u8>)> {
    entries.map_values(|e: (&[u8], &[u8])| (e.0@, e.1@))
}

/// The bytes of a list of borrowed keys.
pub open spec fn key_views(keys: Seq<&[u8]>) -> Seq<Seq<u8>> {
    keys.map_values(|k: &[u8]| k@)
}

impl<'a> View for WriteStep<'a> {
    type V = StepView;

    open spec fn view(&self) -> StepView {
        match self {
            WriteStep::AssertVersion(version) => StepView::AssertVersion(*version),
            WriteStep::AssertExists => StepView::AssertExists,
            WriteStep::OmapEquals { key, value } => StepView::OmapEquals {
                key: key@,
                value: value@,
            },
            WriteStep::XattrEquals { name, value } => StepView::XattrEquals {
                name: name@,
                value: value@,
            },
            WriteStep::Create { exclusive } => StepView::Create { exclusive: *exclusive },
            WriteStep::WriteFull(data) => StepView::WriteFull(data@),
            WriteStep::Append(data) => StepView::Append(data@),
            WriteStep::OmapSet(entries) => StepView::OmapSet(entry_views(entries@)),
            WriteStep::OmapRemoveKeys(keys) => StepView::OmapRemoveKeys(key_views(keys@)),
            WriteStep::OmapRemoveRange { begin, end } => StepView::OmapRemoveRange {
                begin: begin@,
                end: end@,
            },
            WriteStep::SetXattr { name, value } => StepView::SetXattr {
                name: name@,
                value: value@,
            },
            WriteStep::Remove => StepView::Remove,
        }
    }
}

/// Lists of borrowed entries and keys are seen whole, in their order.
pub proof fn law_lists_are_seen_whole(entries: Seq<(&[u8], &[u8])>, keys: Seq<&[u8]>, i: int)
    ensures
        entry_views(entries).len() == entries.len(),
        0 <= i < entries.len() ==> entry_views(entries)[i].0 == entries[i].0@ && entry_views(
            entries,
        )[i].1 == entries[i].1@,
        key_views(keys).len() == keys.len(),
        0 <= i < keys.len() ==> key_views(keys)[i] == keys[i]@,
{
}

/// A sub-op is seen as what it is, with the whole of its arguments.
pub proof fn law_sub_op_is_seen_as_it_is(step: WriteStep, read: ReadStep)
    ensures
        match step {
            WriteStep::AssertVersion(v) => step@ == StepView::AssertVersion(v),
            WriteStep::AssertExists => step@ == StepView::AssertExists,
            WriteStep::OmapEquals { key, value } => step@ == (StepView::OmapEquals {
                key: key@,
                value: value@,
            }),
            WriteStep::XattrEquals { name, value } => step@ == (StepView::XattrEquals {
                name: name@,
                value: value@,
            }),
            WriteStep::Create { exclusive } => step@ == (StepView::Create { exclusive }),
            WriteStep::WriteFull(data) => step@ == StepView::WriteFull(data@),
            WriteStep::Append(data) => step@ == StepView::Append(data@),
            WriteStep::OmapSet(entries) => step@ == StepView::OmapSet(entry_views(entries@)),
            WriteStep::OmapRemoveKeys(keys) => step@ == StepView::OmapRemoveKeys(key_views(keys@)),
            WriteStep::OmapRemoveRange { begin, end } => step@ == (StepView::OmapRemoveRange {
                begin: begin@,
                end: end@,
            }),
            WriteStep::SetXattr { name, value } => step@ == (StepView::SetXattr {
                name: name@,
                value: value@,
            }),
            WriteStep::Remove => step@ == StepView::Remove,
        },
        match read {
            ReadStep::AssertVersion(v) => read@ == ReadStepView::AssertVersion(v),
            ReadStep::OmapValues { start_after, prefix, max } => read@ == (
            ReadStepView::OmapValues { start_after: start_after@, prefix: prefix@, max }),
            ReadStep::OmapValuesByKeys(keys) => read@ == ReadStepView::OmapValuesByKeys(
                key_views(keys@),
            ),
        },
{
}

/// A compound write that has not been sent yet.
#[derive(Debug)]
pub struct WriteOp<'a> {
    steps: Vec<WriteStep<'a>>,
}

impl<'a> View for WriteOp<'a> {
    type V = Seq<StepView>;

    closed spec fn view(&self) -> Seq<StepView> {
        self.steps@.map_values(|s: WriteStep<'a>| s@)
    }
}

impl<'a> WriteOp<'a> {
    /// The op without sub-ops.
    pub fn new() -> (op: WriteOp<'a>)
        ensures
            op@ == Seq::<StepView>::empty(),
    {
        let op = WriteOp { steps: Vec::new() };
        assert(op@ =~= Seq::empty());
        op
    }

    /// Puts `step` behind the sub-ops that are already there, and returns its place.
    pub fn add_step(&mut self, step: WriteStep<'a>) -> (place: usize)
        ensures
            place == old(self)@.len(),
            final(self)@ == old(self)@.push(step@),
    {
        let place = self.steps.len();
        self.steps.push(step);
        assert(self@ =~= old(self)@.push(step@));
        place
    }

    /// The sub-ops in the order in which they are sent.
    pub fn steps(&self) -> (steps: &[WriteStep<'a>])
        ensures
            steps@.map_values(|s: WriteStep<'a>| s@) == self@,
    {
        self.steps.as_slice()
    }
}

/// How a compound write fails.
#[derive(Debug, Clone, Copy, PartialEq, Eq)]
pub struct WriteError {
    pub error: RadosError,
    /// The place in the op of the omap comparison that reported a mismatch. The OSD stops at
    /// the first sub-op that fails (`PrimaryLogPG.cc:8379-8386`), so there is at most one.
    pub failed_compare: Option<usize>,
}

/// One sub-op of a compound read.
#[derive(Debug, Clone, Copy, PartialEq, Eq)]
pub enum ReadStep<'a> {
    /// `assert_version`: the object is at this `user_version`.
    AssertVersion(u64),
    /// `omap_get_vals`: at most `max` entries whose key starts with `prefix`, after
    /// `start_after`.
    OmapValues { start_after: &'a [u8], prefix: &'a [u8], max: u64 },
    /// `omap_get_vals_by_keys`.
    OmapValuesByKeys(&'a [&'a [u8]]),
}

/// A [`ReadStep`] by its bytes.
pub enum ReadStepView {
    AssertVersion(u64),
    OmapValues { start_after: Seq<u8>, prefix: Seq<u8>, max: u64 },
    OmapValuesByKeys(Seq<Seq<u8>>),
}

impl<'a> View for ReadStep<'a> {
    type V = ReadStepView;

    open spec fn view(&self) -> ReadStepView {
        match self {
            ReadStep::AssertVersion(version) => ReadStepView::AssertVersion(*version),
            ReadStep::OmapValues { start_after, prefix, max } => ReadStepView::OmapValues {
                start_after: start_after@,
                prefix: prefix@,
                max: *max,
            },
            ReadStep::OmapValuesByKeys(keys) => ReadStepView::OmapValuesByKeys(key_views(keys@)),
        }
    }
}

} // verus!
