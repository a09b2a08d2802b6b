//! What holds of pages that are read one after the other.

use crate::bytes::{key_before, lemma_before_is_irreflexive, lemma_before_is_transitive};
use crate::entries::{in_key_order, lemma_lookup, lemma_same_entries, pair_views, set_in_turn};
use crate::error::{RadosError, RejectedView};
use crate::op::ReadStepView;
use crate::read::{checks_the_pin, page_result, page_steps, OmapFound, Page, PageView, ReadReply};
use crate::Version;
use vstd::prelude::*;

verus! {

/// The entries of an omap whose key starts with `prefix` and comes after `start_after`.
pub open spec fn selected(
    omap: Map<Seq<u8>, Seq<u8>>,
    prefix: Seq<u8>,
    start_after: Seq<u8>,
) -> Map<Seq<u8>, Seq<u8>> {
    Map::new(
        |key: Seq<u8>|
            omap.contains_key(key) && prefix.is_prefix_of(key) && key_before(start_after, key),
        |key: Seq<u8>| omap[key],
    )
}

/// `all` lists what `omap` holds, in key order.
pub open spec fn lists(all: Seq<(Seq<u8>, Seq<u8>)>, omap: Map<Seq<u8>, Seq<u8>>) -> bool {
    in_key_order(all) && set_in_turn(all) == omap
}

/// `entries` are the first of what `omap` holds in key order, and `more` says whether some are
/// left.
pub open spec fn first_part(
    entries: Map<Seq<u8>, Seq<u8>>,
    more: bool,
    omap: Map<Seq<u8>, Seq<u8>>,
) -> bool {
    exists|all: Seq<(Seq<u8>, Seq<u8>)>, n: int|
        #![trigger all.take(n)]
        lists(all, omap) && 0 <= n <= all.len() && entries == set_in_turn(all.take(n)) && more == (n
            < all.len())
}

/// How the OSD answers an `omap_get_vals`, where `contents` is what the object holds at each
/// version: with the first of the entries that were asked for.
pub open spec fn finds_the_first(
    contents: spec_fn(u64) -> Map<Seq<u8>, Seq<u8>>,
    step: ReadStepView,
    reply: Result<ReadReply<OmapFound>, RadosError>,
) -> bool {
    reply matches Ok(ran) ==> (ran.values matches Ok(found) ==> (
    step matches ReadStepView::OmapValues { start_after, prefix, .. } ==> first_part(
        found.entries@,
        found.more,
        selected(contents(ran.version), prefix, start_after),
    )))
}

/// A page that was read behind a pin: where it starts, how many entries it asked for, the version
/// of the object when it was read, the answer, and the page that the answer came to.
pub struct PageRead {
    pub start_after: Seq<u8>,
    pub limit: u32,
    pub object_version: u64,
    pub reply: Result<ReadReply<OmapFound>, RadosError>,
    pub page: Page,
}

impl PageRead {
    /// The OSD answered the operation that reads this page, and the page is what became of the
    /// answer.
    pub open spec fn wf(
        self,
        at: Version,
        prefix: Seq<u8>,
        contents: spec_fn(u64) -> Map<Seq<u8>, Seq<u8>>,
    ) -> bool {
        let steps = page_steps(prefix, self.start_after, self.limit, Some(at));
        &&& checks_the_pin(at, self.object_version, self.reply)
        &&& finds_the_first(contents, steps.last(), self.reply)
        &&& page_result(self.reply, Some(at)) == Ok::<PageView, RejectedView>(self.page@)
        &&& self.page.wf()
    }

    /// The entries of the page.
    pub open spec fn entries(self) -> Seq<(Seq<u8>, Seq<u8>)> {
        pair_views(self.page.entries@)
    }
}

/// Pages of one object behind one pin, each read on from the last key of the page before it.
pub open spec fn is_replay(
    at: Version,
    prefix: Seq<u8>,
    contents: spec_fn(u64) -> Map<Seq<u8>, Seq<u8>>,
    reads: Seq<PageRead>,
) -> bool {
    &&& reads.len() > 0
    &&& forall|i: int| 0 <= i < reads.len() ==> (#[trigger] reads[i]).wf(at, prefix, contents)
    &&& forall|i: int, j: int|
        #![trigger reads[i], reads[j]]
        0 <= i && j == i + 1 && j < reads.len() ==> reads[i].entries().len() > 0
            && reads[j].start_after == reads[i].entries().last().0
}

/// The entries of the pages, one page after the other.
pub open spec fn entries_read(reads: Seq<PageRead>) -> Seq<(Seq<u8>, Seq<u8>)>
    decreases reads.len(),
{
    if reads.len() == 0 {
        Seq::empty()
    } else {
        entries_read(reads.drop_last()) + reads.last().entries()
    }
}

/// What lies behind the last key of a first part is the rest.
proof fn lemma_rest(
    omap: Map<Seq<u8>, Seq<u8>>,
    prefix: Seq<u8>,
    start_after: Seq<u8>,
    all: Seq<(Seq<u8>, Seq<u8>)>,
    n: int,
)
    requires
        lists(all, selected(omap, prefix, start_after)),
        0 < n <= all.len(),
    ensures
        lists(all.skip(n), selected(omap, prefix, all[n - 1].0)),
{
    let last = all[n - 1].0;
    let rest = all.skip(n);
    let wanted = selected(omap, prefix, last);
    assert forall|i: int, j: int|
        #![trigger rest[i], rest[j]]
        0 <= i < j < rest.len() implies key_before(rest[i].0, rest[j].0) by {
        assert(rest[i] == all[n + i] && rest[j] == all[n + j]);
    }
    lemma_lookup(all);
    lemma_lookup(rest);
    assert(selected(omap, prefix, start_after).contains_key(last));
    assert forall|key: Seq<u8>| wanted.contains_key(key) implies #[trigger] set_in_turn(
        rest,
    ).contains_key(key) && set_in_turn(rest)[key] == wanted[key] by {
        lemma_before_is_transitive(start_after, last, key);
        assert(set_in_turn(all).contains_key(key));
        let i = choose|i: int| 0 <= i < all.len() && #[trigger] all[i].0 == key;
        if i < n {
            if i < n - 1 {
                lemma_before_is_transitive(last, key, last);
            }
            lemma_before_is_irreflexive(last, last);
        }
        assert(rest[i - n] == all[i]);
    }
    assert forall|key: Seq<u8>| #[trigger] set_in_turn(rest).contains_key(
        key,
    ) implies wanted.contains_key(key) by {
        let i = choose|i: int| 0 <= i < rest.len() && #[trigger] rest[i].0 == key;
        assert(rest[i] == all[n + i]);
        assert(set_in_turn(all).contains_key(key));
        assert(key_before(all[n - 1].0, all[n + i].0));
    }
    assert(set_in_turn(rest) =~= wanted);
}

/// The beginning of a list in key order is in key order.
proof fn lemma_beginning_in_order(all: Seq<(Seq<u8>, Seq<u8>)>, n: int)
    requires
        in_key_order(all),
        0 <= n <= all.len(),
    ensures
        in_key_order(all.take(n)),
{
    let first = all.take(n);
    assert forall|i: int, j: int|
        #![trigger first[i], first[j]]
        0 <= i < j < first.len() implies key_before(first[i].0, first[j].0) by {
        assert(first[i] == all[i] && first[j] == all[j]);
    }
}

/// A page in key order that holds a first part of a list is the beginning of that list.
proof fn lemma_first_part(
    page: Seq<(Seq<u8>, Seq<u8>)>,
    more: bool,
    all: Seq<(Seq<u8>, Seq<u8>)>,
    omap: Map<Seq<u8>, Seq<u8>>,
)
    requires
        in_key_order(page),
        lists(all, omap),
        first_part(set_in_turn(page), more, omap),
    ensures
        page.len() <= all.len(),
        page == all.take(page.len() as int),
        more == (page.len() < all.len()),
{
    let (listed, n) = choose|listed: Seq<(Seq<u8>, Seq<u8>)>, n: int|
        #![trigger listed.take(n)]
        lists(listed, omap) && 0 <= n <= listed.len() && set_in_turn(page) == set_in_turn(
            listed.take(n),
        ) && more == (n < listed.len());
    lemma_same_entries(listed, all);
    lemma_beginning_in_order(all, n);
    lemma_same_entries(page, all.take(n));
}

/// Reading on from the last key leaves nothing out and repeats nothing. `all` are the entries
/// that a read asks for, in key order, and `one` the first of them. Then a page that reads on
/// from the last key of `one` continues it: together they are again the first of `all`, and all
/// of them exactly where that page says that there is no more.
pub proof fn law_reading_on_continues_the_page(
    omap: Map<Seq<u8>, Seq<u8>>,
    prefix: Seq<u8>,
    start_after: Seq<u8>,
    all: Seq<(Seq<u8>, Seq<u8>)>,
    one: Seq<(Seq<u8>, Seq<u8>)>,
    other: Seq<(Seq<u8>, Seq<u8>)>,
    more: bool,
)
    requires
        lists(all, selected(omap, prefix, start_after)),
        0 < one.len() <= all.len(),
        one == all.take(one.len() as int),
        in_key_order(other),
        first_part(set_in_turn(other), more, selected(omap, prefix, one.last().0)),
    ensures
        (one + other).len() <= all.len(),
        one + other == all.take((one + other).len() as int),
        more == ((one + other).len() < all.len()),
        !more ==> one + other == all,
{
    let n = one.len() as int;
    assert(one.last() == all[n - 1]);
    lemma_rest(omap, prefix, start_after, all, n);
    lemma_first_part(other, more, all.skip(n), selected(omap, prefix, one.last().0));
    assert(one + other =~= all.take((one + other).len() as int));
    if !more {
        assert(one + other =~= all);
    }
}

/// Pagination behind a pin is consistent: pages that are read one after the other, each from the
/// last key of the one before, show the object at the pinned version in key order, with nothing
/// left out and nothing repeated. Once a page says that there is no more, they are the whole of
/// what the prefix selects from where the first page starts.
pub proof fn law_replay_reads_the_whole_object(
    at: Version,
    prefix: Seq<u8>,
    contents: spec_fn(u64) -> Map<Seq<u8>, Seq<u8>>,
    reads: Seq<PageRead>,
)
    requires
        is_replay(at, prefix, contents, reads),
    ensures
        in_key_order(entries_read(reads)),
        first_part(
            set_in_turn(entries_read(reads)),
            reads.last().page.more,
            selected(contents(at.0), prefix, reads[0].start_after),
        ),
        !reads.last().page.more ==> lists(
            entries_read(reads),
            selected(contents(at.0), prefix, reads[0].start_after),
        ),
{
    let wanted = selected(contents(at.0), prefix, reads[0].start_after);
    let first = reads[0];
    lemma_page_read(at, prefix, contents, first);
    let (all, n) = choose|all: Seq<(Seq<u8>, Seq<u8>)>, n: int|
        #![trigger all.take(n)]
        lists(all, wanted) && 0 <= n <= all.len() && set_in_turn(first.entries()) == set_in_turn(
            all.take(n),
        ) && first.page.more == (n < all.len());
    lemma_replay(at, prefix, contents, reads, all);
    let len = entries_read(reads).len() as int;
    lemma_beginning_in_order(all, len);
    assert(all.take(all.len() as int) =~= all);
}

/// A page shows the first of what it asked for of the pinned version.
proof fn lemma_page_read(
    at: Version,
    prefix: Seq<u8>,
    contents: spec_fn(u64) -> Map<Seq<u8>, Seq<u8>>,
    read: PageRead,
)
    requires
        read.wf(at, prefix, contents),
    ensures
        in_key_order(read.entries()),
        first_part(
            set_in_turn(read.entries()),
            read.page.more,
            selected(contents(at.0), prefix, read.start_after),
        ),
{
    let steps = page_steps(prefix, read.start_after, read.limit, Some(at));
    assert(steps.last() == ReadStepView::OmapValues {
        start_after: read.start_after,
        prefix,
        max: read.limit as u64,
    });
}

/// The entries that were read are the first of all that there are.
proof fn lemma_replay(
    at: Version,
    prefix: Seq<u8>,
    contents: spec_fn(u64) -> Map<Seq<u8>, Seq<u8>>,
    reads: Seq<PageRead>,
    all: Seq<(Seq<u8>, Seq<u8>)>,
)
    requires
        is_replay(at, prefix, contents, reads),
        lists(all, selected(contents(at.0), prefix, reads[0].start_after)),
    ensures
        entries_read(reads).len() <= all.len(),
        entries_read(reads) == all.take(entries_read(reads).len() as int),
        reads.last().page.more == (entries_read(reads).len() < all.len()),
        entries_read(reads).len() >= reads.last().entries().len(),
        reads.last().entries().len() > 0 ==> entries_read(reads).last()
            == reads.last().entries().last(),
    decreases reads.len(),
{
    let omap = contents(at.0);
    let start_after = reads[0].start_after;
    let last = reads.last();
    lemma_page_read(at, prefix, contents, last);
    if reads.len() == 1 {
        assert(entries_read(reads.drop_last()) =~= Seq::empty());
        assert(entries_read(reads) =~= last.entries());
        lemma_first_part(last.entries(), last.page.more, all, selected(omap, prefix, start_after));
    } else {
        let before = reads.drop_last();
        assert forall|i: int| 0 <= i < before.len() implies (#[trigger] before[i]).wf(
            at,
            prefix,
            contents,
        ) by {
            assert(before[i] == reads[i]);
        }
        assert forall|i: int, j: int|
            #![trigger before[i], before[j]]
            0 <= i && j == i + 1 && j < before.len() implies before[i].entries().len() > 0
            && before[j].start_after == before[i].entries().last().0 by {
            assert(before[i] == reads[i] && before[j] == reads[j]);
        }
        lemma_replay(at, prefix, contents, before, all);
        let one = entries_read(before);
        assert(before.last() == reads[reads.len() - 2]);
        assert(last == reads[reads.len() - 1]);
        law_reading_on_continues_the_page(
            omap,
            prefix,
            start_after,
            all,
            one,
            last.entries(),
            last.page.more,
        );
    }
}

} // verus!
