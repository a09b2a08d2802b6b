//! Omap entries in key order.

use crate::bytes::{key_before, key_order, lemma_before_is_irreflexive, lemma_before_is_transitive, KeyOrder};
use vstd::prelude::*;

verus! {

/// The keys come in key order, and so none occurs twice.
pub open spec fn in_key_order(pairs: Seq<(Seq<u8>, Seq<u8>)>) -> bool {
    forall|i: int, j: int|
        #![trigger pairs[i], pairs[j]]
        0 <= i < j < pairs.len() ==> key_before(pairs[i].0, pairs[j].0)
}

/// What the pairs hold when each is set in turn: a later value replaces an earlier one.
pub open spec fn set_in_turn(pairs: Seq<(Seq<u8>, Seq<u8>)>) -> Map<Seq<u8>, Seq<u8>>
    decreases pairs.len(),
{
    if pairs.len() == 0 {
        Map::empty()
    } else {
        set_in_turn(pairs.drop_last()).insert(pairs.last().0, pairs.last().1)
    }
}

/// The value under `key`, where a missing key counts as empty.
pub open spec fn value_or_empty(omap: Map<Seq<u8>, Seq<u8>>, key: Seq<u8>) -> Seq<u8> {
    if omap.contains_key(key) {
        omap[key]
    } else {
        Seq::empty()
    }
}

/// The bytes of a list of key/value pairs.
pub open spec fn pair_views(pairs: Seq<(Vec<u8>, Vec<u8>)>) -> Seq<(Seq<u8>, Seq<u8>)> {
    pairs.map_values(|p: (Vec<u8>, Vec<u8>)| (p.0@, p.1@))
}

/// A map from omap keys to their values that hands its entries out in key order.
#[derive(Debug)]
pub struct OmapEntries {
    entries: Vec<(Vec<u8>, Vec<u8>)>,
}

impl View for OmapEntries {
    type V = Map<Seq<u8>, Seq<u8>>;

    closed spec fn view(&self) -> Map<Seq<u8>, Seq<u8>> {
        set_in_turn(self.pairs())
    }
}

impl OmapEntries {
    /// The entries as they are kept.
    pub closed spec fn pairs(&self) -> Seq<(Seq<u8>, Seq<u8>)> {
        pair_views(self.entries@)
    }

    /// The entries are kept in key order.
    pub open spec fn wf(&self) -> bool {
        in_key_order(self.pairs())
    }

    /// The map without entries.
    pub fn new() -> (map: OmapEntries)
        ensures
            map.wf(),
            map@ == Map::<Seq<u8>, Seq<u8>>::empty(),
    {
        OmapEntries { entries: Vec::new() }
    }

    /// The map that setting each pair in turn leaves.
    pub fn from_pairs(pairs: Vec<(Vec<u8>, Vec<u8>)>) -> (map: OmapEntries)
        ensures
            map.wf(),
            map@ == set_in_turn(pair_views(pairs@)),
    {
        let ghost views = pair_views(pairs@);
        let mut map = OmapEntries::new();
        assert(views.take(0) =~= Seq::empty());
        for pair in iter: pairs.into_iter()
            invariant
                map.wf(),
                views == pair_views(iter.seq()),
                map@ == set_in_turn(views.take(iter.index() as int)),
        {
            let ghost done = iter.index() as int;
            assert(views.take(done + 1).drop_last() =~= views.take(done));
            map.insert(pair.0, pair.1);
        }
        assert(views.take(views.len() as int) =~= views);
        map
    }

    /// The entries in key order.
    pub fn into_pairs(self) -> (pairs: Vec<(Vec<u8>, Vec<u8>)>)
        requires
            self.wf(),
        ensures
            in_key_order(pair_views(pairs@)),
            set_in_turn(pair_views(pairs@)) == self@,
    {
        self.entries
    }

    /// Sets `key` to `value`, in place of the value that it had.
    pub fn insert(&mut self, key: Vec<u8>, value: Vec<u8>)
        requires
            old(self).wf(),
        ensures
            final(self).wf(),
            final(self)@ == old(self)@.insert(key@, value@),
    {
        let (at, found) = self.position(key.as_slice());
        let ghost before = self.pairs();
        let ghost entry = (key@, value@);
        if found {
            self.entries.set(at, (key, value));
            assert(self.pairs() =~= before.update(at as int, entry));
        } else {
            self.entries.insert(at, (key, value));
            assert(self.pairs() =~= before.insert(at as int, entry));
        }
        proof {
            lemma_put(before, self.pairs(), at as int, entry, found);
        }
    }

    /// Takes the value of `key` out of the map.
    pub fn remove(&mut self, key: &[u8]) -> (value: Option<Vec<u8>>)
        requires
            old(self).wf(),
        ensures
            final(self).wf(),
            final(self)@ == old(self)@.remove(key@),
            match value {
                Some(v) => old(self)@.contains_key(key@) && v@ == old(self)@[key@],
                None => !old(self)@.contains_key(key@),
            },
    {
        let (at, found) = self.position(key);
        let ghost before = self.pairs();
        if found {
            let (_, value) = self.entries.remove(at);
            proof {
                assert(self.pairs() =~= before.remove(at as int));
                lemma_taken(before, self.pairs(), at as int);
            }
            Some(value)
        } else {
            proof {
                lemma_lookup(before);
                assert(self@ =~= old(self)@.remove(key@));
            }
            None
        }
    }

    /// Where `key` stands among the entries, or where it belongs.
    fn position(&self, key: &[u8]) -> (found: (usize, bool))
        requires
            self.wf(),
        ensures
            found.0 <= self.pairs().len(),
            self.pairs().len() == self.entries@.len(),
            forall|i: int| 0 <= i < found.0 ==> key_before(#[trigger] self.pairs()[i].0, key@),
            found.1 ==> found.0 < self.pairs().len() && self.pairs()[found.0 as int].0 == key@,
            !found.1 ==> forall|i: int|
                found.0 <= i < self.pairs().len() ==> key_before(key@, #[trigger] self.pairs()[i].0),
    {
        let mut at: usize = 0;
        while at < self.entries.len()
            invariant
                self.wf(),
                at <= self.entries@.len(),
                forall|i: int| 0 <= i < at ==> key_before(#[trigger] self.pairs()[i].0, key@),
            decreases self.entries@.len() - at,
        {
            assert(self.pairs()[at as int].0 == self.entries@[at as int].0@);
            match key_order(self.entries[at].0.as_slice(), key) {
                KeyOrder::Before => {},
                KeyOrder::Same => {
                    return (at, true);
                },
                KeyOrder::After => {
                    proof {
                        let pairs = self.pairs();
                        assert forall|i: int| at <= i < pairs.len() implies key_before(
                            key@,
                            #[trigger] pairs[i].0,
                        ) by {
                            if at < i {
                                lemma_before_is_transitive(key@, pairs[at as int].0, pairs[i].0);
                            }
                        }
                    }
                    return (at, false);
                },
            }
            at += 1;
        }
        (at, false)
    }
}

/// A key is in the map exactly where an entry has it, and that entry has its value.
pub proof fn lemma_lookup(pairs: Seq<(Seq<u8>, Seq<u8>)>)
    requires
        in_key_order(pairs),
    ensures
        forall|i: int|
            #![trigger pairs[i]]
            0 <= i < pairs.len() ==> set_in_turn(pairs).contains_key(pairs[i].0) && set_in_turn(
                pairs,
            )[pairs[i].0] == pairs[i].1,
        forall|k: Seq<u8>| #[trigger]
            set_in_turn(pairs).contains_key(k) ==> exists|i: int|
                0 <= i < pairs.len() && #[trigger] pairs[i].0 == k,
    decreases pairs.len(),
{
    if pairs.len() > 0 {
        let rest = pairs.drop_last();
        assert forall|i: int, j: int|
            #![trigger rest[i], rest[j]]
            0 <= i < j < rest.len() implies key_before(rest[i].0, rest[j].0) by {
            assert(rest[i] == pairs[i] && rest[j] == pairs[j]);
        }
        lemma_lookup(rest);
        let last = pairs.len() - 1;
        assert forall|i: int| #![trigger pairs[i]] 0 <= i < pairs.len() implies set_in_turn(
            pairs,
        ).contains_key(pairs[i].0) && set_in_turn(pairs)[pairs[i].0] == pairs[i].1 by {
            if i < last {
                lemma_before_is_irreflexive(pairs[i].0, pairs[last].0);
                assert(rest[i] == pairs[i]);
            }
        }
        assert forall|k: Seq<u8>| #[trigger] set_in_turn(pairs).contains_key(k) implies exists|
            i: int,
        |
            0 <= i < pairs.len() && #[trigger] pairs[i].0 == k by {
            if k == pairs[last].0 {
            } else {
                assert(set_in_turn(rest).contains_key(k));
                let i = choose|i: int| 0 <= i < rest.len() && #[trigger] rest[i].0 == k;
                assert(pairs[i].0 == k);
            }
        }
    }
}

/// A list of pairs is seen whole and in its order; and where it is in key order, each key comes
/// after all those before it, so that none occurs twice.
pub proof fn law_pairs_are_seen_whole(pairs: Seq<(Vec<u8>, Vec<u8>)>, i: int, j: int)
    ensures
        pair_views(pairs).len() == pairs.len(),
        0 <= i < pairs.len() ==> pair_views(pairs)[i].0 == pairs[i].0@ && pair_views(pairs)[i].1
            == pairs[i].1@,
        in_key_order(pair_views(pairs)) && 0 <= i < j < pairs.len() ==> key_before(
            pairs[i].0@,
            pairs[j].0@,
        ) && pairs[i].0@ != pairs[j].0@,
{
    let views = pair_views(pairs);
    if in_key_order(views) && 0 <= i < j < pairs.len() {
        assert(key_before(views[i].0, views[j].0));
        lemma_before_is_irreflexive(pairs[i].0@, pairs[j].0@);
    }
}

/// A key is set exactly where a pair has it, and then to the value of the last pair that does.
pub proof fn law_last_value_of_a_key_wins(pairs: Seq<(Seq<u8>, Seq<u8>)>, key: Seq<u8>)
    ensures
        set_in_turn(pairs).contains_key(key) <==> exists|i: int|
            0 <= i < pairs.len() && (#[trigger] pairs[i]).0 == key,
        forall|i: int|
            #![trigger pairs[i]]
            0 <= i < pairs.len() && pairs[i].0 == key && (forall|j: int|
                i < j < pairs.len() ==> (#[trigger] pairs[j]).0 != key) ==> set_in_turn(pairs)[key]
                == pairs[i].1,
    decreases pairs.len(),
{
    if pairs.len() > 0 {
        let rest = pairs.drop_last();
        let last = pairs.len() - 1;
        law_last_value_of_a_key_wins(rest, key);
        assert(forall|i: int| 0 <= i < last ==> rest[i] == #[trigger] pairs[i]);
        if set_in_turn(rest).contains_key(key) {
            let i = choose|i: int| 0 <= i < rest.len() && (#[trigger] rest[i]).0 == key;
            assert(pairs[i].0 == key);
        }
        assert forall|i: int|
            #![trigger pairs[i]]
            0 <= i < pairs.len() && pairs[i].0 == key && (forall|j: int|
                i < j < pairs.len() ==> (#[trigger] pairs[j]).0 != key) implies set_in_turn(
            pairs,
        )[key] == pairs[i].1 by {
            if i < last {
                assert(pairs[last].0 != key);
                assert(rest[i] == pairs[i]);
                assert(forall|j: int| i < j < rest.len() ==> (#[trigger] rest[j]).0 != key);
            }
        }
    }
}

/// Entries in key order that hold the same are the same.
pub proof fn lemma_same_entries(a: Seq<(Seq<u8>, Seq<u8>)>, b: Seq<(Seq<u8>, Seq<u8>)>)
    requires
        in_key_order(a),
        in_key_order(b),
        set_in_turn(a) == set_in_turn(b),
    ensures
        a == b,
    decreases a.len(),
{
    lemma_lookup(a);
    lemma_lookup(b);
    if a.len() == 0 {
        if b.len() > 0 {
            assert(set_in_turn(b).contains_key(b[0].0));
        }
        assert(a =~= b);
    } else {
        let x = a.len() - 1;
        assert(set_in_turn(a).contains_key(a[x].0));
        let i = choose|i: int| 0 <= i < b.len() && #[trigger] b[i].0 == a[x].0;
        let y = b.len() - 1;
        assert(set_in_turn(b).contains_key(b[y].0));
        let j = choose|j: int| 0 <= j < a.len() && #[trigger] a[j].0 == b[y].0;
        if i < y && j < x {
            lemma_before_is_transitive(a[j].0, a[x].0, a[j].0);
            lemma_before_is_irreflexive(a[j].0, a[j].0);
        } else if i < y {
            lemma_before_is_irreflexive(b[i].0, b[y].0);
        } else if j < x {
            lemma_before_is_irreflexive(a[j].0, a[x].0);
        }
        assert(a[x] == b[y]);
        assert(a.drop_last() =~= a.remove(x));
        lemma_taken(a, a.drop_last(), x);
        assert(b.drop_last() =~= b.remove(y));
        lemma_taken(b, b.drop_last(), y);
        lemma_same_entries(a.drop_last(), b.drop_last());
        assert(a =~= a.drop_last().push(a[x]));
        assert(b =~= b.drop_last().push(b[y]));
    }
}

/// Putting an entry in its place sets its key.
proof fn lemma_put(
    before: Seq<(Seq<u8>, Seq<u8>)>,
    after: Seq<(Seq<u8>, Seq<u8>)>,
    at: int,
    entry: (Seq<u8>, Seq<u8>),
    replaced: bool,
)
    requires
        in_key_order(before),
        in_key_order(after),
        0 <= at <= before.len(),
        replaced ==> at < before.len() && before[at].0 == entry.0 && after == before.update(
            at,
            entry,
        ),
        !replaced ==> after == before.insert(at, entry),
    ensures
        set_in_turn(after) == set_in_turn(before).insert(entry.0, entry.1),
{
    let was = set_in_turn(before);
    let now = set_in_turn(after);
    lemma_lookup(before);
    lemma_lookup(after);
    assert(after[at] == entry);
    assert forall|k: Seq<u8>| k != entry.0 implies #[trigger] now.contains_key(k)
        == was.contains_key(k) && (was.contains_key(k) ==> now[k] == was[k]) by {
        if was.contains_key(k) {
            let i = choose|i: int| 0 <= i < before.len() && #[trigger] before[i].0 == k;
            let j = if replaced || i < at { i } else { i + 1 };
            assert(after[j] == before[i]);
        }
        if now.contains_key(k) {
            let j = choose|j: int| 0 <= j < after.len() && #[trigger] after[j].0 == k;
            let i = if replaced || j < at { j } else { j - 1 };
            assert(after[j] == before[i]);
        }
    }
    assert(now =~= was.insert(entry.0, entry.1));
}

/// Taking an entry out removes its key.
proof fn lemma_taken(
    before: Seq<(Seq<u8>, Seq<u8>)>,
    after: Seq<(Seq<u8>, Seq<u8>)>,
    at: int,
)
    requires
        in_key_order(before),
        0 <= at < before.len(),
        after == before.remove(at),
    ensures
        in_key_order(after),
        set_in_turn(after) == set_in_turn(before).remove(before[at].0),
        set_in_turn(before).contains_key(before[at].0),
        set_in_turn(before)[before[at].0] == before[at].1,
{
    let was = set_in_turn(before);
    let now = set_in_turn(after);
    assert forall|i: int, j: int|
        #![trigger after[i], after[j]]
        0 <= i < j < after.len() implies key_before(after[i].0, after[j].0) by {
        let i0 = if i < at { i } else { i + 1 };
        let j0 = if j < at { j } else { j + 1 };
        assert(after[i] == before[i0] && after[j] == before[j0]);
    }
    lemma_lookup(before);
    lemma_lookup(after);
    assert forall|k: Seq<u8>| k != before[at].0 implies #[trigger] now.contains_key(k)
        == was.contains_key(k) && (was.contains_key(k) ==> now[k] == was[k]) by {
        if was.contains_key(k) {
            let i = choose|i: int| 0 <= i < before.len() && #[trigger] before[i].0 == k;
            let j = if i < at { i } else { i - 1 };
            assert(after[j] == before[i]);
        }
        if now.contains_key(k) {
            let j = choose|j: int| 0 <= j < after.len() && #[trigger] after[j].0 == k;
            let i = if j < at { j } else { j + 1 };
            assert(after[j] == before[i]);
        }
    }
    assert(!now.contains_key(before[at].0)) by {
        if now.contains_key(before[at].0) {
            let j = choose|j: int| 0 <= j < after.len() && #[trigger] after[j].0 == before[at].0;
            let i = if j < at { j } else { j + 1 };
            assert(after[j] == before[i]);
            if i < at {
                lemma_before_is_irreflexive(before[i].0, before[at].0);
            } else {
                lemma_before_is_irreflexive(before[at].0, before[i].0);
            }
        }
    }
    assert(now =~= was.remove(before[at].0));
}

} // verus!
