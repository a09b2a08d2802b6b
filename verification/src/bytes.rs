//! Comparing byte strings: equality, the order in which omap keys are kept, and the NUL
//! byte that a C string cannot hold.

use vstd::prelude::*;
use vstd::string::*;
use vstd::utf8::*;

verus! {

/// Whether `s` can be handed over as a C string.
pub open spec fn nul_free(s: Seq<u8>) -> bool {
    forall|i: int| 0 <= i < s.len() ==> s[i] != 0
}

/// `a` comes before `b` in key order: at the first place where they part, `a` has ended or
/// has the smaller byte.
pub open spec fn key_before(a: Seq<u8>, b: Seq<u8>) -> bool {
    exists|n: int| #[trigger] parts_at(a, b, n)
}

/// `a` and `b` agree up to place `n`, and there `a` is the smaller one.
pub open spec fn parts_at(a: Seq<u8>, b: Seq<u8>, n: int) -> bool {
    &&& 0 <= n <= a.len()
    &&& n < b.len()
    &&& a.take(n) == b.take(n)
    &&& (n < a.len() ==> a[n] < b[n])
}

/// How one key stands to another in key order.
#[derive(Debug, Clone, Copy, PartialEq, Eq, Structural)]
pub enum KeyOrder {
    Before,
    Same,
    After,
}

/// Whether `bytes` holds no NUL byte.
pub fn is_nul_free(bytes: &[u8]) -> (free: bool)
    ensures
        free == nul_free(bytes@),
{
    let mut i: usize = 0;
    while i < bytes.len()
        invariant
            i <= bytes@.len(),
            forall|j: int| 0 <= j < i ==> bytes@[j] != 0,
        decreases bytes@.len() - i,
    {
        if bytes[i] == 0 {
            return false;
        }
        i += 1;
    }
    true
}

/// Finds how `a` stands to `b` in key order.
pub fn key_order(a: &[u8], b: &[u8]) -> (order: KeyOrder)
    ensures
        match order {
            KeyOrder::Before => key_before(a@, b@),
            KeyOrder::Same => a@ == b@,
            KeyOrder::After => key_before(b@, a@),
        },
{
    let mut i: usize = 0;
    while i < a.len() && i < b.len()
        invariant
            i <= a@.len(),
            i <= b@.len(),
            a@.take(i as int) == b@.take(i as int),
        decreases a@.len() - i,
    {
        if a[i] != b[i] {
            if a[i] < b[i] {
                assert(parts_at(a@, b@, i as int));
                return KeyOrder::Before;
            }
            assert(parts_at(b@, a@, i as int));
            return KeyOrder::After;
        }
        assert(a@.take(i + 1) =~= a@.take(i as int).push(a@[i as int]));
        assert(b@.take(i + 1) =~= b@.take(i as int).push(b@[i as int]));
        i += 1;
    }
    if a.len() == b.len() {
        assert(a@ =~= a@.take(i as int));
        assert(b@ =~= b@.take(i as int));
        KeyOrder::Same
    } else if i == a.len() {
        assert(parts_at(a@, b@, i as int));
        KeyOrder::Before
    } else {
        assert(parts_at(b@, a@, i as int));
        KeyOrder::After
    }
}

/// Whether two byte strings are equal.
pub fn bytes_equal(a: &[u8], b: &[u8]) -> (equal: bool)
    ensures
        equal == (a@ == b@),
{
    match key_order(a, b) {
        KeyOrder::Same => true,
        KeyOrder::Before => {
            proof {
                lemma_before_is_irreflexive(a@, b@);
            }
            false
        },
        KeyOrder::After => {
            proof {
                lemma_before_is_irreflexive(b@, a@);
            }
            false
        },
    }
}

/// Whether two strings are equal.
pub fn strings_equal(a: &str, b: &str) -> (equal: bool)
    ensures
        equal == (a@ == b@),
{
    proof {
        encode_utf8_decode_utf8(a@);
        encode_utf8_decode_utf8(b@);
    }
    bytes_equal(a.as_bytes(), b.as_bytes())
}

/// A C string is one without a NUL byte anywhere in it.
pub proof fn law_nul_free_is_without_nul(s: Seq<u8>)
    ensures
        nul_free(s) <==> !s.contains(0u8),
{
    if !nul_free(s) {
        let i = choose|i: int| 0 <= i < s.len() && s[i] == 0;
        assert(s.contains(s[i]));
    }
}

/// Key order is that of the first byte in which two keys differ, wherever that is, and a key
/// comes before those that go on from it.
pub proof fn law_key_order_goes_by_the_first_difference(
    common: Seq<u8>,
    a: u8,
    rest_a: Seq<u8>,
    b: u8,
    rest_b: Seq<u8>,
)
    ensures
        key_before(common, common.push(a) + rest_a),
        !key_before(common.push(a) + rest_a, common),
        a < b ==> key_before(common.push(a) + rest_a, common.push(b) + rest_b),
        a < b ==> !key_before(common.push(b) + rest_b, common.push(a) + rest_a),
{
    let n = common.len() as int;
    let left = common.push(a) + rest_a;
    let right = common.push(b) + rest_b;
    assert(left.take(n) =~= common);
    assert(right.take(n) =~= common);
    assert(common.take(n) =~= common);
    assert(parts_at(common, left, n));
    if key_before(left, common) {
        lemma_before_is_transitive(left, common, left);
        lemma_before_is_irreflexive(left, left);
    }
    if a < b {
        assert(parts_at(left, right, n));
        if key_before(right, left) {
            lemma_before_is_transitive(right, left, right);
            lemma_before_is_irreflexive(right, right);
        }
    }
}

/// A key does not come before itself.
pub proof fn lemma_before_is_irreflexive(a: Seq<u8>, b: Seq<u8>)
    requires
        key_before(a, b),
    ensures
        a != b,
{
}

/// Key order is transitive.
pub proof fn lemma_before_is_transitive(a: Seq<u8>, b: Seq<u8>, c: Seq<u8>)
    requires
        key_before(a, b),
        key_before(b, c),
    ensures
        key_before(a, c),
{
    let m = choose|m: int| parts_at(a, b, m);
    let n = choose|n: int| parts_at(b, c, n);
    let k = if m < n { m } else { n };
    assert(a.take(k) =~= b.take(k)) by {
        assert(a.take(m).take(k) =~= a.take(k));
        assert(b.take(m).take(k) =~= b.take(k));
    }
    assert(b.take(k) =~= c.take(k)) by {
        assert(b.take(n).take(k) =~= b.take(k));
        assert(c.take(n).take(k) =~= c.take(k));
    }
    if m < n {
        assert(b.take(n)[m] == c.take(n)[m]);
    } else if n < m {
        assert(a.take(m)[n] == b.take(m)[n]);
    }
    assert(parts_at(a, c, k));
}

} // verus!
