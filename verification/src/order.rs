//! Byte-wise lexicographic order of strings (the order of Rust's `str`).

use vstd::prelude::*;
use vstd::string::StringSliceAdditionalSpecFns;
use vstd::utf8::{decode_utf8, encode_utf8};

verus! {

/// `a` and `b` agree before position `k`, and at `k` either `a` has ended
/// while `b` goes on, or `a` has the smaller byte.
pub open spec fn lex_lt_at(a: Seq<u8>, b: Seq<u8>, k: int) -> bool {
    &&& 0 <= k <= a.len()
    &&& k <= b.len()
    &&& forall|j: int| 0 <= j < k ==> #[trigger] a[j] == b[j]
    &&& ((k == a.len() && k < b.len()) || (k < a.len() && k < b.len() && a[k] < b[k]))
}

/// `a` sorts strictly before `b` byte-lexicographically: at the first
/// position where they differ `a` has the smaller byte, or `a` is a proper
/// prefix of `b`.
pub open spec fn lex_lt(a: Seq<u8>, b: Seq<u8>) -> bool {
    exists|k: int| lex_lt_at(a, b, k)
}

/// String order: byte-lexicographic order of the UTF-8 encodings (which is
/// also the order of the character sequences by code point).
pub open spec fn name_lt(a: Seq<char>, b: Seq<char>) -> bool {
    lex_lt(encode_utf8(a), encode_utf8(b))
}

/// `a` sorts before or equal to `b`.
pub open spec fn name_le(a: Seq<char>, b: Seq<char>) -> bool {
    !name_lt(b, a)
}

/// Nothing sorts before itself.
pub proof fn lemma_lex_irreflexive(a: Seq<u8>)
    ensures
        !lex_lt(a, a),
{
}

/// The order is transitive.
pub proof fn lemma_lex_transitive(a: Seq<u8>, b: Seq<u8>, c: Seq<u8>)
    requires
        lex_lt(a, b),
        lex_lt(b, c),
    ensures
        lex_lt(a, c),
{
    let k1 = choose|k: int| lex_lt_at(a, b, k);
    let k2 = choose|k: int| lex_lt_at(b, c, k);
    if k1 <= k2 {
        assert forall|j: int| 0 <= j < k1 implies #[trigger] a[j] == c[j] by {
            assert(a[j] == b[j]);
            assert(b[j] == c[j]);
        }
        assert(lex_lt_at(a, c, k1));
    } else {
        assert forall|j: int| 0 <= j < k2 implies #[trigger] a[j] == c[j] by {
            assert(a[j] == b[j]);
            assert(b[j] == c[j]);
        }
        assert(lex_lt_at(a, c, k2));
    }
}

proof fn lemma_lex_total_from(a: Seq<u8>, b: Seq<u8>, i: int)
    requires
        0 <= i <= a.len(),
        i <= b.len(),
        forall|j: int| 0 <= j < i ==> #[trigger] a[j] == b[j],
        a != b,
    ensures
        lex_lt(a, b) || lex_lt(b, a),
    decreases a.len() - i,
{
    if i == a.len() && i == b.len() {
        assert(a =~= b);
    } else if i == a.len() || i == b.len() || a[i] != b[i] {
        assert(forall|j: int| 0 <= j < i ==> #[trigger] b[j] == a[j]);
        if i == a.len() || (i < b.len() && a[i] < b[i]) {
            assert(lex_lt_at(a, b, i));
        } else {
            assert(lex_lt_at(b, a, i));
        }
    } else {
        lemma_lex_total_from(a, b, i + 1);
    }
}

/// Two different byte strings are ordered one way or the other.
pub proof fn lemma_lex_total(a: Seq<u8>, b: Seq<u8>)
    requires
        a != b,
    ensures
        lex_lt(a, b) || lex_lt(b, a),
{
    lemma_lex_total_from(a, b, 0);
}

/// The string order is a strict total order.
pub proof fn lemma_name_order(a: Seq<char>, b: Seq<char>, c: Seq<char>)
    ensures
        !name_lt(a, a),
        name_lt(a, b) && name_lt(b, c) ==> name_lt(a, c),
        a != b ==> name_lt(a, b) || name_lt(b, a),
        name_lt(a, b) ==> !name_lt(b, a),
{
    broadcast use vstd::utf8::encode_utf8_decode_utf8;
    lemma_lex_irreflexive(encode_utf8(a));
    if name_lt(a, b) && name_lt(b, c) {
        lemma_lex_transitive(encode_utf8(a), encode_utf8(b), encode_utf8(c));
    }
    if a != b {
        assert(decode_utf8(encode_utf8(a)) == a);
        assert(decode_utf8(encode_utf8(b)) == b);
        lemma_lex_total(encode_utf8(a), encode_utf8(b));
    }
    if name_lt(a, b) && name_lt(b, a) {
        lemma_lex_transitive(encode_utf8(a), encode_utf8(b), encode_utf8(a));
    }
}

/// Result of comparing two names.
#[derive(Debug, Clone, Copy, PartialEq, Eq, Structural)]
pub enum NameOrder {
    /// The first sorts before the second.
    Before,
    /// They are the same text.
    Same,
    /// The first sorts after the second.
    After,
}

/// Compare two strings byte-lexicographically.
pub fn name_order(a: &str, b: &str) -> (o: NameOrder)
    ensures
        o == NameOrder::Before <==> name_lt(a@, b@),
        o == NameOrder::Same <==> a@ == b@,
        o == NameOrder::After <==> name_lt(b@, a@),
{
    broadcast use vstd::utf8::encode_utf8_decode_utf8;
    let x = a.as_bytes();
    let y = b.as_bytes();
    assert(x@ == encode_utf8(a@));
    assert(y@ == encode_utf8(b@));
    proof {
        lemma_name_order(a@, b@, a@);
    }
    let mut i: usize = 0;
    while i < x.len() && i < y.len() && x[i] == y[i]
        invariant
            i <= x@.len(),
            i <= y@.len(),
            forall|j: int| 0 <= j < i ==> #[trigger] x@[j] == y@[j],
        decreases x@.len() - i,
    {
        i = i + 1;
    }
    proof {
        assert(forall|j: int| 0 <= j < i ==> #[trigger] y@[j] == x@[j]);
    }
    if i < x.len() && i < y.len() {
        if x[i] < y[i] {
            assert(lex_lt_at(x@, y@, i as int));
            NameOrder::Before
        } else {
            assert(lex_lt_at(y@, x@, i as int));
            NameOrder::After
        }
    } else if i == x.len() && i == y.len() {
        assert(x@ =~= y@);
        assert(decode_utf8(encode_utf8(a@)) == a@);
        assert(decode_utf8(encode_utf8(b@)) == b@);
        NameOrder::Same
    } else if i == x.len() {
        assert(lex_lt_at(x@, y@, i as int));
        NameOrder::Before
    } else {
        assert(lex_lt_at(y@, x@, i as int));
        NameOrder::After
    }
}

} // verus!
