//! The order in which titles are kept: byte by byte over their UTF-8
//! encoding, a proper prefix before every extension of it. This is the order
//! that `str` has under `<`.

use vstd::prelude::*;
use vstd::utf8::encode_utf8;
use vstd::utf8::encode_utf8_decode_utf8;

verus! {

/// `a` and `b` agree on their first `k` bytes, and at position `k` either
/// `a` has ended while `b` goes on, or `a` holds the smaller byte.
pub open spec fn precedes_at(a: Seq<u8>, b: Seq<u8>, k: int) -> bool {
    &&& 0 <= k <= a.len()
    &&& k < b.len()
    &&& forall|j: int| 0 <= j < k ==> a[j] == b[j]
    &&& (k == a.len() || a[k] < b[k])
}

/// Strict lexicographic order on byte sequences.
pub open spec fn bytes_precede(a: Seq<u8>, b: Seq<u8>) -> bool {
    exists|k: int| #[trigger] precedes_at(a, b, k)
}

/// Strict order on titles: the order of their UTF-8 encodings.
pub open spec fn title_precedes(a: Seq<char>, b: Seq<char>) -> bool {
    bytes_precede(encode_utf8(a), encode_utf8(b))
}

/// How one title stands to another.
#[derive(Clone, Copy, Debug, PartialEq, Eq, Structural)]
pub enum TitleOrder {
    Before,
    Same,
    After,
}

/// No byte sequence precedes itself.
pub proof fn lemma_bytes_precede_irreflexive(a: Seq<u8>)
    ensures
        !bytes_precede(a, a),
{
}

/// The order on byte sequences is transitive.
pub proof fn lemma_bytes_precede_transitive(a: Seq<u8>, b: Seq<u8>, c: Seq<u8>)
    requires
        bytes_precede(a, b),
        bytes_precede(b, c),
    ensures
        bytes_precede(a, c),
{
    let k1 = choose|k: int| #[trigger] precedes_at(a, b, k);
    let k2 = choose|k: int| #[trigger] precedes_at(b, c, k);
    let k = if k1 <= k2 { k1 } else { k2 };
    assert(precedes_at(a, c, k));
}

/// Titles that differ have different encodings.
pub proof fn lemma_encoding_injective(a: Seq<char>, b: Seq<char>)
    requires
        encode_utf8(a) == encode_utf8(b),
    ensures
        a == b,
{
    encode_utf8_decode_utf8(a);
    encode_utf8_decode_utf8(b);
}

/// No title precedes itself.
pub proof fn lemma_title_precedes_irreflexive(a: Seq<char>)
    ensures
        !title_precedes(a, a),
{
    lemma_bytes_precede_irreflexive(encode_utf8(a));
}

/// The order on titles is transitive.
pub proof fn lemma_title_precedes_transitive(a: Seq<char>, b: Seq<char>, c: Seq<char>)
    requires
        title_precedes(a, b),
        title_precedes(b, c),
    ensures
        title_precedes(a, c),
{
    lemma_bytes_precede_transitive(encode_utf8(a), encode_utf8(b), encode_utf8(c));
}

/// Of two titles at most one precedes the other, and none that precedes
/// equals.
pub proof fn lemma_title_precedes_asymmetric(a: Seq<char>, b: Seq<char>)
    requires
        title_precedes(a, b),
    ensures
        !title_precedes(b, a),
        a != b,
{
    if title_precedes(b, a) {
        lemma_title_precedes_transitive(a, b, a);
    }
    lemma_title_precedes_irreflexive(a);
}

/// Compares two titles. Exactly one of the three answers holds of any pair.
pub fn title_order(a: &str, b: &str) -> (order: TitleOrder)
    ensures
        order == TitleOrder::Before <==> title_precedes(a@, b@),
        order == TitleOrder::Same <==> a@ == b@,
        order == TitleOrder::After <==> title_precedes(b@, a@),
{
    let x = a.as_bytes();
    let y = b.as_bytes();
    let ghost xs = encode_utf8(a@);
    let ghost ys = encode_utf8(b@);
    let mut i: usize = 0;
    while i < x.len() && i < y.len()
        invariant
            xs == encode_utf8(a@),
            ys == encode_utf8(b@),
            x@ == xs,
            y@ == ys,
            i <= xs.len(),
            i <= ys.len(),
            forall|j: int| 0 <= j < i ==> xs[j] == ys[j],
        decreases xs.len() - i,
    {
        if x[i] < y[i] {
            proof {
                assert(precedes_at(xs, ys, i as int));
                lemma_title_precedes_asymmetric(a@, b@);
            }
            return TitleOrder::Before;
        }
        if x[i] > y[i] {
            proof {
                assert(precedes_at(ys, xs, i as int));
                lemma_title_precedes_asymmetric(b@, a@);
            }
            return TitleOrder::After;
        }
        i += 1;
    }
    if x.len() < y.len() {
        proof {
            assert(precedes_at(xs, ys, i as int));
            lemma_title_precedes_asymmetric(a@, b@);
        }
        TitleOrder::Before
    } else if x.len() > y.len() {
        proof {
            assert(precedes_at(ys, xs, i as int));
            lemma_title_precedes_asymmetric(b@, a@);
        }
        TitleOrder::After
    } else {
        proof {
            assert(xs =~= ys);
            lemma_encoding_injective(a@, b@);
            lemma_title_precedes_irreflexive(a@);
        }
        TitleOrder::Same
    }
}

} // verus!
