//! The order of keys: strings are ranked by their UTF-8 bytes, the first
//! differing byte deciding, a proper prefix coming first.

use vstd::prelude::*;
use vstd::utf8::*;

verus! {

/// The first position at or after `i` where `a` and `b` differ or one of
/// them ends.
pub open spec fn mismatch(a: Seq<u8>, b: Seq<u8>, i: int) -> int
    decreases a.len() - i,
{
    if 0 <= i < a.len() && i < b.len() && a[i] == b[i] {
        mismatch(a, b, i + 1)
    } else {
        i
    }
}

/// `a` comes strictly before `b` in the lexicographic order of bytes.
pub open spec fn bytes_lt(a: Seq<u8>, b: Seq<u8>) -> bool {
    let m = mismatch(a, b, 0);
    m < b.len() && (m >= a.len() || a[m] < b[m])
}

/// `a` comes strictly before `b` in the order of keys.
pub open spec fn key_lt(a: Seq<char>, b: Seq<char>) -> bool {
    bytes_lt(encode_utf8(a), encode_utf8(b))
}

/// How one key stands to another.
#[derive(Clone, Copy, Debug, PartialEq, Eq, Structural)]
pub enum Order {
    /// The first key comes before the second.
    Less,
    /// The keys are the same.
    Equal,
    /// The first key comes after the second.
    Greater,
}

/// What `mismatch` returns: the sequences agree on everything it passes
/// over, and it stops where they differ or where one of them ends.
pub proof fn lemma_mismatch(a: Seq<u8>, b: Seq<u8>, i: int)
    requires
        0 <= i <= a.len(),
        i <= b.len(),
    ensures
        i <= mismatch(a, b, i) <= a.len(),
        mismatch(a, b, i) <= b.len(),
        forall|k: int| i <= k < mismatch(a, b, i) ==> a[k] == b[k],
        mismatch(a, b, i) < a.len() && mismatch(a, b, i) < b.len() ==> a[mismatch(a, b, i)]
            != b[mismatch(a, b, i)],
    decreases a.len() - i,
{
    if i < a.len() && i < b.len() && a[i] == b[i] {
        lemma_mismatch(a, b, i + 1);
    }
}

/// A position up to which two sequences agree, and at which they differ or
/// one of them ends, is the one that `mismatch` finds.
pub proof fn lemma_mismatch_is(a: Seq<u8>, b: Seq<u8>, m: int)
    requires
        0 <= m <= a.len(),
        m <= b.len(),
        forall|k: int| 0 <= k < m ==> a[k] == b[k],
        m < a.len() && m < b.len() ==> a[m] != b[m],
    ensures
        mismatch(a, b, 0) == m,
{
    lemma_mismatch_from(a, b, m, 0);
}

/// `lemma_mismatch_is`, for a search that starts at `i`.
proof fn lemma_mismatch_from(a: Seq<u8>, b: Seq<u8>, m: int, i: int)
    requires
        0 <= i <= m <= a.len(),
        m <= b.len(),
        forall|k: int| 0 <= k < m ==> a[k] == b[k],
        m < a.len() && m < b.len() ==> a[m] != b[m],
    ensures
        mismatch(a, b, i) == m,
    decreases m - i,
{
    if i < m {
        lemma_mismatch_from(a, b, m, i + 1);
    }
}

/// No sequence comes before itself, and of two sequences at most one comes
/// before the other.
pub proof fn lemma_bytes_lt_asymmetric(a: Seq<u8>, b: Seq<u8>)
    ensures
        !(bytes_lt(a, b) && bytes_lt(b, a)),
{
    lemma_mismatch(a, b, 0);
    let m = mismatch(a, b, 0);
    lemma_mismatch_is(b, a, m);
}

/// Of two different sequences one comes before the other.
pub proof fn lemma_bytes_lt_total(a: Seq<u8>, b: Seq<u8>)
    ensures
        bytes_lt(a, b) || bytes_lt(b, a) || a == b,
{
    lemma_mismatch(a, b, 0);
    let m = mismatch(a, b, 0);
    lemma_mismatch_is(b, a, m);
    if !bytes_lt(a, b) && !bytes_lt(b, a) {
        assert(a =~= b);
    }
}

/// The order of byte sequences is transitive.
pub proof fn lemma_bytes_lt_transitive(a: Seq<u8>, b: Seq<u8>, c: Seq<u8>)
    requires
        bytes_lt(a, b),
        bytes_lt(b, c),
    ensures
        bytes_lt(a, c),
{
    lemma_mismatch(a, b, 0);
    lemma_mismatch(b, c, 0);
    let m1 = mismatch(a, b, 0);
    let m2 = mismatch(b, c, 0);
    let m = if m1 <= m2 {
        m1
    } else {
        m2
    };
    lemma_mismatch_is(a, c, m);
}

/// Two strings with the same UTF-8 bytes are the same string.
pub proof fn lemma_encoding_injective(a: Seq<char>, b: Seq<char>)
    requires
        encode_utf8(a) == encode_utf8(b),
    ensures
        a == b,
{
    encode_utf8_decode_utf8(a);
    encode_utf8_decode_utf8(b);
}

/// The order of keys is a strict total order: irreflexive, asymmetric, and
/// deciding between any two different keys.
pub proof fn lemma_key_lt_total(a: Seq<char>, b: Seq<char>)
    ensures
        !(key_lt(a, b) && key_lt(b, a)),
        !key_lt(a, a),
        key_lt(a, b) || key_lt(b, a) || a == b,
{
    lemma_bytes_lt_asymmetric(encode_utf8(a), encode_utf8(b));
    lemma_bytes_lt_asymmetric(encode_utf8(a), encode_utf8(a));
    lemma_bytes_lt_total(encode_utf8(a), encode_utf8(b));
    if encode_utf8(a) == encode_utf8(b) {
        lemma_encoding_injective(a, b);
    }
}

/// The order of keys is transitive.
pub proof fn lemma_key_lt_transitive(a: Seq<char>, b: Seq<char>, c: Seq<char>)
    requires
        key_lt(a, b),
        key_lt(b, c),
    ensures
        key_lt(a, c),
{
    lemma_bytes_lt_transitive(encode_utf8(a), encode_utf8(b), encode_utf8(c));
}

/// Ranks `a` against `b`.
pub fn key_order(a: &str, b: &str) -> (r: Order)
    ensures
        r == Order::Less <==> key_lt(a@, b@),
        r == Order::Greater <==> key_lt(b@, a@),
        r == Order::Equal <==> a@ == b@,
{
    let x = a.as_bytes();
    let y = b.as_bytes();
    let mut i: usize = 0;
    while i < x.len() && i < y.len() && x[i] == y[i]
        invariant
            i <= x@.len(),
            i <= y@.len(),
            mismatch(x@, y@, 0) == mismatch(x@, y@, i as int),
        decreases x@.len() - i,
    {
        i += 1;
    }
    proof {
        lemma_mismatch(x@, y@, 0);
        lemma_mismatch_is(y@, x@, i as int);
        lemma_key_lt_total(a@, b@);
        if a@ == b@ {
            assert(x@ == y@);
        }
    }
    if i < y.len() {
        if i >= x.len() || x[i] < y[i] {
            Order::Less
        } else {
            Order::Greater
        }
    } else if i < x.len() {
        Order::Greater
    } else {
        Order::Equal
    }
}

} // verus!
