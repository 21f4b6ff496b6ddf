//! Ordering and equality of strings by their UTF-8 bytes, the order of `str`.
use vstd::prelude::*;
use vstd::utf8::*;

verus! {

/// Strict lexicographic order on byte sequences; a proper prefix comes first.
pub open spec fn bytes_lt(a: Seq<u8>, b: Seq<u8>) -> bool
    decreases a.len(),
{
    if a.len() == 0 {
        b.len() > 0
    } else if b.len() == 0 {
        false
    } else if a[0] != b[0] {
        a[0] < b[0]
    } else {
        bytes_lt(a.drop_first(), b.drop_first())
    }
}

/// Strict order on strings: the order of their UTF-8 encodings, as `str` orders.
pub open spec fn name_lt(a: Seq<char>, b: Seq<char>) -> bool {
    bytes_lt(encode_utf8(a), encode_utf8(b))
}

/// Result of comparing two strings.
#[derive(Clone, Copy, Debug, PartialEq, Eq, Structural)]
pub enum Order {
    Less,
    Equal,
    Greater,
}

/// No byte sequence comes before itself.
pub proof fn lemma_bytes_lt_irreflexive(a: Seq<u8>)
    ensures
        !bytes_lt(a, a),
    decreases a.len(),
{
    if a.len() > 0 {
        lemma_bytes_lt_irreflexive(a.drop_first());
    }
}

/// Of two byte sequences, at most one comes before the other.
pub proof fn lemma_bytes_lt_asymmetric(a: Seq<u8>, b: Seq<u8>)
    ensures
        bytes_lt(a, b) ==> !bytes_lt(b, a),
    decreases a.len(),
{
    if a.len() > 0 && b.len() > 0 && a[0] == b[0] {
        lemma_bytes_lt_asymmetric(a.drop_first(), b.drop_first());
    }
}

/// Of two different byte sequences, one comes before the other.
pub proof fn lemma_bytes_lt_total(a: Seq<u8>, b: Seq<u8>)
    ensures
        a != b ==> bytes_lt(a, b) || bytes_lt(b, a),
    decreases a.len(),
{
    if a.len() > 0 && b.len() > 0 && a[0] == b[0] {
        lemma_bytes_lt_total(a.drop_first(), b.drop_first());
        if a.drop_first() == b.drop_first() {
            assert(a =~= seq![a[0]] + a.drop_first());
            assert(b =~= seq![b[0]] + b.drop_first());
        }
    } else if a.len() == 0 && b.len() == 0 {
        assert(a =~= b);
    }
}

/// The order of byte sequences is transitive.
pub proof fn lemma_bytes_lt_transitive(a: Seq<u8>, b: Seq<u8>, c: Seq<u8>)
    requires
        bytes_lt(a, b),
        bytes_lt(b, c),
    ensures
        bytes_lt(a, c),
    decreases a.len(),
{
    if a.len() > 0 && b.len() > 0 && c.len() > 0 && a[0] == b[0] && b[0] == c[0] {
        lemma_bytes_lt_transitive(a.drop_first(), b.drop_first(), c.drop_first());
    }
}

/// Equal encodings mean equal strings.
pub proof fn lemma_encode_injective(a: Seq<char>, b: Seq<char>)
    requires
        encode_utf8(a) == encode_utf8(b),
    ensures
        a == b,
{
    encode_utf8_decode_utf8(a);
    encode_utf8_decode_utf8(b);
}

/// `name_lt` is a strict total order.
pub proof fn lemma_name_order(a: Seq<char>, b: Seq<char>, c: Seq<char>)
    ensures
        !name_lt(a, a),
        name_lt(a, b) ==> !name_lt(b, a),
        a != b ==> name_lt(a, b) || name_lt(b, a),
        name_lt(a, b) && name_lt(b, c) ==> name_lt(a, c),
{
    lemma_bytes_lt_irreflexive(encode_utf8(a));
    lemma_bytes_lt_asymmetric(encode_utf8(a), encode_utf8(b));
    lemma_bytes_lt_total(encode_utf8(a), encode_utf8(b));
    if encode_utf8(a) == encode_utf8(b) {
        lemma_encode_injective(a, b);
    }
    if name_lt(a, b) && name_lt(b, c) {
        lemma_bytes_lt_transitive(encode_utf8(a), encode_utf8(b), encode_utf8(c));
    }
}

/// After a common prefix, the order is decided by what follows it.
proof fn lemma_bytes_lt_skip(a: Seq<u8>, b: Seq<u8>, k: int)
    requires
        0 <= k <= a.len(),
        k <= b.len(),
        a.subrange(0, k) == b.subrange(0, k),
    ensures
        bytes_lt(a, b) == bytes_lt(a.skip(k), b.skip(k)),
    decreases k,
{
    if k > 0 {
        assert(a[0] == a.subrange(0, k)[0]);
        assert(b[0] == b.subrange(0, k)[0]);
        assert(a.drop_first().subrange(0, k - 1) =~= a.subrange(0, k).drop_first());
        assert(b.drop_first().subrange(0, k - 1) =~= b.subrange(0, k).drop_first());
        lemma_bytes_lt_skip(a.drop_first(), b.drop_first(), k - 1);
        assert(a.drop_first().skip(k - 1) =~= a.skip(k));
        assert(b.drop_first().skip(k - 1) =~= b.skip(k));
    } else {
        assert(a.skip(0) =~= a);
        assert(b.skip(0) =~= b);
    }
}

/// The order of byte sequences is the lexicographic one: `a` comes before `b` exactly
/// when, after their longest common prefix, `a` has ended while `b` goes on, or the next
/// byte of `a` is smaller than that of `b`.
pub proof fn law_bytes_lt_is_lexicographic(a: Seq<u8>, b: Seq<u8>)
    ensures
        bytes_lt(a, b) <==> exists|i: int| {
            &&& 0 <= i <= a.len()
            &&& i <= b.len()
            &&& #[trigger] a.take(i) == b.take(i)
            &&& ((i == a.len() && i < b.len()) || (i < a.len() && i < b.len() && a[i] < b[i]))
        },
    decreases a.len(),
{
    if a.len() > 0 && b.len() > 0 && a[0] == b[0] {
        let a1 = a.drop_first();
        let b1 = b.drop_first();
        law_bytes_lt_is_lexicographic(a1, b1);
        if bytes_lt(a, b) {
            let j = choose|j: int| {
                &&& 0 <= j <= a1.len()
                &&& j <= b1.len()
                &&& #[trigger] a1.take(j) == b1.take(j)
                &&& ((j == a1.len() && j < b1.len()) || (j < a1.len() && j < b1.len() && a1[j] < b1[j]))
            };
            assert(a.take(j + 1) =~= seq![a[0]] + a1.take(j));
            assert(b.take(j + 1) =~= seq![b[0]] + b1.take(j));
        }
        if exists|i: int| {
            &&& 0 <= i <= a.len()
            &&& i <= b.len()
            &&& #[trigger] a.take(i) == b.take(i)
            &&& ((i == a.len() && i < b.len()) || (i < a.len() && i < b.len() && a[i] < b[i]))
        } {
            let i = choose|i: int| {
                &&& 0 <= i <= a.len()
                &&& i <= b.len()
                &&& #[trigger] a.take(i) == b.take(i)
                &&& ((i == a.len() && i < b.len()) || (i < a.len() && i < b.len() && a[i] < b[i]))
            };
            assert(i >= 1);
            assert(a1.take(i - 1) =~= a.take(i).drop_first());
            assert(b1.take(i - 1) =~= b.take(i).drop_first());
            assert(a1.take(i - 1) == b1.take(i - 1));
        }
    } else {
        if a.len() == 0 && b.len() > 0 {
            assert(a.take(0) =~= b.take(0));
        } else if a.len() > 0 && b.len() > 0 {
            assert(a.take(0) =~= b.take(0));
            if exists|i: int| {
                &&& 0 <= i <= a.len()
                &&& i <= b.len()
                &&& #[trigger] a.take(i) == b.take(i)
                &&& ((i == a.len() && i < b.len()) || (i < a.len() && i < b.len() && a[i] < b[i]))
            } {
                let i = choose|i: int| {
                    &&& 0 <= i <= a.len()
                    &&& i <= b.len()
                    &&& #[trigger] a.take(i) == b.take(i)
                    &&& ((i == a.len() && i < b.len()) || (i < a.len() && i < b.len() && a[i] < b[i]))
                };
                if i > 0 {
                    assert(a.take(i)[0] == b.take(i)[0]);
                }
            }
        }
    }
}

/// Compares two byte slices lexicographically.
pub fn compare_bytes(a: &[u8], b: &[u8]) -> (r: Order)
    ensures
        r == Order::Less <==> bytes_lt(a@, b@),
        r == Order::Equal <==> a@ == b@,
        r == Order::Greater <==> bytes_lt(b@, a@),
{
    let mut k: usize = 0;
    while k < a.len() && k < b.len()
        invariant
            k <= a@.len(),
            k <= b@.len(),
            a@.subrange(0, k as int) == b@.subrange(0, k as int),
        decreases a@.len() - k,
    {
        if a[k] != b[k] {
            proof {
                lemma_bytes_lt_skip(a@, b@, k as int);
                lemma_bytes_lt_skip(b@, a@, k as int);
                assert(a@.skip(k as int)[0] == a@[k as int]);
                assert(b@.skip(k as int)[0] == b@[k as int]);
                assert(a@[k as int] != b@[k as int]);
            }
            if a[k] < b[k] {
                return Order::Less;
            } else {
                return Order::Greater;
            }
        }
        proof {
            assert(a@.subrange(0, k + 1) =~= a@.subrange(0, k as int).push(a@[k as int]));
            assert(b@.subrange(0, k + 1) =~= b@.subrange(0, k as int).push(b@[k as int]));
        }
        k = k + 1;
    }
    proof {
        lemma_bytes_lt_skip(a@, b@, k as int);
        lemma_bytes_lt_skip(b@, a@, k as int);
        lemma_bytes_lt_irreflexive(a@);
    }
    if a.len() == b.len() {
        proof {
            assert(a@ =~= a@.subrange(0, k as int));
            assert(b@ =~= b@.subrange(0, k as int));
        }
        Order::Equal
    } else if k == a.len() {
        proof {
            assert(a@.skip(k as int).len() == 0);
            assert(a@ != b@);
        }
        Order::Less
    } else {
        proof {
            assert(b@.skip(k as int).len() == 0);
            assert(a@ != b@);
        }
        Order::Greater
    }
}

/// Compares two strings in the order of `str`.
pub fn compare_str(a: &str, b: &str) -> (r: Order)
    ensures
        r == Order::Less <==> name_lt(a@, b@),
        r == Order::Equal <==> a@ == b@,
        r == Order::Greater <==> name_lt(b@, a@),
{
    let r = compare_bytes(a.as_bytes(), b.as_bytes());
    proof {
        if encode_utf8(a@) == encode_utf8(b@) {
            lemma_encode_injective(a@, b@);
        }
    }
    r
}

/// Whether two strings are equal.
pub fn str_eq(a: &str, b: &str) -> (r: bool)
    ensures
        r <==> a@ == b@,
{
    match compare_str(a, b) {
        Order::Equal => true,
        _ => false,
    }
}

} // verus!
