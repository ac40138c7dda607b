//! The order of chromosome names.

use vstd::prelude::*;
use vstd::string::*;
use vstd::utf8::{encode_utf8, encode_utf8_decode_utf8};

verus! {

/// The byte strings `a` and `b` hold the same bytes before index `k`.
pub open spec fn agree_before(a: Seq<u8>, b: Seq<u8>, k: int) -> bool {
    &&& 0 <= k <= a.len()
    &&& k <= b.len()
    &&& forall|j: int| 0 <= j < k ==> a[j] == b[j]
}

/// `a` comes before `b` in the order of the dictionary: where they first
/// differ `a` has the smaller byte, or `a` ends there and `b` goes on.
pub open spec fn bytes_before(a: Seq<u8>, b: Seq<u8>) -> bool {
    exists|k: int|
        #[trigger] agree_before(a, b, k) && (if k == a.len() {
            k < b.len()
        } else {
            k < b.len() && a[k] < b[k]
        })
}

/// The name `a` comes before the name `b`: the order of their UTF-8
/// encodings, which is the order of `str`.
pub open spec fn name_before(a: Seq<char>, b: Seq<char>) -> bool {
    bytes_before(encode_utf8(a), encode_utf8(b))
}

/// The order of byte strings is transitive.
pub proof fn lemma_bytes_before_transitive(a: Seq<u8>, b: Seq<u8>, c: Seq<u8>)
    requires
        bytes_before(a, b),
        bytes_before(b, c),
    ensures
        bytes_before(a, c),
{
    let k = choose|k: int|
        #[trigger] agree_before(a, b, k) && (if k == a.len() {
            k < b.len()
        } else {
            k < b.len() && a[k] < b[k]
        });
    let m = choose|m: int|
        #[trigger] agree_before(b, c, m) && (if m == b.len() {
            m < c.len()
        } else {
            m < c.len() && b[m] < c[m]
        });
    let n = if k <= m {
        k
    } else {
        m
    };
    assert(agree_before(a, c, n));
}

/// Names with the same encoding are the same name.
pub proof fn lemma_name_of_bytes(a: Seq<char>, b: Seq<char>)
    requires
        encode_utf8(a) == encode_utf8(b),
    ensures
        a == b,
{
    encode_utf8_decode_utf8(a);
    encode_utf8_decode_utf8(b);
}

/// No name comes before itself, and of two names that differ only one
/// comes before the other.
pub proof fn lemma_name_before_asymmetric(a: Seq<char>, b: Seq<char>)
    requires
        name_before(a, b),
    ensures
        a != b,
        !name_before(b, a),
{
}

/// The order of names is transitive.
pub proof fn lemma_name_before_transitive(a: Seq<char>, b: Seq<char>, c: Seq<char>)
    requires
        name_before(a, b),
        name_before(b, c),
    ensures
        name_before(a, c),
{
    lemma_bytes_before_transitive(encode_utf8(a), encode_utf8(b), encode_utf8(c));
}

/// How one name stands to another.
#[derive(Clone, Copy, Debug, PartialEq, Eq, Structural)]
pub enum NameOrder {
    Before,
    Same,
    After,
}

/// Tells how the name `a` stands to the name `b`.
pub fn order_of_names(a: &String, b: &String) -> (r: NameOrder)
    ensures
        r == NameOrder::Before <==> name_before(a@, b@),
        r == NameOrder::Same <==> a@ == b@,
        r == NameOrder::After <==> name_before(b@, a@),
{
    let x = a.as_str().as_bytes();
    let y = b.as_str().as_bytes();
    let mut i: usize = 0;
    while i < x.len() && i < y.len()
        invariant
            i <= x.len(),
            i <= y.len(),
            x@ == encode_utf8(a@),
            y@ == encode_utf8(b@),
            agree_before(x@, y@, i as int),
        decreases x.len() - i,
    {
        if x[i] < y[i] {
            return NameOrder::Before;
        }
        if x[i] > y[i] {
            proof {
                assert(agree_before(y@, x@, i as int));
            }
            return NameOrder::After;
        }
        i += 1;
    }
    if i < y.len() {
        NameOrder::Before
    } else if i < x.len() {
        proof {
            assert(agree_before(y@, x@, i as int));
        }
        NameOrder::After
    } else {
        proof {
            assert(x@ =~= y@);
            lemma_name_of_bytes(a@, b@);
        }
        NameOrder::Same
    }
}

} // verus!
