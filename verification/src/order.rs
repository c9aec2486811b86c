//! The order of state names: that of their UTF-8 bytes, in which `String`s
//! are ordered and a sorted map walks its keys.

use vstd::prelude::*;
use vstd::utf8::{decode_utf8, encode_utf8, encode_utf8_decode_utf8};

verus! {

/// Whether the first `k` bytes of `a` and of `b` are the same.
pub open spec fn common_prefix(a: Seq<u8>, b: Seq<u8>, k: int) -> bool {
    &&& 0 <= k <= a.len()
    &&& k <= b.len()
    &&& forall|i: int| 0 <= i < k ==> a[i] == b[i]
}

/// Whether `a` comes before `b` in lexicographic order: after a common
/// prefix, `a` ends and `b` goes on, or `a` goes on with the lesser byte.
pub open spec fn bytes_before(a: Seq<u8>, b: Seq<u8>) -> bool {
    exists|k: int| #[trigger]
        common_prefix(a, b, k) && k < b.len() && (k < a.len() ==> a[k] < b[k])
}

/// Whether the name `a` comes before the name `b`.
pub open spec fn name_before(a: Seq<char>, b: Seq<char>) -> bool {
    bytes_before(encode_utf8(a), encode_utf8(b))
}

proof fn lemma_bytes_comparable(a: Seq<u8>, b: Seq<u8>, k: int)
    requires
        common_prefix(a, b, k),
    ensures
        bytes_before(a, b) || a == b || bytes_before(b, a),
    decreases a.len() - k,
{
    if k == a.len() && k == b.len() {
        assert(a =~= b);
    } else if k == a.len() {
        assert(common_prefix(a, b, k) && k < b.len());
    } else if k == b.len() {
        assert(common_prefix(b, a, k) && k < a.len());
    } else if a[k] < b[k] {
        assert(common_prefix(a, b, k) && k < b.len());
    } else if b[k] < a[k] {
        assert(common_prefix(b, a, k) && k < a.len());
    } else {
        assert(common_prefix(a, b, k + 1));
        lemma_bytes_comparable(a, b, k + 1);
    }
}

proof fn lemma_bytes_one_way(a: Seq<u8>, b: Seq<u8>)
    requires
        bytes_before(a, b),
    ensures
        a != b,
        !bytes_before(b, a),
{
    let k = choose|k: int| #[trigger]
        common_prefix(a, b, k) && k < b.len() && (k < a.len() ==> a[k] < b[k]);
    if bytes_before(b, a) {
        let m = choose|m: int| #[trigger]
            common_prefix(b, a, m) && m < a.len() && (m < b.len() ==> b[m] < a[m]);
        if k < m {
            assert(b[k] == a[k]);
        } else if m < k {
            assert(a[m] == b[m]);
        }
    }
}

proof fn lemma_bytes_transitive(a: Seq<u8>, b: Seq<u8>, c: Seq<u8>)
    requires
        bytes_before(a, b),
        bytes_before(b, c),
    ensures
        bytes_before(a, c),
{
    let k = choose|k: int| #[trigger]
        common_prefix(a, b, k) && k < b.len() && (k < a.len() ==> a[k] < b[k]);
    let m = choose|m: int| #[trigger]
        common_prefix(b, c, m) && m < c.len() && (m < b.len() ==> b[m] < c[m]);
    if k <= m {
        assert(common_prefix(a, c, k));
        if k < m {
            assert(b[k] == c[k]);
        }
    } else {
        assert(common_prefix(a, c, m));
        assert(a[m] == b[m]);
    }
}

/// The order of names is a strict total order.
pub proof fn lemma_name_order(a: Seq<char>, b: Seq<char>, c: Seq<char>)
    ensures
        !name_before(a, a),
        name_before(a, b) ==> !name_before(b, a),
        name_before(a, b) && name_before(b, c) ==> name_before(a, c),
        name_before(a, b) || a == b || name_before(b, a),
{
    let x = encode_utf8(a);
    let y = encode_utf8(b);
    let z = encode_utf8(c);
    if name_before(a, a) {
        lemma_bytes_one_way(x, x);
    }
    if name_before(a, b) {
        lemma_bytes_one_way(x, y);
        if name_before(b, c) {
            lemma_bytes_transitive(x, y, z);
        }
    }
    assert(common_prefix(x, y, 0));
    lemma_bytes_comparable(x, y, 0);
    if x == y {
        encode_utf8_decode_utf8(a);
        encode_utf8_decode_utf8(b);
        assert(decode_utf8(x) == a);
        assert(decode_utf8(y) == b);
    }
}

/// Whether the name `a` comes before the name `b`.
pub fn name_precedes(a: &String, b: &String) -> (r: bool)
    ensures
        r == name_before(a@, b@),
{
    let x = a.as_str().as_bytes();
    let y = b.as_str().as_bytes();
    let mut i: usize = 0;
    while i < x.len() && i < y.len()
        invariant
            common_prefix(x@, y@, i as int),
            x@ == encode_utf8(a@),
            y@ == encode_utf8(b@),
        decreases x@.len() - i,
    {
        if x[i] != y[i] {
            proof {
                if x[i as int] < y[i as int] {
                    assert(common_prefix(x@, y@, i as int) && i < y@.len());
                } else {
                    assert(common_prefix(y@, x@, i as int) && i < x@.len());
                    lemma_bytes_one_way(y@, x@);
                }
            }
            return x[i] < y[i];
        }
        i += 1;
    }
    proof {
        if x@.len() < y@.len() {
            assert(common_prefix(x@, y@, i as int) && i < y@.len());
        } else if y@.len() < x@.len() {
            assert(common_prefix(y@, x@, i as int) && i < x@.len());
            lemma_bytes_one_way(y@, x@);
        } else {
            assert(x@ =~= y@);
            if bytes_before(x@, y@) {
                lemma_bytes_one_way(x@, y@);
            }
        }
    }
    x.len() < y.len()
}

} // verus!
