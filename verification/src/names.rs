//! The order of names: that of their bytes, read from the left.

use vstd::prelude::*;
use vstd::string::StringSliceAdditionalSpecFns;
use vstd::utf8::{encode_utf8, encode_utf8_decode_utf8};

verus! {

/// How one name stands to another.
#[derive(Clone, Copy, Debug, PartialEq, Eq, Structural)]
pub enum Rank {
    Before,
    Same,
    After,
}

/// The bytes by which a name is ordered.
pub open spec fn key(name: Seq<char>) -> Seq<u8> {
    encode_utf8(name)
}

/// `a` and `b` agree on their first `k` bytes and part there in favour of
/// `a`: `a` ends, or holds the smaller byte.
pub open spec fn parts_at(a: Seq<u8>, b: Seq<u8>, k: int) -> bool {
    &&& 0 <= k <= a.len()
    &&& k < b.len()
    &&& a.subrange(0, k) == b.subrange(0, k)
    &&& k < a.len() ==> a[k] < b[k]
}

/// `a` comes before `b`.
pub open spec fn before(a: Seq<u8>, b: Seq<u8>) -> bool {
    exists|k: int| parts_at(a, b, k)
}

/// Two byte strings part in at most one place and in one direction.
pub proof fn lemma_parts_once(a: Seq<u8>, b: Seq<u8>, k: int, m: int)
    requires
        parts_at(a, b, k),
    ensures
        !parts_at(b, a, m),
        a != b,
{
    if parts_at(b, a, m) {
        if m < k {
            assert(a.subrange(0, k)[m] == b.subrange(0, k)[m]);
        } else if k < m {
            assert(b.subrange(0, m)[k] == a.subrange(0, m)[k]);
        }
    }
}

/// No byte string comes before itself, and of two none comes before the
/// other both ways.
pub proof fn lemma_before_strict(a: Seq<u8>, b: Seq<u8>)
    requires
        before(a, b),
    ensures
        a != b,
        !before(b, a),
{
    let k = choose|k: int| parts_at(a, b, k);
    lemma_parts_once(a, b, k, 0);
    assert forall|m: int| !parts_at(b, a, m) by {
        lemma_parts_once(a, b, k, m);
    }
}

/// The order is transitive.
pub proof fn lemma_before_transitive(a: Seq<u8>, b: Seq<u8>, c: Seq<u8>)
    requires
        before(a, b),
        before(b, c),
    ensures
        before(a, c),
{
    let k = choose|k: int| parts_at(a, b, k);
    let m = choose|m: int| parts_at(b, c, m);
    let n = if k <= m {
        k
    } else {
        m
    };
    assert(a.subrange(0, n) =~= c.subrange(0, n)) by {
        assert forall|i: int| 0 <= i < n implies a[i] == c[i] by {
            assert(a.subrange(0, k)[i] == b.subrange(0, k)[i]);
            assert(b.subrange(0, m)[i] == c.subrange(0, m)[i]);
        }
    }
    if k < m {
        assert(b.subrange(0, m)[k] == c.subrange(0, m)[k]);
    } else if m < k {
        assert(a.subrange(0, k)[m] == b.subrange(0, k)[m]);
    }
    assert(parts_at(a, c, n));
}

/// Two names have the same bytes only when they are the same text.
pub proof fn lemma_key_injective(a: Seq<char>, b: Seq<char>)
    requires
        key(a) == key(b),
    ensures
        a == b,
{
    encode_utf8_decode_utf8(a);
    encode_utf8_decode_utf8(b);
}

/// Compares two names by their bytes.
pub fn rank(a: &str, b: &str) -> (res: Rank)
    ensures
        res == Rank::Before <==> before(key(a@), key(b@)),
        res == Rank::Same <==> a@ == b@,
        res == Rank::After <==> before(key(b@), key(a@)),
{
    let x = a.as_bytes();
    let y = b.as_bytes();
    let mut i: usize = 0;
    while i < x.len() && i < y.len() && x[i] == y[i]
        invariant
            i <= x@.len(),
            i <= y@.len(),
            x@.subrange(0, i as int) == y@.subrange(0, i as int),
        decreases x@.len() - i,
    {
        assert(x@.subrange(0, i + 1) =~= x@.subrange(0, i as int).push(x@[i as int]));
        assert(y@.subrange(0, i + 1) =~= y@.subrange(0, i as int).push(y@[i as int]));
        i += 1;
    }
    proof {
        if before(x@, y@) {
            lemma_before_strict(x@, y@);
        }
        if before(y@, x@) {
            lemma_before_strict(y@, x@);
        }
        if a@ == b@ {
            assert(x@ == y@);
        }
        if x@ == y@ {
            lemma_key_injective(a@, b@);
        }
    }
    if i == x.len() && i == y.len() {
        assert(x@ =~= x@.subrange(0, i as int));
        assert(y@ =~= y@.subrange(0, i as int));
        Rank::Same
    } else if i == x.len() {
        assert(parts_at(x@, y@, i as int));
        Rank::Before
    } else if i == y.len() {
        assert(parts_at(y@, x@, i as int));
        Rank::After
    } else if x[i] < y[i] {
        assert(parts_at(x@, y@, i as int));
        Rank::Before
    } else {
        assert(parts_at(y@, x@, i as int));
        Rank::After
    }
}

/// Whether two names are the same text.
pub fn same_text(a: &str, b: &str) -> (res: bool)
    ensures
        res == (a@ == b@),
{
    match rank(a, b) {
        Rank::Same => true,
        _ => false,
    }
}

} // verus!
