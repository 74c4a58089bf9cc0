//! Byte-string ordering and an in-memory merge sort.
//!
//! Names and paths are ordered by their UTF-8 bytes, lexicographically,
//! which is how `str` compares. The sort takes any type with a total
//! preorder and returns a sorted permutation of its input.

use vstd::prelude::*;
use vstd::utf8::encode_utf8;

verus! {

/// `a` sorts strictly before `b` in lexicographic byte order.
pub open spec fn bytes_lt(a: Seq<u8>, b: Seq<u8>) -> bool
    decreases a.len(),
{
    if b.len() == 0 {
        false
    } else if a.len() == 0 {
        true
    } else if a[0] != b[0] {
        a[0] < b[0]
    } else {
        bytes_lt(a.drop_first(), b.drop_first())
    }
}

/// `a` sorts at or before `b` in lexicographic byte order.
pub open spec fn bytes_le(a: Seq<u8>, b: Seq<u8>) -> bool {
    !bytes_lt(b, a)
}

pub proof fn lemma_bytes_lt_irreflexive(a: Seq<u8>)
    ensures
        !bytes_lt(a, a),
    decreases a.len(),
{
    if a.len() > 0 {
        lemma_bytes_lt_irreflexive(a.drop_first());
    }
}

pub proof fn lemma_bytes_lt_transitive(a: Seq<u8>, b: Seq<u8>, c: Seq<u8>)
    requires
        bytes_lt(a, b),
        bytes_lt(b, c),
    ensures
        bytes_lt(a, c),
    decreases a.len(),
{
    if a.len() > 0 && b.len() > 0 && c.len() > 0 && a[0] == b[0] && b[0] == c[0] {
        lemma_bytes_lt_transitive(a.drop_first(), b.drop_first(), c.drop_first());
    }
}

pub proof fn lemma_bytes_lt_total(a: Seq<u8>, b: Seq<u8>)
    ensures
        a =~= b || bytes_lt(a, b) || bytes_lt(b, a),
    decreases a.len(),
{
    if a.len() > 0 && b.len() > 0 && a[0] == b[0] {
        lemma_bytes_lt_total(a.drop_first(), b.drop_first());
        if a.drop_first() =~= b.drop_first() {
            assert(a =~= b) by {
                assert forall|i: int| 0 <= i < a.len() implies a[i] == b[i] by {
                    if i > 0 {
                        assert(a[i] == a.drop_first()[i - 1]);
                        assert(b[i] == b.drop_first()[i - 1]);
                    }
                }
            }
        }
    }
}

/// `bytes_le` is a total preorder (indeed a total order on byte strings).
pub proof fn lemma_bytes_le_total_preorder(a: Seq<u8>, b: Seq<u8>, c: Seq<u8>)
    ensures
        bytes_le(a, a),
        bytes_le(a, b) || bytes_le(b, a),
        bytes_le(a, b) && bytes_le(b, c) ==> bytes_le(a, c),
        bytes_le(a, b) && bytes_le(b, a) ==> a =~= b,
{
    lemma_bytes_lt_irreflexive(a);
    lemma_bytes_lt_total(a, b);
    if bytes_lt(a, b) && bytes_lt(b, a) {
        lemma_bytes_lt_transitive(a, b, a);
    }
    if bytes_le(a, b) && bytes_le(b, c) && bytes_lt(c, a) {
        // `a` is equal to `b`, or before it.
        if a =~= b {
            assert(bytes_lt(c, b));
        } else {
            assert(bytes_lt(a, b));
            lemma_bytes_lt_transitive(c, a, b);
        }
    }
}

/// Whether `a` sorts strictly before `b` (`str`'s `<` on the same bytes).
pub fn bytes_less(a: &[u8], b: &[u8]) -> (r: bool)
    ensures
        r == bytes_lt(a@, b@),
{
    let mut i: usize = 0;
    assert(a@.subrange(0, a@.len() as int) =~= a@);
    assert(b@.subrange(0, b@.len() as int) =~= b@);
    while i < a.len() && i < b.len()
        invariant
            i <= a@.len(),
            i <= b@.len(),
            bytes_lt(a@, b@) == bytes_lt(a@.subrange(i as int, a@.len() as int), b@.subrange(i as int, b@.len() as int)),
        decreases a@.len() - i,
    {
        let ghost sa = a@.subrange(i as int, a@.len() as int);
        let ghost sb = b@.subrange(i as int, b@.len() as int);
        if a[i] != b[i] {
            assert(sa[0] == a@[i as int] && sb[0] == b@[i as int]);
            return a[i] < b[i];
        }
        assert(sa.drop_first() =~= a@.subrange(i + 1, a@.len() as int));
        assert(sb.drop_first() =~= b@.subrange(i + 1, b@.len() as int));
        i = i + 1;
    }
    i < b.len()
}

/// A type sorted by a total preorder.
pub trait Sortable: Sized {
    /// `a` may sort at or before `b`.
    spec fn sorts_before(a: Self, b: Self) -> bool;

    proof fn lemma_sorts_before_total(a: Self, b: Self)
        ensures
            Self::sorts_before(a, b) || Self::sorts_before(b, a),
    ;

    proof fn lemma_sorts_before_transitive(a: Self, b: Self, c: Self)
        requires
            Self::sorts_before(a, b),
            Self::sorts_before(b, c),
        ensures
            Self::sorts_before(a, c),
    ;

    fn sorts_before_exec(&self, other: &Self) -> (r: bool)
        ensures
            r == Self::sorts_before(*self, *other),
    ;
}

/// `s` is in non-decreasing order.
pub open spec fn is_sorted<T: Sortable>(s: Seq<T>) -> bool {
    forall|i: int, j: int| 0 <= i < j < s.len() ==> #[trigger] T::sorts_before(s[i], s[j])
}

/// `v` with its elements in reverse order.
fn reversed<T>(v: Vec<T>) -> (r: Vec<T>)
    ensures
        r@ == v@.reverse(),
{
    let mut v = v;
    let ghost orig = v@;
    let mut out: Vec<T> = Vec::new();
    while v.len() > 0
        invariant
            orig.len() == v@.len() + out@.len(),
            v@ == orig.subrange(0, v@.len() as int),
            out@ == orig.subrange(v@.len() as int, orig.len() as int).reverse(),
        decreases v@.len(),
    {
        let x = v.pop().unwrap();
        out.push(x);
        assert(out@ =~= orig.subrange(v@.len() as int, orig.len() as int).reverse());
    }
    assert(out@ =~= orig.reverse());
    out
}

proof fn lemma_multiset_split<T>(s: Seq<T>, k: int)
    requires
        0 <= k <= s.len(),
    ensures
        s.to_multiset() == s.subrange(0, k).to_multiset().add(s.subrange(k, s.len() as int).to_multiset()),
{
    vstd::seq_lib::lemma_multiset_commutative(s.subrange(0, k), s.subrange(k, s.len() as int));
    assert(s.subrange(0, k) + s.subrange(k, s.len() as int) =~= s);
}

/// Merges two sorted vectors into one sorted vector holding both.
fn merge<T: Sortable>(a: Vec<T>, b: Vec<T>) -> (r: Vec<T>)
    requires
        is_sorted(a@),
        is_sorted(b@),
    ensures
        is_sorted(r@),
        r@.to_multiset() == a@.to_multiset().add(b@.to_multiset()),
{
    broadcast use vstd::seq_lib::group_to_multiset_ensures;
    broadcast use vstd::multiset::group_multiset_axioms;

    let ghost total = a@.to_multiset().add(b@.to_multiset());
    let ghost ra0 = a@;
    let ghost rb0 = b@;
    proof {
        ra0.lemma_reverse_to_multiset();
        rb0.lemma_reverse_to_multiset();
    }
    let mut ra = reversed(a);
    let mut rb = reversed(b);
    let mut out: Vec<T> = Vec::new();
    while ra.len() > 0 || rb.len() > 0
        invariant
            is_sorted(out@),
            is_sorted(ra@.reverse()),
            is_sorted(rb@.reverse()),
            out@.to_multiset().add(ra@.to_multiset()).add(rb@.to_multiset()) == total,
            out@.len() > 0 ==> forall|k: int| 0 <= k < ra@.len() ==> T::sorts_before(out@.last(), #[trigger] ra@[k]),
            out@.len() > 0 ==> forall|k: int| 0 <= k < rb@.len() ==> T::sorts_before(out@.last(), #[trigger] rb@[k]),
        decreases ra@.len() + rb@.len(),
    {
        let ghost pra = ra@;
        let ghost prb = rb@;
        let ghost pout = out@;
        // The last element of a reversed sorted sequence is its least.
        proof {
            assert forall|k: int| 0 <= k < pra.len() implies T::sorts_before(pra.last(), #[trigger] pra[k]) by {
                let rv = pra.reverse();
                if k < pra.len() - 1 {
                    assert(rv[0] == pra.last());
                    assert(rv[pra.len() - 1 - k] == pra[k]);
                } else {
                    T::lemma_sorts_before_total(pra[k], pra[k]);
                }
            }
            assert forall|k: int| 0 <= k < prb.len() implies T::sorts_before(prb.last(), #[trigger] prb[k]) by {
                let rv = prb.reverse();
                if k < prb.len() - 1 {
                    assert(rv[0] == prb.last());
                    assert(rv[prb.len() - 1 - k] == prb[k]);
                } else {
                    T::lemma_sorts_before_total(prb[k], prb[k]);
                }
            }
        }
        let take_a = if ra.len() == 0 {
            false
        } else if rb.len() == 0 {
            true
        } else {
            let la = ra.len() - 1;
            let lb = rb.len() - 1;
            ra[la].sorts_before_exec(&rb[lb])
        };
        let x = if take_a {
            ra.pop().unwrap()
        } else {
            rb.pop().unwrap()
        };
        proof {
            if take_a {
                assert(pra =~= ra@.push(x));
                assert(ra@.reverse() =~= pra.reverse().subrange(1, pra.len() as int));
                if prb.len() > 0 {
                    T::lemma_sorts_before_total(x, prb.last());
                }
            } else {
                assert(prb =~= rb@.push(x));
                assert(rb@.reverse() =~= prb.reverse().subrange(1, prb.len() as int));
                if pra.len() > 0 {
                    T::lemma_sorts_before_total(x, pra.last());
                }
            }
        }
        out.push(x);
        proof {
            assert forall|i: int, j: int| 0 <= i < j < out@.len() implies #[trigger] T::sorts_before(
                out@[i],
                out@[j],
            ) by {
                if j == out@.len() - 1 {
                    if i < pout.len() - 1 {
                        T::lemma_sorts_before_transitive(out@[i], pout.last(), x);
                    }
                } else {
                    assert(out@[i] == pout[i] && out@[j] == pout[j]);
                }
            }
            assert forall|k: int| 0 <= k < ra@.len() implies T::sorts_before(out@.last(), #[trigger] ra@[k]) by {
                assert(ra@[k] == pra[k]);
                if take_a {
                } else {
                    T::lemma_sorts_before_transitive(x, pra.last(), pra[k]);
                }
            }
            assert forall|k: int| 0 <= k < rb@.len() implies T::sorts_before(out@.last(), #[trigger] rb@[k]) by {
                assert(rb@[k] == prb[k]);
                if take_a {
                    T::lemma_sorts_before_transitive(x, prb.last(), prb[k]);
                }
            }
            assert(out@ == pout.push(x));
            vstd::seq_lib::to_multiset_build(pout, x);
            if take_a {
                vstd::seq_lib::to_multiset_build(ra@, x);
                assert(pra == ra@.push(x));
                assert(prb == rb@);
            } else {
                vstd::seq_lib::to_multiset_build(rb@, x);
                assert(prb == rb@.push(x));
                assert(pra == ra@);
            }
            assert(out@.to_multiset().add(ra@.to_multiset()).add(rb@.to_multiset()) =~= total);
        }
    }
    proof {
        broadcast use vstd::multiset::lemma_multiset_empty_len;

        assert(ra@.to_multiset().len() == 0);
        assert(rb@.to_multiset().len() == 0);
        assert(ra@.to_multiset() =~= vstd::multiset::Multiset::empty());
        assert(rb@.to_multiset() =~= vstd::multiset::Multiset::empty());
    }
    assert(out@.to_multiset() =~= total);
    out
}

/// Sorts `v` into non-decreasing order; the result is a permutation of
/// `v`.
pub fn merge_sort<T: Sortable>(v: Vec<T>) -> (r: Vec<T>)
    ensures
        is_sorted(r@),
        r@.to_multiset() == v@.to_multiset(),
    decreases v@.len(),
{
    let mut v = v;
    let n = v.len();
    if n <= 1 {
        return v;
    }
    let ghost orig = v@;
    let right = v.split_off(n / 2);
    proof {
        lemma_multiset_split(orig, (n / 2) as int);
        assert(v@ =~= orig.subrange(0, (n / 2) as int));
        assert(right@ =~= orig.subrange((n / 2) as int, n as int));
    }
    let left_sorted = merge_sort(v);
    let right_sorted = merge_sort(right);
    merge(left_sorted, right_sorted)
}

impl Sortable for u64 {
    open spec fn sorts_before(a: u64, b: u64) -> bool {
        a <= b
    }

    proof fn lemma_sorts_before_total(a: u64, b: u64) {
    }

    proof fn lemma_sorts_before_transitive(a: u64, b: u64, c: u64) {
    }

    fn sorts_before_exec(&self, other: &u64) -> (r: bool) {
        *self <= *other
    }
}

impl Sortable for String {
    open spec fn sorts_before(a: String, b: String) -> bool {
        bytes_le(encode_utf8(a@), encode_utf8(b@))
    }

    proof fn lemma_sorts_before_total(a: String, b: String) {
        lemma_bytes_le_total_preorder(encode_utf8(a@), encode_utf8(b@), encode_utf8(b@));
    }

    proof fn lemma_sorts_before_transitive(a: String, b: String, c: String) {
        lemma_bytes_le_total_preorder(encode_utf8(a@), encode_utf8(b@), encode_utf8(c@));
    }

    fn sorts_before_exec(&self, other: &String) -> (r: bool) {
        !bytes_less(other.as_str().as_bytes(), self.as_str().as_bytes())
    }
}

} // verus!
