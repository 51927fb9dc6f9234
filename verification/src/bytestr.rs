//! Helpers for opaque byte strings and for sequences of them: comparison,
//! copying, membership, and removal of every occurrence of one element.

use vstd::prelude::*;

verus! {

use vstd::slice::slice_to_vec;

broadcast use vstd::seq_lib::group_seq_properties;

/// A byte vector's deep view is its view.
pub broadcast proof fn lemma_bytes_deep_view(v: Vec<u8>)
    ensures
        #[trigger] v.deep_view() == v@,
{
    assert(v.deep_view() =~= v@);
}

/// No two elements of the sequence are equal.
pub open spec fn nodup<A>(s: Seq<A>) -> bool {
    forall|i: int, j: int| 0 <= i < j < s.len() ==> s[i] != s[j]
}

/// The sequence without every occurrence of `x`, order kept.
pub open spec fn seq_remove<A>(s: Seq<A>, x: A) -> Seq<A>
    decreases s.len(),
{
    if s.len() == 0 {
        Seq::empty()
    } else {
        let rest = seq_remove(s.drop_last(), x);
        if s.last() == x {
            rest
        } else {
            rest.push(s.last())
        }
    }
}

/// An element survives the removal exactly when it was there and is not the
/// removed one.
pub proof fn lemma_seq_remove_contains<A>(s: Seq<A>, x: A, y: A)
    ensures
        seq_remove(s, x).contains(y) <==> (s.contains(y) && y != x),
    decreases s.len(),
{
    broadcast use vstd::seq_lib::group_seq_properties;

    if s.len() > 0 {
        lemma_seq_remove_contains(s.drop_last(), x, y);
        assert(s.contains(y) <==> (s.drop_last().contains(y) || s.last() == y)) by {
            if s.contains(y) {
                let i = choose|i: int| 0 <= i < s.len() && s[i] == y;
                if i < s.len() - 1 {
                    assert(s.drop_last()[i] == y);
                    assert(s.drop_last().contains(y));
                }
            }
            if s.drop_last().contains(y) {
                let i = choose|i: int| 0 <= i < s.drop_last().len() && s.drop_last()[i] == y;
                assert(s[i] == y);
                assert(s.contains(y));
            }
            if s.last() == y {
                assert(s[s.len() - 1] == y);
                assert(s.contains(y));
            }
        }
    }
}

/// Removing an element that is not there changes nothing.
pub proof fn lemma_seq_remove_noop<A>(s: Seq<A>, x: A)
    requires
        !s.contains(x),
    ensures
        seq_remove(s, x) == s,
    decreases s.len(),
{
    broadcast use vstd::seq_lib::group_seq_properties;

    if s.len() > 0 {
        let d = s.drop_last();
        assert(!d.contains(x)) by {
            if d.contains(x) {
                let i = choose|i: int| 0 <= i < d.len() && d[i] == x;
                assert(s[i] == x);
                assert(s.contains(x));
            }
        }
        assert(s.last() != x) by {
            if s.last() == x {
                assert(s[s.len() - 1] == x);
                assert(s.contains(x));
            }
        }
        lemma_seq_remove_noop(d, x);
        assert(d.push(s.last()) =~= s);
    }
}

/// Removal keeps the elements pairwise distinct.
pub proof fn lemma_seq_remove_nodup<A>(s: Seq<A>, x: A)
    requires
        nodup(s),
    ensures
        nodup(seq_remove(s, x)),
    decreases s.len(),
{
    broadcast use vstd::seq_lib::group_seq_properties;

    if s.len() > 0 {
        assert(nodup(s.drop_last()));
        lemma_seq_remove_nodup(s.drop_last(), x);
        if s.last() != x {
            assert(!s.drop_last().contains(s.last())) by {
                if s.drop_last().contains(s.last()) {
                    let i = choose|i: int|
                        0 <= i < s.drop_last().len() && s.drop_last()[i] == s.last();
                    assert(s[i] == s[s.len() - 1]);
                }
            }
            lemma_seq_remove_contains(s.drop_last(), x, s.last());
            let rest = seq_remove(s.drop_last(), x);
            assert(forall|i: int|
                0 <= i < rest.len() ==> #[trigger] rest.push(s.last())[i] == rest[i]);
        }
    }
}

/// Compare two byte strings.
pub fn bytes_eq(a: &[u8], b: &[u8]) -> (r: bool)
    ensures
        r == (a@ == b@),
{
    if a.len() != b.len() {
        return false;
    }
    let mut i: usize = 0;
    while i < a.len()
        invariant
            a@.len() == b@.len(),
            i <= a@.len(),
            forall|j: int| 0 <= j < i ==> a@[j] == b@[j],
        decreases a@.len() - i,
    {
        if a[i] != b[i] {
            return false;
        }
        i = i + 1;
    }
    proof {
        assert(a@ =~= b@);
    }
    true
}

/// Whether a list of byte strings holds the given one.
pub fn contains_bytes(v: &Vec<Vec<u8>>, x: &[u8]) -> (r: bool)
    ensures
        r == v.deep_view().contains(x@),
{
    broadcast use lemma_bytes_deep_view;

    let mut i: usize = 0;
    while i < v.len()
        invariant
            i <= v@.len(),
            forall|j: int| 0 <= j < i ==> v.deep_view()[j] != x@,
        decreases v@.len() - i,
    {
        let hit: bool = bytes_eq(v[i].as_slice(), x);
        proof {
            assert(v.deep_view()[i as int] == v@[i as int].deep_view());
            assert(v@[i as int].deep_view() == v@[i as int]@);
        }
        if hit {
            assert(v.deep_view()[i as int] == x@);
            return true;
        }
        assert(v.deep_view()[i as int] != x@);
        i = i + 1;
    }
    proof {
        if v.deep_view().contains(x@) {
            let j = choose|j: int| 0 <= j < v.deep_view().len() && v.deep_view()[j] == x@;
            assert(v.deep_view()[j] != x@);
        }
    }
    false
}

/// A new list without every occurrence of the given byte string, order kept.
pub fn remove_all_bytes(v: &Vec<Vec<u8>>, x: &[u8]) -> (r: Vec<Vec<u8>>)
    ensures
        r.deep_view() == seq_remove(v.deep_view(), x@),
{
    broadcast use lemma_bytes_deep_view;

    let mut r: Vec<Vec<u8>> = Vec::new();
    let mut i: usize = 0;
    while i < v.len()
        invariant
            i <= v@.len(),
            r.deep_view() == seq_remove(v.deep_view().take(i as int), x@),
        decreases v@.len() - i,
    {
        let ghost pre = r.deep_view();
        let ghost dv = v.deep_view();
        proof {
            assert(dv.take(i + 1).drop_last() =~= dv.take(i as int));
            assert(dv.take(i + 1).last() == dv[i as int]);
            assert(dv[i as int] == v@[i as int].deep_view());
            assert(v@[i as int].deep_view() == v@[i as int]@);
        }
        let hit: bool = bytes_eq(v[i].as_slice(), x);
        if !hit {
            r.push(slice_to_vec(v[i].as_slice()));
            proof {
                assert(r.deep_view() =~= pre.push(dv[i as int]));
                assert(seq_remove(dv.take(i + 1), x@) == pre.push(dv[i as int]));
            }
        } else {
            proof {
                assert(seq_remove(dv.take(i + 1), x@) == pre);
            }
        }
        i = i + 1;
    }
    proof {
        assert(v.deep_view().take(v.deep_view().len() as int) =~= v.deep_view());
    }
    r
}

/// Copy a byte string.
pub fn clone_bytes(v: &[u8]) -> (r: Vec<u8>)
    ensures
        r@ == v@,
{
    slice_to_vec(v)
}

/// Copy a list of byte strings.
pub fn clone_names(v: &Vec<Vec<u8>>) -> (r: Vec<Vec<u8>>)
    ensures
        r.deep_view() == v.deep_view(),
{
    broadcast use lemma_bytes_deep_view;

    let mut r: Vec<Vec<u8>> = Vec::new();
    let mut i: usize = 0;
    while i < v.len()
        invariant
            i <= v@.len(),
            r.deep_view().len() == i,
            forall|j: int| 0 <= j < i ==> r.deep_view()[j] == v.deep_view()[j],
        decreases v@.len() - i,
    {
        r.push(slice_to_vec(v[i].as_slice()));
        i = i + 1;
    }
    proof {
        assert(r.deep_view() =~= v.deep_view());
    }
    r
}

} // verus!
