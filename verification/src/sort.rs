//! Sorting of machine words.

use vstd::multiset::*;
use vstd::prelude::*;
use vstd::seq_lib::*;

verus! {

/// Each word is at most every later one.
pub open spec fn ascending(s: Seq<u64>) -> bool {
    forall|i: int, j: int| 0 <= i < j < s.len() ==> #[trigger] s[i] <= #[trigger] s[j]
}

proof fn lemma_take_one_more(s: Seq<u64>, i: int)
    requires
        0 <= i < s.len(),
    ensures
        s.take(i + 1).to_multiset() == s.take(i).to_multiset().insert(s[i]),
{
    broadcast use group_to_multiset_ensures;

    assert(s.take(i + 1) =~= s.take(i).push(s[i]));
}

proof fn lemma_push(s: Seq<u64>, a: Multiset<u64>, b: Multiset<u64>, x: u64)
    requires
        s.to_multiset() == a.add(b),
    ensures
        s.push(x).to_multiset() == a.insert(x).add(b),
        s.push(x).to_multiset() == a.add(b.insert(x)),
{
    broadcast use group_to_multiset_ensures;
    broadcast use group_multiset_axioms;

    assert(s.push(x).to_multiset() =~= s.to_multiset().insert(x));
    assert(a.add(b).insert(x) =~= a.insert(x).add(b));
    assert(a.add(b).insert(x) =~= a.add(b.insert(x)));
}

/// Two ascending lists as one.
fn merge(a: &Vec<u64>, b: &Vec<u64>) -> (r: Vec<u64>)
    requires
        ascending(a@),
        ascending(b@),
    ensures
        ascending(r@),
        r@.to_multiset() == a@.to_multiset().add(b@.to_multiset()),
{
    broadcast use group_to_multiset_ensures;
    broadcast use group_multiset_axioms;

    let mut r: Vec<u64> = Vec::new();
    let mut i: usize = 0;
    let mut j: usize = 0;
    assert(a@.take(0) =~= Seq::<u64>::empty());
    assert(b@.take(0) =~= Seq::<u64>::empty());
    assert(r@.to_multiset() =~= a@.take(0).to_multiset().add(b@.take(0).to_multiset()));
    while i < a.len() || j < b.len()
        invariant
            ascending(a@),
            ascending(b@),
            i <= a@.len(),
            j <= b@.len(),
            ascending(r@),
            forall|p: int, q: int|
                0 <= p < r@.len() && i <= q < a@.len() ==> #[trigger] r@[p] <= #[trigger] a@[q],
            forall|p: int, q: int|
                0 <= p < r@.len() && j <= q < b@.len() ==> #[trigger] r@[p] <= #[trigger] b@[q],
            r@.to_multiset() == a@.take(i as int).to_multiset().add(
                b@.take(j as int).to_multiset(),
            ),
        decreases a@.len() - i + b@.len() - j,
    {
        let ghost before = r@;
        if j >= b.len() || (i < a.len() && a[i] <= b[j]) {
            let x: u64 = a[i];
            r.push(x);
            proof {
                lemma_take_one_more(a@, i as int);
                lemma_push(
                    before,
                    a@.take(i as int).to_multiset(),
                    b@.take(j as int).to_multiset(),
                    x,
                );
                assert(r@ =~= before.push(x));
            }
            i = i + 1;
        } else {
            let x: u64 = b[j];
            r.push(x);
            proof {
                lemma_take_one_more(b@, j as int);
                lemma_push(
                    before,
                    a@.take(i as int).to_multiset(),
                    b@.take(j as int).to_multiset(),
                    x,
                );
                assert(r@ =~= before.push(x));
            }
            j = j + 1;
        }
    }
    assert(a@.take(i as int) =~= a@);
    assert(b@.take(j as int) =~= b@);
    r
}

/// The words of `v` from `lo` up to `hi`, in ascending order.
fn sort_range(v: &Vec<u64>, lo: usize, hi: usize) -> (r: Vec<u64>)
    requires
        lo <= hi <= v@.len(),
    ensures
        ascending(r@),
        r@.to_multiset() == v@.subrange(lo as int, hi as int).to_multiset(),
    decreases hi - lo,
{
    let mut r: Vec<u64> = Vec::new();
    if hi - lo == 0 {
        assert(v@.subrange(lo as int, hi as int) =~= r@);
        return r;
    }
    if hi - lo == 1 {
        r.push(v[lo]);
        assert(v@.subrange(lo as int, hi as int) =~= r@);
        return r;
    }
    let mid: usize = lo + (hi - lo) / 2;
    let a = sort_range(v, lo, mid);
    let b = sort_range(v, mid, hi);
    proof {
        let x = v@.subrange(lo as int, mid as int);
        let y = v@.subrange(mid as int, hi as int);
        assert(v@.subrange(lo as int, hi as int) =~= x + y);
        lemma_multiset_commutative(x, y);
    }
    merge(&a, &b)
}

/// The words of `v` in ascending order.
pub fn sort(v: &Vec<u64>) -> (r: Vec<u64>)
    ensures
        ascending(r@),
        r@.to_multiset() == v@.to_multiset(),
        r@.len() == v@.len(),
        forall|x: u64| r@.contains(x) <==> v@.contains(x),
{
    let r = sort_range(v, 0, v.len());
    proof {
        broadcast use group_to_multiset_ensures;

        assert(v@.subrange(0, v@.len() as int) =~= v@);
        assert(r@.len() == r@.to_multiset().len());
        assert(v@.len() == v@.to_multiset().len());
        assert forall|x: u64| r@.contains(x) <==> v@.contains(x) by {
            assert(r@.contains(x) <==> r@.to_multiset().count(x) > 0);
            assert(v@.contains(x) <==> v@.to_multiset().count(x) > 0);
        }
    }
    r
}

} // verus!
