//! Merge sort over anything with an integer sort key.
use vstd::prelude::*;
use vstd::seq_lib::lemma_multiset_commutative;

verus! {

broadcast use vstd::seq_lib::group_seq_properties, vstd::multiset::group_multiset_axioms;

/// A value with an integer key to order by.
pub trait SortKey: Copy {
    spec fn spec_key(&self) -> int;

    fn key(&self) -> (r: i128)
        ensures
            r == self.spec_key(),
    ;
}

impl SortKey for i64 {
    open spec fn spec_key(&self) -> int {
        *self as int
    }

    fn key(&self) -> (r: i128) {
        *self as i128
    }
}

/// The keys of `s` do not decrease from left to right.
pub open spec fn sorted_by_key<T: SortKey>(s: Seq<T>) -> bool {
    forall|i: int, j: int| 0 <= i <= j < s.len() ==> s[i].spec_key() <= s[j].spec_key()
}

/// Merges two sorted vectors into one sorted vector holding the items of both.
fn merge<T: SortKey>(a: Vec<T>, b: Vec<T>) -> (r: Vec<T>)
    requires
        sorted_by_key(a@),
        sorted_by_key(b@),
    ensures
        sorted_by_key(r@),
        r@.to_multiset() == a@.to_multiset().add(b@.to_multiset()),
{
    let mut r: Vec<T> = Vec::new();
    let mut i: usize = 0;
    let mut j: usize = 0;
    while i < a.len() || j < b.len()
        invariant
            i <= a.len(),
            j <= b.len(),
            sorted_by_key(a@),
            sorted_by_key(b@),
            sorted_by_key(r@),
            r@.len() == i + j,
            r@.to_multiset() == a@.subrange(0, i as int).to_multiset().add(
                b@.subrange(0, j as int).to_multiset(),
            ),
            r@.len() > 0 && i < a.len() ==> r@.last().spec_key() <= a@[i as int].spec_key(),
            r@.len() > 0 && j < b.len() ==> r@.last().spec_key() <= b@[j as int].spec_key(),
        decreases a.len() + b.len() - i - j,
    {
        let take_a = if i >= a.len() {
            false
        } else if j >= b.len() {
            true
        } else {
            a[i].key() <= b[j].key()
        };
        let ghost old_r = r@;
        if take_a {
            let x = a[i];
            r.push(x);
            proof {
                assert(a@.subrange(0, i + 1) =~= a@.subrange(0, i as int).push(x));
                assert(old_r.push(x).to_multiset() =~= old_r.to_multiset().insert(x));
                assert(a@.subrange(0, i as int).push(x).to_multiset() =~= a@.subrange(
                    0,
                    i as int,
                ).to_multiset().insert(x));
            }
            i = i + 1;
        } else {
            let x = b[j];
            r.push(x);
            proof {
                assert(b@.subrange(0, j + 1) =~= b@.subrange(0, j as int).push(x));
                assert(old_r.push(x).to_multiset() =~= old_r.to_multiset().insert(x));
                assert(b@.subrange(0, j as int).push(x).to_multiset() =~= b@.subrange(
                    0,
                    j as int,
                ).to_multiset().insert(x));
            }
            j = j + 1;
        }
        proof {
            assert(r@.to_multiset() =~= a@.subrange(0, i as int).to_multiset().add(
                b@.subrange(0, j as int).to_multiset(),
            ));
        }
    }
    proof {
        assert(a@.subrange(0, i as int) =~= a@);
        assert(b@.subrange(0, j as int) =~= b@);
    }
    r
}

/// Sorts the items `v[lo..hi]` into a new vector.
pub fn sort_range<T: SortKey>(v: &Vec<T>, lo: usize, hi: usize) -> (r: Vec<T>)
    requires
        lo <= hi <= v.len(),
    ensures
        sorted_by_key(r@),
        r@.to_multiset() == v@.subrange(lo as int, hi as int).to_multiset(),
    decreases hi - lo,
{
    if hi - lo == 0 {
        let r: Vec<T> = Vec::new();
        proof {
            assert(v@.subrange(lo as int, hi as int) =~= Seq::<T>::empty());
            assert(r@ =~= Seq::<T>::empty());
        }
        r
    } else if hi - lo == 1 {
        let mut r: Vec<T> = Vec::new();
        r.push(v[lo]);
        proof {
            assert(v@.subrange(lo as int, hi as int) =~= Seq::<T>::empty().push(v@[lo as int]));
            assert(r@ =~= Seq::<T>::empty().push(v@[lo as int]));
        }
        r
    } else {
        let mid = lo + (hi - lo) / 2;
        let left = sort_range(v, lo, mid);
        let right = sort_range(v, mid, hi);
        let r = merge(left, right);
        proof {
            assert(v@.subrange(lo as int, hi as int) =~= v@.subrange(lo as int, mid as int)
                + v@.subrange(mid as int, hi as int));
            lemma_multiset_commutative(
                v@.subrange(lo as int, mid as int),
                v@.subrange(mid as int, hi as int),
            );
        }
        r
    }
}

/// Sorts all items of `v` by key into a new vector.
pub fn sort_by_key<T: SortKey>(v: &Vec<T>) -> (r: Vec<T>)
    ensures
        sorted_by_key(r@),
        r@.to_multiset() == v@.to_multiset(),
{
    let r = sort_range(v, 0, v.len());
    proof {
        assert(v@.subrange(0, v@.len() as int) =~= v@);
    }
    r
}

} // verus!
