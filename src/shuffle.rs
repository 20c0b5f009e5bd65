//! Random orders: every round visits teams, VMs and services in a freshly
//! drawn order.
use rand::seq::SliceRandom;
use rand::Rng;
use vstd::prelude::*;

verus! {

/// Relies on `rand::seq::SliceRandom::shuffle`, driven by `rand::thread_rng`:
/// it rearranges the items in place by swaps, so the same items remain.
#[verifier::external_body]
fn shuffle_in_place<T>(v: &mut Vec<T>)
    ensures
        final(v)@.to_multiset() == old(v)@.to_multiset(),
{
    SliceRandom::shuffle(v.as_mut_slice(), &mut rand::thread_rng());
}

/// Relies on `rand::Rng::gen_range`, driven by `rand::thread_rng`: a number
/// drawn from the half-open range `lo..hi`, which must not be empty.
#[verifier::external_body]
pub(crate) fn random_in_range(lo: i64, hi: i64) -> (r: i64)
    requires
        lo < hi,
    ensures
        lo <= r < hi,
{
    rand::thread_rng().gen_range(lo..hi)
}

/// `s` lists each of `0..n` exactly once.
pub open spec fn is_permutation(s: Seq<usize>, n: nat) -> bool {
    &&& s.len() == n
    &&& s.no_duplicates()
    &&& forall|i: int| 0 <= i < s.len() ==> #[trigger] s[i] < n
}

/// The numbers `0..n` in a random order.
pub fn shuffled_indices(n: usize) -> (r: Vec<usize>)
    ensures
        is_permutation(r@, n as nat),
{
    let mut v: Vec<usize> = Vec::new();
    let mut i: usize = 0;
    while i < n
        invariant
            i <= n,
            v@.len() == i,
            forall|j: int| 0 <= j < i ==> #[trigger] v@[j] == j,
        decreases n - i,
    {
        v.push(i);
        i = i + 1;
    }
    let ghost before = v@;
    assert(before.no_duplicates());
    shuffle_in_place(&mut v);
    proof {
        broadcast use vstd::seq_lib::group_to_multiset_ensures;

        before.lemma_multiset_has_no_duplicates();
        assert forall|x: usize| v@.to_multiset().contains(x) implies v@.to_multiset().count(x)
            == 1 by {
            assert(before.to_multiset().contains(x));
        }
        v@.lemma_multiset_has_no_duplicates_conv();
        assert forall|j: int| 0 <= j < v@.len() implies #[trigger] v@[j] < n by {
            assert(v@.contains(v@[j]));
            assert(v@.to_multiset().count(v@[j]) > 0);
            assert(before.contains(v@[j]));
            let k = choose|k: int| 0 <= k < before.len() && before[k] == v@[j];
            assert(before[k] == k);
        }
        assert(v@.len() == v@.to_multiset().len());
        assert(before.len() == before.to_multiset().len());
    }
    v
}

/// The items of a collection, handed out in a random order.
pub struct ShuffleIterator<T> {
    items: Vec<T>,
}

impl<T> ShuffleIterator<T> {
    /// The items not yet handed out; the next one is the last.
    pub closed spec fn remaining(&self) -> Seq<T> {
        self.items@
    }

    /// The given items in a random order.
    pub fn new(items: Vec<T>) -> (r: Self)
        ensures
            r.remaining().to_multiset() == items@.to_multiset(),
    {
        let mut items = items;
        shuffle_in_place(&mut items);
        ShuffleIterator { items }
    }

    /// The next item, if any is left.
    pub fn next(&mut self) -> (r: Option<T>)
        ensures
            old(self).remaining().len() == 0 ==> r is None && final(self).remaining()
                == old(self).remaining(),
            old(self).remaining().len() > 0 ==> r == Some(old(self).remaining().last())
                && final(self).remaining() == old(self).remaining().drop_last(),
    {
        self.items.pop()
    }
}

/// Collections that can be handed out in a random order.
pub trait ShuffleIterExt<T>: Sized {
    /// The items of the collection.
    spec fn items(&self) -> Seq<T>;

    /// The items in a random order.
    fn shuffle(self) -> (r: ShuffleIterator<T>)
        ensures
            r.remaining().to_multiset() == self.items().to_multiset(),
    ;
}

impl<T> ShuffleIterExt<T> for Vec<T> {
    open spec fn items(&self) -> Seq<T> {
        self@
    }

    fn shuffle(self) -> (r: ShuffleIterator<T>) {
        ShuffleIterator::new(self)
    }
}

} // verus!
