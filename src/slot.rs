//! A fixed-capacity pool that hands out stable indices to the resources it
//! holds. Removing an entry leaves every other index where it was.
use vstd::prelude::*;

verus! {

/// How many entries of `s` are occupied.
pub open spec fn count_some<T>(s: Seq<Option<T>>) -> nat
    decreases s.len(),
{
    if s.len() == 0 {
        0
    } else {
        count_some(s.drop_last()) + if s.last() is Some {
            1nat
        } else {
            0nat
        }
    }
}

proof fn lemma_count_bound<T>(s: Seq<Option<T>>)
    ensures
        count_some(s) <= s.len(),
        count_some(s) == s.len() <==> forall|i: int| 0 <= i < s.len() ==> (#[trigger] s[i]) is Some,
    decreases s.len(),
{
    if s.len() > 0 {
        lemma_count_bound(s.drop_last());
        if count_some(s) == s.len() {
            assert forall|i: int| 0 <= i < s.len() implies (#[trigger] s[i]) is Some by {
                if i < s.len() - 1 {
                    assert(s[i] == s.drop_last()[i]);
                }
            }
        }
        if forall|i: int| 0 <= i < s.len() ==> (#[trigger] s[i]) is Some {
            assert forall|i: int| 0 <= i < s.drop_last().len() implies (
            #[trigger] s.drop_last()[i]) is Some by {
                assert(s[i] is Some);
            }
        }
    }
}

proof fn lemma_count_update<T>(s: Seq<Option<T>>, i: int, v: Option<T>)
    requires
        0 <= i < s.len(),
    ensures
        count_some(s.update(i, v)) == count_some(s) - (if s[i] is Some {
            1int
        } else {
            0int
        }) + (if v is Some {
            1int
        } else {
            0int
        }),
    decreases s.len(),
{
    let t = s.update(i, v);
    if i == s.len() - 1 {
        assert(t.drop_last() =~= s.drop_last());
    } else {
        assert(t.drop_last() =~= s.drop_last().update(i, v));
        lemma_count_update(s.drop_last(), i, v);
    }
}

/// A pool of at most `N` resources, each at a stable index below `N`.
pub struct Slot<T, const N: usize> {
    array: Vec<Option<T>>,
    size: u8,
}

impl<T, const N: usize> View for Slot<T, N> {
    type V = Seq<Option<T>>;

    /// Entry `i` is the resource at index `i`, if any.
    closed spec fn view(&self) -> Seq<Option<T>> {
        self.array@
    }
}

impl<T, const N: usize> Slot<T, N> {
    /// The entries cover `0..N`, and `size` counts the occupied ones.
    pub closed spec fn wf(&self) -> bool {
        &&& N <= 255
        &&& self.array@.len() == N
        &&& self.size as nat == count_some(self.array@)
    }

    /// A well-formed pool has exactly `N` entries.
    pub proof fn lemma_wf_len(&self)
        requires
            self.wf(),
        ensures
            self@.len() == N,
            self.spec_len() <= N,
    {
        lemma_count_bound(self.array@);
    }

    /// How many resources the pool holds.
    pub open spec fn spec_len(&self) -> nat {
        count_some(self@)
    }

    /// Every index is taken.
    pub open spec fn is_full(&self) -> bool {
        forall|i: int| 0 <= i < N ==> (#[trigger] self@[i]) is Some
    }

    /// An empty pool.
    pub fn new() -> (r: Self)
        requires
            N <= 255,
        ensures
            r.wf(),
            r@ == Seq::new(N as nat, |i: int| None::<T>),
            r.spec_len() == 0,
    {
        let mut array: Vec<Option<T>> = Vec::new();
        let mut i: usize = 0;
        while i < N
            invariant
                i <= N,
                array@ == Seq::new(i as nat, |j: int| None::<T>),
                count_some(array@) == 0,
            decreases N - i,
        {
            let ghost prev = array@;
            array.push(None);
            i = i + 1;
            assert(array@.drop_last() =~= prev);
            assert(array@ =~= Seq::new(i as nat, |j: int| None::<T>));
        }
        Slot { array, size: 0 }
    }

    /// How many resources the pool holds.
    pub fn len(&self) -> (r: u8)
        requires
            self.wf(),
        ensures
            self@.len() == N,
            r as nat == self.spec_len(),
    {
        self.size
    }

    /// Puts `item` at the lowest free index and returns that index, or returns
    /// `None` and changes nothing when every index is taken.
    pub fn add(&mut self, item: T) -> (r: Option<usize>)
        requires
            old(self).wf(),
        ensures
            old(self)@.len() == N,
            final(self)@.len() == N,
            final(self).wf(),
            r is None <==> old(self).is_full(),
            r is None ==> final(self)@ == old(self)@,
            r matches Some(i) ==> {
                &&& i < N
                &&& old(self)@[i as int] is None
                &&& forall|j: int| 0 <= j < i ==> (#[trigger] old(self)@[j]) is Some
                &&& final(self)@ == old(self)@.update(i as int, Some(item))
                &&& final(self).spec_len() == old(self).spec_len() + 1
            },
    {
        proof {
            lemma_count_bound(self.array@);
        }
        if self.size as usize >= N {
            return None;
        }
        let mut i: usize = 0;
        while i < N
            invariant
                self.wf(),
                self.array@ == old(self).array@,
                self.size == old(self).size,
                i <= N,
                (self.size as nat) < N,
                forall|j: int| 0 <= j < i ==> (#[trigger] self.array@[j]) is Some,
            decreases N - i,
        {
            if self.array[i].is_none() {
                proof {
                    lemma_count_update(self.array@, i as int, Some(item));
                    lemma_count_bound(self.array@.update(i as int, Some(item)));
                }
                self.array.set(i, Some(item));
                self.size = self.size + 1;
                return Some(i);
            }
            i = i + 1;
        }
        proof {
            assert(count_some(self.array@) == self.array@.len());
        }
        None
    }

    /// Clears index `index`. Returns whether it held a resource; an index out of
    /// range or already empty changes nothing.
    pub fn remove(&mut self, index: usize) -> (r: bool)
        requires
            old(self).wf(),
        ensures
            old(self)@.len() == N,
            final(self)@.len() == N,
            final(self).wf(),
            r == (index < N && old(self)@[index as int] is Some),
            r ==> final(self)@ == old(self)@.update(index as int, None),
            r ==> final(self).spec_len() == old(self).spec_len() - 1,
            !r ==> final(self)@ == old(self)@,
    {
        if index >= self.array.len() {
            return false;
        }
        if self.array[index].is_none() {
            return false;
        }
        proof {
            lemma_count_update(self.array@, index as int, None);
        }
        self.array.set(index, None);
        self.size = self.size - 1;
        true
    }

    /// The resource at `index`, if the index is in range and taken.
    pub fn get(&self, index: usize) -> (r: Option<&T>)
        requires
            self.wf(),
        ensures
            self@.len() == N,
            r matches Some(x) ==> index < N && self@[index as int] == Some(*x),
            r is None ==> index >= N || self@[index as int] is None,
    {
        if index >= self.array.len() {
            return None;
        }
        self.array[index].as_ref()
    }

    /// The resource at `index` for changing in place, if the index is in range
    /// and taken.
    pub fn get_mut(&mut self, index: usize) -> (r: Option<&mut T>)
        requires
            old(self).wf(),
        ensures
            old(self)@.len() == N,
            final(self)@.len() == N,
            r is None ==> (index >= N || old(self)@[index as int] is None),
            r is None ==> final(self)@ == old(self)@,
            r is Some ==> index < N && old(self)@[index as int] == Some(*r.unwrap()),
            r is Some ==> final(self)@ == old(self)@.update(index as int, Some(*final(r.unwrap()))),
            final(self).wf(),
    {
        if index >= self.array.len() {
            return None;
        }
        proof {
            let s = self.array@;
            let i = index as int;
            assert(s[i] is None ==> s.update(i, None) =~= s);
            assert forall|y: T| s[i] is Some implies count_some(#[trigger] s.update(i, Some(y)))
                == count_some(s) by {
                lemma_count_update(s, i, Some(y));
            }
        }
        self.array[index].as_mut()
    }
}

/// Once index `i` has been freed, the next `add` lands at `i` or below it:
/// `add` takes the lowest free index, and `i` is free.
pub proof fn lemma_add_after_remove<T>(
    before: Seq<Option<T>>,
    after_remove: Seq<Option<T>>,
    i: int,
    j: int,
)
    requires
        0 <= i < before.len(),
        before[i] is Some,
        after_remove == before.update(i, None),
        0 <= j < after_remove.len(),
        after_remove[j] is None,
        forall|k: int| 0 <= k < j ==> (#[trigger] after_remove[k]) is Some,
    ensures
        j <= i,
        j == i <==> forall|k: int| 0 <= k < i ==> (#[trigger] before[k]) is Some,
{
    if j > i {
        assert(after_remove[i] is Some);
    }
    if forall|k: int| 0 <= k < i ==> (#[trigger] before[k]) is Some {
        if j < i {
            assert(before[j] is Some);
        }
    }
    if j == i {
        assert forall|k: int| 0 <= k < i implies (#[trigger] before[k]) is Some by {
            assert(after_remove[k] is Some);
        }
    }
}

} // verus!
