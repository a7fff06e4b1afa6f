use vstd::prelude::*;

verus! {

/// A vector with a fixed maximal capacity `MAX_SIZE`.
#[derive(Clone, Debug)]
pub struct StackVector<T, const MAX_SIZE: usize> {
    arr: Vec<T>,
}

impl<T, const MAX_SIZE: usize> View for StackVector<T, MAX_SIZE> {
    type V = Seq<T>;

    closed spec fn view(&self) -> Seq<T> {
        self.arr@
    }
}

/// The elements of `s` whose position is not in `positions`, in their order.
pub open spec fn keep_unlisted<T>(s: Seq<T>, positions: Set<int>) -> Seq<T>
    decreases s.len(),
{
    if s.len() == 0 {
        Seq::empty()
    } else {
        let rest = keep_unlisted(s.drop_last(), positions);
        if positions.contains(s.len() - 1) {
            rest
        } else {
            rest.push(s.last())
        }
    }
}

/// The elements of `s` whose position is in `positions`, in their order.
pub open spec fn keep_listed<T>(s: Seq<T>, positions: Set<int>) -> Seq<T>
    decreases s.len(),
{
    if s.len() == 0 {
        Seq::empty()
    } else {
        let rest = keep_listed(s.drop_last(), positions);
        if positions.contains(s.len() - 1) {
            rest.push(s.last())
        } else {
            rest
        }
    }
}

/// The positions listed in `indices`, as a set.
pub open spec fn index_set(indices: Seq<usize>) -> Set<int> {
    Set::new(|i: int| exists|k: int| 0 <= k < indices.len() && indices[k] == i)
}

impl<T: Copy, const MAX_SIZE: usize> StackVector<T, MAX_SIZE> {
    /// The vector never holds more than `MAX_SIZE` elements.
    pub open spec fn wf(&self) -> bool {
        self@.len() <= MAX_SIZE
    }

    pub fn new() -> (sv: Self)
        ensures
            sv.wf(),
            sv@ == Seq::<T>::empty(),
    {
        StackVector { arr: Vec::new() }
    }

    /// Appends `e`; the vector must not be full.
    pub fn add(&mut self, e: T)
        requires
            old(self).wf(),
            old(self)@.len() < MAX_SIZE,
        ensures
            final(self).wf(),
            final(self)@ == old(self)@.push(e),
    {
        self.arr.push(e);
    }

    /// Same as `add`.
    pub fn push(&mut self, e: T)
        requires
            old(self).wf(),
            old(self)@.len() < MAX_SIZE,
        ensures
            final(self).wf(),
            final(self)@ == old(self)@.push(e),
    {
        self.add(e);
    }

    pub fn slice(&self) -> (s: &[T])
        ensures
            s@ == self@,
    {
        self.arr.as_slice()
    }

    pub fn slice_mut(&mut self) -> (s: &mut [T])
        ensures
            s@ == old(self)@,
            final(self)@ == final(s)@,
    {
        self.arr.as_mut_slice()
    }

    pub fn get(&self, idx: usize) -> (e: &T)
        requires
            idx < self@.len(),
        ensures
            *e == self@[idx as int],
    {
        &self.arr[idx]
    }

    pub fn get_mut(&mut self, idx: usize) -> (e: &mut T)
        requires
            idx < old(self)@.len(),
        ensures
            *e == old(self)@[idx as int],
            final(self)@ == old(self)@.update(idx as int, *final(e)),
            final(self).wf() == old(self).wf(),
    {
        &mut self.arr[idx]
    }

    /// Removes the element at `idx`, shifting the following ones to the left.
    pub fn remove(&mut self, idx: usize) -> (removed: T)
        requires
            old(self).wf(),
            idx < old(self)@.len(),
        ensures
            final(self).wf(),
            removed == old(self)@[idx as int],
            final(self)@ == old(self)@.remove(idx as int),
    {
        self.arr.remove(idx)
    }

    /// Removes the elements at the given (distinct) positions; the removed
    /// elements are returned in increasing order of position.
    pub fn remove_multi<const NB_ELEMENTS: usize>(&mut self, indices: [usize; NB_ELEMENTS]) -> (removed: Vec<T>)
        requires
            old(self).wf(),
            forall|k: int| 0 <= k < NB_ELEMENTS ==> #[trigger] indices@[k] < old(self)@.len(),
            forall|k: int, l: int| 0 <= k < l < NB_ELEMENTS ==> indices@[k] != indices@[l],
        ensures
            final(self).wf(),
            final(self)@ == keep_unlisted(old(self)@, index_set(indices@)),
            removed@ == keep_listed(old(self)@, index_set(indices@)),
    {
        let ghost positions = index_set(indices@);
        let mut kept: Vec<T> = Vec::new();
        let mut removed: Vec<T> = Vec::new();
        let mut i: usize = 0;
        while i < self.arr.len()
            invariant
                i <= self.arr@.len(),
                self.arr@ == old(self)@,
                positions == index_set(indices@),
                kept@ == keep_unlisted(self.arr@.take(i as int), positions),
                removed@ == keep_listed(self.arr@.take(i as int), positions),
                kept@.len() <= i,
            decreases self.arr@.len() - i,
        {
            let mut listed = false;
            let mut k: usize = 0;
            while k < NB_ELEMENTS
                invariant
                    k <= NB_ELEMENTS,
                    listed == exists|j: int| 0 <= j < k && indices@[j] == i,
                decreases NB_ELEMENTS - k,
            {
                if indices[k] == i {
                    listed = true;
                }
                k += 1;
            }
            assert(listed == positions.contains(i as int));
            let ghost prefix = self.arr@.take(i as int);
            assert(self.arr@.take(i + 1).drop_last() =~= prefix);
            if listed {
                removed.push(self.arr[i]);
            } else {
                kept.push(self.arr[i]);
            }
            i += 1;
        }
        assert(self.arr@.take(self.arr@.len() as int) =~= self.arr@);
        self.arr = kept;
        removed
    }

    pub fn len(&self) -> (l: usize)
        ensures
            l == self@.len(),
    {
        self.arr.len()
    }

    pub fn from(v: &[T]) -> (sv: Self)
        requires
            v@.len() <= MAX_SIZE,
        ensures
            sv.wf(),
            sv@ == v@,
    {
        let mut sv: Self = StackVector::new();
        let mut i: usize = 0;
        while i < v.len()
            invariant
                i <= v@.len() <= MAX_SIZE,
                sv.wf(),
                sv@ == v@.take(i as int),
            decreases v@.len() - i,
        {
            sv.add(v[i]);
            i += 1;
            assert(sv@ =~= v@.take(i as int));
        }
        assert(v@.take(v@.len() as int) =~= v@);
        sv
    }
}

} // verus!
