use vstd::prelude::*;

verus! {

/// A bounded sequence of samples whose capacity is fixed at construction.
/// Nothing ever grows it past that capacity.
pub struct SampleStore<T> {
    items: Vec<T>,
    capacity: usize,
}

impl<T> SampleStore<T> {
    /// The samples held, in order.
    pub closed spec fn view(&self) -> Seq<T> {
        self.items@
    }

    /// The most samples the store may hold.
    pub closed spec fn cap(&self) -> nat {
        self.capacity as nat
    }

    pub closed spec fn wf(&self) -> bool {
        self.items@.len() <= self.capacity
    }

    /// An empty store that holds at most `capacity` samples.
    pub fn new(capacity: usize) -> (r: Self)
        ensures
            r.wf(),
            r@ == Seq::<T>::empty(),
            r.cap() == capacity,
    {
        SampleStore { items: Vec::new(), capacity }
    }

    pub fn capacity(&self) -> (r: usize)
        ensures
            r == self.cap(),
    {
        self.capacity
    }

    pub fn len(&self) -> (r: usize)
        ensures
            r == self@.len(),
    {
        self.items.len()
    }

    pub fn is_empty(&self) -> (r: bool)
        ensures
            r == (self@.len() == 0),
    {
        self.items.len() == 0
    }

    /// Removes every sample; the capacity stays.
    pub fn clear(&mut self)
        requires
            old(self).wf(),
        ensures
            final(self).wf(),
            final(self)@ == Seq::<T>::empty(),
            final(self).cap() == old(self).cap(),
    {
        self.items.clear();
    }

    /// Appends one sample. The store must not be full.
    pub fn push_back(&mut self, sample: T)
        requires
            old(self).wf(),
            old(self)@.len() < old(self).cap(),
        ensures
            final(self).wf(),
            final(self)@ == old(self)@.push(sample),
            final(self).cap() == old(self).cap(),
    {
        self.items.push(sample);
    }

    /// Replaces the sample at `index`.
    pub fn mutate(&mut self, index: usize, sample: T)
        requires
            old(self).wf(),
            index < old(self)@.len(),
        ensures
            final(self).wf(),
            final(self)@ == old(self)@.update(index as int, sample),
            final(self).cap() == old(self).cap(),
    {
        self.items.set(index, sample);
    }

    /// Hands out every sample, in order, and leaves the store empty.
    pub fn take_all(&mut self) -> (r: Vec<T>)
        requires
            old(self).wf(),
        ensures
            final(self).wf(),
            r@ == old(self)@,
            r@.len() <= old(self).cap(),
            final(self)@ == Seq::<T>::empty(),
            final(self).cap() == old(self).cap(),
    {
        let mut out: Vec<T> = Vec::new();
        std::mem::swap(&mut self.items, &mut out);
        out
    }

    /// The sample at `index`.
    pub fn get(&self, index: usize) -> (r: &T)
        requires
            index < self@.len(),
        ensures
            *r == self@[index as int],
    {
        &self.items[index]
    }

    /// All samples, in order.
    pub fn as_slice(&self) -> (r: &[T])
        ensures
            r@ == self@,
    {
        self.items.as_slice()
    }
}

} // verus!
