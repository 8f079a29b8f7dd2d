use std::collections::VecDeque;
use vstd::prelude::*;

verus! {

/// A [`VecDeque`] with a maximum size: pushing into a full deque evicts the
/// oldest element first.
pub struct BoundedVecDeque<T> {
    /// The inner [`VecDeque`]
    inner: VecDeque<T>,
    /// The maximum size of the [`VecDeque`]
    max_size: usize,
}

impl<T> BoundedVecDeque<T> {
    /// The deque never holds more than its maximum size.
    #[verifier::type_invariant]
    spec fn within_capacity(&self) -> bool {
        self.inner@.len() <= self.max_size
    }

    /// The elements currently held, oldest first.
    pub closed spec fn items(&self) -> Seq<T> {
        self.inner@
    }

    /// The maximum size the deque was created with.
    pub closed spec fn capacity(&self) -> nat {
        self.max_size as nat
    }

    /// Create a new bounded [`VecDeque`] with the given maximum size
    pub fn new(max_size: usize) -> (r: Self)
        ensures
            r.items() == Seq::<T>::empty(),
            r.capacity() == max_size,
    {
        Self { inner: VecDeque::new(), max_size }
    }

    /// Push an item into the bounded [`VecDeque`], removing the oldest item if the
    /// maximum size is reached
    pub fn push(&mut self, item: T)
        ensures
            final(self).capacity() == old(self).capacity(),
            final(self).items() == push_bounded(old(self).items(), old(self).capacity(), item),
    {
        proof {
            use_type_invariant(&*self);
        }
        if self.max_size == 0 {
            return;
        }
        let mut inner = VecDeque::new();
        std::mem::swap(&mut inner, &mut self.inner);
        if inner.len() >= self.max_size {
            inner.pop_front();
        }
        inner.push_back(item);
        self.inner = inner;
    }

    /// The inner [`VecDeque`], oldest element first.
    pub fn inner(&self) -> (r: &VecDeque<T>)
        ensures
            r@ == self.items(),
    {
        &self.inner
    }

    /// The number of elements held.
    pub fn len(&self) -> (r: usize)
        ensures
            r == self.items().len(),
            r <= self.capacity(),
    {
        proof {
            use_type_invariant(self);
        }
        self.inner.len()
    }
}

/// The contents after pushing `item` into a deque holding `items` with capacity
/// `capacity`: the oldest item is evicted first when the deque is full, and a deque of
/// capacity zero holds nothing.
pub open spec fn push_bounded<T>(items: Seq<T>, capacity: nat, item: T) -> Seq<T> {
    if capacity == 0 {
        Seq::empty()
    } else if items.len() >= capacity {
        items.drop_first().push(item)
    } else {
        items.push(item)
    }
}

/// A bounded deque never grows beyond its capacity, and a push only ever evicts from the
/// old end: the contents are always the newest items of everything pushed.
pub proof fn lemma_push_stays_bounded<T>(items: Seq<T>, capacity: nat, item: T)
    requires
        items.len() <= capacity,
    ensures
        push_bounded(items, capacity, item).len() <= capacity,
        capacity > 0 ==> push_bounded(items, capacity, item).last() == item,
        push_bounded(items, capacity, item) == items.push(item).subrange(
            items.push(item).len() - push_bounded(items, capacity, item).len(),
            items.push(item).len() as int,
        ),
{
    let p = items.push(item);
    if capacity == 0 {
        assert(p.subrange(p.len() as int, p.len() as int) =~= Seq::<T>::empty());
    } else if items.len() >= capacity {
        assert(p.subrange(1, p.len() as int) =~= items.drop_first().push(item));
    } else {
        assert(p.subrange(0, p.len() as int) =~= p);
    }
}

} // verus!
