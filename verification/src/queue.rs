//! Collections of bounded length.

use std::collections::VecDeque;
use vstd::prelude::*;

verus! {

/// What a bounded queue holds after an item is appended with the oldest item
/// making room when the queue is full.
pub open spec fn push_evicting<T>(items: Seq<T>, capacity: nat, item: T) -> Seq<T> {
    if capacity == 0 {
        items
    } else if items.len() < capacity {
        items.push(item)
    } else {
        items.drop_first().push(item)
    }
}

/// A queue that holds at most `N` items, oldest first.
pub struct BoundedQueue<T, const N: usize> {
    items: VecDeque<T>,
}

impl<T, const N: usize> View for BoundedQueue<T, N> {
    type V = Seq<T>;

    closed spec fn view(&self) -> Seq<T> {
        self.items@
    }
}

impl<T, const N: usize> BoundedQueue<T, N> {
    #[verifier::type_invariant]
    spec fn bounded(self) -> bool {
        self.items@.len() <= N
    }

    pub fn new() -> (q: Self)
        ensures
            q@ == Seq::<T>::empty(),
    {
        BoundedQueue { items: VecDeque::new() }
    }

    pub fn len(&self) -> (n: usize)
        ensures
            n == self@.len(),
            n <= N,
    {
        proof {
            use_type_invariant(self);
        }
        self.items.len()
    }

    pub fn is_empty(&self) -> (b: bool)
        ensures
            b == (self@.len() == 0),
    {
        self.len() == 0
    }

    pub fn is_full(&self) -> (b: bool)
        ensures
            b == (self@.len() == N),
            self@.len() <= N,
    {
        self.len() == N
    }

    /// Append an item. Hands it back when the queue is full.
    pub fn push_back(&mut self, item: T) -> (r: Result<(), T>)
        ensures
            old(self)@.len() <= N,
            r is Ok <==> old(self)@.len() < N,
            r is Ok ==> final(self)@ == old(self)@.push(item),
            r matches Err(back) ==> back == item && final(self)@ == old(self)@,
    {
        proof {
            use_type_invariant(&*self);
        }
        if self.items.len() < N {
            let mut items: VecDeque<T> = VecDeque::new();
            std::mem::swap(&mut items, &mut self.items);
            items.push_back(item);
            self.items = items;
            Ok(())
        } else {
            Err(item)
        }
    }

    /// Take the oldest item.
    pub fn pop_front(&mut self) -> (r: Option<T>)
        ensures
            r is Some <==> old(self)@.len() > 0,
            r matches Some(item) ==> {
                &&& item == old(self)@[0]
                &&& final(self)@ == old(self)@.drop_first()
            },
            r is None ==> final(self)@ == old(self)@,
    {
        proof {
            use_type_invariant(&*self);
        }
        let mut items: VecDeque<T> = VecDeque::new();
        std::mem::swap(&mut items, &mut self.items);
        let r = items.pop_front();
        self.items = items;
        assert(old(self)@.len() > 0 ==> final(self)@ =~= old(self)@.drop_first());
        r
    }

    /// Append an item, dropping the oldest one if the queue is full.
    /// Returns whether the queue was full.
    pub fn push_evicting(&mut self, item: T) -> (was_full: bool)
        ensures
            final(self)@ == push_evicting(old(self)@, N as nat, item),
            was_full == (old(self)@.len() == N),
            old(self)@.len() <= N,
            final(self)@.len() <= N,
    {
        let was_full: bool = self.is_full();
        if was_full {
            let _ = self.pop_front();
        }
        let _ = self.push_back(item);
        was_full
    }
}

/// Declares the outside vector of bounded length.
#[verifier::external_type_specification]
#[verifier::external_body]
#[verifier::reject_recursive_types(T)]
pub struct ExHeaplessVec<T, const N: usize>(heapless::Vec<T, N>);

/// Declares the outside double-ended queue of bounded length.
#[verifier::external_type_specification]
#[verifier::external_body]
#[verifier::reject_recursive_types(T)]
pub struct ExHeaplessDeque<T, const N: usize>(heapless::Deque<T, N>);

} // verus!
