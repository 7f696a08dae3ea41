//! A pre-sized array for storing results without disturbing a measurement.

use vstd::prelude::*;
use vstd::std_specs::iter::IteratorSpec;
use vstd::std_specs::slice::into_iter_elts;

verus! {

/// Number of bytes in a page.
pub const PAGE_SIZE: usize = 4096;

/// The number of bytes that `cap` elements of type `T` occupy.
pub open spec fn region_bytes<T>(cap: usize) -> int {
    cap * vstd::layout::size_of::<T>()
}

/// The sizing rule of a `ResultArray<T>`: its elements fill a positive whole
/// number of pages, and fewer bytes than the largest signed offset.
pub open spec fn fits_region<T>(cap: usize) -> bool {
    &&& region_bytes::<T>(cap) > 0
    &&& region_bytes::<T>(cap) % (PAGE_SIZE as int) == 0
    &&& region_bytes::<T>(cap) < isize::MAX
}

/// A pre-allocated array of fixed capacity for storing results. All of its
/// storage is reserved when it is created, and it never grows afterwards, so
/// that storing a result does not interfere with the measurement.
pub struct ResultArray<T> {
    items: Vec<T>,
    cap: usize,  // size as number of elements
    size: usize,  // in bytes
}

impl<T> ResultArray<T> {
    #[verifier::type_invariant]
    spec fn wf(self) -> bool {
        &&& self.items@.len() <= self.cap
        &&& fits_region::<T>(self.cap)
        &&& self.size == region_bytes::<T>(self.cap)
    }

    /// The pushed elements, in the order in which they were pushed.
    pub closed spec fn view(&self) -> Seq<T> {
        self.items@
    }

    /// The number of elements that the array was created for.
    pub closed spec fn spec_capacity(&self) -> usize {
        self.cap
    }

    /// The number of bytes that the array's storage occupies.
    pub closed spec fn spec_size(&self) -> usize {
        self.size
    }

    /// Tests the sizing rule for `cap` elements, and gives the size of the
    /// storage in bytes where it holds.
    pub fn region_size(cap: usize) -> (bytes: Option<usize>)
        ensures
            fits_region::<T>(cap) ==> bytes == Some(region_bytes::<T>(cap) as usize),
            !fits_region::<T>(cap) ==> bytes.is_none(),
    {
        let elem = core::mem::size_of::<T>();
        match cap.checked_mul(elem) {
            Some(size) => {
                if size > 0 && size % PAGE_SIZE == 0 && size < isize::MAX as usize {
                    Some(size)
                } else {
                    None
                }
            },
            None => None,
        }
    }

    /// Create a new `ResultArray` with room for the given number of elements.
    pub fn new(cap: usize) -> (array: Self)
        requires
            fits_region::<T>(cap),
        ensures
            array@ == Seq::<T>::empty(),
            array.capacity() == cap,
            array.size() == region_bytes::<T>(cap),
    {
        let size = cap * core::mem::size_of::<T>();
        ResultArray { items: Vec::with_capacity(cap), cap, size }
    }

    /// The number of pushed elements.
    pub fn len(&self) -> (len: usize)
        ensures
            len == self@.len(),
            len <= self.capacity(),
    {
        proof {
            use_type_invariant(self);
        }
        self.items.len()
    }

    /// The number of elements that the array has room for.
    #[verifier::when_used_as_spec(spec_capacity)]
    pub fn capacity(&self) -> (cap: usize)
        ensures
            cap == self.spec_capacity(),
            self@.len() <= cap,
            fits_region::<T>(cap),
    {
        proof {
            use_type_invariant(self);
        }
        self.cap
    }

    /// The number of bytes that the array's storage occupies.
    #[verifier::when_used_as_spec(spec_size)]
    pub fn size(&self) -> (bytes: usize)
        ensures
            bytes == self.spec_size(),
            bytes == region_bytes::<T>(self.capacity()),
    {
        proof {
            use_type_invariant(self);
        }
        self.size
    }

    /// Returns an iterator over only pushed elements: it yields each of
    /// them once, in the order in which they were pushed, and then ends.
    pub fn iter(&self) -> (iter: core::slice::Iter<'_, T>)
        ensures
            IteratorSpec::obeys_prophetic_iter_laws(&iter),
            IteratorSpec::remaining(&iter) == self@.as_ref(),
            IteratorSpec::initial_value_relation(&iter, &iter),
            IteratorSpec::decrease(&iter) is Some,
            into_iter_elts(iter) == self@,
    {
        self.as_slice().iter()
    }

    /// Push the `item` to the end of the array.
    pub fn push(&mut self, item: T)
        requires
            old(self)@.len() < old(self).capacity(),
        ensures
            final(self)@ == old(self)@.push(item),
            final(self).capacity() == old(self).capacity(),
            final(self).size() == old(self).size(),
    {
        proof {
            use_type_invariant(&*self);
        }
        // The storage leaves `self` while it changes, and comes back with the
        // new element in it: no element is moved, and since `len < cap` the
        // reserved storage is not reallocated.
        let mut items = Vec::new();
        core::mem::swap(&mut items, &mut self.items);
        items.push(item);
        self.items = items;
    }

    /// The pushed elements as a slice.
    pub fn as_slice(&self) -> (slice: &[T])
        ensures
            slice@ == self@,
    {
        self.items.as_slice()
    }

    /// Pop from the end and drop the popped value.
    pub fn pop(&mut self)
        requires
            old(self)@.len() > 0,
        ensures
            final(self)@ == old(self)@.drop_last(),
            final(self).capacity() == old(self).capacity(),
            final(self).size() == old(self).size(),
    {
        proof {
            use_type_invariant(&*self);
        }
        let mut items = Vec::new();
        core::mem::swap(&mut items, &mut self.items);
        let _ = items.pop();
        self.items = items;
    }

    /// Drop all values, last pushed first. The storage stays reserved, so the
    /// array can be filled again up to its capacity.
    pub fn clear(&mut self)
        ensures
            final(self)@ == Seq::<T>::empty(),
            final(self).capacity() == old(self).capacity(),
            final(self).size() == old(self).size(),
    {
        while self.len() > 0
            invariant
                self.capacity() == old(self).capacity(),
                self.size() == old(self).size(),
            decreases self@.len(),
        {
            self.pop();
        }
    }
}

/// What a sequence of pushes leaves in an array that held `start`: the
/// elements of `start`, then those of `pushed`, each in its order.
pub open spec fn after_pushes<T>(start: Seq<T>, pushed: Seq<T>) -> Seq<T>
    decreases pushed.len(),
{
    if pushed.len() == 0 {
        start
    } else {
        after_pushes(start, pushed.drop_last()).push(pushed.last())
    }
}

/// Any number of pushes into a new array, up to its capacity, leaves exactly
/// the pushed elements in it, in the order in which they were pushed, and
/// each of the pushes finds room: `iter` and `as_slice` show `pushed` itself.
pub proof fn lemma_pushes_keep_order<T>(pushed: Seq<T>, cap: usize)
    requires
        pushed.len() <= cap,
    ensures
        after_pushes(Seq::<T>::empty(), pushed) == pushed,
        forall|k: int|
            0 <= k < pushed.len() ==> (#[trigger] after_pushes(
                Seq::<T>::empty(),
                pushed.take(k),
            )).len() < cap,
    decreases pushed.len(),
{
    if pushed.len() > 0 {
        lemma_pushes_keep_order(pushed.drop_last(), cap);
        assert(pushed.drop_last().push(pushed.last()) =~= pushed);
    }
    assert forall|k: int| 0 <= k < pushed.len() implies (#[trigger] after_pushes(
        Seq::<T>::empty(),
        pushed.take(k),
    )).len() < cap by {
        lemma_pushes_keep_order(pushed.take(k), cap);
    }
}

} // verus!
