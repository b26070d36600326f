//! The buffer itself: storage discipline, index arithmetic, and the
//! push/pop/indexing operations.

use vstd::prelude::*;

verus! {

/// Signal that an operation cannot complete given the current state: the
/// buffer is full on a push, empty on a pop, or the index is not present on
/// a read. Always recoverable; whenever it is returned the buffer is left
/// unchanged.
#[derive(Clone, Copy, Debug, PartialEq, Eq, Structural)]
pub enum Error {
    WouldBlock,
}

/// Physical slot of logical index `i` in a buffer of `n` slots whose oldest
/// element sits in slot `front`: `(front + i) mod n`, written without `%`
/// because `0 <= front + i < 2 * n` holds everywhere it is used.
pub open spec fn slot_of(front: int, i: int, n: int) -> int {
    if front + i < n {
        front + i
    } else {
        front + i - n
    }
}

/// A fixed-capacity, double-ended circular buffer of up to `N` elements.
///
/// Logical index 0 is the oldest element; indices grow toward the newest.
/// The abstract value (the view `self@`) is the sequence of stored elements
/// in logical order. Slots outside the occupied range are never read.
pub struct RingBuf<T, const N: usize> {
    /// Physical slot of the oldest element, meaningful while `len > 0`.
    front: usize,
    /// Number of occupied slots; kept separately so that a full buffer and
    /// an empty one are never conflated.
    len: usize,
    /// The `N` physical slots. A slot logically outside the occupied range
    /// may hold a stale value; the occupancy invariant keeps it unread.
    storage: Vec<Option<T>>,
}

impl<T, const N: usize> RingBuf<T, N> {
    /// Well-formedness: the backing storage has exactly `N` slots, at most
    /// `N` of them are occupied, `front` is a valid slot (or 0 when `N == 0`),
    /// and every occupied slot holds a value.
    pub closed spec fn wf(&self) -> bool {
        &&& self.storage@.len() == N
        &&& self.len <= N
        &&& (self.front < N || self.front == 0)
        &&& forall|i: int|
            0 <= i < self.len ==> (#[trigger] self.storage@[slot_of(
                self.front as int,
                i,
                N as int,
            )]) is Some
    }
}

impl<T, const N: usize> View for RingBuf<T, N> {
    type V = Seq<T>;

    /// The stored elements in logical order, oldest first.
    closed spec fn view(&self) -> Seq<T> {
        Seq::new(
            self.len as nat,
            |i: int| self.storage@[slot_of(self.front as int, i, N as int)]->0,
        )
    }
}

impl<T: Copy, const N: usize> RingBuf<T, N> {
    /// An empty buffer: no slot is occupied.
    pub fn new() -> (r: Self)
        ensures
            r.wf(),
            r@ == Seq::<T>::empty(),
    {
        let mut storage: Vec<Option<T>> = Vec::new();
        while storage.len() < N
            invariant
                storage@.len() <= N,
            decreases N - storage@.len(),
        {
            storage.push(None);
        }
        let r = RingBuf { front: 0, len: 0, storage };
        proof {
            assert(r@ =~= Seq::<T>::empty());
        }
        r
    }

    /// The fixed capacity `N`.
    pub fn capacity(&self) -> (r: usize)
        ensures
            r == N,
    {
        N
    }

    /// The number of stored elements.
    pub fn len(&self) -> (r: usize)
        ensures
            r == self@.len(),
    {
        self.len
    }

    /// Whether no element is stored.
    pub fn is_empty(&self) -> (r: bool)
        ensures
            r <==> self@.len() == 0,
    {
        self.len() == 0
    }

    /// Whether every slot is occupied.
    pub fn is_full(&self) -> (r: bool)
        ensures
            r <==> self@.len() == N,
    {
        self.len() == self.capacity()
    }

    /// How many more elements fit.
    pub fn free(&self) -> (r: usize)
        requires
            self.wf(),
        ensures
            r == N - self@.len(),
    {
        self.capacity() - self.len()
    }

    /// Physical slot of logical index `i`; callable only while `i` is in
    /// range of a well-formed, non-trivial buffer.
    fn slot(&self, i: usize) -> (r: usize)
        requires
            self.wf(),
            i < N,
            self.front < N,
        ensures
            r == slot_of(self.front as int, i as int, N as int),
            r < N,
    {
        if i < N - self.front {
            self.front + i
        } else {
            i - (N - self.front)
        }
    }

    /// Appends `item` after the newest element; fails with `WouldBlock` and
    /// changes nothing when the buffer is full.
    pub fn push_back(&mut self, item: T) -> (r: Result<(), Error>)
        requires
            old(self).wf(),
        ensures
            final(self).wf(),
            old(self)@.len() < N ==> {
                &&& r == Ok::<(), Error>(())
                &&& final(self)@ == old(self)@.push(item)
            },
            old(self)@.len() == N ==> {
                &&& r == Err::<(), Error>(Error::WouldBlock)
                &&& final(self)@ == old(self)@
            },
    {
        if self.is_full() {
            return Err(Error::WouldBlock);
        }
        let back = self.slot(self.len);
        self.storage.set(back, Some(item));
        self.len = self.len + 1;
        proof {
            assert(self@ =~= old(self)@.push(item));
        }
        Ok(())
    }

    /// Removes and returns the oldest element; fails with `WouldBlock` and
    /// changes nothing when the buffer is empty.
    pub fn pop_front(&mut self) -> (r: Result<T, Error>)
        requires
            old(self).wf(),
        ensures
            final(self).wf(),
            old(self)@.len() > 0 ==> {
                &&& r == Ok::<T, Error>(old(self)@.first())
                &&& final(self)@ == old(self)@.drop_first()
            },
            old(self)@.len() == 0 ==> {
                &&& r == Err::<T, Error>(Error::WouldBlock)
                &&& final(self)@ == old(self)@
            },
    {
        if self.is_empty() {
            return Err(Error::WouldBlock);
        }
        proof {
            assert(slot_of(self.front as int, 0, N as int) == self.front as int);
            assert(self.storage@[slot_of(self.front as int, 0, N as int)] is Some);
        }
        let d = self.storage[self.front].unwrap();
        self.front = if self.front == N - 1 {
            0
        } else {
            self.front + 1
        };
        self.len = self.len - 1;
        proof {
            assert forall|i: int| 0 <= i < self.len implies #[trigger] slot_of(
                self.front as int,
                i,
                N as int,
            ) == slot_of(old(self).front as int, i + 1, N as int) by {}
            assert(self@ =~= old(self)@.drop_first());
        }
        Ok(d)
    }

    /// Inserts `item` before the oldest element; fails with `WouldBlock`
    /// and changes nothing when the buffer is full.
    pub fn push_front(&mut self, item: T) -> (r: Result<(), Error>)
        requires
            old(self).wf(),
        ensures
            final(self).wf(),
            old(self)@.len() < N ==> {
                &&& r == Ok::<(), Error>(())
                &&& final(self)@ == seq![item] + old(self)@
            },
            old(self)@.len() == N ==> {
                &&& r == Err::<(), Error>(Error::WouldBlock)
                &&& final(self)@ == old(self)@
            },
    {
        if self.is_full() {
            return Err(Error::WouldBlock);
        }
        self.front = if self.front == 0 {
            N - 1
        } else {
            self.front - 1
        };
        self.storage.set(self.front, Some(item));
        self.len = self.len + 1;
        proof {
            assert forall|i: int| 1 <= i < self.len implies #[trigger] slot_of(
                self.front as int,
                i,
                N as int,
            ) == slot_of(old(self).front as int, i - 1, N as int) by {}
            assert(slot_of(self.front as int, 0, N as int) == self.front as int);
            assert(self@ =~= seq![item] + old(self)@);
        }
        Ok(())
    }

    /// Removes and returns the newest element; fails with `WouldBlock` and
    /// changes nothing when the buffer is empty.
    pub fn pop_back(&mut self) -> (r: Result<T, Error>)
        requires
            old(self).wf(),
        ensures
            final(self).wf(),
            old(self)@.len() > 0 ==> {
                &&& r == Ok::<T, Error>(old(self)@.last())
                &&& final(self)@ == old(self)@.drop_last()
            },
            old(self)@.len() == 0 ==> {
                &&& r == Err::<T, Error>(Error::WouldBlock)
                &&& final(self)@ == old(self)@
            },
    {
        if self.is_empty() {
            return Err(Error::WouldBlock);
        }
        let back = self.slot(self.len - 1);
        let d = self.storage[back].unwrap();
        self.len = self.len - 1;
        proof {
            assert(self@ =~= old(self)@.drop_last());
        }
        Ok(d)
    }

    /// A copy of the element at logical index `i` (0 = oldest); fails with
    /// `WouldBlock` when `i` is not a position of a stored element.
    pub fn get(&self, i: usize) -> (r: Result<T, Error>)
        requires
            self.wf(),
        ensures
            i < self@.len() ==> r == Ok::<T, Error>(self@[i as int]),
            i >= self@.len() ==> r == Err::<T, Error>(Error::WouldBlock),
    {
        if self.len <= i {
            return Err(Error::WouldBlock);
        }
        let idx = self.slot(i);
        Ok(self.storage[idx].unwrap())
    }

    /// A copy of the element at logical index `i`; callable only while `i`
    /// is in range, where `get(i)` would succeed.
    pub fn index(&self, i: usize) -> (r: T)
        requires
            self.wf(),
            i < self@.len(),
        ensures
            r == self@[i as int],
    {
        let idx = self.slot(i);
        self.storage[idx].unwrap()
    }

    /// Overwrites the element at logical index `i` with `value`, in place in
    /// the backing storage; callable only while `i` is in range.
    pub fn set(&mut self, i: usize, value: T)
        requires
            old(self).wf(),
            i < old(self)@.len(),
        ensures
            final(self).wf(),
            final(self)@ == old(self)@.update(i as int, value),
    {
        let idx = self.slot(i);
        self.storage.set(idx, Some(value));
        proof {
            assert(self@ =~= old(self)@.update(i as int, value));
        }
    }

    /// A copy of the elements at logical indices `[lo, hi)`, in logical
    /// order; callable only while the range lies within the stored elements.
    /// The copy is taken slot by slot, so a range that crosses the physical
    /// wrap point is read correctly.
    pub fn range(&self, lo: usize, hi: usize) -> (r: Vec<T>)
        requires
            self.wf(),
            lo <= hi,
            hi <= self@.len(),
        ensures
            r@ == self@.subrange(lo as int, hi as int),
    {
        let mut r: Vec<T> = Vec::new();
        let mut j = lo;
        while j < hi
            invariant
                self.wf(),
                lo <= j <= hi,
                hi <= self@.len(),
                r@ =~= self@.subrange(lo as int, j as int),
            decreases hi - j,
        {
            r.push(self.index(j));
            j = j + 1;
            proof {
                assert(r@ =~= self@.subrange(lo as int, j as int));
            }
        }
        r
    }

    /// Overwrites the elements at logical indices `lo, lo + 1, ...` with the
    /// elements of `values`, in place in the backing storage; callable only
    /// while the written range lies within the stored elements.
    pub fn set_range(&mut self, lo: usize, values: &Vec<T>)
        requires
            old(self).wf(),
            lo + values@.len() <= old(self)@.len(),
        ensures
            final(self).wf(),
            final(self)@ == old(self)@.subrange(0, lo as int) + values@ + old(self)@.subrange(
                lo + values@.len(),
                old(self)@.len() as int,
            ),
    {
        let ghost orig = self@;
        let mut j: usize = 0;
        while j < values.len()
            invariant
                self.wf(),
                j <= values@.len(),
                lo + values@.len() <= orig.len(),
                orig.len() <= N,
                self@ =~= orig.subrange(0, lo as int) + values@.subrange(0, j as int)
                    + orig.subrange(lo + j, orig.len() as int),
            decreases values@.len() - j,
        {
            self.set(lo + j, values[j]);
            j = j + 1;
            proof {
                assert(self@ =~= orig.subrange(0, lo as int) + values@.subrange(0, j as int)
                    + orig.subrange(lo + j, orig.len() as int));
            }
        }
        proof {
            assert(values@.subrange(0, values@.len() as int) == values@);
        }
    }
}

} // verus!
