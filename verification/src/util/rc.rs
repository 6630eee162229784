//! The reference-counted handle and the heap that backs it.
//!
//! A [`Heap`] keeps, for every block, a count cell and a value cell. An
//! [`Rc`] is a handle to one block. Handles cannot be copied or forged: the
//! only ways to get one are [`Rc::new`] and [`Rc::clone`], and [`Rc::drop`]
//! consumes it, so no handle is dropped twice and none is used after its
//! drop.
//!
//! The counts are plain integers, not atomics. That is sound because every
//! operation that changes a count takes the heap by `&mut`: two threads can
//! never clone or drop at the same time, and sharing a heap between threads
//! takes a lock around all of it.
//!
//! A handle that merely goes out of scope is not counted down: its block
//! then stays live until the heap itself goes, which tears down whatever is
//! left on it.

use crate::util::store::{Block, Handle, Store};
use core::marker::PhantomData;
use vstd::prelude::*;

verus! {

/// The storage behind the handles: one count cell and one value cell per
/// block, allocated together and freed together. A freed block keeps its
/// index, so an index never comes to mean another family; the cells of a
/// heap are given back when the heap goes.
pub struct Heap<T> {
    counts: Vec<usize>,
    values: Vec<Option<T>>,
    freed: usize,
    owners: Ghost<Seq<Set<nat>>>,
    issued: Ghost<nat>,
    teardowns: Ghost<Seq<int>>,
}

/// A handle to a shared value on a [`Heap`]. Its view is its identity: the
/// block it refers to and the serial number it was issued under.
pub struct Rc<T> {
    block: usize,
    serial: Ghost<nat>,
    marker: PhantomData<T>,
}

impl<T> View for Rc<T> {
    type V = Handle;

    closed spec fn view(&self) -> Handle {
        Handle { block: self.block as int, serial: self.serial@ }
    }
}

impl<T> View for Heap<T> {
    type V = Store<T>;

    closed spec fn view(&self) -> Store<T> {
        Store {
            blocks: Seq::new(
                self.values@.len(),
                |b: int|
                    match self.values@[b] {
                        Some(value) => Block::Live { owners: self.owners@[b], value },
                        None => Block::Freed,
                    },
            ),
            issued: self.issued@,
            teardowns: self.teardowns@,
        }
    }
}

impl<T> Heap<T> {
    /// The cells agree with each other: a block has a count cell, a value
    /// cell and an owner set; its count is zero exactly when its value is
    /// gone; the count of a live block is the number of its owners; and the
    /// teardowns are counted.
    pub closed spec fn consistent(&self) -> bool {
        &&& self.counts@.len() == self.values@.len()
        &&& self.owners@.len() == self.values@.len()
        &&& self.freed == self.teardowns@.len()
        &&& forall|b: int|
            0 <= b < self.values@.len() ==> (#[trigger] self.counts@[b] == 0
                <==> self.values@[b] is None)
        &&& forall|b: int|
            0 <= b < self.values@.len() && self.values@[b] is Some
                ==> #[trigger] self.owners@[b].len() == self.counts@[b]
    }

    /// `after` is this heap with `value` in the value cell of block `b`, and
    /// nothing else changed.
    spec fn rewritten(&self, after: Self, b: int, value: T) -> bool {
        &&& after.counts == self.counts
        &&& after.freed == self.freed
        &&& after.owners == self.owners
        &&& after.issued == self.issued
        &&& after.teardowns == self.teardowns
        &&& after.values@ == self.values@.update(b, Some(value))
    }

    /// The heap is one that the operations of a handle can work on.
    pub open spec fn wf(&self) -> bool {
        self.consistent() && self@.wf()
    }

    /// A heap with no blocks.
    pub fn new() -> (heap: Self)
        ensures
            heap.wf(),
            heap@ == Store::<T>::empty(),
    {
        let heap = Heap {
            counts: Vec::new(),
            values: Vec::new(),
            freed: 0,
            owners: Ghost(Seq::empty()),
            issued: Ghost(0),
            teardowns: Ghost(Seq::empty()),
        };
        proof {
            assert(heap@.blocks =~= Seq::empty());
        }
        heap
    }

    /// How many blocks were allocated on this heap so far, freed ones
    /// included.
    pub fn len(&self) -> (blocks: usize)
        requires
            self.wf(),
        ensures
            blocks == self@.blocks.len(),
    {
        self.values.len()
    }

    /// How many values were torn down on this heap so far.
    pub fn teardowns(&self) -> (torn: usize)
        requires
            self.wf(),
        ensures
            torn == self@.teardowns.len(),
    {
        self.freed
    }

    /// Whether the block that `handle` refers to is live on this heap.
    ///
    /// True of every handle that the heap holds. Code that Verus does not
    /// check can use it to test a handle before it relies on it.
    pub fn contains(&self, handle: &Rc<T>) -> (found: bool)
        requires
            self.wf(),
        ensures
            found == self@.live(handle@.block),
    {
        handle.block < self.counts.len() && self.counts[handle.block] > 0
    }
}

impl<T> Rc<T> {
    /// Moves `value` into a new block of `heap`, with a count of 1, and
    /// returns the one handle to it.
    pub fn new(heap: &mut Heap<T>, value: T) -> (rc: Self)
        requires
            old(heap).wf(),
        ensures
            final(heap).wf(),
            final(heap)@ == old(heap)@.construct(value),
            rc@ == old(heap)@.next_handle(old(heap)@.blocks.len() as int),
            final(heap)@.holds(rc@),
            final(heap)@.count(rc@.block) == 1,
            final(heap)@.value(rc@.block) == value,
    {
        let block: usize = heap.values.len();
        let ghost before = heap@;
        heap.counts.push(1);
        heap.values.push(Some(value));
        proof {
            heap.owners@ = heap.owners@.push(set![heap.issued@]);
            heap.issued@ = heap.issued@ + 1;
            before.lemma_construct_wf(value);
            assert(heap@.blocks =~= before.construct(value).blocks);
        }
        Rc { block, serial: Ghost(before.issued), marker: PhantomData }
    }

    /// Another handle to the same block. The count of the block goes up by
    /// exactly one; no value is copied and nothing is allocated.
    pub fn clone(&self, heap: &mut Heap<T>) -> (rc: Self)
        requires
            old(heap).wf(),
            old(heap)@.holds(self@),
            old(heap)@.count(self@.block) < usize::MAX,
        ensures
            final(heap).wf(),
            final(heap)@ == old(heap)@.retain(self@.block),
            rc@ == old(heap)@.next_handle(self@.block),
            final(heap)@.holds(rc@),
            final(heap)@.count(self@.block) == old(heap)@.count(self@.block) + 1,
            final(heap)@.value(self@.block) == old(heap)@.value(self@.block),
    {
        let ghost before = heap@;
        let count: usize = heap.counts[self.block];
        heap.counts.set(self.block, count + 1);
        proof {
            heap.owners@ = heap.owners@.update(
                self.block as int,
                heap.owners@[self.block as int].insert(heap.issued@),
            );
            heap.issued@ = heap.issued@ + 1;
            before.lemma_retain_wf(self.block as int);
            assert(heap@.blocks =~= before.retain(self.block as int).blocks);
        }
        Rc { block: self.block, serial: Ghost(before.issued), marker: PhantomData }
    }

    /// Gives the handle up. The count of its block goes down by exactly one.
    /// If that leaves no handle, the value is torn down in place and the
    /// block is freed; otherwise the value stays for the other handles.
    pub fn drop(self, heap: &mut Heap<T>)
        requires
            old(heap).wf(),
            old(heap)@.holds(self@),
        ensures
            final(heap).wf(),
            final(heap)@ == old(heap)@.release(self@),
            final(heap)@.count(self@.block) == old(heap)@.count(self@.block) - 1,
            final(heap)@.freed(self@.block) <==> old(heap)@.count(self@.block) == 1,
    {
        let ghost before = heap@;
        let count: usize = heap.counts[self.block] - 1;
        heap.counts.set(self.block, count);
        if count == 0 {
            proof {
                before.lemma_teardowns_bounded(self@.block);
                assert(before.blocks.len() == heap.values.len());
            }
            heap.values.set(self.block, None);
            heap.freed = heap.freed + 1;
            proof {
                heap.teardowns@ = heap.teardowns@.push(self.block as int);
            }
        } else {
            proof {
                heap.owners@ = heap.owners@.update(
                    self.block as int,
                    heap.owners@[self.block as int].remove(self.serial@),
                );
            }
        }
        proof {
            before.lemma_release_wf(self@);
            assert(heap@.blocks =~= before.release(self@).blocks);
        }
    }

    /// The shared value, for reading.
    pub fn deref<'a>(&self, heap: &'a Heap<T>) -> (value: &'a T)
        requires
            heap.wf(),
            heap@.holds(self@),
        ensures
            *value == heap@.value(self@.block),
    {
        heap.values[self.block].as_ref().unwrap()
    }

    /// The shared value, for writing. What is written through one handle is
    /// what every handle of the family reads afterwards.
    pub fn deref_mut<'a>(&self, heap: &'a mut Heap<T>) -> (value: &'a mut T)
        requires
            old(heap).wf(),
            old(heap)@.holds(self@),
        ensures
            *value == old(heap)@.value(self@.block),
            final(heap)@ == old(heap)@.write(self@.block, *final(value)),
            final(heap).wf(),
    {
        proof {
            let before = *heap;
            assert forall|after: Heap<T>, v: T|
                #![trigger after@, before@.write(self@.block, v)]
                before.rewritten(after, self@.block, v) implies after.wf() && after@
                == before@.write(self@.block, v) by {
                before@.lemma_write_wf(self@.block, v);
                assert(after@.blocks =~= before@.write(self@.block, v).blocks);
            }
        }
        heap.values[self.block].as_mut().unwrap()
    }

    /// The count of the handle's block: how many handles share the value.
    pub fn ref_count(&self, heap: &Heap<T>) -> (count: usize)
        requires
            heap.wf(),
            heap@.holds(self@),
        ensures
            count == heap@.count(self@.block),
    {
        heap.counts[self.block]
    }

    /// Whether two handles of one heap refer to the same block, that is,
    /// belong to one clone family.
    pub fn ptr_eq(&self, other: &Self) -> (same: bool)
        ensures
            same == (self@.block == other@.block),
    {
        self.block == other.block
    }
}

} // verus!
