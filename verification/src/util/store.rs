//! The mathematical model of reference-counted storage.
//!
//! A store is a sequence of blocks. Each block belongs to one clone family:
//! the handles that descend, by cloning, from a single construction. A live
//! block records who owns it, as the set of serial numbers of its handles, and
//! the value they share. The reference count is the size of that set, so it is
//! the number of live handles by definition. A block whose last handle was
//! dropped is freed, and stays freed.

use vstd::prelude::*;
use vstd::set_lib::{lemma_int_range, lemma_len_subset, set_int_range};

verus! {

/// The identity of a handle: the block it refers to, and the serial number
/// under which the store issued it. A store issues every serial number once.
pub struct Handle {
    pub block: int,
    pub serial: nat,
}

/// The state of one count/value pair.
pub enum Block<T> {
    /// At least one handle refers to the block.
    Live { owners: Set<nat>, value: T },
    /// The last handle was dropped and the value was torn down.
    Freed,
}

/// Every block ever allocated, the number of handles ever issued, and the
/// blocks whose value was torn down, oldest first.
pub struct Store<T> {
    pub blocks: Seq<Block<T>>,
    pub issued: nat,
    pub teardowns: Seq<int>,
}

impl<T> Store<T> {
    /// The store in which nothing was allocated yet.
    pub open spec fn empty() -> Self {
        Store { blocks: Seq::empty(), issued: 0, teardowns: Seq::empty() }
    }

    /// Block `b` was allocated and has not been freed.
    pub open spec fn live(self, b: int) -> bool {
        0 <= b < self.blocks.len() && self.blocks[b] is Live
    }

    /// Block `b` was allocated and has been freed since.
    pub open spec fn freed(self, b: int) -> bool {
        0 <= b < self.blocks.len() && self.blocks[b] is Freed
    }

    /// The serial numbers of the live handles of block `b`.
    pub open spec fn owners(self, b: int) -> Set<nat> {
        if self.live(b) {
            self.blocks[b]->owners
        } else {
            Set::empty()
        }
    }

    /// The reference count of block `b`: how many live handles it has.
    pub open spec fn count(self, b: int) -> nat {
        self.owners(b).len()
    }

    /// The value that the handles of block `b` share.
    pub open spec fn value(self, b: int) -> T
        recommends
            self.live(b),
    {
        self.blocks[b]->value
    }

    /// Handle `h` was issued by this store and has not been dropped.
    pub open spec fn holds(self, h: Handle) -> bool {
        self.live(h.block) && self.owners(h.block).contains(h.serial)
    }

    /// What holds of every store that the operations below can reach.
    ///
    /// A live block has at least one owner and finitely many, all of them
    /// issued by this store. The teardown record lists exactly the freed
    /// blocks, each of them once.
    pub open spec fn wf(self) -> bool {
        &&& forall|b: int| #[trigger]
            self.live(b) ==> self.owners(b).finite() && self.owners(b).len() >= 1
        &&& forall|b: int, s: nat| #[trigger]
            self.owners(b).contains(s) ==> s < self.issued
        &&& self.teardowns.no_duplicates()
        &&& forall|b: int| #[trigger] self.teardowns.contains(b) <==> self.freed(b)
    }

    /// The handle that the next construction or clone on block `b` issues.
    pub open spec fn next_handle(self, b: int) -> Handle {
        Handle { block: b, serial: self.issued }
    }

    /// The store after constructing a handle over `value`: one more block,
    /// owned by the one new handle.
    pub open spec fn construct(self, value: T) -> Self {
        Store {
            blocks: self.blocks.push(Block::Live { owners: set![self.issued], value }),
            issued: self.issued + 1,
            teardowns: self.teardowns,
        }
    }

    /// The store after cloning a handle of block `b`: the block has one more
    /// owner and nothing else changes.
    pub open spec fn retain(self, b: int) -> Self
        recommends
            self.live(b),
    {
        Store {
            blocks: self.blocks.update(
                b,
                Block::Live { owners: self.owners(b).insert(self.issued), value: self.value(b) },
            ),
            issued: self.issued + 1,
            teardowns: self.teardowns,
        }
    }

    /// The store after dropping handle `h`. If `h` was the last owner the
    /// block is freed and its teardown is recorded; otherwise the block only
    /// loses `h`.
    pub open spec fn release(self, h: Handle) -> Self
        recommends
            self.holds(h),
    {
        if self.count(h.block) == 1 {
            Store {
                blocks: self.blocks.update(h.block, Block::Freed),
                issued: self.issued,
                teardowns: self.teardowns.push(h.block),
            }
        } else {
            Store {
                blocks: self.blocks.update(
                    h.block,
                    Block::Live {
                        owners: self.owners(h.block).remove(h.serial),
                        value: self.value(h.block),
                    },
                ),
                issued: self.issued,
                teardowns: self.teardowns,
            }
        }
    }

    /// The store after writing `value` through a handle of block `b`.
    pub open spec fn write(self, b: int, value: T) -> Self
        recommends
            self.live(b),
    {
        Store {
            blocks: self.blocks.update(b, Block::Live { owners: self.owners(b), value }),
            issued: self.issued,
            teardowns: self.teardowns,
        }
    }
}

impl<T> Store<T> {
    /// Construction keeps the store well formed. The new block is the next
    /// free index, it is held by the one handle issued, and its count is 1.
    pub proof fn lemma_construct_wf(self, value: T)
        requires
            self.wf(),
        ensures
            self.construct(value).wf(),
            self.construct(value).holds(self.next_handle(self.blocks.len() as int)),
            self.construct(value).count(self.blocks.len() as int) == 1,
            self.construct(value).value(self.blocks.len() as int) == value,
    {
        let after = self.construct(value);
        let fresh = self.blocks.len() as int;
        assert forall|b: int| #[trigger] after.live(b) implies after.owners(b).finite()
            && after.owners(b).len() >= 1 by {
            if b != fresh {
                assert(self.live(b));
            }
        }
        assert forall|b: int, s: nat| #[trigger] after.owners(b).contains(s) implies s
            < after.issued by {
            if b != fresh {
                assert(self.owners(b).contains(s));
            }
        }
    }

    /// Cloning keeps the store well formed and adds exactly one to the count
    /// of the block cloned.
    pub proof fn lemma_retain_wf(self, b: int)
        requires
            self.wf(),
            self.live(b),
        ensures
            self.retain(b).wf(),
            self.retain(b).holds(self.next_handle(b)),
            !self.holds(self.next_handle(b)),
            self.retain(b).count(b) == self.count(b) + 1,
            self.retain(b).value(b) == self.value(b),
    {
        let after = self.retain(b);
        assert forall|c: int| #[trigger] after.live(c) implies after.owners(c).finite()
            && after.owners(c).len() >= 1 by {
            if c != b {
                assert(self.live(c));
            }
        }
        assert forall|c: int, s: nat| #[trigger] after.owners(c).contains(s) implies s
            < after.issued by {
            if c != b {
                assert(self.owners(c).contains(s));
            }
        }
    }

    /// Dropping a handle keeps the store well formed. The block is freed, and
    /// its teardown recorded, exactly when the handle was the last owner;
    /// otherwise the count goes down by one and the value stays.
    pub proof fn lemma_release_wf(self, h: Handle)
        requires
            self.wf(),
            self.holds(h),
        ensures
            self.release(h).wf(),
            !self.release(h).holds(h),
            self.release(h).count(h.block) == self.count(h.block) - 1,
            self.count(h.block) == 1 <==> self.release(h).freed(h.block),
            self.count(h.block) > 1 ==> self.release(h).value(h.block) == self.value(h.block),
    {
        let after = self.release(h);
        let b = h.block;
        if self.count(b) == 1 {
            assert(!self.teardowns.contains(b));
            assert forall|c: int| #[trigger] after.teardowns.contains(c) <==> after.freed(c) by {
                if c == b {
                    assert(after.teardowns[self.teardowns.len() as int] == b);
                } else if self.teardowns.contains(c) {
                    let i = choose|i: int| 0 <= i < self.teardowns.len() && self.teardowns[i] == c;
                    assert(after.teardowns[i] == c);
                }
            }
        }
        assert forall|c: int| #[trigger] after.live(c) implies after.owners(c).finite()
            && after.owners(c).len() >= 1 by {
            if c != b {
                assert(self.live(c));
            }
        }
        assert forall|c: int, s: nat| #[trigger] after.owners(c).contains(s) implies s
            < after.issued by {
            if c != b {
                assert(self.owners(c).contains(s));
            }
        }
    }

    /// No more values were torn down than blocks were allocated, and fewer
    /// if block `b` is still live.
    pub proof fn lemma_teardowns_bounded(self, b: int)
        requires
            self.wf(),
        ensures
            self.teardowns.len() <= self.blocks.len(),
            self.live(b) ==> self.teardowns.len() < self.blocks.len(),
    {
        let all = set_int_range(0, self.blocks.len() as int);
        let torn = self.teardowns.to_set();
        self.teardowns.unique_seq_to_set();
        lemma_int_range(0, self.blocks.len() as int);
        lemma_len_subset(torn, all);
        if self.live(b) {
            lemma_len_subset(torn, all.remove(b));
        }
    }

    /// Writing through a handle keeps the store well formed and changes
    /// neither who owns the block nor its count.
    pub proof fn lemma_write_wf(self, b: int, value: T)
        requires
            self.wf(),
            self.live(b),
        ensures
            self.write(b, value).wf(),
            self.write(b, value).owners(b) == self.owners(b),
            self.write(b, value).value(b) == value,
    {
        let after = self.write(b, value);
        assert forall|c: int| #[trigger] after.live(c) implies after.owners(c).finite()
            && after.owners(c).len() >= 1 by {
            assert(self.live(c));
        }
        assert forall|c: int, s: nat| #[trigger] after.owners(c).contains(s) implies s
            < after.issued by {
            assert(self.owners(c).contains(s));
        }
    }
}

/// How many of the handles `hs` refer to block `b`.
pub open spec fn handles_of(hs: Seq<Handle>, b: int) -> nat
    decreases hs.len(),
{
    if hs.len() == 0 {
        0
    } else {
        handles_of(hs.drop_last(), b) + if hs.last().block == b {
            1nat
        } else {
            0nat
        }
    }
}

/// Handles that all refer to block `b` are as many as there are of them.
pub proof fn lemma_handles_of_one_block(hs: Seq<Handle>, b: int)
    requires
        forall|i: int| 0 <= i < hs.len() ==> (#[trigger] hs[i]).block == b,
    ensures
        handles_of(hs, b) == hs.len(),
    decreases hs.len(),
{
    if hs.len() > 0 {
        lemma_handles_of_one_block(hs.drop_last(), b);
    }
}

impl<T> Store<T> {
    /// The store after cloning a handle of block `b`, `k` times over.
    pub open spec fn retain_times(self, b: int, k: nat) -> Self
        decreases k,
    {
        if k == 0 {
            self
        } else {
            self.retain_times(b, (k - 1) as nat).retain(b)
        }
    }

    /// The store after dropping the handles `hs`, first to last.
    pub open spec fn release_all(self, hs: Seq<Handle>) -> Self
        decreases hs.len(),
    {
        if hs.len() == 0 {
            self
        } else {
            self.release_all(hs.drop_last()).release(hs.last())
        }
    }

    /// Cloning `k` times adds exactly `k` to the count of the block, keeps
    /// its value and every handle held so far, tears nothing down, and
    /// leaves every other block as it was.
    pub proof fn lemma_retain_times(self, b: int, k: nat)
        requires
            self.wf(),
            self.live(b),
        ensures
            self.retain_times(b, k).wf(),
            self.retain_times(b, k).count(b) == self.count(b) + k,
            self.retain_times(b, k).live(b),
            self.retain_times(b, k).value(b) == self.value(b),
            self.retain_times(b, k).teardowns == self.teardowns,
            self.retain_times(b, k).blocks.len() == self.blocks.len(),
            forall|c: int|
                0 <= c < self.blocks.len() && c != b ==> #[trigger] self.retain_times(
                    b,
                    k,
                ).blocks[c] == self.blocks[c],
            forall|h: Handle| self.holds(h) ==> #[trigger] self.retain_times(b, k).holds(h),
        decreases k,
    {
        if k > 0 {
            let before = self.retain_times(b, (k - 1) as nat);
            self.lemma_retain_times(b, (k - 1) as nat);
            before.lemma_retain_wf(b);
            assert forall|h: Handle| self.holds(h) implies #[trigger] before.retain(b).holds(
                h,
            ) by {
                assert(before.holds(h));
            }
        }
    }

    /// Dropping a handle leaves every other handle held, and no handle
    /// becomes held by it.
    pub proof fn lemma_release_keeps_others(self, h: Handle, other: Handle)
        requires
            self.wf(),
            self.holds(h),
        ensures
            self.release(h).holds(other) <==> self.holds(other) && other != h,
    {
    }

    /// Dropping distinct handles that the store holds, in any order: the
    /// store stays well formed, exactly the dropped handles stop being held,
    /// every block loses as many counts as handles of it were dropped, a
    /// block is freed exactly when all its handles were dropped, and a block
    /// that stays live keeps its value.
    pub proof fn lemma_release_all(self, hs: Seq<Handle>)
        requires
            self.wf(),
            hs.no_duplicates(),
            forall|i: int| 0 <= i < hs.len() ==> self.holds(#[trigger] hs[i]),
        ensures
            self.release_all(hs).wf(),
            self.release_all(hs).blocks.len() == self.blocks.len(),
            forall|h: Handle| #[trigger]
                self.release_all(hs).holds(h) <==> self.holds(h) && !hs.contains(h),
            forall|b: int| #[trigger]
                self.release_all(hs).count(b) == self.count(b) - handles_of(hs, b),
            forall|b: int|
                self.live(b) ==> (#[trigger] self.release_all(hs).freed(b) <==> handles_of(hs, b)
                    == self.count(b)),
            forall|b: int| #[trigger]
                self.release_all(hs).live(b) ==> self.live(b) && self.release_all(hs).value(b)
                    == self.value(b),
        decreases hs.len(),
    {
        if hs.len() > 0 {
            let front = hs.drop_last();
            let last = hs.last();
            let before = self.release_all(front);
            self.lemma_release_all(front);
            assert(!front.contains(last)) by {
                if front.contains(last) {
                    let i = choose|i: int| 0 <= i < front.len() && front[i] == last;
                    assert(hs[i] == hs[hs.len() - 1]);
                }
            }
            before.lemma_release_wf(last);
            let after = before.release(last);
            assert forall|h: Handle| #[trigger]
                after.holds(h) <==> self.holds(h) && !hs.contains(h) by {
                before.lemma_release_keeps_others(last, h);
                if hs.contains(h) {
                    let i = choose|i: int| 0 <= i < hs.len() && hs[i] == h;
                    if i < front.len() {
                        assert(front[i] == h);
                    }
                }
            }
            assert forall|b: int| #[trigger]
                after.count(b) == self.count(b) - handles_of(hs, b) by {
                assert(before.count(b) == self.count(b) - handles_of(front, b));
            }
            assert forall|b: int| self.live(b) implies (#[trigger] after.freed(b) <==> handles_of(
                hs,
                b,
            ) == self.count(b)) by {
                assert(before.freed(b) <==> handles_of(front, b) == self.count(b));
            }
            assert forall|b: int| #[trigger] after.live(b) implies self.live(b) && after.value(b)
                == self.value(b) by {
                assert(before.live(b));
            }
        }
    }
}

/// One operation on a store, as a value.
pub enum Step<T> {
    /// A construction over `value`.
    Construct { value: T },
    /// A clone of `handle`.
    Retain { handle: Handle },
    /// The drop of `handle`.
    Release { handle: Handle },
    /// A write of `value` through `handle`.
    Write { handle: Handle, value: T },
}

impl<T> Store<T> {
    /// Whether the store admits the step. A construction is always
    /// admitted; every other step needs a handle that the store holds.
    pub open spec fn admits(self, step: Step<T>) -> bool {
        match step {
            Step::Construct { .. } => true,
            Step::Retain { handle } => self.holds(handle),
            Step::Release { handle } => self.holds(handle),
            Step::Write { handle, .. } => self.holds(handle),
        }
    }

    /// The store after the step.
    pub open spec fn step(self, step: Step<T>) -> Self {
        match step {
            Step::Construct { value } => self.construct(value),
            Step::Retain { handle } => self.retain(handle.block),
            Step::Release { handle } => self.release(handle),
            Step::Write { handle, value } => self.write(handle.block, value),
        }
    }

    /// The store after the steps, first to last.
    pub open spec fn run(self, steps: Seq<Step<T>>) -> Self
        decreases steps.len(),
    {
        if steps.len() == 0 {
            self
        } else {
            self.run(steps.drop_last()).step(steps.last())
        }
    }

    /// Whether each of the steps is admitted by the store that it meets.
    pub open spec fn admits_all(self, steps: Seq<Step<T>>) -> bool
        decreases steps.len(),
    {
        steps.len() == 0 || (self.admits_all(steps.drop_last()) && self.run(
            steps.drop_last(),
        ).admits(steps.last()))
    }

    /// A step that the store admits keeps it well formed. No block goes
    /// away, a freed block stays freed, and the teardown record grows by at
    /// most one entry, at its end.
    pub proof fn lemma_step_wf(self, step: Step<T>)
        requires
            self.wf(),
            self.admits(step),
        ensures
            self.step(step).wf(),
            self.step(step).blocks.len() >= self.blocks.len(),
            self.step(step).issued >= self.issued,
            forall|b: int| self.freed(b) ==> #[trigger] self.step(step).freed(b),
            self.teardowns.is_prefix_of(self.step(step).teardowns),
            self.step(step).teardowns.len() <= self.teardowns.len() + 1,
    {
        match step {
            Step::Construct { value } => {
                self.lemma_construct_wf(value);
            },
            Step::Retain { handle } => {
                self.lemma_retain_wf(handle.block);
            },
            Step::Release { handle } => {
                self.lemma_release_wf(handle);
            },
            Step::Write { handle, value } => {
                self.lemma_write_wf(handle.block, value);
            },
        }
    }
}

} // verus!
