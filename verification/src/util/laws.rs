//! What reference counting promises, proved of the model in
//! [`crate::util::store`].
//!
//! A clone family is the set of handles of one block. Each statement below
//! holds of every well-formed store, and so of every heap that the handles'
//! operations can reach.

use crate::util::store::{handles_of, lemma_handles_of_one_block, Handle, Step, Store};
use vstd::prelude::*;

verus! {

/// The store after constructing a handle over `value` and cloning it `k`
/// times. The family lives in the block that was next to be allocated.
pub open spec fn family_of<T>(store: Store<T>, value: T, k: nat) -> Store<T> {
    store.construct(value).retain_times(store.blocks.len() as int, k)
}

/// Count accuracy: after one construction and `k` clones the count of the
/// family is `k + 1`. No more than `k + 1` distinct handles of it can be
/// dropped, and after dropping `j` of them the count is `k + 1 - j`.
pub proof fn lemma_count_accuracy<T>(store: Store<T>, value: T, k: nat, dropped: Seq<Handle>)
    requires
        store.wf(),
        dropped.no_duplicates(),
        forall|i: int|
            0 <= i < dropped.len() ==> (#[trigger] dropped[i]).block == store.blocks.len()
                && family_of(store, value, k).holds(dropped[i]),
    ensures
        family_of(store, value, k).wf(),
        family_of(store, value, k).count(store.blocks.len() as int) == k + 1,
        dropped.len() <= k + 1,
        family_of(store, value, k).release_all(dropped).count(store.blocks.len() as int) == k + 1
            - dropped.len(),
{
    let b = store.blocks.len() as int;
    store.lemma_construct_wf(value);
    store.construct(value).lemma_retain_times(b, k);
    let family = family_of(store, value, k);
    family.lemma_release_all(dropped);
    lemma_handles_of_one_block(dropped, b);
    assert(family.release_all(dropped).count(b) == family.count(b) - handles_of(dropped, b));
}

/// Single teardown: however many handles a family has, dropping fewer than
/// all of them tears nothing down and leaves the value where it was, and
/// dropping all of them tears the value down exactly once, at the last drop.
pub proof fn lemma_single_teardown<T>(store: Store<T>, b: int, dropped: Seq<Handle>)
    requires
        store.wf(),
        store.live(b),
        dropped.no_duplicates(),
        forall|i: int|
            0 <= i < dropped.len() ==> (#[trigger] dropped[i]).block == b && store.holds(
                dropped[i],
            ),
    ensures
        dropped.len() <= store.count(b),
        dropped.len() < store.count(b) ==> store.release_all(dropped).teardowns == store.teardowns
            && store.release_all(dropped).live(b) && store.release_all(dropped).value(b)
            == store.value(b),
        dropped.len() == store.count(b) ==> store.release_all(dropped).teardowns
            == store.teardowns.push(b) && store.release_all(dropped).freed(b),
    decreases dropped.len(),
{
    store.lemma_release_all(dropped);
    lemma_handles_of_one_block(dropped, b);
    assert(store.release_all(dropped).count(b) == store.count(b) - handles_of(dropped, b));
    if dropped.len() > 0 {
        let front = dropped.drop_last();
        lemma_single_teardown(store, b, front);
        store.lemma_release_all(front);
        lemma_handles_of_one_block(front, b);
    }
}

/// No premature teardown: while the count of a block is at least 1 the block
/// is live and its teardown has not been recorded. A teardown, once recorded,
/// is recorded once.
pub proof fn lemma_no_premature_teardown<T>(store: Store<T>, b: int)
    requires
        store.wf(),
    ensures
        store.count(b) >= 1 ==> store.live(b) && !store.teardowns.contains(b),
        store.teardowns.contains(b) ==> store.count(b) == 0,
        store.teardowns.no_duplicates(),
{
}

/// Value integrity: the handles of one family read one value. What is
/// written through one of them is what the other reads, and neither cloning
/// one nor dropping one changes what the other reads.
pub proof fn lemma_value_integrity<T>(store: Store<T>, h1: Handle, h2: Handle, value: T)
    requires
        store.wf(),
        store.holds(h1),
        store.holds(h2),
        h1.block == h2.block,
    ensures
        store.value(h1.block) == store.value(h2.block),
        store.write(h1.block, value).holds(h2),
        store.write(h1.block, value).value(h2.block) == value,
        store.retain(h1.block).holds(h2),
        store.retain(h1.block).value(h2.block) == store.value(h2.block),
        h1 != h2 ==> store.release(h1).holds(h2) && store.release(h1).value(h2.block)
            == store.value(h2.block),
{
    store.lemma_write_wf(h1.block, value);
    store.lemma_retain_wf(h1.block);
    store.lemma_release_wf(h1);
    store.lemma_release_keeps_others(h1, h2);
}

/// Independence of families: constructing, cloning, dropping and writing
/// through a handle leave every other block exactly as it was: its owners,
/// and so its count, and its value.
pub proof fn lemma_other_blocks_untouched<T>(store: Store<T>, h: Handle, c: int, value: T)
    requires
        store.wf(),
        store.holds(h),
        0 <= c < store.blocks.len(),
        c != h.block,
    ensures
        store.construct(value).blocks[c] == store.blocks[c],
        store.retain(h.block).blocks[c] == store.blocks[c],
        store.release(h).blocks[c] == store.blocks[c],
        store.write(h.block, value).blocks[c] == store.blocks[c],
{
}

/// Independence of families: two constructions give two different blocks,
/// each with a count of its own, and dropping the handle of either leaves
/// the count and the value of the other.
pub proof fn lemma_constructions_apart<T>(store: Store<T>, first: T, second: T)
    requires
        store.wf(),
    ensures
        ({
            let one = store.construct(first);
            let h1 = store.next_handle(store.blocks.len() as int);
            let two = one.construct(second);
            let h2 = one.next_handle(one.blocks.len() as int);
            &&& h1.block != h2.block
            &&& two.holds(h1) && two.holds(h2)
            &&& two.count(h1.block) == 1 && two.count(h2.block) == 1
            &&& two.release(h1).freed(h1.block)
            &&& two.release(h1).count(h2.block) == 1 && two.release(h1).value(h2.block) == second
            &&& two.release(h2).freed(h2.block)
            &&& two.release(h2).count(h1.block) == 1 && two.release(h2).value(h1.block) == first
        }),
{
    let one = store.construct(first);
    let h1 = store.next_handle(store.blocks.len() as int);
    let two = one.construct(second);
    let h2 = one.next_handle(one.blocks.len() as int);
    store.lemma_construct_wf(first);
    one.lemma_construct_wf(second);
    two.lemma_release_wf(h1);
    two.lemma_release_wf(h2);
}

/// Whatever admitted steps are taken, in whatever order, a well-formed store
/// stays well formed. Freed is final: a block that was freed is never live
/// again. The teardown record only grows, at its end.
pub proof fn lemma_every_state_wf<T>(store: Store<T>, steps: Seq<Step<T>>)
    requires
        store.wf(),
        store.admits_all(steps),
    ensures
        store.run(steps).wf(),
        store.run(steps).blocks.len() >= store.blocks.len(),
        forall|b: int| store.freed(b) ==> #[trigger] store.run(steps).freed(b),
        store.teardowns.is_prefix_of(store.run(steps).teardowns),
    decreases steps.len(),
{
    if steps.len() > 0 {
        let before = store.run(steps.drop_last());
        lemma_every_state_wf(store, steps.drop_last());
        before.lemma_step_wf(steps.last());
    }
}

/// In every state that admitted steps lead to from the empty store, each
/// family was torn down at most once, and it was torn down exactly if it was
/// constructed and none of its handles is left. While its count is at least
/// 1 its value is in place.
pub proof fn lemma_teardown_in_every_state<T>(steps: Seq<Step<T>>, b: int)
    requires
        Store::<T>::empty().admits_all(steps),
    ensures
        ({
            let state = Store::<T>::empty().run(steps);
            &&& state.wf()
            &&& state.teardowns.no_duplicates()
            &&& state.teardowns.contains(b) <==> 0 <= b < state.blocks.len() && state.count(b) == 0
            &&& state.count(b) >= 1 ==> state.live(b)
        }),
{
    lemma_every_state_wf(Store::<T>::empty(), steps);
}

} // verus!
