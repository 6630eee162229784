//! An address book whose contacts are shared through counted handles.
//!
//! Contacts live on a [`Heap`]. A book keeps one handle per entry, and a
//! contact can be entered in several books: it is torn down when the last
//! book, and the last handle outside the books, has let go of it.

use crate::util::rc::{Heap, Rc};
use crate::util::store::{Handle, Store};
use vstd::prelude::*;

verus! {

/// A person and where they live.
pub struct Contact {
    pub name: String,
    pub address: String,
}

impl View for Contact {
    type V = (Seq<char>, Seq<char>);

    /// The name and the address, as text.
    open spec fn view(&self) -> (Seq<char>, Seq<char>) {
        (self.name@, self.address@)
    }
}

/// A list of handles to contacts, in the order they were entered.
pub struct AddressBook {
    contacts: Vec<Rc<Contact>>,
}

impl View for AddressBook {
    type V = Seq<Handle>;

    closed spec fn view(&self) -> Seq<Handle> {
        Seq::new(self.contacts@.len(), |i: int| self.contacts@[i]@)
    }
}

impl AddressBook {
    /// Every entry is a handle that `heap` holds, and no handle is entered
    /// twice.
    pub open spec fn held_by(&self, heap: &Heap<Contact>) -> bool {
        &&& self@.no_duplicates()
        &&& forall|i: int| 0 <= i < self@.len() ==> heap@.holds(#[trigger] self@[i])
    }

    /// A book without entries.
    pub fn new() -> (book: Self)
        ensures
            book@ == Seq::<Handle>::empty(),
    {
        AddressBook { contacts: Vec::new() }
    }

    /// Moves `contact` onto the heap and enters it. The book keeps one handle
    /// and the caller gets another, so the count of the new block is 2. A
    /// book that the heap held before is held by it afterwards.
    pub fn add(&mut self, heap: &mut Heap<Contact>, contact: Contact) -> (rc: Rc<Contact>)
        requires
            old(heap).wf(),
        ensures
            final(heap).wf(),
            final(heap)@ == old(heap)@.construct(contact).retain(old(heap)@.blocks.len() as int),
            rc@ == old(heap)@.next_handle(old(heap)@.blocks.len() as int),
            final(heap)@.holds(rc@),
            final(self)@ == old(self)@.push(
                old(heap)@.construct(contact).next_handle(old(heap)@.blocks.len() as int),
            ),
            old(self).held_by(old(heap)) ==> final(self).held_by(final(heap)),
    {
        let ghost before = heap@;
        let ghost entries = self@;
        let rc = Rc::new(heap, contact);
        let ghost constructed = heap@;
        let entry = rc.clone(heap);
        self.contacts.push(entry);
        assert(self@ =~= entries.push(constructed.next_handle(before.blocks.len() as int)));
        rc
    }

    /// Enters a contact that is on the heap already, by the handle given.
    pub fn add_shared(&mut self, contact: Rc<Contact>)
        ensures
            final(self)@ == old(self)@.push(contact@),
    {
        self.contacts.push(contact);
    }

    /// The entries, oldest first.
    pub fn list(&self) -> (entries: &[Rc<Contact>])
        ensures
            entries@.len() == self@.len(),
            forall|i: int| 0 <= i < entries@.len() ==> (#[trigger] entries@[i])@ == self@[i],
    {
        self.contacts.as_slice()
    }

    /// Gives up the book and with it every handle entered, first to last. A
    /// contact whose last handle this was is torn down.
    pub fn drop(self, heap: &mut Heap<Contact>)
        requires
            old(heap).wf(),
            self.held_by(old(heap)),
        ensures
            final(heap).wf(),
            final(heap)@ == old(heap)@.release_all(self@),
    {
        let ghost before = heap@;
        let ghost entries = self@;
        let ghost items = self.contacts@;
        let ghost mut done: int = 0;
        for rc in iter: self.contacts
            invariant
                iter.seq() == items,
                done == iter.index(),
                items.len() == entries.len(),
                forall|i: int| 0 <= i < items.len() ==> (#[trigger] items[i])@ == entries[i],
                before.wf(),
                entries.no_duplicates(),
                forall|i: int| 0 <= i < entries.len() ==> before.holds(#[trigger] entries[i]),
                heap.wf(),
                heap@ == before.release_all(entries.take(done)),
        {
            proof {
                let dropped = entries.take(done);
                before.lemma_release_all(dropped);
                assert(entries.take(done + 1).drop_last() =~= dropped);
                done = done + 1;
            }
            rc.drop(heap);
        }
        assert(entries.take(done) =~= entries);
    }
}

/// Fills a book with Alice, Bob and Carol, enters Alice in a second book as
/// well, and gives the first book up. Bob and Carol are torn down with it;
/// Alice stays, counted once, in the second book, which is returned.
pub fn create_book(heap: &mut Heap<Contact>) -> (book: AddressBook)
    requires
        old(heap).wf(),
    ensures
        final(heap).wf(),
        book.held_by(final(heap)),
        ({
            let first = old(heap)@.blocks.len() as int;
            &&& final(heap)@.blocks.len() == first + 3
            &&& forall|b: int|
                0 <= b < first ==> #[trigger] final(heap)@.blocks[b] == old(heap)@.blocks[b]
            &&& final(heap)@.issued == old(heap)@.issued + 6
            &&& book@ == seq![old(heap)@.next_handle(first)]
            &&& final(heap)@.owners(first) == set![old(heap)@.issued]
            &&& final(heap)@.count(first) == 1
            &&& final(heap)@.value(first)@ == ("Alice"@, "123 Apple Ave"@)
            &&& final(heap)@.freed(first + 1)
            &&& final(heap)@.freed(first + 2)
            &&& final(heap)@.teardowns == old(heap)@.teardowns.push(first + 1).push(first + 2)
        }),
{
    let mut book = AddressBook::new();

    let alice = Contact { name: "Alice".to_owned(), address: "123 Apple Ave".to_owned() };
    let alice_ref = book.add(heap, alice);

    let bob = Contact { name: "Bob".to_owned(), address: "123 Berry Boardwalk".to_owned() };
    let bob_ref = book.add(heap, bob);

    let carol = Contact { name: "Carol".to_owned(), address: "123 Cherry Crossing".to_owned() };
    let carol_ref = book.add(heap, carol);

    // Outside the book only Alice is kept: she goes into the second book.
    bob_ref.drop(heap);
    carol_ref.drop(heap);
    let mut shared = AddressBook::new();
    shared.add_shared(alice_ref);

    // Giving up the first book drops its three handles in turn. Alice is
    // counted down to 1; Bob and Carol are counted down to 0 and torn down.
    proof {
        let entries = book@;
        assert(heap@.release_all(entries) == heap@.release(entries[0]).release(
            entries[1],
        ).release(entries[2])) by {
            reveal_with_fuel(Store::release_all, 4);
        }
    }
    book.drop(heap);
    shared
}

} // verus!
