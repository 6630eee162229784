//! An address book that owns its contacts outright.
//!
//! The contacts live in the book's own list and go when the book goes. No
//! contact can be in two books.

use vstd::prelude::*;

verus! {

/// A person and where they live.
pub struct Contact {
    pub name: String,
    pub address: String,
}

impl View for Contact {
    type V = (Seq<char>, Seq<char>);

    /// The name and the address, as text.
    open spec fn view(&self) -> (Seq<char>, Seq<char>) {
        (self.name@, self.address@)
    }
}

/// A list of contacts, in the order they were entered.
pub struct AddressBook {
    contacts: Vec<Contact>,
}

impl View for AddressBook {
    type V = Seq<(Seq<char>, Seq<char>)>;

    closed spec fn view(&self) -> Seq<(Seq<char>, Seq<char>)> {
        Seq::new(self.contacts@.len(), |i: int| self.contacts@[i]@)
    }
}

impl AddressBook {
    /// A book without entries.
    pub fn new() -> (book: Self)
        ensures
            book@ == Seq::<(Seq<char>, Seq<char>)>::empty(),
    {
        AddressBook { contacts: Vec::new() }
    }

    /// Takes `contact` over as the last entry.
    pub fn add(&mut self, contact: Contact)
        ensures
            final(self)@ == old(self)@.push(contact@),
    {
        self.contacts.push(contact);
    }

    /// The entries, oldest first.
    pub fn list(&self) -> (entries: &[Contact])
        ensures
            entries@.len() == self@.len(),
            forall|i: int| 0 <= i < entries@.len() ==> (#[trigger] entries@[i])@ == self@[i],
    {
        self.contacts.as_slice()
    }
}

/// A book that holds Alice, Bob and Carol, in that order.
pub fn create_book() -> (book: AddressBook)
    ensures
        book@ == seq![
            ("Alice"@, "123 Apple Ave"@),
            ("Bob"@, "123 Berry Boardwalk"@),
            ("Carol"@, "123 Cherry Crossing"@),
        ],
{
    let mut book = AddressBook::new();

    let alice = Contact { name: "Alice".to_owned(), address: "123 Apple Ave".to_owned() };
    book.add(alice);

    let bob = Contact { name: "Bob".to_owned(), address: "123 Berry Boardwalk".to_owned() };
    book.add(bob);

    let carol = Contact { name: "Carol".to_owned(), address: "123 Cherry Crossing".to_owned() };
    book.add(carol);

    book
}

} // verus!
