use addressbook::owned;
use addressbook::refcounted;
use addressbook::util::rc::{Heap, Rc};

fn contact(name: &str, address: &str) -> refcounted::Contact {
    refcounted::Contact { name: name.to_owned(), address: address.to_owned() }
}

#[test]
fn owned_book_starts_empty() {
    let book = owned::AddressBook::new();
    assert_eq!(book.list().len(), 0);
}

#[test]
fn owned_add_appends() {
    let mut book = owned::AddressBook::new();
    book.add(owned::Contact { name: "Dan".to_owned(), address: "1 Date Drive".to_owned() });
    book.add(owned::Contact { name: "Eve".to_owned(), address: "2 Elder End".to_owned() });
    let entries = book.list();
    assert_eq!(entries.len(), 2);
    assert_eq!(entries[0].name, "Dan");
    assert_eq!(entries[0].address, "1 Date Drive");
    assert_eq!(entries[1].name, "Eve");
    assert_eq!(entries[1].address, "2 Elder End");
}

#[test]
fn owned_create_book_lists_three() {
    let book = owned::create_book();
    let entries = book.list();
    assert_eq!(entries.len(), 3);
    assert_eq!(entries[0].name, "Alice");
    assert_eq!(entries[0].address, "123 Apple Ave");
    assert_eq!(entries[1].name, "Bob");
    assert_eq!(entries[1].address, "123 Berry Boardwalk");
    assert_eq!(entries[2].name, "Carol");
    assert_eq!(entries[2].address, "123 Cherry Crossing");
}

#[test]
fn refcounted_book_starts_empty() {
    let book = refcounted::AddressBook::new();
    assert_eq!(book.list().len(), 0);
}

#[test]
fn refcounted_add_keeps_one_handle_and_returns_one() {
    let mut heap = Heap::new();
    let mut book = refcounted::AddressBook::new();
    let dan = book.add(&mut heap, contact("Dan", "1 Date Drive"));
    assert_eq!(heap.len(), 1);
    assert_eq!(dan.ref_count(&heap), 2);
    assert_eq!(book.list().len(), 1);
    assert!(book.list()[0].ptr_eq(&dan));
    assert_eq!(book.list()[0].deref(&heap).name, "Dan");
    assert_eq!(book.list()[0].deref(&heap).address, "1 Date Drive");

    let eve = book.add(&mut heap, contact("Eve", "2 Elder End"));
    assert_eq!(heap.len(), 2);
    assert_eq!(eve.ref_count(&heap), 2);
    assert_eq!(dan.ref_count(&heap), 2);
    assert_eq!(book.list().len(), 2);
    assert!(book.list()[1].ptr_eq(&eve));
    assert!(!book.list()[1].ptr_eq(&dan));
}

#[test]
fn refcounted_add_shared_does_not_count() {
    let mut heap = Heap::new();
    let mut book = refcounted::AddressBook::new();
    let dan = Rc::new(&mut heap, contact("Dan", "1 Date Drive"));
    let again = dan.clone(&mut heap);
    assert_eq!(dan.ref_count(&heap), 2);
    book.add_shared(again);
    assert_eq!(dan.ref_count(&heap), 2);
    assert_eq!(book.list().len(), 1);
    assert!(book.list()[0].ptr_eq(&dan));
}

#[test]
fn refcounted_drop_releases_every_entry() {
    let mut heap = Heap::new();
    let mut book = refcounted::AddressBook::new();
    let dan = book.add(&mut heap, contact("Dan", "1 Date Drive"));
    let eve = book.add(&mut heap, contact("Eve", "2 Elder End"));
    eve.drop(&mut heap);
    assert_eq!(heap.teardowns(), 0);

    book.drop(&mut heap);
    // Eve was only in the book; Dan is still held from outside
    assert_eq!(heap.teardowns(), 1);
    assert_eq!(dan.ref_count(&heap), 1);
    assert_eq!(dan.deref(&heap).name, "Dan");
    dan.drop(&mut heap);
    assert_eq!(heap.teardowns(), 2);
}

#[test]
fn refcounted_create_book_keeps_alice_only() {
    let mut heap = Heap::new();
    let book = refcounted::create_book(&mut heap);
    assert_eq!(heap.len(), 3);
    assert_eq!(heap.teardowns(), 2);

    let entries = book.list();
    assert_eq!(entries.len(), 1);
    assert!(heap.contains(&entries[0]));
    assert_eq!(entries[0].ref_count(&heap), 1);
    assert_eq!(entries[0].deref(&heap).name, "Alice");
    assert_eq!(entries[0].deref(&heap).address, "123 Apple Ave");

    book.drop(&mut heap);
    assert_eq!(heap.teardowns(), 3);
}

#[test]
fn refcounted_create_book_leaves_other_contacts_alone() {
    let mut heap = Heap::new();
    let zed = Rc::new(&mut heap, contact("Zed", "9 Zinc Zone"));
    let book = refcounted::create_book(&mut heap);
    assert_eq!(heap.len(), 4);
    assert_eq!(heap.teardowns(), 2);
    assert_eq!(zed.ref_count(&heap), 1);
    assert_eq!(zed.deref(&heap).name, "Zed");
    assert!(!book.list()[0].ptr_eq(&zed));
}
