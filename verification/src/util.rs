//! Building blocks shared by the address books.

pub mod laws;
pub mod rc;
pub mod store;

pub use rc::Heap;
pub use rc::Rc;
