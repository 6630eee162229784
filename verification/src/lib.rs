//! Three ways of keeping an address book in memory: owned outright, shared
//! through hand-counted references, and (outside this library) garbage
//! collected.
//!
//! The part with real mechanics is the reference-counted handle in
//! [`util::rc`]. Its bookkeeping is stated over a mathematical model in
//! [`util::store`], and every executable function is proved against it.

pub mod owned;
pub mod refcounted;
pub mod util;
