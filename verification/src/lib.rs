//! A fixed-capacity sequence container.
//!
//! `StackVec<T, S>` stores at most `S` elements of a copyable type `T` in a
//! contiguous prefix, with vector-like operations (push/pop, search, sort,
//! split/join) and a deliberate policy of silent truncation: an operation
//! that would exceed the capacity drops the excess data without signalling.

pub mod container;
pub mod cursor;
pub mod laws;
pub mod order;
pub mod search;

pub use container::StackVec;
pub use cursor::StackVecIter;
