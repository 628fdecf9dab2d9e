//! Classic data-structure exercises, verified: two hash-table variants
//! (open addressing with linear probing, and separate chaining), a
//! left-leaning red-black tree node skeleton, counting-sort helpers, and
//! a stack-based base-pairing counter.

pub mod chaining;
pub mod open_addressing;
pub mod rbtree;
pub mod rna;
pub mod sorting;
