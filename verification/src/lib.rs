//! An open-addressing hash table with linear probing and tombstones.
//!
//! [`HashMap`] maps unique keys to values. Every operation starts at the home
//! slot of a key, which is the key's hash modulo the capacity, and walks
//! forward through the slot array, wrapping at its end. The table rebuilds
//! itself before an insertion once three quarters of its slots are in use.
//!
//! Each operation is specified against the mathematical map that the table
//! stands for, and the resize policy against the slot counts.
//!
//! A key type implements [`TableKey`]: it says which bytes a key feeds to
//! the hasher and when two keys are the same, and proves that both depend
//! on the view of the key alone. Integers, texts and pairs of keys are keys.

pub mod entry;
pub mod key;
pub mod laws;
pub mod slots;
pub mod table;

pub use entry::Entry;
pub use key::TableKey;
pub use table::HashMap;
