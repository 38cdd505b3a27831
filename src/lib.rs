//! A store of values that stay on the thread that owns it, with handles that
//! any thread may hold, clone and drop.
//!
//! The store keeps each value in a slot under a stable key. Every handle of a
//! slot shares one strong marker, and the slot keeps a weak witness of it: once
//! all handles are gone, `ObjectStore::clean` reclaims the slot, or
//! `ObjectStore::remove` does so at once when it is given the last handle.

pub mod laws;
mod outside;
pub mod store;

pub use store::{ObjectRef, ObjectStore};
