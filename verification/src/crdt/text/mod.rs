//! Items: single characters or merged runs with two-sided origins.

pub mod id;
pub mod item;

pub use id::ItemId;
pub use item::Item;
