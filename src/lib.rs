//! A fixed-size inventory of item stacks, with a verified merge algorithm.
pub mod container;
pub mod stack;

pub use container::Container;
pub use stack::{Id, ItemKind, ItemStack, StackView, Stackable};
