//! Items, bins, layouts and the problems that are made of them.

pub mod item;
pub mod placed_item;
pub mod instance;
pub mod bin;
pub mod layout;
pub mod placing_option;
pub mod solution;
pub mod problems;
