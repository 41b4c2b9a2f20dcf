//! What holds of the rules on every tree.

pub mod application;
pub mod binding;
