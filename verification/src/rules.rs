//! One rule for each kind of node.

pub mod apply;
pub mod key_value;
