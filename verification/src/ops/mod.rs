//! Array operations.
//!
//! Every operation comes as a method that builds the node and as two spec functions: `raw_*` says
//! on which operands the operation is defined and what it builds, and `t_*` is the same on
//! operands that may themselves have failed, handing the first failure on.

pub mod create;
pub mod elementwise;
pub mod layout;
pub mod product;
pub mod reduce;
pub mod select;
