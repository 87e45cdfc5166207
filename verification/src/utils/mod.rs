//! Helpers shared by the models.

pub mod attention;
pub mod mask;
pub mod rope;
