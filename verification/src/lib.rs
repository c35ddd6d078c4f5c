//! Verified logic of the glam maintenance tools: the CI feature matrix and
//! the template code generator's configuration handling.
pub mod ci;
pub mod features;
pub mod order;
pub mod sorted_map;
pub mod codegen;
