//! Builds a de-duplicated OpenAPI document from independently declared
//! endpoint descriptors, with every behaviour stated as a contract.
//!
//! Shapes are registered in a [`registry::SchemaRegistry`], descriptors
//! are resolved by [`builder::build`], and [`document::assemble`] joins
//! the operations, the registry and the metadata into a
//! [`document::Document`]. [`document::generate`] does all three.

pub mod builder;
pub mod document;
pub mod error;
pub mod handlers;
pub mod laws;
pub mod model;
pub mod operation;
pub mod path;
pub mod registry;
pub mod schema;
pub mod settings;
pub mod shape;
pub mod swagger_ui;
pub mod text;

pub use crate::error::Error;
pub use crate::operation::OperationInfo;
