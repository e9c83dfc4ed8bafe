//! Handlers that the serving layer mounts next to the generated document.

pub mod redirect;

pub use crate::handlers::redirect::RedirectHandler;
