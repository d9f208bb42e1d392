//! Route paths and the static export of a router's pages.

pub mod dev;
pub mod grammar;
pub mod path;
pub mod static_export;
