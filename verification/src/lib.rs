//! Static export for Topcoat applications: route expansion, output layout and
//! the decisions an export makes, verified with Verus.

pub mod cli;
pub mod export;
pub mod percent;
pub mod router;
pub mod text;
