//! Index-and-search core of a desktop launcher.
//!
//! - `entry`: the entry model and the records handed to the user interface.
//! - `order`: case-insensitive order of names and a stable sort by it.
//! - `index`: the Application index from desktop manifests or bundles.
//! - `walk`: the bounded tree walk behind the Folder and Image indices.
//! - `system`: the System index, system actions, and icon normalization.
//! - `matcher`: fuzzy ranking of entries against a query.
//! - `catalog`: query-time capping, directory browsing, content-search hits.
//! - `launch`: the launch security gate.
//! - `calculator`: exact arithmetic for expressions typed as queries.
//! - `config`: settings and their defaults.
//! - `text`: character helpers shared by the others.
pub mod calculator;
pub mod catalog;
pub mod config;
pub mod entry;
pub mod index;
pub mod launch;
pub mod matcher;
pub mod order;
pub mod system;
pub mod text;
pub mod walk;
