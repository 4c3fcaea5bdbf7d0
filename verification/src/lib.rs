//! Isolated, version-pinned runtime environments.
//!
//! The crate resolves a possibly partial version specifier against a catalog
//! of published releases, models the download-and-extract workflow, and
//! manages a home directory of installed runtimes and named environments.

pub mod fs_model;
pub mod nen_home;
pub mod node_downloader;
pub mod node_version;
pub mod path;
pub mod version_list;
