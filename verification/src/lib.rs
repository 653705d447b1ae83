//! Release metadata engine: classifies conventional commits into bump levels,
//! partitions commit history into tag-bounded release windows, composes
//! changelog sections, resolves semantic versions, and plans the
//! create/update/delete reconciliation of remote releases.

pub mod changelog;
pub mod cli;
pub mod config;
pub mod conventional;
pub mod filters;
pub mod git;
pub mod manifests;
pub mod release;
pub mod text;
pub mod version;
