//! Commit-graph core of a tool that stitches a top git repository and its
//! submodules into one synthetic monorepo history, and splits monorepo commits
//! back into per-repository commits.
pub mod ids;
pub mod bytes;
pub mod path;
pub mod pathset;
pub mod thin;
pub mod mono;
pub mod message;
pub mod push;
pub mod split;
pub mod resolve;
pub mod expand;
pub mod refs;
pub mod dedup;
