//! Verified core of a web viewer for Markdown note vaults: link and query
//! rewriting of notes, tag condensing, search result assembly and the
//! navigation tree of a vault.

pub mod text;
pub mod paths;
pub mod links;
pub mod dataview;
pub mod markdown;
pub mod tags;
pub mod search;
pub mod tree;
pub mod index;
pub mod pages;
