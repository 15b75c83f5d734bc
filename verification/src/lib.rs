//! Core logic of a language server for a markdown knowledge collection:
//! text utilities over YAML frontmatter, a body-link scanner with UTF-16
//! columns, a link-target resolver, a file index, reference/rename
//! computation, and the pure state kept per open document.

pub mod body_links;
pub mod chartext;
pub mod code_actions;
pub mod completions;
pub mod diagnostics;
pub mod file_index;
pub mod json;
pub mod lines;
pub mod protocol;
pub mod refs;
pub mod resolve;
pub mod schema;
pub mod store;
pub mod symbols;
pub mod text;
