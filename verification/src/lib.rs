//! Rule-driven bulk text substitution across a directory tree.
//!
//! The library holds the verified core of the tool: literal substring
//! replacement with sequential rule composition, case-variant expansion of
//! rule sets, the ignored-extension predicate, bottom-up rename planning,
//! diagnostic scanning of names and contents, deduplicated monotonic
//! progress percentages, and the tree-level transformation model. The
//! filesystem shell around it lives outside the library.

pub mod config;
pub mod diagnostic;
pub mod ignore;
pub mod paths;
pub mod progress;
pub mod rename;
pub mod rules;
pub mod strings;
pub mod text;
pub mod tree;
