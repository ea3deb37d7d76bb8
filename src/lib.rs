//! Produces synchronous and asynchronous renditions of one annotated declaration: the
//! configuration model and its parser, the per-rendition rewrite rules (renaming, suspension
//! and generic-future erasure, conditional content, feature substitution), the scanner that
//! passes a block's ambient defaults on to nested invocations, and the rewriting of marked code
//! blocks in doc comments.

pub mod doctests;
pub mod idents;
pub mod laws;
pub mod macros;
pub mod meta;
pub mod params;
pub mod strs;
pub mod visitor_async;
pub mod visitor_content;
