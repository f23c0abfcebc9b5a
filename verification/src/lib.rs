//! A documentation-build plugin that rewrites inline dice notation, such
//! as `[[2D6]]`, `[[+1D20]]` or `[[-1D20]]`, into styled span fragments,
//! over every chapter of a host-supplied document tree.
//!
//! The rewriting itself is specified and proved in [`notation`],
//! [`rewrite`] and [`laws`]; [`book`] carries it over the document tree;
//! [`version`] and [`plugin`] cover the plugin's contract toward its
//! host: the renderer support answer and the version compatibility
//! advice.

pub mod book;
pub mod laws;
pub mod notation;
pub mod plugin;
pub mod rewrite;
pub mod version;
