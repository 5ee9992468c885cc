//! A library that assembles a multi-file markdown book (one README, one
//! table-of-contents file, chapter files) into a single normalized markdown
//! document.
//!
//! The core is a pipeline of text-level rewrites: heading-level shifting,
//! file-title stripping, reference and footnote namespacing, cross-document
//! link rewriting and code-fence canonicalization, each of which tracks
//! "inside a fenced code block" state line by line so that code samples are
//! never mistaken for prose markup.
#![verifier::loop_isolation(false)]

pub mod adjust;
pub mod book;
pub mod chars;
pub mod lines;
pub mod normalize;
pub mod references;
pub mod render;
pub mod replace;
pub mod toc;
