//! A verified archive-assembly pipeline: it takes the directory tree left by a
//! content downloader (one folder per author, one `<date>-<title>` folder per
//! post) and turns it into a normalized archive description — stable identity
//! hashes, classified media files with cached image dimensions, container
//! expansion plans, and an ordered list of output operations (folders, JSON
//! documents, symlinks) that merges with a pre-existing archive tree.
//!
//! All filesystem work is left to the surrounding application; the library
//! computes every decision and every byte of JSON from plain values.

pub mod args;
pub mod author;
pub mod cache;
pub mod config;
pub mod error;
pub mod expand;
pub mod files;
pub mod json;
pub mod output;
pub mod post;
pub mod text;
pub mod utils;
