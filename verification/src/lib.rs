//! Incremental index and rendering pipeline for a personal wiki of
//! timestamp-identified markdown pages.
//!
//! The library tracks, for every page, its title (first top-level heading)
//! and its outgoing wiki-links, and maintains the derived inverted
//! structures: backlinks and a title index. It also provides the pure text
//! processing around those structures: identifier parsing and printing,
//! metadata extraction, full-text query matching, and the markdown
//! rendering plan that resolves wiki-links and highlights fenced code.

pub mod config;
pub mod ids;
pub mod index;
pub mod page_id;
pub mod page_io;
pub mod page_meta;
pub mod render;
pub mod response;
pub mod search;
pub mod sync;
pub mod text;
