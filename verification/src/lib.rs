//! Content-resolution core of a static site generator.
//!
//! The library turns an in-memory snapshot of a content directory tree into a
//! validated, addressable sitemap: a canonical identifier type for every page
//! and section, the classification algorithm that distinguishes sections from
//! plain page groups, and the assembly of the final page and section tables
//! that a template-rendering stage consumes.

pub mod config;
pub mod error;
pub mod page;
pub mod parse;
pub mod scan;
pub mod section;
pub mod site;
pub mod sitemap;
pub mod uri;
pub mod urimap;
