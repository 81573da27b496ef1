//! A static-document publishing engine core: directive parsing, a metadata
//! index with tag associations, a content cache, neighbour and impact
//! computation, garbage-collection decisions and a debouncer for
//! filesystem events.

pub mod article;
pub mod cache;
pub mod config;
pub mod debounce;
pub mod directive;
pub mod gc;
pub mod keyed;
pub mod neighbours;
pub mod pipeline;
pub mod store;
pub mod text;
pub mod timeline;
pub mod utils;
