//! Incremental catalog of registry extensions: cache-reuse decisions, streamed
//! content digests, the paging state machine and the key-sorted manifest.

pub mod text;
pub mod model;
pub mod manifest;
pub mod digest;
pub mod resolver;
pub mod page;
pub mod driver;
pub mod run;
pub mod config;
