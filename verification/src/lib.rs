//! Clipboard-history core: content fingerprinting, a deduplicating record
//! store with bounded retention, an application/file search index, and the
//! per-cycle decision logic of the clipboard sampler.

pub mod clipboard;
pub mod config;
pub mod database;
pub mod dirs;
pub mod explorer;
pub mod img_factory;
pub mod json_factory;
pub mod laws;
pub mod proxy_pool;
pub mod string_factory;
