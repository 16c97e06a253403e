//! The storage-safety and write-concurrency core of a self-hosted file
//! server: confined path resolution, atomic replacement, per-path lock keys,
//! HTTP conditional requests, chunked uploads and the WebDAV lock table.
//!
//! Every item here is plain computation with a verified contract; the
//! filesystem, the network and the clock are driven by the caller, which
//! hands their results in as values.

use vstd::prelude::*;

pub mod atomic;
pub mod auth;
pub mod config;
pub mod error;
pub mod etag;
pub mod files;
pub mod frontend;
pub mod http;
pub mod ids;
pub mod locking;
pub mod storage;
pub mod text;
pub mod upload;
pub mod version;
pub mod webdav_lock;
