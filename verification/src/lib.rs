//! Server-side core of an OCI distribution registry: a content-addressed
//! store for blobs and manifests, a per-repository index with tags and
//! referrers, a resumable chunked blob-upload state machine, and the
//! protocol-level handlers that drive them.

pub mod apierror;
pub mod appconfig;
pub mod backend;
pub mod common;
pub mod content;
pub mod error;
pub mod image;
pub mod jsonfmt;
pub mod management;
pub mod props;
pub mod pull;
pub mod push;
pub mod storage;
pub mod trusted;
