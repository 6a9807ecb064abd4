//! Configuration model: bind address, primary (S3-style) storage settings and
//! the local cache root. Deciding whether the primary store is usable — and
//! therefore whether the registry degrades to single-tier, cache-only mode —
//! happens here; building the actual operators from these settings is the
//! host program's job.

use vstd::prelude::*;

verus! {

pub struct AppConfig {
    pub server: Server,
    pub storage: Storage,
}

pub struct Server {
    pub address: String,
}

impl Default for Server {
    fn default() -> (r: Self)
        ensures
            r.address@ == "0.0.0.0"@,
    {
        Self { address: default_ip() }
    }
}

pub fn default_ip() -> (r: String)
    ensures
        r@ == "0.0.0.0"@,
{
    String::from_str("0.0.0.0")
}

pub struct Storage {
    pub s3: S3Storage,
    pub local: Local,
}

pub struct S3Storage {
    pub url: String,
    pub access_key: String,
    pub secret_key: String,
    pub bucket: String,
    pub region: String,
    pub cache: String,
}

pub struct Local {
    pub path: String,
}

#[derive(Debug, PartialEq, Eq)]
pub enum StorageConfigError {
    S3Error(String),
}

/// True when every setting needed to reach the S3-style primary store is
/// present; when it is false the registry runs single-tier on the cache.
pub open spec fn s3_configured(s3: &S3Storage) -> bool {
    s3.url@.len() > 0 && s3.access_key@.len() > 0 && s3.secret_key@.len() > 0
        && s3.bucket@.len() > 0
}

impl Storage {
    /// Checks the S3 settings field by field, reporting the first one missing
    /// in the order url, access key, secret key, bucket.
    pub fn validate_s3_config(&self) -> (r: Result<(), StorageConfigError>)
        ensures
            r is Ok <==> s3_configured(&self.s3),
    {
        if self.s3.url.as_str().is_empty() {
            Err(StorageConfigError::S3Error(not_configured("url")))
        } else if self.s3.access_key.as_str().is_empty() {
            Err(StorageConfigError::S3Error(not_configured("access_key")))
        } else if self.s3.secret_key.as_str().is_empty() {
            Err(StorageConfigError::S3Error(not_configured("secret_key")))
        } else if self.s3.bucket.as_str().is_empty() {
            Err(StorageConfigError::S3Error(not_configured("bucket")))
        } else {
            Ok(())
        }
    }

    /// Root directory for the cache backend; empty means the built-in default.
    pub fn get_local(&self) -> (r: String)
        ensures
            self.local.path@.len() == 0 ==> r@ == "/tmp/.armar"@,
            self.local.path@.len() > 0 ==> r@ == self.local.path@,
    {
        if self.local.path.as_str().is_empty() {
            String::from_str("/tmp/.armar")
        } else {
            self.local.path.clone()
        }
    }
}

fn not_configured(field: &str) -> (r: String)
    ensures
        r@ == field@ + " is not configured"@,
{
    String::from_str(field).concat(" is not configured")
}

} // verus!
