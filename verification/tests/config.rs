//! Tests of the configuration model: S3 validation (which decides the
//! single-tier degrade) and the cache-root default.

use armar::appconfig::{default_ip, Local, S3Storage, Server, Storage, StorageConfigError};
use armar::backend::Backend;

fn s3(url: &str, ak: &str, sk: &str, bucket: &str) -> Storage {
    Storage {
        s3: S3Storage {
            url: url.to_string(),
            access_key: ak.to_string(),
            secret_key: sk.to_string(),
            bucket: bucket.to_string(),
            region: String::new(),
            cache: String::new(),
        },
        local: Local { path: String::new() },
    }
}

#[test]
fn default_server_address() {
    assert_eq!(default_ip(), "0.0.0.0");
    assert_eq!(Server::default().address, "0.0.0.0");
}

#[test]
fn s3_validation_reports_first_missing_field() {
    assert!(s3("http://s3", "ak", "sk", "b").validate_s3_config().is_ok());
    assert_eq!(
        s3("", "ak", "sk", "b").validate_s3_config().unwrap_err(),
        StorageConfigError::S3Error("url is not configured".to_string())
    );
    assert_eq!(
        s3("http://s3", "", "sk", "b").validate_s3_config().unwrap_err(),
        StorageConfigError::S3Error("access_key is not configured".to_string())
    );
    assert_eq!(
        s3("http://s3", "ak", "sk", "").validate_s3_config().unwrap_err(),
        StorageConfigError::S3Error("bucket is not configured".to_string())
    );
}

#[test]
fn local_path_defaults() {
    let cfg = s3("", "", "", "");
    assert_eq!(cfg.get_local(), "/tmp/.armar");
    let mut cfg2 = s3("", "", "", "");
    cfg2.local.path = "/var/cache/registry".to_string();
    assert_eq!(cfg2.get_local(), "/var/cache/registry");
}

#[test]
fn empty_s3_still_serves_pushes_and_pulls() {
    // with no usable primary configuration the registry runs single-tier;
    // pushes and pulls still succeed end to end
    let cfg = s3("", "", "", "");
    assert!(cfg.validate_s3_config().is_err());
    let mut store = armar::storage::new(Backend::new(), Backend::new());
    let repo = "tier/one".to_string();
    let data: Vec<u8> = b"cache only".to_vec();
    let (digest, _) = store
        .write_manifest(&repo, &"v1".to_string(), &data, data.len(), &"text/plain".to_string())
        .unwrap();
    assert_eq!(store.get_manifest(&repo, &digest).unwrap(), data);
    assert_eq!(store.get_manifest(&repo, &"v1".to_string()).unwrap(), data);
}
