//! Tests of the storage engine: manifest writes and reads, tag
//! bookkeeping, deletes, and the resumable upload state machine.

use armar::backend::Backend;
use armar::common::Tags;
use armar::content::{create_blob_path, digest_from_content, is_digest_reference};
use armar::error::StorageError;
use armar::storage::{new, Storage};

fn fresh_store() -> Storage {
    new(Backend::new(), Backend::new())
}

fn hex_of(bytes: &[u8]) -> String {
    let mut hasher = <sha2::Sha256 as sha2::Digest>::new();
    sha2::Digest::update(&mut hasher, bytes);
    let out = sha2::Digest::finalize(hasher);
    let mut s = String::new();
    for b in out.as_slice() {
        s.push_str(&format!("{:02x}", b));
    }
    s
}

fn sha_digest(bytes: &[u8]) -> String {
    format!("sha256:{}", hex_of(bytes))
}

#[test]
fn digest_matches_sha256() {
    let data: Vec<u8> = b"hello".to_vec();
    let d = digest_from_content(&data);
    assert_eq!(
        d,
        "sha256:2cf24dba5fb0a30e26e83b2ac5b9e29e1b161e5c1fa7425e73043362938b9824"
    );
    assert!(is_digest_reference(&d));
    assert_eq!(d, sha_digest(&data));
}

#[test]
fn digest_is_deterministic() {
    let a: Vec<u8> = b"same bytes".to_vec();
    let b: Vec<u8> = b"same bytes".to_vec();
    assert_eq!(digest_from_content(&a), digest_from_content(&b));
    assert_eq!(
        create_blob_path(&"r".to_string(), &digest_from_content(&a)),
        create_blob_path(&"r".to_string(), &digest_from_content(&b))
    );
}

#[test]
fn write_then_get_by_digest_and_tag() {
    let mut store = fresh_store();
    let repo = "library/alpine".to_string();
    let data: Vec<u8> = b"{\"layers\":[]}".to_vec();
    let (digest, subject) = store
        .write_manifest(
            &repo,
            &"v1".to_string(),
            &data,
            data.len(),
            &"application/octet-stream".to_string(),
        )
        .unwrap();
    assert_eq!(subject, "");
    assert_eq!(digest, sha_digest(&data));
    assert!(is_digest_reference(&digest));
    // pull by digest
    assert_eq!(store.get_manifest(&repo, &digest).unwrap(), data);
    // pull by tag, resolved through the index annotation
    assert_eq!(store.get_manifest(&repo, &"v1".to_string()).unwrap(), data);
    // unknown references fail
    assert_eq!(
        store.get_manifest(&repo, &"v2".to_string()).unwrap_err(),
        StorageError::ContentNotFound
    );
}

#[test]
fn pushed_tag_is_listed() {
    let mut store = fresh_store();
    let repo = "app/web".to_string();
    let data: Vec<u8> = b"payload".to_vec();
    store
        .write_manifest(&repo, &"rel".to_string(), &data, data.len(), &"text/plain".to_string())
        .unwrap();
    let tags = store.get_tags(&repo).unwrap();
    assert_eq!(tags.name, "app/web");
    assert!(tags.tags.iter().any(|t| t == "rel"));
}

#[test]
fn digest_push_leaves_tags_alone() {
    let mut store = fresh_store();
    let repo = "r".to_string();
    let data: Vec<u8> = b"blobby".to_vec();
    let reference = sha_digest(&data);
    store
        .write_manifest(&repo, &reference, &data, data.len(), &"text/plain".to_string())
        .unwrap();
    let tags = store.get_tags(&repo).unwrap();
    assert!(tags.tags.is_empty());
    assert_eq!(store.get_manifest(&repo, &reference).unwrap(), data);
}

#[test]
fn manifest_payloads_are_parsed() {
    let mut store = fresh_store();
    let repo = "parsed".to_string();
    let mt = "application/vnd.oci.image.manifest.v1+json".to_string();
    // garbage under the image-manifest media type is refused
    let bad: Vec<u8> = b"not json".to_vec();
    assert_eq!(
        store
            .write_manifest(&repo, &"t".to_string(), &bad, bad.len(), &mt)
            .unwrap_err(),
        StorageError::SpecParse
    );
    // a well-formed manifest with a subject reports its subject digest
    let subject_digest = sha_digest(b"the subject");
    let body = format!(
        "{{\"schemaVersion\":2,\"config\":{{\"mediaType\":\"application/vnd.oci.image.config.v1+json\",\"digest\":\"{}\",\"size\":2}},\"layers\":[],\"subject\":{{\"mediaType\":\"application/vnd.oci.image.manifest.v1+json\",\"digest\":\"{}\",\"size\":3}}}}",
        sha_digest(b"cfg"),
        subject_digest
    );
    let data = body.into_bytes();
    let (_, subject) = store
        .write_manifest(&repo, &"t".to_string(), &data, data.len(), &mt)
        .unwrap();
    assert_eq!(subject, subject_digest);
}

#[test]
fn delete_manifest_clears_tag_and_blob() {
    let mut store = fresh_store();
    let repo = "app/web".to_string();
    let data: Vec<u8> = b"tagged manifest".to_vec();
    let (digest, _) = store
        .write_manifest(&repo, &"v1".to_string(), &data, data.len(), &"text/plain".to_string())
        .unwrap();
    store.delete_manifest(&repo, &digest).unwrap();
    let tags = store.get_tags(&repo).unwrap();
    assert!(!tags.tags.iter().any(|t| t == "v1"));
    assert_eq!(
        store.get_manifest(&repo, &"v1".to_string()).unwrap_err(),
        StorageError::ContentNotFound
    );
    assert_eq!(
        store.get_blobs(&repo, &digest).unwrap_err(),
        StorageError::ContentNotFound
    );
}

#[test]
fn delete_unknown_manifest_fails() {
    let mut store = fresh_store();
    let repo = "r".to_string();
    assert_eq!(
        store
            .delete_manifest(&repo, &sha_digest(b"never written"))
            .unwrap_err(),
        StorageError::ContentNotFound
    );
}

#[test]
fn delete_blob_only_touches_blob() {
    let mut store = fresh_store();
    let repo = "r".to_string();
    let data: Vec<u8> = b"some blob".to_vec();
    let (digest, _) = store
        .write_manifest(&repo, &"t".to_string(), &data, data.len(), &"text/plain".to_string())
        .unwrap();
    store.delete_blob(&repo, &digest).unwrap();
    assert_eq!(
        store.get_blobs(&repo, &digest).unwrap_err(),
        StorageError::ContentNotFound
    );
    // the tag is still listed: the index was not touched
    assert!(store.get_tags(&repo).unwrap().tags.iter().any(|t| t == "t"));
    assert_eq!(
        store.delete_blob(&repo, &digest).unwrap_err(),
        StorageError::ContentNotFound
    );
}

#[test]
fn upload_lengths_follow_chunks() {
    let mut store = fresh_store();
    let repo = "up".to_string();
    let uuid = store.new_blob_upload(&repo).unwrap();
    assert_eq!(uuid.len(), 36);
    assert_eq!(store.get_blob_upload(&repo, &uuid).unwrap(), 0);
    store
        .update_blob_upload(&repo, &uuid, 0, b"hello".to_vec())
        .unwrap();
    assert_eq!(store.get_blob_upload(&repo, &uuid).unwrap(), 5);
    store
        .update_blob_upload(&repo, &uuid, 5, b"world".to_vec())
        .unwrap();
    assert_eq!(store.get_blob_upload(&repo, &uuid).unwrap(), 10);
}

#[test]
fn upload_rejects_wrong_offset() {
    let mut store = fresh_store();
    let repo = "up".to_string();
    let uuid = store.new_blob_upload(&repo).unwrap();
    store
        .update_blob_upload(&repo, &uuid, 0, b"hello".to_vec())
        .unwrap();
    assert_eq!(
        store
            .update_blob_upload(&repo, &uuid, 3, b"x".to_vec())
            .unwrap_err(),
        StorageError::RangeNotSatisfied
    );
    // the failed chunk left the scratch file alone
    assert_eq!(store.get_blob_upload(&repo, &uuid).unwrap(), 5);
    assert_eq!(
        store
            .update_blob_upload(&repo, &"no-such-upload".to_string(), 0, b"x".to_vec())
            .unwrap_err(),
        StorageError::ContentNotFound
    );
}

#[test]
fn chunked_upload_promotes_to_blob() {
    let mut store = fresh_store();
    let repo = "lib/x".to_string();
    let uuid = store.new_blob_upload(&repo).unwrap();
    store
        .update_blob_upload(&repo, &uuid, 0, b"hello".to_vec())
        .unwrap();
    store
        .update_blob_upload(&repo, &uuid, 5, b"world".to_vec())
        .unwrap();
    let digest = sha_digest(b"helloworld");
    store.delete_blob_upload(&repo, &digest, &uuid).unwrap();
    assert_eq!(store.get_blobs(&repo, &digest).unwrap(), b"helloworld".to_vec());
    // the scratch file is gone after the promote
    assert_eq!(
        store.get_blob_upload(&repo, &uuid).unwrap_err(),
        StorageError::ContentNotFound
    );
}

#[test]
fn tags_update_roundtrip() {
    let mut store = fresh_store();
    let repo = "r".to_string();
    let list = Tags {
        name: repo.clone(),
        tags: vec!["a".to_string(), "b".to_string()],
    };
    store.update_tags(&repo, list).unwrap();
    let back = store.get_tags(&repo).unwrap();
    assert_eq!(back.name, "r");
    assert_eq!(back.tags, vec!["a".to_string(), "b".to_string()]);
}

#[test]
fn index_is_initialized_on_first_access() {
    let mut store = fresh_store();
    let ix = store.get_image_index(&"fresh".to_string()).unwrap();
    assert_eq!(ix.schema_version, 2);
    assert_eq!(ix.media_type, "application/vnd.oci.image.index.v1+json");
    assert!(ix.manifests.is_empty());
}
