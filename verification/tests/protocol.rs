//! Tests of the protocol handlers: status codes, structured headers and
//! response bodies over the v2 surface, end to end against the engine.

use armar::apierror::{ApiError, Body, ContentKind, Location};
use armar::backend::Backend;
use armar::error::StorageError;
use armar::management::{delete_blob, delete_manifest, get_referrers, get_tags};
use armar::pull::{pull_blob, pull_manifest};
use armar::push::{
    create_blob_uploads, get_stale_blob_upload, parse_range, push_manifest, update_blob,
    update_blob_chunks,
};
use armar::common::Tags;
use armar::image::{Annotation, Descriptor, ImageIndex};
use armar::storage::{new, Storage};

fn fresh_store() -> Storage {
    new(Backend::new(), Backend::new())
}

fn hex_digest(bytes: &[u8]) -> String {
    let mut hasher = <sha2::Sha256 as sha2::Digest>::new();
    sha2::Digest::update(&mut hasher, bytes);
    let out = sha2::Digest::finalize(hasher);
    let mut s = String::from("sha256:");
    for b in out.as_slice() {
        s.push_str(&format!("{:02x}", b));
    }
    s
}

fn body_text(b: &Body) -> &str {
    match b {
        Body::Text(t) => t.as_str(),
        _ => panic!("expected a text body"),
    }
}

fn manifest_body(subject: Option<&str>) -> Vec<u8> {
    let subject_part = match subject {
        Some(d) => format!(
            ",\"subject\":{{\"mediaType\":\"application/vnd.oci.image.manifest.v1+json\",\"digest\":\"{}\",\"size\":4}}",
            d
        ),
        None => String::new(),
    };
    format!(
        "{{\"schemaVersion\":2,\"config\":{{\"mediaType\":\"application/vnd.oci.image.config.v1+json\",\"digest\":\"{}\",\"size\":2}},\"layers\":[]{}}}",
        hex_digest(b"cfg"),
        subject_part
    )
    .into_bytes()
}

const MANIFEST_MT: &str = "application/vnd.oci.image.manifest.v1+json";

#[test]
fn monolithic_push_empty_blob() {
    // POST ?digest=<digest of empty> with an empty body, then GET the blob
    let mut store = fresh_store();
    let repo = "a/b".to_string();
    let empty_digest =
        "sha256:e3b0c44298fc1c149afbf4c8996fb92427ae41e4649b934ca495991b7852b855";
    assert_eq!(empty_digest, hex_digest(b""));
    let query = format!("digest={}", empty_digest);
    let r = create_blob_uploads(&mut store, &repo, &query, Vec::new());
    assert_eq!(r.status, 201);
    match r.location {
        Some(Location::BlobUrl { repo: rp, digest }) => {
            assert_eq!(rp, "a/b");
            assert_eq!(digest, empty_digest);
        }
        other => panic!("unexpected location {:?}", other),
    }
    let g = pull_blob(&store, &repo, &empty_digest.to_string(), true);
    assert_eq!(g.status, 200);
    match g.body {
        Body::Bytes(d) => assert!(d.is_empty()),
        other => panic!("unexpected body {:?}", other),
    }
}

#[test]
fn chunked_push_end_to_end() {
    let mut store = fresh_store();
    let repo = "lib/x".to_string();
    let r = create_blob_uploads(&mut store, &repo, &String::new(), Vec::new());
    assert_eq!(r.status, 202);
    let uuid = match r.location {
        Some(Location::UploadUrl { repo: rp, uuid }) => {
            assert_eq!(rp, "lib/x");
            uuid
        }
        other => panic!("unexpected location {:?}", other),
    };
    let r1 = update_blob_chunks(
        &mut store,
        &repo,
        &uuid,
        Some(&"0-4".to_string()),
        b"hello".to_vec(),
    );
    assert_eq!(r1.status, 202);
    assert_eq!(r1.range, Some((0, 4)));
    let r2 = update_blob_chunks(
        &mut store,
        &repo,
        &uuid,
        Some(&"5-9".to_string()),
        b"world".to_vec(),
    );
    assert_eq!(r2.status, 202);
    let digest = hex_digest(b"helloworld");
    let rf = update_blob(
        &mut store,
        &repo,
        &uuid,
        &format!("digest={}", digest),
        Vec::new(),
    );
    assert_eq!(rf.status, 201);
    match rf.location {
        Some(Location::BlobUrl { digest: dg, .. }) => assert_eq!(dg, digest),
        other => panic!("unexpected location {:?}", other),
    }
    let g = pull_blob(&store, &repo, &digest, true);
    assert_eq!(g.status, 200);
    match g.body {
        Body::Bytes(d) => assert_eq!(d, b"helloworld".to_vec()),
        other => panic!("unexpected body {:?}", other),
    }
}

#[test]
fn patch_with_wrong_range_is_416() {
    let mut store = fresh_store();
    let repo = "r".to_string();
    let r = create_blob_uploads(&mut store, &repo, &String::new(), Vec::new());
    let uuid = match r.location {
        Some(Location::UploadUrl { uuid, .. }) => uuid,
        other => panic!("unexpected location {:?}", other),
    };
    let bad = update_blob_chunks(
        &mut store,
        &repo,
        &uuid,
        Some(&"5-9".to_string()),
        b"world".to_vec(),
    );
    assert_eq!(bad.status, 416);
    assert_eq!(
        body_text(&bad.body),
        "{\"errors\":[{\"code\":\"BLOB_UPLOAD_INVALID\",\"message\":\"Invalid blob upload\"}]}"
    );
}

#[test]
fn delete_manifest_by_tag_reference_is_405() {
    let mut store = fresh_store();
    let r = delete_manifest(&mut store, &"app/web".to_string(), &"v1.0".to_string());
    assert_eq!(r.status, 405);
}

#[test]
fn tag_pagination_is_tail_style() {
    let mut store = fresh_store();
    let repo = "paged".to_string();
    for t in ["a", "b", "c"] {
        let data = format!("payload {}", t).into_bytes();
        store
            .write_manifest(&repo, &t.to_string(), &data, data.len(), &"text/plain".to_string())
            .unwrap();
    }
    // n = 0: the whole list
    let full = get_tags(&mut store, &repo, 0);
    assert_eq!(full.status, 200);
    assert_eq!(
        body_text(&full.body),
        "{\"name\":\"paged\",\"tags\":[\"a\",\"b\",\"c\"]}"
    );
    // n >= len: still the whole list
    let same = get_tags(&mut store, &repo, 7);
    assert_eq!(
        body_text(&same.body),
        "{\"name\":\"paged\",\"tags\":[\"a\",\"b\",\"c\"]}"
    );
    // 0 < n < len: the tail after position n
    let tail = get_tags(&mut store, &repo, 1);
    assert_eq!(body_text(&tail.body), "{\"name\":\"paged\",\"tags\":[\"c\"]}");
}

#[test]
fn head_manifest_has_content_type_and_no_body() {
    let mut store = fresh_store();
    let repo = "app/web".to_string();
    let data = manifest_body(None);
    push_manifest(&mut store, &repo, &"v1".to_string(), &data, &MANIFEST_MT.to_string());
    let r = pull_manifest(
        &mut store,
        &repo,
        &"v1".to_string(),
        &String::new(),
        false,
    );
    assert_eq!(r.status, 200);
    assert_eq!(r.content_type, Some(ContentKind::ImageManifest));
    assert!(matches!(r.body, Body::Empty));
}

#[test]
fn wrong_accept_content_type_is_rejected() {
    let mut store = fresh_store();
    let r = pull_manifest(
        &mut store,
        &"r".to_string(),
        &"v1".to_string(),
        &"text/html".to_string(),
        true,
    );
    assert_eq!(r.status, 404);
    assert_eq!(
        body_text(&r.body),
        "{\"errors\":[{\"code\":\"MANIFEST_INVALID\",\"message\":\"the given format is not accepted for manifest text/html\"}]}"
    );
}

#[test]
fn tag_manifest_push_end_to_end() {
    let mut store = fresh_store();
    let repo = "app/web".to_string();
    let data = manifest_body(None);
    let expected_digest = hex_digest(&data);
    let r = push_manifest(&mut store, &repo, &"v1".to_string(), &data, &MANIFEST_MT.to_string());
    assert_eq!(r.status, 201);
    match r.location {
        Some(Location::ManifestUrl { repo: rp, digest }) => {
            assert_eq!(rp, "app/web");
            assert_eq!(digest, expected_digest);
        }
        other => panic!("unexpected location {:?}", other),
    }
    assert_eq!(r.oci_subject, Some(String::new()));
    let tags = get_tags(&mut store, &repo, 0);
    assert_eq!(
        body_text(&tags.body),
        "{\"name\":\"app/web\",\"tags\":[\"v1\"]}"
    );
    let back = pull_manifest(&mut store, &repo, &"v1".to_string(), &String::new(), true);
    assert_eq!(back.status, 200);
    match back.body {
        Body::Bytes(d) => assert_eq!(d, data),
        other => panic!("unexpected body {:?}", other),
    }
}

#[test]
fn referrers_lists_exactly_the_subject_manifests() {
    let mut store = fresh_store();
    let repo = "app/web".to_string();
    let m1 = manifest_body(None);
    let d1 = hex_digest(&m1);
    push_manifest(&mut store, &repo, &"m1".to_string(), &m1, &MANIFEST_MT.to_string());
    let m2 = manifest_body(Some(&d1));
    let d2 = hex_digest(&m2);
    let r2 = push_manifest(&mut store, &repo, &"m2".to_string(), &m2, &MANIFEST_MT.to_string());
    assert_eq!(r2.oci_subject, Some(d1.clone()));
    let r = get_referrers(&mut store, &repo, &d1, &String::new());
    assert_eq!(r.status, 200);
    assert_eq!(r.content_type, Some(ContentKind::ImageIndex));
    let expected = format!(
        "{{\"schemaVersion\":2,\"mediaType\":\"application/vnd.oci.image.index.v1+json\",\"manifests\":[{{\"mediaType\":\"{}\",\"size\":{},\"digest\":\"{}\",\"annotations\":{{\"org.opencontainers.image.ref.name\":\"m2\"}}}}]}}",
        MANIFEST_MT,
        m2.len(),
        d2
    );
    assert_eq!(body_text(&r.body), expected);
    // a digest nothing refers to yields an empty list
    let none = get_referrers(&mut store, &repo, &hex_digest(b"unreferenced"), &String::new());
    assert_eq!(
        body_text(&none.body),
        "{\"schemaVersion\":2,\"mediaType\":\"application/vnd.oci.image.index.v1+json\",\"manifests\":[]}"
    );
}

#[test]
fn delete_by_digest_end_to_end() {
    let mut store = fresh_store();
    let repo = "app/web".to_string();
    let data = manifest_body(None);
    let digest = hex_digest(&data);
    push_manifest(&mut store, &repo, &"v1".to_string(), &data, &MANIFEST_MT.to_string());
    let del = delete_manifest(&mut store, &repo, &digest);
    assert_eq!(del.status, 202);
    let back = pull_manifest(&mut store, &repo, &"v1".to_string(), &String::new(), true);
    assert_eq!(back.status, 404);
    assert_eq!(
        body_text(&back.body),
        "{\"errors\":[{\"code\":\"MANIFEST_UNKNOWN\",\"message\":\"manifest is unknown\"}]}"
    );
    let tags = get_tags(&mut store, &repo, 0);
    assert_eq!(body_text(&tags.body), "{\"name\":\"app/web\",\"tags\":[]}");
}

#[test]
fn resume_probe_reports_range() {
    let mut store = fresh_store();
    let repo = "up".to_string();
    let r = create_blob_uploads(&mut store, &repo, &String::new(), Vec::new());
    let uuid = match r.location {
        Some(Location::UploadUrl { uuid, .. }) => uuid,
        other => panic!("unexpected location {:?}", other),
    };
    update_blob_chunks(
        &mut store,
        &repo,
        &uuid,
        Some(&"0-4".to_string()),
        b"abcde".to_vec(),
    );
    let probe = get_stale_blob_upload(&store, &repo, &uuid);
    assert_eq!(probe.status, 204);
    assert_eq!(probe.range, Some((0, 4)));
    let missing = get_stale_blob_upload(&store, &repo, &"gone".to_string());
    assert_eq!(missing.status, 404);
    assert_eq!(
        body_text(&missing.body),
        "{\"errors\":[{\"code\":\"BLOB_UPLOAD_UNKNOWN\",\"message\":\"Blob upload unknown\"}]}"
    );
}

#[test]
fn streamed_patch_reports_zero_range() {
    let mut store = fresh_store();
    let repo = "up".to_string();
    let r = create_blob_uploads(&mut store, &repo, &String::new(), Vec::new());
    let uuid = match r.location {
        Some(Location::UploadUrl { uuid, .. }) => uuid,
        other => panic!("unexpected location {:?}", other),
    };
    let s = update_blob_chunks(&mut store, &repo, &uuid, None, b"abc".to_vec());
    assert_eq!(s.status, 202);
    assert_eq!(s.range, Some((0, 0)));
}

#[test]
fn delete_blob_handler_statuses() {
    let mut store = fresh_store();
    let repo = "r".to_string();
    let data: Vec<u8> = b"blob".to_vec();
    let digest = hex_digest(&data);
    let query = format!("digest={}", digest);
    create_blob_uploads(&mut store, &repo, &query, data);
    assert_eq!(delete_blob(&mut store, &repo, &digest).status, 202);
    let again = delete_blob(&mut store, &repo, &digest);
    assert_eq!(again.status, 404);
    assert_eq!(
        body_text(&again.body),
        "{\"errors\":[{\"code\":\"BLOB_UNKNOWN\",\"message\":\"blob is unknown\"}]}"
    );
}

#[test]
fn parse_range_accepts_and_rejects() {
    assert_eq!(parse_range(&"0-4".to_string()), Some((0, 4)));
    assert_eq!(parse_range(&"12-999".to_string()), Some((12, 999)));
    assert_eq!(parse_range(&"nonsense".to_string()), None);
    assert_eq!(parse_range(&"-4".to_string()), None);
    assert_eq!(parse_range(&"4-".to_string()), None);
    assert_eq!(parse_range(&"99999999999999999999-1".to_string()), None);
}

#[test]
fn storage_errors_map_to_wire_errors() {
    let internal = ApiError::Storage(StorageError::Backend).get_status_code();
    assert_eq!(internal.code, 500);
    assert_eq!(internal.content_type, ContentKind::Plain);
    assert_eq!(internal.message, "Internal Server Error");
    let range = armar::apierror::from_storage(StorageError::RangeNotSatisfied);
    assert_eq!(range.get_status_code().code, 416);
    let parse = armar::apierror::from_storage(StorageError::SerdeParse);
    assert_eq!(parse.get_status_code().code, 500);
}

#[test]
fn tag_names_are_escaped_in_json() {
    let mut store = fresh_store();
    let repo = "esc".to_string();
    let data: Vec<u8> = b"x".to_vec();
    store
        .write_manifest(&repo, &"we\"ird\\tag".to_string(), &data, data.len(), &"text/plain".to_string())
        .unwrap();
    let r = get_tags(&mut store, &repo, 0);
    assert_eq!(
        body_text(&r.body),
        "{\"name\":\"esc\",\"tags\":[\"we\\\"ird\\\\tag\"]}"
    );
}

#[test]
fn referrers_artifact_filter_restricts() {
    let mut store = fresh_store();
    let repo = "app/web".to_string();
    let m1 = manifest_body(None);
    let d1 = hex_digest(&m1);
    push_manifest(&mut store, &repo, &"m1".to_string(), &m1, &MANIFEST_MT.to_string());
    let m2 = manifest_body(Some(&d1));
    push_manifest(&mut store, &repo, &"m2".to_string(), &m2, &MANIFEST_MT.to_string());
    // descriptors appended by this registry carry no artifact type, so an
    // exact-match filter leaves nothing
    let r = get_referrers(
        &mut store,
        &repo,
        &d1,
        &"artifactType=application/spdx%2Bjson".to_string(),
    );
    assert_eq!(
        body_text(&r.body),
        "{\"schemaVersion\":2,\"mediaType\":\"application/vnd.oci.image.index.v1+json\",\"manifests\":[]}"
    );
}

#[test]
fn mount_request_creates_no_scratch() {
    let mut store = fresh_store();
    let repo = "mnt".to_string();
    let r = create_blob_uploads(&mut store, &repo, &"mount=other/repo".to_string(), Vec::new());
    assert_eq!(r.status, 202);
    let uuid = match r.location {
        Some(Location::UploadUrl { repo: rp, uuid }) => {
            assert_eq!(rp, "mnt");
            uuid
        }
        other => panic!("unexpected location {:?}", other),
    };
    // no scratch file was opened on the mount path: the probe knows nothing
    let probe = get_stale_blob_upload(&store, &repo, &uuid);
    assert_eq!(probe.status, 404);
}

#[test]
fn control_characters_are_escaped_in_json() {
    let mut store = fresh_store();
    let repo = "ctl".to_string();
    let data: Vec<u8> = b"x".to_vec();
    store
        .write_manifest(&repo, &"a\nb\tc".to_string(), &data, data.len(), &"text/plain".to_string())
        .unwrap();
    let r = get_tags(&mut store, &repo, 0);
    assert_eq!(
        body_text(&r.body),
        "{\"name\":\"ctl\",\"tags\":[\"a\\u000ab\\u0009c\"]}"
    );
}

#[test]
fn finalize_without_digest_is_invalid() {
    let mut store = fresh_store();
    let repo = "r".to_string();
    let r = create_blob_uploads(&mut store, &repo, &String::new(), Vec::new());
    let uuid = match r.location {
        Some(Location::UploadUrl { uuid, .. }) => uuid,
        other => panic!("unexpected location {:?}", other),
    };
    let bad = update_blob(&mut store, &repo, &uuid, &String::new(), b"data".to_vec());
    assert_eq!(bad.status, 400);
    assert_eq!(
        body_text(&bad.body),
        "{\"errors\":[{\"code\":\"BLOB_UPLOAD_INVALID\",\"message\":\"digest is required\"}]}"
    );
    // the scratch file is untouched and can still be finalized properly
    assert_eq!(store.get_blob_upload(&repo, &uuid).unwrap(), 0);
}

#[test]
fn seeded_state_serves_reads() {
    // the host's load path: a stored index, tag list and blob enter the
    // engine as plain values and are served like freshly pushed content
    let mut store = fresh_store();
    let repo = "restored".to_string();
    let data: Vec<u8> = b"restored manifest".to_vec();
    let digest = hex_digest(&data);
    let index = ImageIndex {
        schema_version: 2,
        media_type: "application/vnd.oci.image.index.v1+json".to_string(),
        manifests: vec![Descriptor {
            media_type: MANIFEST_MT.to_string(),
            size: data.len() as u64,
            digest: digest.clone(),
            annotations: vec![Annotation {
                key: "org.opencontainers.image.ref.name".to_string(),
                value: "v1".to_string(),
            }],
            artifact_type: None,
        }],
    };
    store.update_tags(&repo, Tags { name: repo.clone(), tags: vec!["v1".to_string()] })
        .unwrap();
    store.update_image_index(&repo, index).unwrap();
    store.load_blob(&repo, &digest, data.clone()).unwrap();

    assert_eq!(store.get_manifest(&repo, &"v1".to_string()).unwrap(), data);
    assert_eq!(store.get_manifest(&repo, &digest).unwrap(), data);
    let tags = get_tags(&mut store, &repo, 0);
    assert_eq!(body_text(&tags.body), "{\"name\":\"restored\",\"tags\":[\"v1\"]}");
}
