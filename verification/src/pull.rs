//! Pull-side protocol handlers: fetching manifests (by tag or digest) and
//! blobs, for both `GET` and `HEAD`.

use vstd::prelude::*;

use crate::apierror::{ApiError, Body, ContentKind, MediaKind, Response};
use crate::content::{blob_path, is_digest_ref};
use crate::error::StorageError;
use crate::jsonfmt::error_body;
use crate::storage::{manifest_lookup, unchanged, Storage};

verus! {

/// Serves `GET`/`HEAD /v2/<repo>/manifests/<reference>`. A request whose
/// content type is set to anything but the image-manifest media type is
/// refused; otherwise the reference is resolved through the index and the
/// body is sent only for `GET`.
pub fn pull_manifest(store: &mut Storage, repo: &String, reference: &String, content_type: &String, is_get: bool) -> (r: Response)
    requires
        old(store).wf(),
    ensures
        final(store).wf(),
        content_type@.len() > 0 && content_type@
            != "application/vnd.oci.image.manifest.v1+json"@ ==> {
            &&& unchanged(*old(store), *final(store))
            &&& r.status == 404
            &&& r.content_type == Some(ContentKind::Json)
            &&& r.body matches Body::Text(t) && t@ == error_body(
                "MANIFEST_INVALID"@,
                "the given format is not accepted for manifest "@ + content_type@,
            )
        },
        content_type@.len() == 0 || content_type@
            == "application/vnd.oci.image.manifest.v1+json"@ ==> {
            &&& (is_digest_ref(reference@) || old(store).spec_index(repo@) is Some ==> final(store).primary_v() == old(store).primary_v())
            &&& (!is_digest_ref(reference@) && old(store).spec_index(repo@) is None ==> final(store).primary_v() == old(store).primary_v().insert(
                crate::content::index_path(repo@),
                vstd::utf8::encode_utf8(
                    crate::jsonfmt::index_json(crate::image::empty_index_v()),
                ),
            ))
            &&& final(store).cache_v() == old(store).cache_v()
            &&& forall|r2: Seq<char>| #[trigger] final(store).spec_tags(r2) == old(
                store,
            ).spec_tags(r2)
            &&& forall|r2: Seq<char>| r2 != repo@ ==> #[trigger] final(store).spec_index(r2)
                == old(store).spec_index(r2)
            &&& (is_digest_ref(reference@) ==> final(store).spec_index(repo@) == old(
                store,
            ).spec_index(repo@))
            &&& (!is_digest_ref(reference@) ==> final(store).spec_index(repo@) == Some(
                old(store).index_or_init(repo@),
            ))
            &&& match manifest_lookup(*old(store), repo@, reference@) {
                Some(b) => {
                    &&& r.status == 200
                    &&& r.content_type == Some(ContentKind::ImageManifest)
                    &&& (is_get ==> (r.body matches Body::Bytes(d) && d@ == b))
                    &&& (!is_get ==> r.body is Empty)
                },
                None => {
                    &&& r.status == 404
                    &&& r.content_type == Some(ContentKind::Json)
                    &&& r.body matches Body::Text(t) && t@ == error_body(
                        "MANIFEST_UNKNOWN"@,
                        "manifest is unknown"@,
                    )
                },
            }
        },
{
    let accepted = crate::image::manifest_media_type();
    if !content_type.as_str().is_empty() && !(*content_type == accepted) {
        let mut er_resp = String::from_str("the given format is not accepted for manifest ");
        er_resp.append(content_type.as_str());
        return ApiError::InvalidManifestFormat(er_resp).error_response();
    }
    match store.get_manifest(repo, reference) {
        Ok(file) => Response {
            status: 200,
            location: None,
            range: None,
            content_type: Some(ContentKind::ImageManifest),
            oci_subject: None,
            body: if is_get {
                Body::Bytes(file)
            } else {
                Body::Empty
            },
        },
        Err(e) => match e {
            StorageError::ContentNotFound => ApiError::ContentNotFound {
                kind: MediaKind::ImageManifest,
                mesg: String::from_str("manifest is unknown"),
            }.error_response(),
            e => ApiError::Storage(e).error_response(),
        },
    }
}

/// Serves `GET`/`HEAD /v2/<repo>/blobs/<digest>`: the blob straight from
/// the primary backend, body only for `GET`.
pub fn pull_blob(store: &Storage, repo: &String, digest: &String, is_get: bool) -> (r: Response)
    requires
        store.wf(),
    ensures
        store.primary_v().contains_key(blob_path(repo@, digest@)) ==> {
            &&& r.status == 200
            &&& (is_get ==> (r.body matches Body::Bytes(d) && d@ == store.primary_v()[
                blob_path(repo@, digest@)
            ]))
            &&& (!is_get ==> r.body is Empty)
        },
        !store.primary_v().contains_key(blob_path(repo@, digest@)) ==> {
            &&& r.status == 404
            &&& r.content_type == Some(ContentKind::Json)
            &&& r.body matches Body::Text(t) && t@ == error_body(
                "BLOB_UNKNOWN"@,
                "blob is unknown"@,
            )
        },
{
    match store.get_blobs(repo, digest) {
        Ok(file) => Response {
            status: 200,
            location: None,
            range: None,
            content_type: None,
            oci_subject: None,
            body: if is_get {
                Body::Bytes(file)
            } else {
                Body::Empty
            },
        },
        Err(e) => match e {
            StorageError::ContentNotFound => ApiError::ContentNotFound {
                kind: MediaKind::Other(String::from_str("Blob")),
                mesg: String::from_str("blob is unknown"),
            }.error_response(),
            e => ApiError::Storage(e).error_response(),
        },
    }
}

} // verus!
