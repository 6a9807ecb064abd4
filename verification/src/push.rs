//! Push-side protocol handlers: manifest push, upload creation (monolithic
//! and chunked), chunk appends, finalize, and the resume probe. Also the
//! `Content-Range` parser those handlers rely on.

use vstd::prelude::*;

use crate::apierror::{ApiError, Body, ContentKind, Location, Response};
use crate::content::{blob_path, digest_of, is_digest_ref, upload_path};
use crate::error::StorageError;
use crate::jsonfmt::{error_body, render_error};
use crate::storage::{payload_parse, same_catalog, stored_ref, unchanged, Storage};
use crate::trusted::{new_upload_uuid, query_get, query_param};

verus! {

pub open spec fn is_digit(c: char) -> bool {
    48 <= c as int <= 57
}

pub open spec fn digits_only(s: Seq<char>) -> bool {
    forall|i: int| 0 <= i < s.len() ==> is_digit(#[trigger] s[i])
}

/// The number a digit string denotes.
pub open spec fn dec_val(s: Seq<char>) -> int
    decreases s.len(),
{
    if s.len() == 0 {
        0
    } else {
        dec_val(s.drop_last()) * 10 + (s.last() as int - 48)
    }
}

/// The position of the first `-` in the string, if any.
pub open spec fn first_dash(s: Seq<char>) -> Option<int>
    decreases s.len(),
{
    if s.len() == 0 {
        None
    } else if s[0] == '-' {
        Some(0)
    } else {
        match first_dash(s.drop_first()) {
            Some(i) => Some(i + 1),
            None => None,
        }
    }
}

/// What a `Content-Range` header of the form `<from>-<to>` denotes: both
/// sides all digits, split at the first dash, neither side overflowing.
pub open spec fn range_parse(s: Seq<char>) -> Option<(int, int)> {
    match first_dash(s) {
        None => None,
        Some(i) => {
            let a = s.subrange(0, i);
            let b = s.subrange(i + 1, s.len() as int);
            if a.len() > 0 && b.len() > 0 && digits_only(a) && digits_only(b) && dec_val(a)
                <= u64::MAX && dec_val(b) <= u64::MAX {
                Some((dec_val(a), dec_val(b)))
            } else {
                None
            }
        },
    }
}

proof fn lemma_dec_val_bounds(s: Seq<char>)
    requires
        digits_only(s),
    ensures
        0 <= dec_val(s),
        s.len() > 0 ==> dec_val(s.drop_last()) <= dec_val(s),
    decreases s.len(),
{
    if s.len() > 0 {
        assert forall|i: int| 0 <= i < s.drop_last().len() implies is_digit(
            #[trigger] s.drop_last()[i],
        ) by {
            assert(is_digit(s[i]));
        }
        lemma_dec_val_bounds(s.drop_last());
        assert(is_digit(s[s.len() - 1]));
    }
}

proof fn lemma_first_dash_at(s: Seq<char>, i: int)
    requires
        0 <= i < s.len(),
        s[i] == '-',
        forall|j: int| 0 <= j < i ==> s[j] != '-',
    ensures
        first_dash(s) == Some(i),
    decreases i,
{
    if i > 0 {
        lemma_first_dash_at(s.drop_first(), i - 1);
    }
}

proof fn lemma_first_dash_none(s: Seq<char>)
    requires
        forall|j: int| 0 <= j < s.len() ==> s[j] != '-',
    ensures
        first_dash(s) is None,
    decreases s.len(),
{
    if s.len() > 0 {
        assert forall|j: int| 0 <= j < s.drop_first().len() implies s.drop_first()[j]
            != '-' by {
            assert(s[j + 1] != '-');
        }
        lemma_first_dash_none(s.drop_first());
    }
}

fn parse_dec(s: &str) -> (r: Option<u64>)
    ensures
        match r {
            Some(v) => s@.len() > 0 && digits_only(s@) && dec_val(s@) == v,
            None => !(s@.len() > 0 && digits_only(s@) && dec_val(s@) <= u64::MAX),
        },
{
    let n = s.unicode_len();
    if n == 0 {
        return None;
    }
    let mut v: u64 = 0;
    let mut i: usize = 0;
    proof {
        assert(s@.take(0) =~= Seq::<char>::empty());
    }
    while i < n
        invariant
            i <= n,
            n == s@.len(),
            digits_only(s@.take(i as int)),
            v == dec_val(s@.take(i as int)),
        decreases n - i,
    {
        let ghost t = s@.take(i + 1);
        proof {
            assert(t.drop_last() =~= s@.take(i as int));
            assert(t.last() == s@[i as int]);
        }
        let c = s.get_char(i);
        let cv = c as u32;
        if cv < 48 || cv > 57 {
            proof {
                assert(!is_digit(s@[i as int]));
            }
            return None;
        }
        let d = (cv - 48) as u64;
        if v > (u64::MAX - d) / 10 {
            proof {
                assert forall|j: int| 0 <= j < t.len() implies is_digit(#[trigger] t[j]) by {
                    if j < i {
                        assert(is_digit(s@.take(i as int)[j]));
                    }
                }
                lemma_dec_val_bounds(t);
                assert(dec_val(t) > u64::MAX);
                if s@.len() > 0 && digits_only(s@) && dec_val(s@) <= u64::MAX {
                    assert forall|k2: int| i + 1 <= k2 <= s@.len() implies dec_val(
                        s@.take(k2),
                    ) >= dec_val(t) by {
                        lemma_dec_val_prefix(s@, i + 1, k2);
                    }
                    assert(s@.take(s@.len() as int) =~= s@);
                    assert(dec_val(s@) >= dec_val(t));
                }
            }
            return None;
        }
        v = v * 10 + d;
        proof {
            assert forall|j: int| 0 <= j < t.len() implies is_digit(#[trigger] t[j]) by {
                if j < i {
                    assert(is_digit(s@.take(i as int)[j]));
                }
            }
        }
        i += 1;
    }
    proof {
        assert(s@.take(n as int) =~= s@);
    }
    Some(v)
}

proof fn lemma_dec_val_prefix(s: Seq<char>, a: int, b: int)
    requires
        0 <= a <= b <= s.len(),
        digits_only(s),
    ensures
        dec_val(s.take(a)) <= dec_val(s.take(b)),
    decreases b - a,
{
    if a < b {
        lemma_dec_val_prefix(s, a, b - 1);
        let t = s.take(b);
        assert(t.drop_last() =~= s.take(b - 1));
        assert(is_digit(s[b - 1]));
        assert forall|i: int| 0 <= i < s.take(b - 1).len() implies is_digit(
            #[trigger] s.take(b - 1)[i],
        ) by {
            assert(is_digit(s[i]));
        }
        lemma_dec_val_bounds(s.take(b - 1));
        assert(dec_val(t) == dec_val(s.take(b - 1)) * 10 + (s[b - 1] as int - 48));
    }
}

/// Parses a `Content-Range` value of the form `<from>-<to>`.
pub fn parse_range(header: &String) -> (r: Option<(u64, u64)>)
    ensures
        match r {
            Some((a, b)) => range_parse(header@) == Some((a as int, b as int)),
            None => range_parse(header@) is None,
        },
{
    let s = header.as_str();
    let n = s.unicode_len();
    let mut dash: usize = 0;
    let mut found = false;
    let mut i: usize = 0;
    while i < n && !found
        invariant
            i <= n,
            n == s@.len(),
            !found ==> forall|j: int| 0 <= j < i ==> s@[j] != '-',
            found ==> dash < i && s@[dash as int] == '-' && (forall|j: int|
                0 <= j < dash ==> s@[j] != '-'),
        decreases n - i,
    {
        if s.get_char(i) == '-' {
            dash = i;
            found = true;
        }
        i += 1;
    }
    if !found {
        proof {
            lemma_first_dash_none(header@);
        }
        return None;
    }
    proof {
        lemma_first_dash_at(header@, dash as int);
    }
    let a_str = s.substring_char(0, dash);
    let b_str = s.substring_char(dash + 1, n);
    proof {
        assert(a_str@ =~= header@.subrange(0, dash as int));
        assert(b_str@ =~= header@.subrange(dash + 1, header@.len() as int));
    }
    let a = match parse_dec(a_str) {
        Some(a) => a,
        None => { return None; }
    };
    let b = match parse_dec(b_str) {
        Some(b) => b,
        None => { return None; }
    };
    Some((a, b))
}

/// Serves `PUT /v2/<repo>/manifests/<reference>`: stores the manifest and
/// answers 201 with the manifest location and the `OCI-Subject` header.
pub fn push_manifest(store: &mut Storage, repo: &String, reference: &String, data: &Vec<u8>, media_type: &String) -> (r: Response)
    requires
        old(store).wf(),
    ensures
        final(store).wf(),
        is_digest_ref(reference@) && old(store).spec_tags(repo@) is Some ==> final(store).cache_v() == old(store).cache_v(),
        is_digest_ref(reference@) && old(store).spec_tags(repo@) is None ==> final(store).cache_v() == old(store).cache_v().insert(
            crate::content::tags_path(repo@),
            vstd::utf8::encode_utf8(crate::jsonfmt::tags_json(old(store).tags_or_init(repo@))),
        ),
        !is_digest_ref(reference@) ==> final(store).cache_v() == old(store).cache_v().insert(
            crate::content::tags_path(repo@),
            vstd::utf8::encode_utf8(
                crate::jsonfmt::tags_json(
                    crate::common::TagsV {
                        name: old(store).tags_or_init(repo@).name,
                        tags: old(store).tags_or_init(repo@).tags.push(reference@),
                    },
                ),
            ),
        ),
        r.status == 201 ==> match final(store).spec_index(repo@) {
            Some(ix) => final(store).primary_v() == old(store).primary_v().insert(
                blob_path(repo@, stored_ref(reference@, data@)),
                data@,
            ).insert(
                crate::content::index_path(repo@),
                vstd::utf8::encode_utf8(crate::jsonfmt::index_json(ix)),
            ),
            None => false,
        },
        r.status == 500 && old(store).spec_index(repo@) is Some ==> final(store).primary_v()
            == old(store).primary_v().insert(
            blob_path(repo@, stored_ref(reference@, data@)),
            data@,
        ),
        r.status == 500 && old(store).spec_index(repo@) is None ==> final(store).primary_v()
            == old(store).primary_v().insert(
            blob_path(repo@, stored_ref(reference@, data@)),
            data@,
        ).insert(
            crate::content::index_path(repo@),
            vstd::utf8::encode_utf8(crate::jsonfmt::index_json(crate::image::empty_index_v())),
        ),
        !is_digest_ref(reference@) ==> final(store).spec_tags(repo@) == Some(
            crate::common::TagsV {
                name: old(store).tags_or_init(repo@).name,
                tags: old(store).tags_or_init(repo@).tags.push(reference@),
            },
        ),
        is_digest_ref(reference@) ==> final(store).spec_tags(repo@) == Some(
            old(store).tags_or_init(repo@),
        ),
        r.status == 201 <==> payload_parse(media_type@, data@) is Some,
        payload_parse(media_type@, data@) is Some ==> {
            let p = payload_parse(media_type@, data@)->Some_0;
            &&& (r.location matches Some(Location::ManifestUrl { repo: rp, digest: dg })
                && rp@ == repo@ && dg@ == digest_of(data@))
            &&& (r.oci_subject matches Some(sj) && sj@ == match p.0 {
                Some(s) => s,
                None => Seq::<char>::empty(),
            })
            &&& r.body is Empty
        },
        payload_parse(media_type@, data@) is None ==> r.status == 500,
{
    let content_len = data.len();
    match store.write_manifest(repo, reference, data, content_len, media_type) {
        Ok((digest, subject)) => Response {
            status: 201,
            location: Some(Location::ManifestUrl { repo: repo.clone(), digest }),
            range: None,
            content_type: None,
            oci_subject: Some(subject),
            body: Body::Empty,
        },
        Err(e) => crate::apierror::from_storage(e).error_response(),
    }
}

/// Serves `POST /v2/<repo>/blobs/uploads/`: opens an upload session. With
/// `?digest=` the body is written at offset zero and the upload finalized
/// at once (monolithic push); with `?mount=` the session degrades to a
/// plain accept.
pub fn create_blob_uploads(store: &mut Storage, repo: &String, query: &String, data: Vec<u8>) -> (r: Response)
    requires
        old(store).wf(),
        query.is_ascii(),
    ensures
        final(store).wf(),
        same_catalog(*old(store), *final(store)),
        query_param(query@, "mount"@) is Some ==> {
            &&& r.status == 202
            &&& (r.location matches Some(Location::UploadUrl { repo: rp, .. }) && rp@
                == repo@)
            &&& unchanged(*old(store), *final(store))
            &&& r.body is Empty
        },
        query_param(query@, "mount"@) is None && query_param(query@, "digest"@)
            is None ==> {
            &&& r.status == 202
            &&& (r.location matches Some(Location::UploadUrl { repo: rp, uuid: u }) && rp@
                == repo@ && final(store).cache_v() == old(store).cache_v().insert(
                upload_path(repo@, u@),
                Seq::empty(),
            ))
            &&& final(store).primary_v() == old(store).primary_v()
            &&& r.body is Empty
        },
        query_param(query@, "digest"@) is Some && query_param(query@, "mount"@)
            is None ==> {
            let d = query_param(query@, "digest"@)->Some_0;
            &&& r.status == 201
            &&& (r.location matches Some(Location::BlobUrl { repo: rp, digest: dg }) && rp@
                == repo@ && dg@ == d)
            &&& final(store).primary_v() == old(store).primary_v().insert(
                blob_path(repo@, d),
                data@,
            )
            &&& exists|u: Seq<char>| final(store).cache_v() == old(store).cache_v().remove(
                #[trigger] upload_path(repo@, u),
            )
            &&& r.body is Empty
        },
{
    let mount_q = query_get(query, &String::from_str("mount"));
    if mount_q.is_some() {
        // cross-mount degrades to a plain accept: an identifier is minted
        // but no scratch file is created on this path
        let upload_uuid = new_upload_uuid();
        return Response {
            status: 202,
            location: Some(Location::UploadUrl { repo: repo.clone(), uuid: upload_uuid }),
            range: None,
            content_type: None,
            oci_subject: None,
            body: Body::Empty,
        };
    }
    let digest_q = query_get(query, &String::from_str("digest"));

    let uuid = match store.new_blob_upload(repo) {
        Ok(u) => u,
        Err(e) => { return crate::apierror::from_storage(e).error_response(); }
    };
    let ghost p = upload_path(repo@, uuid@);
    let ghost c0 = old(store).cache_v();

    match digest_q {
        Some(digest) => {
            if !data.is_empty() {
                let ghost dv = data@;
                match store.update_blob_upload(repo, &uuid, 0, data) {
                    Ok(()) => (),
                    Err(e) => { return crate::apierror::from_storage(e).error_response(); }
                }
                proof {
                    assert(Seq::<u8>::empty() + dv =~= dv);
                    assert(store.cache_v() =~= c0.insert(p, dv));
                }
            } else {
                proof {
                    assert(data@ =~= Seq::<u8>::empty());
                    assert(store.cache_v() =~= c0.insert(p, data@));
                }
            }
            let ghost c2 = store.cache_v();
            match store.delete_blob_upload(repo, &digest, &uuid) {
                Ok(()) => (),
                Err(e) => { return crate::apierror::from_storage(e).error_response(); }
            }
            proof {
                assert(store.cache_v() =~= c0.remove(p));
            }
            Response {
                status: 201,
                location: Some(Location::BlobUrl { repo: repo.clone(), digest }),
                range: None,
                content_type: None,
                oci_subject: None,
                body: Body::Empty,
            }
        }
        None => Response {
            status: 202,
            location: Some(Location::UploadUrl { repo: repo.clone(), uuid }),
            range: None,
            content_type: None,
            oci_subject: None,
            body: Body::Empty,
        },
    }
}

/// Serves `PUT /v2/<repo>/blobs/uploads/<uuid>?digest=`: appends any final
/// body (streaming semantics) and promotes the scratch file to the blob
/// path of the supplied digest. A finalize without a digest is refused as
/// an invalid upload: the protocol defines finalize only against a digest.
pub fn update_blob(store: &mut Storage, repo: &String, uuid: &String, query: &String, data: Vec<u8>) -> (r: Response)
    requires
        old(store).wf(),
        query.is_ascii(),
    ensures
        final(store).wf(),
        same_catalog(*old(store), *final(store)),
        query_param(query@, "digest"@) is None ==> {
            &&& r.status == 400
            &&& unchanged(*old(store), *final(store))
            &&& r.location is None
            &&& r.content_type == Some(ContentKind::Json)
            &&& (r.body matches Body::Text(t) && t@ == error_body(
                "BLOB_UPLOAD_INVALID"@,
                "digest is required"@,
            ))
        },
        query_param(query@, "digest"@) matches Some(d) ==> {
            let p = upload_path(repo@, uuid@);
            &&& (old(store).cache_v().contains_key(p) ==> {
                &&& r.status == 201
                &&& (r.location matches Some(Location::BlobUrl { repo: rp, digest: dg })
                    && rp@ == repo@ && dg@ == d)
                &&& final(store).primary_v() == old(store).primary_v().insert(
                    blob_path(repo@, d),
                    old(store).cache_v()[p] + data@,
                )
                &&& final(store).cache_v() == old(store).cache_v().remove(p)
            })
            &&& (!old(store).cache_v().contains_key(p) ==> r.status == 500 && unchanged(
                *old(store),
                *final(store),
            ))
        },
{
    let digest_q = query_get(query, &String::from_str("digest"));
    match digest_q {
        Some(digest) => {
            let ghost p = upload_path(repo@, uuid@);
            let ghost c0 = old(store).cache_v();
            if !data.is_empty() {
                let ghost dv = data@;
                match store.streamed_blob_upload(repo, uuid, data) {
                    Ok(()) => (),
                    Err(e) => { return crate::apierror::from_storage(e).error_response(); }
                }
            } else {
                proof {
                    if c0.contains_key(p) {
                        assert(c0[p] + data@ =~= c0[p]);
                    }
                }
            }
            match store.delete_blob_upload(repo, &digest, uuid) {
                Ok(()) => (),
                Err(e) => { return crate::apierror::from_storage(e).error_response(); }
            }
            proof {
                if c0.contains_key(p) {
                    assert(store.cache_v() =~= c0.remove(p));
                }
            }
            Response {
                status: 201,
                location: Some(Location::BlobUrl { repo: repo.clone(), digest }),
                range: None,
                content_type: None,
                oci_subject: None,
                body: Body::Empty,
            }
        }
        None => Response {
            status: 400,
            location: None,
            range: None,
            content_type: Some(ContentKind::Json),
            oci_subject: None,
            body: Body::Text(
                render_error("BLOB_UPLOAD_INVALID", &String::from_str("digest is required")),
            ),
        },
    }
}

/// Serves `PATCH /v2/<repo>/blobs/uploads/<uuid>`: with a `Content-Range`
/// the chunk must start exactly at the scratch file's current length, else
/// 416; without one the chunk is appended streaming-style and the reported
/// range stays at zero.
pub fn update_blob_chunks(store: &mut Storage, repo: &String, uuid: &String, content_range: Option<&String>, data: Vec<u8>) -> (r: Response)
    requires
        old(store).wf(),
    ensures
        final(store).wf(),
        same_catalog(*old(store), *final(store)),
        final(store).primary_v() == old(store).primary_v(),
        match content_range {
            Some(h) => match range_parse(h@) {
                Some((from, _to)) => {
                    let p = upload_path(repo@, uuid@);
                    &&& (old(store).cache_v().contains_key(p) && old(store).cache_v()[
                        p
                    ].len() == from ==> {
                        &&& r.status == 202
                        &&& (r.location matches Some(Location::UploadUrl { repo: rp, uuid: u })
                            && rp@ == repo@ && u@ == uuid@)
                        &&& r.range == Some(
                            (
                                0u64,
                                if data@.len() == 0 {
                                    0u64
                                } else {
                                    (data@.len() - 1) as u64
                                },
                            ),
                        )
                        &&& final(store).cache_v() == old(store).cache_v().insert(
                            p,
                            old(store).cache_v()[p] + data@,
                        )
                    })
                    &&& (old(store).cache_v().contains_key(p) && old(store).cache_v()[
                        p
                    ].len() != from ==> {
                        &&& r.status == 416
                        &&& (r.body matches Body::Text(t) && t@ == error_body(
                            "BLOB_UPLOAD_INVALID"@,
                            "Invalid blob upload"@,
                        ))
                        &&& final(store).cache_v() == old(store).cache_v()
                    })
                    &&& (!old(store).cache_v().contains_key(p) ==> r.status == 500
                        && final(store).cache_v() == old(store).cache_v())
                },
                None => r.status == 416 && final(store).cache_v() == old(store).cache_v(),
            },
            None => {
                let p = upload_path(repo@, uuid@);
                &&& (old(store).cache_v().contains_key(p) ==> {
                    &&& r.status == 202
                    &&& (r.location matches Some(Location::UploadUrl { repo: rp, uuid: u })
                        && rp@ == repo@ && u@ == uuid@)
                    &&& r.range == Some((0u64, 0u64))
                    &&& final(store).cache_v() == old(store).cache_v().insert(
                        p,
                        old(store).cache_v()[p] + data@,
                    )
                })
                &&& (!old(store).cache_v().contains_key(p) ==> r.status == 500
                    && final(store).cache_v() == old(store).cache_v())
            },
        },
{
    let len = data.len();
    match content_range {
        Some(header) => {
            match parse_range(header) {
                Some((from, _to)) => {
                    match store.update_blob_upload(repo, uuid, from, data) {
                        Ok(()) => {
                            let n: u64 = if len == 0 {
                                0
                            } else {
                                (len - 1) as u64
                            };
                            Response {
                                status: 202,
                                location: Some(Location::UploadUrl {
                                    repo: repo.clone(),
                                    uuid: uuid.clone(),
                                }),
                                range: Some((0, n)),
                                content_type: None,
                                oci_subject: None,
                                body: Body::Empty,
                            }
                        }
                        Err(e) => crate::apierror::from_storage(e).error_response(),
                    }
                }
                None => ApiError::RangeIsNotSatisfied.error_response(),
            }
        }
        None => {
            match store.streamed_blob_upload(repo, uuid, data) {
                Ok(()) => Response {
                    status: 202,
                    location: Some(Location::UploadUrl {
                        repo: repo.clone(),
                        uuid: uuid.clone(),
                    }),
                    range: Some((0, 0)),
                    content_type: None,
                    oci_subject: None,
                    body: Body::Empty,
                },
                Err(e) => crate::apierror::from_storage(e).error_response(),
            }
        }
    }
}

/// Serves `GET /v2/<repo>/blobs/uploads/<uuid>`: the resume probe. Answers
/// 204 with the current range, or 404 when the session is unknown.
pub fn get_stale_blob_upload(store: &Storage, repo: &String, uuid: &String) -> (r: Response)
    requires
        store.wf(),
    ensures
        store.cache_v().contains_key(upload_path(repo@, uuid@)) ==> {
            &&& r.status == 204
            &&& (r.location matches Some(Location::UploadUrl { repo: rp, uuid: u }) && rp@
                == repo@ && u@ == uuid@)
            &&& r.range == Some(
                (
                    0u64,
                    if store.cache_v()[upload_path(repo@, uuid@)].len() == 0 {
                        0u64
                    } else {
                        (store.cache_v()[upload_path(repo@, uuid@)].len() - 1) as u64
                    },
                ),
            )
            &&& r.body is Empty
        },
        !store.cache_v().contains_key(upload_path(repo@, uuid@)) ==> {
            &&& r.status == 404
            &&& (r.body matches Body::Text(t) && t@ == error_body(
                "BLOB_UPLOAD_UNKNOWN"@,
                "Blob upload unknown"@,
            ))
        },
{
    match store.get_blob_upload(repo, uuid) {
        Ok(n) => {
            let hi: u64 = if n == 0 {
                0
            } else {
                (n - 1) as u64
            };
            Response {
                status: 204,
                location: Some(Location::UploadUrl { repo: repo.clone(), uuid: uuid.clone() }),
                range: Some((0, hi)),
                content_type: None,
                oci_subject: None,
                body: Body::Empty,
            }
        }
        Err(e) => match e {
            StorageError::ContentNotFound => ApiError::BlobUploadUnknown.error_response(),
            e => ApiError::Storage(e).error_response(),
        },
    }
}

} // verus!
