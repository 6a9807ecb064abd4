//! Management handlers: deleting manifests and blobs, listing tags with
//! the inherited tail-style pagination, and the referrers query.

use vstd::prelude::*;

use crate::apierror::{ApiError, Body, ContentKind, MediaKind, Response};
use crate::common::{str_views, Tags, TagsV};
use crate::content::{blob_path, is_digest_ref, is_digest_reference};
use crate::image::{
    descs_of, drop_digest, index_media_type, manifest_media_type, strip_claimed, DescV,
    Descriptor, ImageIndex, IndexV,
};
use crate::jsonfmt::{error_body, index_json, render_index, render_tags, tags_json};
use crate::storage::{manifest_lookup, unchanged, Storage};
use crate::trusted::{
    index_parse, manifest_parse, parse_image_index, parse_image_manifest, query_get,
    query_param,
};

verus! {

/// Serves `DELETE /v2/<repo>/manifests/<digest>`: only digest references
/// may be deleted (405 otherwise); an unknown digest answers 404.
pub fn delete_manifest(store: &mut Storage, repo: &String, digest: &String) -> (r: Response)
    requires
        old(store).wf(),
    ensures
        final(store).wf(),
        !is_digest_ref(digest@) ==> r.status == 405 && unchanged(*old(store), *final(store))
            && r.body is Empty,
        is_digest_ref(digest@) ==> {
            &&& final(store).cache_v() == old(store).cache_v().insert(
                crate::content::tags_path(repo@),
                vstd::utf8::encode_utf8(
                    crate::jsonfmt::tags_json(
                        TagsV {
                            name: old(store).tags_or_init(repo@).name,
                            tags: strip_claimed(
                                old(store).tags_or_init(repo@).tags,
                                old(store).index_or_init(repo@).manifests,
                            ),
                        },
                    ),
                ),
            )
            &&& forall|r2: Seq<char>| r2 != repo@ ==> #[trigger] final(store).spec_tags(r2)
                == old(store).spec_tags(r2)
            &&& forall|r2: Seq<char>| r2 != repo@ ==> #[trigger] final(store).spec_index(
                r2,
            ) == old(store).spec_index(r2)
            &&& final(store).spec_index(repo@) == Some(
                IndexV {
                    schema_version: old(store).index_or_init(repo@).schema_version,
                    media_type: old(store).index_or_init(repo@).media_type,
                    manifests: drop_digest(old(store).index_or_init(repo@).manifests, digest@),
                },
            )
            &&& final(store).spec_tags(repo@) == Some(
                TagsV {
                    name: old(store).tags_or_init(repo@).name,
                    tags: strip_claimed(
                        old(store).tags_or_init(repo@).tags,
                        old(store).index_or_init(repo@).manifests,
                    ),
                },
            )
            &&& (old(store).primary_v().contains_key(blob_path(repo@, digest@)) ==> {
                &&& r.status == 202
                &&& r.body is Empty
                &&& final(store).primary_v() == old(store).primary_v().insert(
                    crate::content::index_path(repo@),
                    vstd::utf8::encode_utf8(
                        crate::jsonfmt::index_json(
                            IndexV {
                                schema_version: old(store).index_or_init(repo@).schema_version,
                                media_type: old(store).index_or_init(repo@).media_type,
                                manifests: drop_digest(
                                    old(store).index_or_init(repo@).manifests,
                                    digest@,
                                ),
                            },
                        ),
                    ),
                ).remove(blob_path(repo@, digest@))
            })
            &&& (!old(store).primary_v().contains_key(blob_path(repo@, digest@)) ==> {
                &&& r.status == 404
                &&& (r.body matches Body::Text(t) && t@ == error_body(
                    "MANIFEST_UNKNOWN"@,
                    "manifest is unknown"@,
                ))
                &&& final(store).primary_v() == old(store).primary_v().insert(
                    crate::content::index_path(repo@),
                    vstd::utf8::encode_utf8(
                        crate::jsonfmt::index_json(
                            IndexV {
                                schema_version: old(store).index_or_init(repo@).schema_version,
                                media_type: old(store).index_or_init(repo@).media_type,
                                manifests: drop_digest(
                                    old(store).index_or_init(repo@).manifests,
                                    digest@,
                                ),
                            },
                        ),
                    ),
                )
            })
        },
{
    if !is_digest_reference(digest) {
        return Response {
            status: 405,
            location: None,
            range: None,
            content_type: None,
            oci_subject: None,
            body: Body::Empty,
        };
    }
    match store.delete_manifest(repo, digest) {
        Ok(()) => Response {
            status: 202,
            location: None,
            range: None,
            content_type: None,
            oci_subject: None,
            body: Body::Empty,
        },
        Err(_) => ApiError::ContentNotFound {
            kind: MediaKind::ImageManifest,
            mesg: String::from_str("manifest is unknown"),
        }.error_response(),
    }
}

/// Serves `DELETE /v2/<repo>/blobs/<digest>`.
pub fn delete_blob(store: &mut Storage, repo: &String, digest: &String) -> (r: Response)
    requires
        old(store).wf(),
    ensures
        final(store).wf(),
        final(store).cache_v() == old(store).cache_v(),
        crate::storage::same_catalog(*old(store), *final(store)),
        old(store).primary_v().contains_key(blob_path(repo@, digest@)) ==> r.status == 202
            && final(store).primary_v() == old(store).primary_v().remove(
            blob_path(repo@, digest@),
        ) && r.body is Empty,
        !old(store).primary_v().contains_key(blob_path(repo@, digest@)) ==> {
            &&& r.status == 404
            &&& (r.body matches Body::Text(t) && t@ == error_body(
                "BLOB_UNKNOWN"@,
                "blob is unknown"@,
            ))
            &&& final(store).primary_v() == old(store).primary_v()
        },
{
    match store.delete_blob(repo, digest) {
        Ok(()) => Response {
            status: 202,
            location: None,
            range: None,
            content_type: None,
            oci_subject: None,
            body: Body::Empty,
        },
        Err(_) => ApiError::ContentNotFound {
            kind: MediaKind::Other(String::from_str("Blob")),
            mesg: String::from_str("blob is unknown"),
        }.error_response(),
    }
}

/// Tail-style pagination: `?n=N` with `0 < N < len` serves the tags after
/// position `N`; `n = 0` or `N >= len` serves the whole list.
pub open spec fn paged_tags(t: TagsV, n: int) -> TagsV {
    if n != 0 && n < t.tags.len() {
        TagsV { name: t.name, tags: t.tags.skip(n + 1) }
    } else {
        t
    }
}

/// Serves `GET /v2/<repo>/tags/list?n=N` as the stored tag list rendered to
/// JSON, paginated tail-style.
pub fn get_tags(store: &mut Storage, repo: &String, n: usize) -> (r: Response)
    requires
        old(store).wf(),
    ensures
        final(store).wf(),
        final(store).primary_v() == old(store).primary_v(),
        old(store).spec_tags(repo@) is Some ==> final(store).cache_v() == old(
            store,
        ).cache_v(),
        old(store).spec_tags(repo@) is None ==> final(store).cache_v() == old(
            store,
        ).cache_v().insert(
            crate::content::tags_path(repo@),
            vstd::utf8::encode_utf8(
                crate::jsonfmt::tags_json(old(store).tags_or_init(repo@)),
            ),
        ),
        forall|r2: Seq<char>| #[trigger] final(store).spec_index(r2) == old(
            store,
        ).spec_index(r2),
        forall|r2: Seq<char>| r2 != repo@ ==> #[trigger] final(store).spec_tags(r2) == old(
            store,
        ).spec_tags(r2),
        final(store).spec_tags(repo@) == Some(old(store).tags_or_init(repo@)),
        r.status == 200,
        r.content_type == Some(ContentKind::Json),
        r.body matches Body::Text(t) && t@ == tags_json(
            paged_tags(old(store).tags_or_init(repo@), n as int),
        ),
{
    let mut tag_list = match store.get_tags(repo) {
        Ok(t) => t,
        Err(e) => { return ApiError::Storage(e).error_response(); }
    };
    let ghost full = tag_list@;
    let body: String = if n != 0 && n < tag_list.tags.len() {
        let new_tags = tag_list.tags.split_off(n + 1);
        let page = Tags { name: tag_list.name, tags: new_tags };
        proof {
            assert(str_views(page.tags@) =~= full.tags.skip(n + 1));
            assert(page@ =~= paged_tags(full, n as int));
        }
        render_tags(&page)
    } else {
        render_tags(&tag_list)
    };
    Response {
        status: 200,
        location: None,
        range: None,
        content_type: Some(ContentKind::Json),
        oci_subject: None,
        body: Body::Text(body),
    }
}

/// The digest a stored manifest points at through its `subject` field:
/// empty when the descriptor's blob is missing, unparseable, or carries no
/// subject.
pub open spec fn subject_of(s: Storage, repo: Seq<char>, d: DescV) -> Seq<char> {
    if d.media_type == "application/vnd.oci.image.manifest.v1+json"@ {
        match manifest_lookup(s, repo, d.digest) {
            Some(b) => match manifest_parse(b) {
                Some(p) => match p.0 {
                    Some(sj) => sj,
                    None => Seq::empty(),
                },
                None => Seq::empty(),
            },
            None => Seq::empty(),
        }
    } else if d.media_type == "application/vnd.oci.image.index.v1+json"@ {
        match index_lookup_subject(s, repo, d) {
            Some(sj) => sj,
            None => Seq::empty(),
        }
    } else {
        Seq::empty()
    }
}

/// The subject read through the image-index parser, for index-typed
/// descriptors.
pub open spec fn index_lookup_subject(s: Storage, repo: Seq<char>, d: DescV) -> Option<
    Seq<char>,
> {
    match manifest_lookup(s, repo, d.digest) {
        Some(b) => match index_parse(b) {
            Some(p) => p.0,
            None => None,
        },
        None => None,
    }
}

proof fn lemma_subject_of_eq(a: Storage, b: Storage, repo: Seq<char>, d: DescV)
    requires
        a.primary_v() == b.primary_v(),
        a.index_or_init(repo) == b.index_or_init(repo),
    ensures
        subject_of(a, repo, d) == subject_of(b, repo, d),
{
    assert(manifest_lookup(a, repo, d.digest) == manifest_lookup(b, repo, d.digest));
}

/// Reads the descriptor's blob back and extracts its subject digest, as the
/// referrers query needs it. A missing or unparseable blob yields the empty
/// string rather than an error.
pub fn get_subject_digest(store: &mut Storage, d: &Descriptor, repo: &String) -> (r: String)
    requires
        old(store).wf(),
        old(store).spec_index(repo@) is Some,
    ensures
        final(store).wf(),
        unchanged(*old(store), *final(store)),
        r@ == subject_of(*old(store), repo@, d@),
{
    let mt = manifest_media_type();
    let imt = index_media_type();
    let out: String = if d.media_type == mt {
        match store.get_manifest(repo, &d.digest) {
            Ok(data) => match parse_image_manifest(&data) {
                Some(p) => match p.subject {
                    Some(s) => s,
                    None => String::new(),
                },
                None => String::new(),
            },
            Err(_) => String::new(),
        }
    } else if d.media_type == imt {
        match store.get_manifest(repo, &d.digest) {
            Ok(data) => match parse_image_index(&data) {
                Some(p) => match p.subject {
                    Some(s) => s,
                    None => String::new(),
                },
                None => String::new(),
            },
            Err(_) => String::new(),
        }
    } else {
        String::new()
    };
    proof {
        assert forall|r2: Seq<char>| #[trigger] store.spec_index(r2) == old(
            store,
        ).spec_index(r2) by {
            if r2 == repo@ {
                assert(old(store).index_or_init(repo@) == old(store).spec_index(
                    repo@,
                )->Some_0);
            }
        }
    }
    out
}

/// Whether a descriptor belongs in the referrers answer for `dg` under the
/// artifact-type filter `af`.
pub open spec fn keep_referrer(
    s: Storage,
    repo: Seq<char>,
    dg: Seq<char>,
    af: Seq<char>,
    d: DescV,
) -> bool {
    &&& subject_of(s, repo, d).len() > 0
    &&& subject_of(s, repo, d) == dg
    &&& (af.len() == 0 || d.artifact_type == Some(af))
}

/// The descriptors the referrers query keeps, in index order.
pub open spec fn referrers_keep(
    s: Storage,
    repo: Seq<char>,
    dg: Seq<char>,
    af: Seq<char>,
    ms: Seq<DescV>,
) -> Seq<DescV>
    decreases ms.len(),
{
    if ms.len() == 0 {
        Seq::empty()
    } else {
        referrers_keep(s, repo, dg, af, ms.drop_last()) + if keep_referrer(
            s,
            repo,
            dg,
            af,
            ms.last(),
        ) {
            seq![ms.last()]
        } else {
            Seq::empty()
        }
    }
}

/// The artifact-type filter a query denotes: absent means no filter.
pub open spec fn artifact_filter(query: Seq<char>) -> Seq<char> {
    match query_param(query, "artifactType"@) {
        Some(a) => a,
        None => Seq::empty(),
    }
}

/// Serves `GET /v2/<repo>/referrers/<digest>?artifactType=`: an image index
/// holding exactly the descriptors whose stored manifest names `digest` as
/// its subject, optionally restricted to an exact artifact type.
#[verifier::loop_isolation(false)]
pub fn get_referrers(store: &mut Storage, repo: &String, digest: &String, query: &String) -> (r:
    Response)
    requires
        old(store).wf(),
        query.is_ascii(),
    ensures
        final(store).wf(),
        old(store).spec_index(repo@) is Some ==> final(store).primary_v() == old(
            store,
        ).primary_v(),
        old(store).spec_index(repo@) is None ==> final(store).primary_v() == old(
            store,
        ).primary_v().insert(
            crate::content::index_path(repo@),
            vstd::utf8::encode_utf8(
                crate::jsonfmt::index_json(crate::image::empty_index_v()),
            ),
        ),
        final(store).cache_v() == old(store).cache_v(),
        forall|r2: Seq<char>| #[trigger] final(store).spec_tags(r2) == old(
            store,
        ).spec_tags(r2),
        forall|r2: Seq<char>| r2 != repo@ ==> #[trigger] final(store).spec_index(r2) == old(
            store,
        ).spec_index(r2),
        final(store).spec_index(repo@) == Some(old(store).index_or_init(repo@)),
        r.status == 200,
        r.content_type == Some(ContentKind::ImageIndex),
        r.body matches Body::Text(t) && t@ == index_json(
            IndexV {
                schema_version: old(store).index_or_init(repo@).schema_version,
                media_type: old(store).index_or_init(repo@).media_type,
                manifests: referrers_keep(
                    *old(store),
                    repo@,
                    digest@,
                    artifact_filter(query@),
                    old(store).index_or_init(repo@).manifests,
                ),
            },
        ),
{
    let af = match query_get(query, &String::from_str("artifactType")) {
        Some(a) => a,
        None => String::new(),
    };
    let index = match store.get_image_index(repo) {
        Ok(ix) => ix,
        Err(e) => { return ApiError::Storage(e).error_response(); }
    };
    let ghost msv = index@.manifests;
    let ghost s0 = *old(store);
    let mut new_manifests: Vec<Descriptor> = Vec::new();
    proof {
        assert(msv.take(0) =~= Seq::<DescV>::empty());
    }
    let mut i: usize = 0;
    while i < index.manifests.len()
        invariant
            i <= index.manifests@.len(),
            store.wf(),
            s0.spec_index(repo@) is Some ==> store.primary_v() == s0.primary_v(),
            s0.spec_index(repo@) is None ==> store.primary_v() == s0.primary_v().insert(
                crate::content::index_path(repo@),
                vstd::utf8::encode_utf8(
                    crate::jsonfmt::index_json(crate::image::empty_index_v()),
                ),
            ),
            store.cache_v() == s0.cache_v(),
            forall|r2: Seq<char>| #[trigger] store.spec_tags(r2) == s0.spec_tags(r2),
            forall|r2: Seq<char>| r2 != repo@ ==> #[trigger] store.spec_index(r2)
                == s0.spec_index(r2),
            store.spec_index(repo@) == Some(s0.index_or_init(repo@)),
            descs_of(new_manifests@) == referrers_keep(
                s0,
                repo@,
                digest@,
                af@,
                msv.take(i as int),
            ),
        decreases index.manifests@.len() - i,
    {
        let ghost tgt = msv.take(i + 1);
        proof {
            assert(tgt.drop_last() =~= msv.take(i as int));
            assert(tgt.last() == msv[i as int]);
            assert(msv[i as int] == index.manifests@[i as int]@);
        }
        let ghost st = *store;
        proof {
            if s0.spec_index(repo@) is None {
                assert(msv.len() == 0);
                assert(false);
            }
        }
        let subject_digest = get_subject_digest(store, &index.manifests[i], repo);
        proof {
            assert(st.index_or_init(repo@) == s0.index_or_init(repo@));
            lemma_subject_of_eq(st, s0, repo@, index.manifests@[i as int]@);
        }
        let keep_subject = !subject_digest.as_str().is_empty() && subject_digest == *digest;
        let keep_artifact = if af.as_str().is_empty() {
            true
        } else {
            match &index.manifests[i].artifact_type {
                Some(a) => *a == af,
                None => false,
            }
        };
        let ghost pre_new = new_manifests@;
        if keep_subject && keep_artifact {
            new_manifests.push(index.manifests[i].clone());
            proof {
                assert(keep_referrer(s0, repo@, digest@, af@, msv[i as int]));
                assert(descs_of(new_manifests@) =~= descs_of(pre_new).push(msv[i as int]));
                assert(descs_of(new_manifests@) =~= referrers_keep(
                    s0,
                    repo@,
                    digest@,
                    af@,
                    tgt,
                ));
            }
        } else {
            proof {
                assert(!keep_referrer(s0, repo@, digest@, af@, msv[i as int]));
                assert(descs_of(new_manifests@) =~= referrers_keep(
                    s0,
                    repo@,
                    digest@,
                    af@,
                    tgt,
                ));
            }
        }
        i += 1;
    }
    proof {
        assert(msv.take(msv.len() as int) =~= msv);
    }
    let out_index = ImageIndex {
        schema_version: index.schema_version,
        media_type: index.media_type,
        manifests: new_manifests,
    };
    proof {
        assert(out_index@ =~= IndexV {
            schema_version: s0.index_or_init(repo@).schema_version,
            media_type: s0.index_or_init(repo@).media_type,
            manifests: referrers_keep(
                s0,
                repo@,
                digest@,
                artifact_filter(query@),
                s0.index_or_init(repo@).manifests,
            ),
        });
    }
    let body = render_index(&out_index);
    Response {
        status: 200,
        location: None,
        range: None,
        content_type: Some(ContentKind::ImageIndex),
        oci_subject: None,
        body: Body::Text(body),
    }
}

} // verus!
