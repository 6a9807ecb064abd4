//! The calls into outside crates that the registry's logic leans on: OCI
//! payload parsing, query-string lookup and upload-session identifiers.
//! Each call stands behind one wrapper whose contract names what the call
//! computes; everything around the calls is verified.

use vstd::prelude::*;

use crate::image::{ann_keys_distinct, ann_map, anns_of, Annotation};

verus! {

/// What a manifest or index payload parses to: the digest named by its
/// `subject` descriptor, if any, and its annotations.
pub struct ParsedPayload {
    pub subject: Option<String>,
    pub annotations: Vec<Annotation>,
}

/// What `oci_spec` reads out of an image-manifest payload: `None` when the
/// bytes are not a valid image manifest, else the subject digest and the
/// annotation map. Parsing depends on the bytes alone.
pub uninterp spec fn manifest_parse(data: Seq<u8>) -> Option<
    (Option<Seq<char>>, Map<Seq<char>, Seq<char>>),
>;

/// What `oci_spec` reads out of an image-index payload, in the same shape.
pub uninterp spec fn index_parse(data: Seq<u8>) -> Option<
    (Option<Seq<char>>, Map<Seq<char>, Seq<char>>),
>;

/// Relies on `oci_spec::image::ImageManifest::from_reader`: deserializes the
/// payload, from whose `subject` and `annotations` fields only the values
/// are moved over. The annotations come out of a `HashMap`, so only their
/// map (with its distinct keys), not their order, is promised.
#[verifier::external_body]
pub fn parse_image_manifest(data: &Vec<u8>) -> (r: Option<ParsedPayload>)
    ensures
        r is Some <==> manifest_parse(data@) is Some,
        match r {
            Some(p) => {
                let q = manifest_parse(data@)->Some_0;
                &&& match p.subject {
                    Some(s) => q.0 == Some(s@),
                    None => q.0 is None,
                }
                &&& ann_keys_distinct(anns_of(p.annotations@))
                &&& ann_map(anns_of(p.annotations@)) == q.1
            },
            None => true,
        },
{
    match oci_spec::image::ImageManifest::from_reader(data.as_slice()) {
        Ok(m) => {
            let subject = m.subject().as_ref().map(|d| d.digest().to_string());
            let annotations = match m.annotations() {
                Some(a) => a.iter().map(
                    |(k, v)| Annotation { key: k.clone(), value: v.clone() },
                ).collect(),
                None => Vec::new(),
            };
            Some(ParsedPayload { subject, annotations })
        }
        Err(_) => None,
    }
}

/// Relies on `oci_spec::image::ImageIndex::from_reader`, exactly as the
/// image-manifest wrapper relies on its `from_reader`.
#[verifier::external_body]
pub fn parse_image_index(data: &Vec<u8>) -> (r: Option<ParsedPayload>)
    ensures
        r is Some <==> index_parse(data@) is Some,
        match r {
            Some(p) => {
                let q = index_parse(data@)->Some_0;
                &&& match p.subject {
                    Some(s) => q.0 == Some(s@),
                    None => q.0 is None,
                }
                &&& ann_keys_distinct(anns_of(p.annotations@))
                &&& ann_map(anns_of(p.annotations@)) == q.1
            },
            None => true,
        },
{
    match oci_spec::image::ImageIndex::from_reader(data.as_slice()) {
        Ok(m) => {
            let subject = m.subject().as_ref().map(|d| d.digest().to_string());
            let annotations = match m.annotations() {
                Some(a) => a.iter().map(
                    |(k, v)| Annotation { key: k.clone(), value: v.clone() },
                ).collect(),
                None => Vec::new(),
            };
            Some(ParsedPayload { subject, annotations })
        }
        Err(_) => None,
    }
}

/// The value of a query-string parameter, as `qstring` decodes it: the first
/// binding of the key, `Some("")` for a bare key, `None` when absent.
pub uninterp spec fn query_param(query: Seq<char>, key: Seq<char>) -> Option<Seq<char>>;

/// Relies on `qstring::QString`: parsing a query string is a function of the
/// string, and `get` returns the first binding of the key. The parser slices
/// the text by byte offsets before checking character boundaries and panics
/// when a multi-byte character opens the query or follows a separator, so
/// only ASCII queries are admitted — which every legal URL query is.
#[verifier::external_body]
pub fn query_get(query: &String, key: &String) -> (r: Option<String>)
    requires
        query.is_ascii(),
    ensures
        match r {
            Some(v) => query_param(query@, key@) == Some(v@),
            None => query_param(query@, key@) is None,
        },
{
    qstring::QString::from(query.as_str()).get(key.as_str()).map(|v| v.to_string())
}

/// Relies on `uuid::Uuid::new_v4` and its hyphenated text form. The result
/// is random, so nothing is promised of it.
#[verifier::external_body]
pub fn new_upload_uuid() -> String {
    uuid::Uuid::new_v4().to_string()
}

} // verus!
