//! The wire-level error taxonomy and the single place where storage errors
//! are mapped onto HTTP responses: status code, content type and an OCI
//! error body.

use vstd::prelude::*;

use crate::error::StorageError;
use crate::jsonfmt::{error_body, render_error};

verus! {

/// The body of a response: nothing, raw blob bytes, or framed text.
#[derive(Debug)]
pub enum Body {
    Empty,
    Bytes(Vec<u8>),
    Text(String),
}

/// The content types this registry ever serves.
#[derive(Debug, Clone, Copy, PartialEq, Eq, Structural)]
pub enum ContentKind {
    Plain,
    Json,
    ImageManifest,
    ImageIndex,
}

/// A `Location` header, kept structured; the host formats the URL.
#[derive(Debug)]
pub enum Location {
    UploadUrl { repo: String, uuid: String },
    BlobUrl { repo: String, digest: String },
    ManifestUrl { repo: String, digest: String },
}

/// One HTTP response of the v2 surface, kept structured.
#[derive(Debug)]
pub struct Response {
    pub status: u16,
    pub location: Option<Location>,
    pub range: Option<(u64, u64)>,
    pub content_type: Option<ContentKind>,
    pub oci_subject: Option<String>,
    pub body: Body,
}

/// What kind of content a not-found error speaks of.
#[derive(Debug)]
pub enum MediaKind {
    ImageManifest,
    ImageIndex,
    Other(String),
}

/// The wire error taxonomy; storage errors map into it at this boundary
/// and nowhere else.
#[derive(Debug)]
pub enum ApiError {
    Storage(StorageError),
    InvalidManifestFormat(String),
    ContentNotFound { kind: MediaKind, mesg: String },
    RangeIsNotSatisfied,
    BlobUploadUnknown,
}

/// The status line, content type and body an error is served with.
pub struct ApiErrorResponse {
    pub message: String,
    pub content_type: ContentKind,
    pub code: u16,
}

pub open spec fn api_status(e: ApiError) -> u16 {
    match e {
        ApiError::Storage(_) => 500,
        ApiError::InvalidManifestFormat(_) => 404,
        ApiError::ContentNotFound { .. } => 404,
        ApiError::RangeIsNotSatisfied => 416,
        ApiError::BlobUploadUnknown => 404,
    }
}

pub open spec fn api_content(e: ApiError) -> ContentKind {
    match e {
        ApiError::Storage(_) => ContentKind::Plain,
        _ => ContentKind::Json,
    }
}

pub open spec fn api_message(e: ApiError) -> Seq<char> {
    match e {
        ApiError::Storage(_) => "Internal Server Error"@,
        ApiError::InvalidManifestFormat(s) => error_body("MANIFEST_INVALID"@, s@),
        ApiError::ContentNotFound { kind, mesg } => error_body(
            if (kind matches MediaKind::ImageManifest) {
                "MANIFEST_UNKNOWN"@
            } else {
                "BLOB_UNKNOWN"@
            },
            mesg@,
        ),
        ApiError::RangeIsNotSatisfied => error_body(
            "BLOB_UPLOAD_INVALID"@,
            "Invalid blob upload"@,
        ),
        ApiError::BlobUploadUnknown => error_body(
            "BLOB_UPLOAD_UNKNOWN"@,
            "Blob upload unknown"@,
        ),
    }
}

impl ApiError {
    /// Status code, content type and rendered body for this error.
    pub fn get_status_code(&self) -> (r: ApiErrorResponse)
        ensures
            r.code == api_status(*self),
            r.content_type == api_content(*self),
            r.message@ == api_message(*self),
    {
        match self {
            ApiError::Storage(_) => ApiErrorResponse {
                message: String::from_str("Internal Server Error"),
                content_type: ContentKind::Plain,
                code: 500,
            },
            ApiError::InvalidManifestFormat(s) => ApiErrorResponse {
                message: render_error("MANIFEST_INVALID", s),
                content_type: ContentKind::Json,
                code: 404,
            },
            ApiError::ContentNotFound { kind, mesg } => {
                let code_str = match kind {
                    MediaKind::ImageManifest => "MANIFEST_UNKNOWN",
                    _ => "BLOB_UNKNOWN",
                };
                ApiErrorResponse {
                    message: render_error(code_str, mesg),
                    content_type: ContentKind::Json,
                    code: 404,
                }
            }
            ApiError::RangeIsNotSatisfied => ApiErrorResponse {
                message: render_error("BLOB_UPLOAD_INVALID", &String::from_str(
                    "Invalid blob upload",
                )),
                content_type: ContentKind::Json,
                code: 416,
            },
            ApiError::BlobUploadUnknown => ApiErrorResponse {
                message: render_error("BLOB_UPLOAD_UNKNOWN", &String::from_str(
                    "Blob upload unknown",
                )),
                content_type: ContentKind::Json,
                code: 404,
            },
        }
    }

    /// The full response an error is answered with.
    pub fn error_response(&self) -> (r: Response)
        ensures
            r.status == api_status(*self),
            r.content_type == Some(api_content(*self)),
            r.location is None,
            r.range is None,
            r.oci_subject is None,
            r.body matches Body::Text(t) && t@ == api_message(*self),
    {
        let ar = self.get_status_code();
        Response {
            status: ar.code,
            location: None,
            range: None,
            content_type: Some(ar.content_type),
            oci_subject: None,
            body: Body::Text(ar.message),
        }
    }
}

/// How storage errors enter the wire taxonomy: an unsatisfiable range keeps
/// its meaning, everything else is an internal storage failure.
pub open spec fn api_from_storage(e: StorageError) -> ApiError {
    match e {
        StorageError::RangeNotSatisfied => ApiError::RangeIsNotSatisfied,
        _ => ApiError::Storage(e),
    }
}

pub fn from_storage(e: StorageError) -> (r: ApiError)
    ensures
        r == api_from_storage(e),
{
    match e {
        StorageError::RangeNotSatisfied => ApiError::RangeIsNotSatisfied,
        e => ApiError::Storage(e),
    }
}

} // verus!
