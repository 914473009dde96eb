//! The uniform success / failure envelope of the HTTP surface, and the error
//! kinds the engine distinguishes.

use vstd::prelude::*;

use crate::hash::HashError;

verus! {

/// The kinds of error the engine surfaces, mirroring the I/O error kinds the
/// HTTP status mapping distinguishes.
#[derive(Clone, Copy, PartialEq, Eq, Structural, Debug)]
pub enum ErrorKind {
    NotFound,
    InvalidInput,
    AlreadyExists,
    UnexpectedEof,
    Other,
}

/// The short machine tag for each kind, as the standard library renders the
/// matching I/O error kind.
pub open spec fn spec_kind_tag(k: ErrorKind) -> Seq<char> {
    match k {
        ErrorKind::NotFound => "entity not found"@,
        ErrorKind::InvalidInput => "invalid input parameter"@,
        ErrorKind::AlreadyExists => "entity already exists"@,
        ErrorKind::UnexpectedEof => "unexpected end of file"@,
        ErrorKind::Other => "other error"@,
    }
}

pub fn kind_tag(k: ErrorKind) -> (r: &'static str)
    ensures
        r@ == spec_kind_tag(k),
{
    match k {
        ErrorKind::NotFound => "entity not found",
        ErrorKind::InvalidInput => "invalid input parameter",
        ErrorKind::AlreadyExists => "entity already exists",
        ErrorKind::UnexpectedEof => "unexpected end of file",
        ErrorKind::Other => "other error",
    }
}

/// An error as rendered in the failure envelope: a short machine tag, a
/// human-readable detail, and the kind that drives the HTTP status.
#[derive(Debug)]
pub struct OutpackError {
    pub error: String,
    pub detail: String,
    pub kind: Option<ErrorKind>,
}

impl OutpackError {
    /// An error of the given kind, tagged with the kind's standard rendering.
    pub fn new(kind: ErrorKind, detail: String) -> (r: OutpackError)
        ensures
            r.error@ == spec_kind_tag(kind),
            r.detail == detail,
            r.kind == Some(kind),
    {
        OutpackError { error: kind_tag(kind).to_owned(), detail, kind: Some(kind) }
    }

    /// A hash error surfaces as invalid input, its explanation as the detail.
    pub fn from_hash_error(e: HashError) -> (r: OutpackError)
        ensures
            r.error@ == spec_kind_tag(ErrorKind::InvalidInput),
            r.detail == e.explanation,
            r.kind == Some(ErrorKind::InvalidInput),
    {
        OutpackError {
            error: kind_tag(ErrorKind::InvalidInput).to_owned(),
            detail: e.explanation,
            kind: Some(ErrorKind::InvalidInput),
        }
    }
}

/// The HTTP status that each error kind maps to.
pub open spec fn spec_status_code(kind: Option<ErrorKind>) -> u16 {
    match kind {
        Some(ErrorKind::NotFound) => 404,
        Some(ErrorKind::InvalidInput) => 400,
        Some(ErrorKind::UnexpectedEof) => 400,
        Some(ErrorKind::AlreadyExists) => 409,
        _ => 500,
    }
}

/// The HTTP status code for an error.
pub fn status_code(e: &OutpackError) -> (r: u16)
    ensures
        r == spec_status_code(e.kind),
{
    match e.kind {
        Some(ErrorKind::NotFound) => 404,
        Some(ErrorKind::InvalidInput) => 400,
        Some(ErrorKind::UnexpectedEof) => 400,
        Some(ErrorKind::AlreadyExists) => 409,
        _ => 500,
    }
}

/// A successful operation result, wrapped for the success envelope.
pub struct OutpackSuccess<T>(pub T);

impl<T> OutpackSuccess<T> {
    /// Wrap a value for the success envelope.
    pub fn from(inner: T) -> (r: OutpackSuccess<T>)
        ensures
            r.0 == inner,
    {
        OutpackSuccess(inner)
    }
}

/// The body of a successful response: `status` is `success`, `errors` absent.
pub struct SuccessResponse<T> {
    pub status: String,
    pub data: T,
    pub errors: Option<Vec<OutpackError>>,
}

/// The body of a failed response: `status` is `failure`, `data` absent.
pub struct FailResponse {
    pub status: String,
    pub data: Option<String>,
    pub errors: Option<Vec<OutpackError>>,
}

/// Build the success envelope around a value.
pub fn success_response<T>(data: T) -> (r: SuccessResponse<T>)
    ensures
        r.status@ == "success"@,
        r.data == data,
        r.errors is None,
{
    SuccessResponse { status: "success".to_owned(), data, errors: None }
}

/// Build the failure envelope around an error.
pub fn fail_response(e: OutpackError) -> (r: FailResponse)
    ensures
        r.status@ == "failure"@,
        r.data is None,
        r.errors matches Some(v) && v@.len() == 1 && v@[0] == e,
{
    let mut errors: Vec<OutpackError> = Vec::new();
    errors.push(e);
    FailResponse { status: "failure".to_owned(), data: None, errors: Some(errors) }
}

} // verus!
