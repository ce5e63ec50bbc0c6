//! Typed domain errors, plus the single place where storage failures are
//! translated into them.

use vstd::prelude::*;

use crate::storage::StorageError;
use crate::text::{concat, push_str};

verus! {

/// A failure the API can render as a stable error envelope.
#[derive(Debug)]
pub enum DomainError {
    /// The requested resource does not exist.
    NotFound(String),
    /// The request was malformed; `code` is the stable machine-readable code.
    InvalidRequest { code: &'static str, message: String },
    /// The request conflicts with existing state.
    Conflict(String),
    /// The uploaded attachment is larger than the accepted maximum.
    PayloadTooLarge,
    /// A conditional update named a version the document no longer has.
    PreconditionFailed { current_etag: String },
    /// An unexpected internal failure carrying a specific message.
    Internal(String),
    /// A storage failure whose details must not reach the client.
    Storage,
}

/// The model of a [`DomainError`]: its kind and the texts it carries.
pub enum ErrorModel {
    NotFound(Seq<char>),
    InvalidRequest(Seq<char>, Seq<char>),
    Conflict(Seq<char>),
    PayloadTooLarge,
    PreconditionFailed(Seq<char>),
    Internal(Seq<char>),
    Storage,
}

impl View for DomainError {
    type V = ErrorModel;

    open spec fn view(&self) -> ErrorModel {
        match self {
            DomainError::NotFound(m) => ErrorModel::NotFound(m@),
            DomainError::InvalidRequest { code, message } => ErrorModel::InvalidRequest(code@, message@),
            DomainError::Conflict(m) => ErrorModel::Conflict(m@),
            DomainError::PayloadTooLarge => ErrorModel::PayloadTooLarge,
            DomainError::PreconditionFailed { current_etag } => ErrorModel::PreconditionFailed(current_etag@),
            DomainError::Internal(m) => ErrorModel::Internal(m@),
            DomainError::Storage => ErrorModel::Storage,
        }
    }
}

/// An `invalid_request` error carrying `message`.
pub open spec fn invalid_request_model(message: Seq<char>) -> ErrorModel {
    ErrorModel::InvalidRequest("invalid_request"@, message)
}

/// The `invalid_id` error.
pub open spec fn invalid_id_model() -> ErrorModel {
    ErrorModel::InvalidRequest("invalid_id"@, "Invalid resource ID"@)
}

/// The `invalid_status` error for a recorded result.
pub open spec fn invalid_status_model() -> ErrorModel {
    ErrorModel::InvalidRequest("invalid_status"@, "Status must be Passed, Failed, Blocked, Untested, or Retest"@)
}

/// The stable machine-readable code an error is answered with.
pub open spec fn code_of(e: ErrorModel) -> Seq<char> {
    match e {
        ErrorModel::NotFound(_) => "not_found"@,
        ErrorModel::InvalidRequest(code, _) => code,
        ErrorModel::Conflict(_) => "conflict"@,
        ErrorModel::PayloadTooLarge => "payload_too_large"@,
        ErrorModel::PreconditionFailed(_) => "precondition_failed"@,
        ErrorModel::Internal(_) => "internal_error"@,
        ErrorModel::Storage => "storage_error"@,
    }
}

/// The `invalid_status` error for an imported result.
pub open spec fn invalid_import_status_model() -> ErrorModel {
    ErrorModel::InvalidRequest("invalid_status"@, "Status must be Passed, Failed, or Blocked"@)
}

/// The generic translation of a storage failure.
pub open spec fn storage_model(error: StorageError) -> ErrorModel {
    match error {
        StorageError::NotFound => ErrorModel::NotFound("Resource not found"@),
        StorageError::InvalidInput => invalid_request_model("Invalid request"@),
        StorageError::AlreadyExists => ErrorModel::Conflict("Resource already exists"@),
        _ => ErrorModel::Storage,
    }
}

impl DomainError {
    /// `invalid_id` — the identifier in the path is not a usable component.
    pub fn invalid_id() -> (e: Self)
        ensures
            e@ == invalid_id_model(),
    {
        proof { reveal_strlit("invalid_id"); reveal_strlit("Invalid resource ID"); }
        DomainError::InvalidRequest { code: "invalid_id", message: "Invalid resource ID".to_owned() }
    }

    /// `invalid_request` — a generic 400 carrying a caller-supplied message.
    pub fn invalid_request(message: String) -> (e: Self)
        ensures
            e@ == invalid_request_model(message@),
    {
        DomainError::InvalidRequest { code: "invalid_request", message }
    }

    /// `invalid_status` — the status value is not one of the accepted results.
    pub fn invalid_status() -> (e: Self)
        ensures
            e@ == invalid_status_model(),
    {
        DomainError::InvalidRequest {
            code: "invalid_status",
            message: "Status must be Passed, Failed, Blocked, Untested, or Retest".to_owned(),
        }
    }

    /// `invalid_status` — an imported status is not one a report can carry.
    pub fn invalid_import_status() -> (e: Self)
        ensures
            e@ == invalid_import_status_model(),
    {
        DomainError::InvalidRequest {
            code: "invalid_status",
            message: "Status must be Passed, Failed, or Blocked".to_owned(),
        }
    }

    /// The stable machine-readable code the error envelope carries.
    pub fn code(&self) -> (r: &'static str)
        ensures
            r@ == code_of(self@),
    {
        match self {
            DomainError::NotFound(_) => "not_found",
            DomainError::InvalidRequest { code, .. } => code,
            DomainError::Conflict(_) => "conflict",
            DomainError::PayloadTooLarge => "payload_too_large",
            DomainError::PreconditionFailed { .. } => "precondition_failed",
            DomainError::Internal(_) => "internal_error",
            DomainError::Storage => "storage_error",
        }
    }

    /// The error rendered as one human-readable line.
    pub fn to_string(&self) -> (r: String)
        ensures
            (match self@ {
                ErrorModel::NotFound(m) => r@ == "not found: "@ + m,
                ErrorModel::InvalidRequest(code, m) => r@ == code + ": "@ + m,
                ErrorModel::Conflict(m) => r@ == "conflict: "@ + m,
                ErrorModel::PayloadTooLarge => r@ == "payload too large"@,
                ErrorModel::PreconditionFailed(tag) => r@ == "precondition failed: current etag "@ + tag,
                ErrorModel::Internal(m) => r@ == "internal error: "@ + m,
                ErrorModel::Storage => r@ == "storage operation failed"@,
            }),
    {
        match self {
            DomainError::NotFound(message) => concat("not found: ", message.as_str()),
            DomainError::InvalidRequest { code, message } => {
                let mut s = concat(code, ": ");
                push_str(&mut s, message.as_str());
                s
            },
            DomainError::Conflict(message) => concat("conflict: ", message.as_str()),
            DomainError::PayloadTooLarge => "payload too large".to_owned(),
            DomainError::PreconditionFailed { current_etag } => concat(
                "precondition failed: current etag ",
                current_etag.as_str(),
            ),
            DomainError::Internal(message) => concat("internal error: ", message.as_str()),
            DomainError::Storage => "storage operation failed".to_owned(),
        }
    }
}

/// Generic storage translation: a missing address is a 404, an unusable one a
/// bad request, a taken one a conflict, and anything else an opaque failure.
pub fn storage_error(error: StorageError) -> (e: DomainError)
    ensures
        e@ == storage_model(error),
{
    match error {
        StorageError::NotFound => DomainError::NotFound("Resource not found".to_owned()),
        StorageError::InvalidInput => DomainError::invalid_request("Invalid request".to_owned()),
        StorageError::AlreadyExists => DomainError::Conflict("Resource already exists".to_owned()),
        _ => DomainError::Storage,
    }
}

/// Translation for the get-resource path.
pub fn read_error(error: StorageError) -> (e: DomainError)
    ensures
        e@ == (match error {
            StorageError::InvalidInput => invalid_id_model(),
            StorageError::NotFound => ErrorModel::NotFound("Resource not found"@),
            StorageError::InvalidData => ErrorModel::Internal("Stored JSON is invalid"@),
            _ => storage_model(error),
        }),
{
    match error {
        StorageError::InvalidInput => DomainError::invalid_id(),
        StorageError::NotFound => DomainError::NotFound("Resource not found".to_owned()),
        StorageError::InvalidData => DomainError::Internal("Stored JSON is invalid".to_owned()),
        _ => storage_error(error),
    }
}

/// Translation for delete and for the update path's existence probe.
pub fn delete_error(error: StorageError) -> (e: DomainError)
    ensures
        e@ == (match error {
            StorageError::NotFound => ErrorModel::NotFound("Resource not found"@),
            StorageError::InvalidInput => invalid_id_model(),
            _ => storage_model(error),
        }),
{
    match error {
        StorageError::NotFound => DomainError::NotFound("Resource not found".to_owned()),
        StorageError::InvalidInput => DomainError::invalid_id(),
        _ => storage_error(error),
    }
}

/// Translation for reading one stored document, where the caller names the
/// missing entity and an unusable identifier is reported as such.
pub fn document_error(error: StorageError, missing: &str) -> (e: DomainError)
    ensures
        e@ == (match error {
            StorageError::NotFound => ErrorModel::NotFound(missing@),
            StorageError::InvalidInput => invalid_id_model(),
            _ => storage_model(error),
        }),
{
    match error {
        StorageError::NotFound => DomainError::NotFound(missing.to_owned()),
        StorageError::InvalidInput => DomainError::invalid_id(),
        _ => storage_error(error),
    }
}

/// Translation for loading a related document, where the caller names the
/// missing entity.
pub fn load_error(error: StorageError, missing: &str) -> (e: DomainError)
    ensures
        e@ == (match error {
            StorageError::NotFound => ErrorModel::NotFound(missing@),
            _ => storage_model(error),
        }),
{
    match error {
        StorageError::NotFound => DomainError::NotFound(missing.to_owned()),
        _ => storage_error(error),
    }
}

/// Translation for the milestone-progress load.
pub fn milestone_error(error: StorageError) -> (e: DomainError)
    ensures
        e@ == (match error {
            StorageError::NotFound => ErrorModel::NotFound("Milestone not found"@),
            StorageError::InvalidInput => invalid_id_model(),
            _ => storage_model(error),
        }),
{
    match error {
        StorageError::NotFound => DomainError::NotFound("Milestone not found".to_owned()),
        StorageError::InvalidInput => DomainError::invalid_id(),
        _ => storage_error(error),
    }
}

/// Translation for attachment access: a missing or unusable file is a 404.
pub fn attachment_error(error: StorageError) -> (e: DomainError)
    ensures
        e@ == (match error {
            StorageError::NotFound | StorageError::InvalidInput => ErrorModel::NotFound("File not found"@),
            _ => storage_model(error),
        }),
{
    match error {
        StorageError::NotFound | StorageError::InvalidInput => DomainError::NotFound("File not found".to_owned()),
        _ => storage_error(error),
    }
}

} // verus!
