//! What the HTTP layer answers: status codes for each outcome, and the
//! header that names a downloaded file.

use crate::credentials::AuthError;
use crate::registry::RegistryError;
use crate::relay::{RelayFailure, TransferOutcome};
use vstd::prelude::*;

verus! {

pub const STATUS_OK: u16 = 200;

pub const STATUS_BAD_REQUEST: u16 = 400;

pub const STATUS_UNAUTHORIZED: u16 = 401;

pub const STATUS_FORBIDDEN: u16 = 403;

pub const STATUS_NOT_FOUND: u16 = 404;

pub const STATUS_CONFLICT: u16 = 409;

pub const STATUS_INTERNAL_ERROR: u16 = 500;

/// The status of a refused registry operation.
pub fn registry_status(error: RegistryError) -> (r: u16)
    ensures
        r == match error {
            RegistryError::Conflict => STATUS_CONFLICT,
            RegistryError::NotFound => STATUS_NOT_FOUND,
            RegistryError::Forbidden => STATUS_FORBIDDEN,
            RegistryError::Exhausted => STATUS_INTERNAL_ERROR,
        },
{
    match error {
        RegistryError::Conflict => STATUS_CONFLICT,
        RegistryError::NotFound => STATUS_NOT_FOUND,
        RegistryError::Forbidden => STATUS_FORBIDDEN,
        RegistryError::Exhausted => STATUS_INTERNAL_ERROR,
    }
}

/// The status of a refused caller.
pub fn auth_status(error: AuthError) -> (r: u16)
    ensures
        r == match error {
            AuthError::Unauthorized => STATUS_UNAUTHORIZED,
            AuthError::Internal => STATUS_INTERNAL_ERROR,
        },
{
    match error {
        AuthError::Unauthorized => STATUS_UNAUTHORIZED,
        AuthError::Internal => STATUS_INTERNAL_ERROR,
    }
}

/// The status of an upload once its relay has ended: `outcome` is `None`
/// where the relay task ended without reporting one.
pub fn upload_status(outcome: Option<TransferOutcome>) -> (r: u16)
    ensures
        r == match outcome {
            Some(TransferOutcome::Success) => STATUS_OK,
            Some(TransferOutcome::Failure(_)) => STATUS_BAD_REQUEST,
            None => STATUS_INTERNAL_ERROR,
        },
{
    match outcome {
        Some(TransferOutcome::Success) => STATUS_OK,
        Some(TransferOutcome::Failure(_)) => STATUS_BAD_REQUEST,
        None => STATUS_INTERNAL_ERROR,
    }
}

/// A short description of a refused registry operation.
pub fn registry_message(error: RegistryError) -> (r: &'static str)
    ensures
        error is Conflict ==> r@ == "An upload is already in progress for this filename"@,
        error is NotFound ==> r@ == "No active upload stream for this file"@,
        error is Forbidden ==> r@ == "This upload belongs to another token"@,
        error is Exhausted ==> r@ == "No more uploads can be registered"@,
{
    match error {
        RegistryError::Conflict => "An upload is already in progress for this filename",
        RegistryError::NotFound => "No active upload stream for this file",
        RegistryError::Forbidden => "This upload belongs to another token",
        RegistryError::Exhausted => "No more uploads can be registered",
    }
}

/// A short description of why a relay failed.
pub fn failure_reason(failure: RelayFailure) -> (r: &'static str)
    ensures
        failure is Timeout ==> r@ == "Timeout waiting for download client"@,
        failure is ReadyDropped ==> r@ == "Ready channel dropped"@,
        failure is ReadError ==> r@ == "Stream error"@,
{
    match failure {
        RelayFailure::Timeout => "Timeout waiting for download client",
        RelayFailure::ReadyDropped => "Ready channel dropped",
        RelayFailure::ReadError => "Stream error",
    }
}

pub open spec fn disposition_of(file_id: Seq<char>) -> Seq<char> {
    "attachment; filename=\""@ + file_id + "\""@
}

/// The `Content-Disposition` value of a download of `file_id`.
pub fn content_disposition(file_id: &str) -> (r: String)
    ensures
        r@ == disposition_of(file_id@),
{
    let mut value = String::from_str("attachment; filename=\"");
    value.append(file_id);
    value.append("\"");
    value
}

} // verus!
