//! The errors of the signing service and how backend failures are sorted
//! into them.
use vstd::prelude::*;
use crate::text::{contains, contains_seq};

verus! {

/// A failed request to the signing service.
#[derive(Debug)]
pub enum AppServiceError {
    /// The request itself is wrong.
    Invalid(String),
    /// Signing was attempted and failed.
    Signing(String),
    /// No signing backend exists on this platform.
    BackendUnavailable(String),
}

/// The message carried by an error.
pub open spec fn service_error_message(e: AppServiceError) -> Seq<char> {
    match e {
        AppServiceError::Invalid(m) => m@,
        AppServiceError::Signing(m) => m@,
        AppServiceError::BackendUnavailable(m) => m@,
    }
}

/// A backend failure message that names the missing backend.
pub open spec fn names_missing_backend(msg: Seq<char>) -> bool {
    contains_seq(msg, "SIGNING_BACKEND_UNAVAILABLE"@)
}

/// A backend failure message that points at the request.
pub open spec fn points_at_request(msg: Seq<char>) -> bool {
    ||| contains_seq(msg, "cert_thumbprint"@)
    ||| contains_seq(msg, "cert_index"@)
    ||| contains_seq(msg, "Payload"@)
    ||| contains_seq(msg, "invalido"@)
}

/// Sorts a backend failure, given by its full message, into a service error
/// that carries that message.
pub fn classify_backend_error(msg: String) -> (r: AppServiceError)
    ensures
        service_error_message(r) == msg@,
        names_missing_backend(msg@) ==> r is BackendUnavailable,
        !names_missing_backend(msg@) && points_at_request(msg@) ==> r is Invalid,
        !names_missing_backend(msg@) && !points_at_request(msg@) ==> r is Signing,
{
    if contains(msg.as_str(), "SIGNING_BACKEND_UNAVAILABLE") {
        return AppServiceError::BackendUnavailable(msg);
    }
    if contains(msg.as_str(), "cert_thumbprint") || contains(msg.as_str(), "cert_index") || contains(
        msg.as_str(),
        "Payload",
    ) || contains(msg.as_str(), "invalido") {
        return AppServiceError::Invalid(msg);
    }
    AppServiceError::Signing(msg)
}

/// The message of a service error.
pub fn format_service_error(err: &AppServiceError) -> (r: String)
    ensures
        r@ == service_error_message(*err),
{
    match err {
        AppServiceError::Invalid(msg) => msg.clone(),
        AppServiceError::Signing(msg) => msg.clone(),
        AppServiceError::BackendUnavailable(msg) => msg.clone(),
    }
}

} // verus!
