//! Client-side view of server error responses.

use vstd::prelude::*;

verus! {

/// A structured error payload returned by the server.
#[derive(Debug, Clone)]
pub struct StructuredApiError {
    pub code: u16,
    pub error: String,
    pub message: String,
}

impl StructuredApiError {
    /// The `error: message` rendering shown to users.
    pub fn display_string(&self) -> (r: String)
        ensures
            r@ == self.error@ + ": "@ + self.message@,
    {
        let mut s = self.error.clone();
        s.append(": ");
        s.append(self.message.as_str());
        proof {
            assert(s@ =~= self.error@ + ": "@ + self.message@);
        }
        s
    }
}

/// An error reported by the server: structured when the body parses as a
/// `StructuredApiError`, otherwise the raw status and body text.
#[derive(Debug, Clone)]
pub enum ApiError {
    Structured(StructuredApiError),
    Unstructured(u16, String),
}

impl ApiError {
    /// Classifies a non-success response from its status, raw body, and the
    /// outcome of parsing the body as a structured error.
    pub fn from_response_parts(status: u16, body: String, parsed: Option<StructuredApiError>)
        -> (r: ApiError)
        ensures
            parsed matches Some(s) ==> r == ApiError::Structured(s),
            parsed is None ==> r == ApiError::Unstructured(status, body),
    {
        match parsed {
            Some(s) => ApiError::Structured(s),
            Option::None => ApiError::Unstructured(status, body),
        }
    }
}

} // verus!
