//! The server-side error taxonomy: each kind carries enough structure to
//! pick an HTTP status and a stable machine-readable name, independent of
//! the human-readable message; sensitive kinds are demoted before they are
//! shown to clients.

use vstd::prelude::*;

use crate::error::BunkerError;

verus! {

pub type ServerResult<T> = Result<T, ServerError>;

/// The kind of a server error.
#[derive(Debug, Clone)]
pub enum ErrorKind {
    /// The requested URL was not found.
    NotFound,
    /// The caller is not authorized.
    Unauthorized,
    /// An internal error or misconfiguration.
    InternalServerError,
    /// The requested cache does not exist.
    NoSuchCache,
    /// The cache already exists.
    CacheAlreadyExists,
    /// The requested object does not exist.
    NoSuchObject,
    /// An unknown compression type name.
    InvalidCompressionType { name: String },
    /// The requested NAR has missing chunks and needs to be repaired.
    IncompleteNar,
    /// A wrapped persistence-layer failure.
    DatabaseError(String),
    /// A wrapped storage-backend failure.
    StorageError(String),
    /// A manifest codec failure.
    ManifestSerializationError(crate::nix_manifest::Error),
    /// An access-control failure.
    AccessError(crate::access::Error),
    /// A general request failure.
    RequestError(String),
    /// An error from the shared components.
    BunkerError(BunkerError),
}

/// An error payload as serialized to clients.
#[derive(Debug, Clone)]
pub struct ErrorResponse {
    pub code: u16,
    pub error: String,
    pub message: String,
}

impl ErrorKind {
    pub open spec fn name_spec(&self) -> Seq<char> {
        match self {
            ErrorKind::NotFound => "NotFound"@,
            ErrorKind::Unauthorized => "Unauthorized"@,
            ErrorKind::InternalServerError => "InternalServerError"@,
            ErrorKind::NoSuchCache => "NoSuchCache"@,
            ErrorKind::CacheAlreadyExists => "CacheAlreadyExists"@,
            ErrorKind::NoSuchObject => "NoSuchObject"@,
            ErrorKind::InvalidCompressionType { .. } => "InvalidCompressionType"@,
            ErrorKind::IncompleteNar => "IncompleteNar"@,
            ErrorKind::DatabaseError(_) => "DatabaseError"@,
            ErrorKind::StorageError(_) => "StorageError"@,
            ErrorKind::ManifestSerializationError(_) => "ManifestSerializationError"@,
            ErrorKind::AccessError(_) => "AccessError"@,
            ErrorKind::RequestError(_) => "RequestError"@,
            ErrorKind::BunkerError(e) => e.name_spec(),
        }
    }

    /// The stable machine-readable name of this kind.
    pub fn name(&self) -> (r: &'static str)
        ensures
            r@ == self.name_spec(),
    {
        match self {
            ErrorKind::NotFound => "NotFound",
            ErrorKind::Unauthorized => "Unauthorized",
            ErrorKind::InternalServerError => "InternalServerError",
            ErrorKind::NoSuchCache => "NoSuchCache",
            ErrorKind::CacheAlreadyExists => "CacheAlreadyExists",
            ErrorKind::NoSuchObject => "NoSuchObject",
            ErrorKind::InvalidCompressionType { .. } => "InvalidCompressionType",
            ErrorKind::IncompleteNar => "IncompleteNar",
            ErrorKind::DatabaseError(_) => "DatabaseError",
            ErrorKind::StorageError(_) => "StorageError",
            ErrorKind::ManifestSerializationError(_) => "ManifestSerializationError",
            ErrorKind::AccessError(_) => "AccessError",
            ErrorKind::RequestError(_) => "RequestError",
            ErrorKind::BunkerError(e) => e.name(),
        }
    }

    /// The kind a caller without discovery permission is shown: existence
    /// itself is sensitive, so lookup misses and access failures all become
    /// a plain authorization failure.
    pub open spec fn no_discovery_spec(self) -> ErrorKind {
        match self {
            ErrorKind::NoSuchCache => ErrorKind::Unauthorized,
            ErrorKind::NoSuchObject => ErrorKind::Unauthorized,
            ErrorKind::AccessError(_) => ErrorKind::Unauthorized,
            _ => self,
        }
    }

    pub fn into_no_discovery_permissions(self) -> (r: ErrorKind)
        ensures
            r == self.no_discovery_spec(),
    {
        match self {
            ErrorKind::NoSuchCache => ErrorKind::Unauthorized,
            ErrorKind::NoSuchObject => ErrorKind::Unauthorized,
            ErrorKind::AccessError(_) => ErrorKind::Unauthorized,
            other => other,
        }
    }

    /// The kind shown to clients: backend failures are reported only as a
    /// generic internal error, to avoid leaking backend detail. A manifest
    /// codec failure is the client's own bad input and surfaces under its
    /// own name.
    pub open spec fn clients_spec(self) -> ErrorKind {
        match self {
            ErrorKind::AccessError(crate::access::Error::NoDiscoveryPermission) =>
                ErrorKind::Unauthorized,
            ErrorKind::DatabaseError(_) => ErrorKind::InternalServerError,
            ErrorKind::StorageError(_) => ErrorKind::InternalServerError,
            _ => self,
        }
    }

    pub fn into_clients(self) -> (r: ErrorKind)
        ensures
            r == self.clients_spec(),
    {
        match self {
            ErrorKind::AccessError(crate::access::Error::NoDiscoveryPermission) =>
                ErrorKind::Unauthorized,
            ErrorKind::DatabaseError(_) => ErrorKind::InternalServerError,
            ErrorKind::StorageError(_) => ErrorKind::InternalServerError,
            other => other,
        }
    }

    pub open spec fn status_spec(&self) -> u16 {
        match self {
            ErrorKind::NotFound => 404,
            ErrorKind::Unauthorized => 401,
            ErrorKind::InternalServerError => 500,
            ErrorKind::AccessError(_) => 403,
            ErrorKind::NoSuchCache => 404,
            ErrorKind::NoSuchObject => 404,
            ErrorKind::CacheAlreadyExists => 400,
            ErrorKind::IncompleteNar => 503,
            ErrorKind::ManifestSerializationError(_) => 400,
            ErrorKind::RequestError(_) => 400,
            ErrorKind::InvalidCompressionType { .. } => 400,
            _ => 500,
        }
    }

    /// The HTTP status this kind is reported with.
    pub fn http_status_code(&self) -> (r: u16)
        ensures
            r == self.status_spec(),
    {
        match self {
            ErrorKind::NotFound => 404,
            ErrorKind::Unauthorized => 401,
            ErrorKind::InternalServerError => 500,
            ErrorKind::AccessError(_) => 403,
            ErrorKind::NoSuchCache => 404,
            ErrorKind::NoSuchObject => 404,
            ErrorKind::CacheAlreadyExists => 400,
            ErrorKind::IncompleteNar => 503,
            ErrorKind::ManifestSerializationError(_) => 400,
            ErrorKind::RequestError(_) => 400,
            ErrorKind::InvalidCompressionType { .. } => 400,
            _ => 500,
        }
    }

    pub open spec fn message_spec(&self) -> Seq<char> {
        match self {
            ErrorKind::NotFound => "The URL you requested was not found."@,
            ErrorKind::Unauthorized => "Unauthorized."@,
            ErrorKind::InternalServerError =>
                "The server encountered an internal error or misconfiguration."@,
            ErrorKind::NoSuchCache => "The requested cache does not exist."@,
            ErrorKind::CacheAlreadyExists => "The cache already exists."@,
            ErrorKind::NoSuchObject => "The requested object does not exist."@,
            ErrorKind::InvalidCompressionType { name } => "Invalid compression type \""@ + name@
                + "\"."@,
            ErrorKind::IncompleteNar =>
                "The requested NAR has missing chunks and needs to be repaired."@,
            ErrorKind::DatabaseError(m) => "Database error: "@ + m@,
            ErrorKind::StorageError(m) => "Storage error: "@ + m@,
            ErrorKind::ManifestSerializationError(e) => "Manifest serialization error: "@
                + e.name_spec(),
            ErrorKind::AccessError(e) => "Access error: "@ + e.message_spec(),
            ErrorKind::RequestError(m) => "General request error: "@ + m@,
            ErrorKind::BunkerError(_) => "Error from the common components."@,
        }
    }

    /// The human-readable message of this kind.
    pub fn message(&self) -> (r: String)
        ensures
            r@ == self.message_spec(),
    {
        match self {
            ErrorKind::NotFound => String::from_str("The URL you requested was not found."),
            ErrorKind::Unauthorized => String::from_str("Unauthorized."),
            ErrorKind::InternalServerError => String::from_str(
                "The server encountered an internal error or misconfiguration.",
            ),
            ErrorKind::NoSuchCache => String::from_str("The requested cache does not exist."),
            ErrorKind::CacheAlreadyExists => String::from_str("The cache already exists."),
            ErrorKind::NoSuchObject => String::from_str("The requested object does not exist."),
            ErrorKind::InvalidCompressionType { name } => {
                let mut s = String::from_str("Invalid compression type \"");
                s.append(name.as_str());
                s.append("\".");
                proof {
                    assert(s@ =~= self.message_spec());
                }
                s
            }
            ErrorKind::IncompleteNar => String::from_str(
                "The requested NAR has missing chunks and needs to be repaired.",
            ),
            ErrorKind::DatabaseError(m) => {
                let mut s = String::from_str("Database error: ");
                s.append(m.as_str());
                s
            }
            ErrorKind::StorageError(m) => {
                let mut s = String::from_str("Storage error: ");
                s.append(m.as_str());
                s
            }
            ErrorKind::ManifestSerializationError(e) => {
                let mut s = String::from_str("Manifest serialization error: ");
                s.append(e.name());
                s
            }
            ErrorKind::AccessError(e) => {
                let mut s = String::from_str("Access error: ");
                s.append(e.message());
                s
            }
            ErrorKind::RequestError(m) => {
                let mut s = String::from_str("General request error: ");
                s.append(m.as_str());
                s
            }
            ErrorKind::BunkerError(_) => String::from_str("Error from the common components."),
        }
    }
}

/// A server error: a kind, plus whether the causing client holds discovery
/// permission (which decides how much the response may reveal).
#[derive(Debug, Clone)]
pub struct ServerError {
    kind: ErrorKind,
    discovery_permission: bool,
}

impl ServerError {
    pub closed spec fn spec_kind(&self) -> ErrorKind {
        self.kind
    }

    pub closed spec fn spec_discovery_permission(&self) -> bool {
        self.discovery_permission
    }

    /// Wraps a kind; discovery permission defaults to granted.
    pub fn from_kind(kind: ErrorKind) -> (r: ServerError)
        ensures
            r.spec_kind() == kind,
            r.spec_discovery_permission(),
    {
        ServerError { kind, discovery_permission: true }
    }

    pub fn from_bunker_error(error: BunkerError) -> (r: ServerError)
        ensures
            r.spec_kind() == ErrorKind::BunkerError(error),
            r.spec_discovery_permission(),
    {
        ServerError { kind: ErrorKind::BunkerError(error), discovery_permission: true }
    }

    /// Wraps a persistence-layer failure, described by a message.
    pub fn database_error(message: String) -> (r: ServerError)
        ensures
            r.spec_kind() == ErrorKind::DatabaseError(message),
            r.spec_discovery_permission(),
    {
        ServerError { kind: ErrorKind::DatabaseError(message), discovery_permission: true }
    }

    /// Wraps a storage-backend failure, described by a message.
    pub fn storage_error(message: String) -> (r: ServerError)
        ensures
            r.spec_kind() == ErrorKind::StorageError(message),
            r.spec_discovery_permission(),
    {
        ServerError { kind: ErrorKind::StorageError(message), discovery_permission: true }
    }

    /// Wraps a general request failure, described by a message.
    pub fn request_error(message: String) -> (r: ServerError)
        ensures
            r.spec_kind() == ErrorKind::RequestError(message),
            r.spec_discovery_permission(),
    {
        ServerError { kind: ErrorKind::RequestError(message), discovery_permission: true }
    }

    pub fn set_discovery_permission(&mut self, perm: bool)
        ensures
            final(self).spec_kind() == old(self).spec_kind(),
            final(self).spec_discovery_permission() == perm,
    {
        self.discovery_permission = perm;
    }

    /// The kind this error is reported to its client as, after the
    /// discovery-permission demotion and the client sanitization.
    pub open spec fn client_kind_spec(&self) -> ErrorKind {
        (if self.spec_discovery_permission() {
            self.spec_kind()
        } else {
            self.spec_kind().no_discovery_spec()
        }).clients_spec()
    }

    /// Renders this error for the wire: the HTTP status and the structured
    /// response body, both derived from the sanitized kind only.
    pub fn into_error_response(self) -> (r: (u16, ErrorResponse))
        ensures
            r.0 == self.client_kind_spec().status_spec(),
            r.1.code == r.0,
            r.1.error@ == self.client_kind_spec().name_spec(),
            r.1.message@ == self.client_kind_spec().message_spec(),
    {
        let kind = if self.discovery_permission {
            self.kind
        } else {
            self.kind.into_no_discovery_permissions()
        };
        let sanitized = kind.into_clients();
        let status_code = sanitized.http_status_code();
        let message = sanitized.message();
        let error = String::from_str(sanitized.name());
        (status_code, ErrorResponse { code: status_code, error, message })
    }
}

} // verus!
