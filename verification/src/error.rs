//! The failures that the client reports.

use vstd::prelude::*;

verus! {

#[verifier::external_type_specification]
#[verifier::external_body]
pub struct ExIoError(std::io::Error);

#[verifier::external_type_specification]
#[verifier::external_body]
pub struct ExTlsError(rustls::Error);

#[verifier::external_type_specification]
#[verifier::external_body]
pub struct ExJsonError(serde_json::Error);

/// Why a connection, or the cache behind it, could not do what was asked.
///
/// Every failure is a value. The end of the stream is none of them: it is the
/// ordinary way for a session to finish.
#[derive(Debug)]
pub enum NVDARemoteError {
    /// The transport or the cache file failed; raised by the caller that does
    /// the reading and writing.
    IoError(std::io::Error),
    /// The encrypted handshake failed, or a pinned certificate is not one that
    /// a trust anchor can be taken from.
    TlsError(rustls::Error),
    /// JSON could not be read or written; raised by the caller that handles
    /// JSON of its own.
    JsonError(serde_json::Error),
    /// The host is not pinned yet. Carries the certificate that it presented,
    /// so that the caller can decide to pin it.
    TrustRejected(Vec<u8>),
    /// The host is pinned to another certificate than the one it presented.
    /// Carries the host.
    TrustMismatch(String),
    /// The handshake ended without any certificate from the server.
    NoCertificate,
    /// The fingerprint stored for a host is not hexadecimal text, or the text
    /// written for a host does not read back as its pin. Carries the host.
    CacheDecodeError(String),
}

impl From<std::io::Error> for NVDARemoteError {
    fn from(error: std::io::Error) -> (wrapped: NVDARemoteError) {
        NVDARemoteError::IoError(error)
    }
}

impl vstd::std_specs::convert::FromSpecImpl<std::io::Error> for NVDARemoteError {
    open spec fn obeys_from_spec() -> bool {
        true
    }

    open spec fn from_spec(error: std::io::Error) -> NVDARemoteError {
        NVDARemoteError::IoError(error)
    }
}

impl From<rustls::Error> for NVDARemoteError {
    fn from(error: rustls::Error) -> (wrapped: NVDARemoteError) {
        NVDARemoteError::TlsError(error)
    }
}

impl vstd::std_specs::convert::FromSpecImpl<rustls::Error> for NVDARemoteError {
    open spec fn obeys_from_spec() -> bool {
        true
    }

    open spec fn from_spec(error: rustls::Error) -> NVDARemoteError {
        NVDARemoteError::TlsError(error)
    }
}

impl From<serde_json::Error> for NVDARemoteError {
    fn from(error: serde_json::Error) -> (wrapped: NVDARemoteError) {
        NVDARemoteError::JsonError(error)
    }
}

impl vstd::std_specs::convert::FromSpecImpl<serde_json::Error> for NVDARemoteError {
    open spec fn obeys_from_spec() -> bool {
        true
    }

    open spec fn from_spec(error: serde_json::Error) -> NVDARemoteError {
        NVDARemoteError::JsonError(error)
    }
}

} // verus!
