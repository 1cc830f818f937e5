//! The reverse proxy's side of the mutual-TLS handshake: configuration and
//! the policy that judges a client certificate.  The TLS stack itself runs
//! outside; it hands this module the three facts the policy turns on.

use vstd::prelude::*;

verus! {

/// PEM material for one side of the mutually-authenticated hop.
pub struct TlsConfig {
    pub enable_tls: bool,
    pub ca_cert: String,
    pub cert: String,
    pub key: String,
}

#[derive(Clone, Copy, PartialEq, Eq, Structural, Debug)]
pub enum ClientVerifyError {
    /// The callback ran with a verify mode other than peer verification.
    InternalError,
    /// The client presented no certificate.
    NoCertificate,
    /// The client certificate does not verify against the pinned authority.
    BadCertificate,
}

/// Judge a client certificate: the verify mode must be peer verification, a
/// certificate must be present, and its signature must check out against the
/// authority's public key.
pub fn verify_client_decision(mode_is_peer: bool, peer_cert_present: bool, signature_valid: bool)
    -> (r: Result<(), ClientVerifyError>)
    ensures
        !mode_is_peer ==> r == Err::<(), ClientVerifyError>(ClientVerifyError::InternalError),
        mode_is_peer && !peer_cert_present ==> r == Err::<(), ClientVerifyError>(
            ClientVerifyError::NoCertificate,
        ),
        mode_is_peer && peer_cert_present && !signature_valid ==> r == Err::<(
        ), ClientVerifyError>(ClientVerifyError::BadCertificate),
        mode_is_peer && peer_cert_present && signature_valid ==> r is Ok,
{
    if !mode_is_peer {
        Err(ClientVerifyError::InternalError)
    } else if !peer_cert_present {
        Err(ClientVerifyError::NoCertificate)
    } else if !signature_valid {
        Err(ClientVerifyError::BadCertificate)
    } else {
        Ok(())
    }
}

} // verus!
