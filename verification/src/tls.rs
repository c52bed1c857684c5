//! The calls into the TLS backend. Nothing here is proved: each contract is
//! taken from the backend's source.

use vstd::prelude::*;
use vstd::string::StringSliceAdditionalSpecFns;

verus! {

#[verifier::external_type_specification]
#[verifier::external_body]
pub struct ExIdentity(native_tls::Identity);

#[verifier::external_type_specification]
#[verifier::external_body]
pub struct ExTlsError(native_tls::Error);

#[verifier::external_type_specification]
#[verifier::external_body]
pub struct ExTlsAcceptor(native_tls::TlsAcceptor);

#[verifier::external_type_specification]
#[verifier::external_body]
pub struct ExAsyncTlsAcceptor(tokio_native_tls::TlsAcceptor);

/// `native_tls::Identity::from_pkcs12`: parses a DER-encoded PKCS #12 archive
/// and decrypts its key with the passphrase. Whether it succeeds is for the
/// backend on this machine to say, so nothing is claimed of the result. The
/// backend turns the passphrase into a C string and panics on a NUL byte,
/// which the precondition rules out.
#[verifier::external_body]
pub(crate) fn decode_identity(bundle: &[u8], passphrase: &str) -> (decoded: Result<
    native_tls::Identity,
    native_tls::Error,
>)
    requires
        !passphrase.spec_bytes().contains(0u8),
{
    native_tls::Identity::from_pkcs12(bundle, passphrase)
}

/// `native_tls::TlsAcceptor::new`: builds an acceptor with the backend's
/// default settings around the identity. Nothing is claimed of the result.
#[verifier::external_body]
pub(crate) fn make_acceptor(identity: native_tls::Identity) -> (built: Result<
    native_tls::TlsAcceptor,
    native_tls::Error,
>) {
    native_tls::TlsAcceptor::new(identity)
}

/// `tokio_native_tls::TlsAcceptor::from`: wraps a blocking acceptor in the
/// one whose handshake can be awaited. Nothing is claimed of the result.
#[verifier::external_body]
pub(crate) fn into_async(acceptor: native_tls::TlsAcceptor) -> (wrapped:
    tokio_native_tls::TlsAcceptor) {
    tokio_native_tls::TlsAcceptor::from(acceptor)
}

} // verus!
