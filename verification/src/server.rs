//! The server's configuration and what it takes to start.

use crate::error::StartError;
use crate::tls::{decode_identity, into_async, make_acceptor};
use vstd::prelude::*;

verus! {

/// Whether a text holds the NUL character. The TLS backend takes the
/// passphrase as a C string, which cannot hold one.
pub open spec fn holds_nul(text: Seq<char>) -> bool {
    text.contains('\0')
}

/// The UTF-8 encoding of a character holds a zero byte only if the character
/// is NUL.
proof fn lemma_zero_byte_of_char(c: char)
    ensures
        vstd::utf8::encode_scalar(c as u32).contains(0u8) <==> c == '\0',
{
    let scalar = c as u32;
    let bytes = vstd::utf8::encode_scalar(scalar);
    vstd::utf8::char_is_scalar(c);
    vstd::utf8::char_u32_cast(c, scalar);
    assert(forall|x: u32| x <= 0x7F ==> (((x & 0x7F) as u8 == 0u8) <==> x == 0)) by (bit_vector);
    assert(forall|x: u32| 0xC0u8 | (((x >> 6) & 0x1F) as u8) != 0u8) by (bit_vector);
    assert(forall|x: u32| 0xE0u8 | (((x >> 12) & 0x0F) as u8) != 0u8) by (bit_vector);
    assert(forall|x: u32| 0xF0u8 | (((x >> 18) & 0x7) as u8) != 0u8) by (bit_vector);
    assert(forall|x: u32| 0x80u8 | ((x & 0x3F) as u8) != 0u8) by (bit_vector);
    assert(forall|x: u32| 0x80u8 | (((x >> 6) & 0x3F) as u8) != 0u8) by (bit_vector);
    assert(forall|x: u32| 0x80u8 | (((x >> 12) & 0x3F) as u8) != 0u8) by (bit_vector);
    if c == '\0' {
        assert(bytes[0] == 0u8);
    } else {
        assert(scalar != 0);
        assert forall|i: int| 0 <= i < bytes.len() implies bytes[i] != 0u8 by {}
    }
}

/// The UTF-8 encoding of a text holds a zero byte exactly when the text
/// holds the NUL character.
pub proof fn lemma_zero_byte_is_nul(text: Seq<char>)
    ensures
        vstd::utf8::encode_utf8(text).contains(0u8) <==> holds_nul(text),
    decreases text.len(),
{
    if text.len() > 0 {
        let head = vstd::utf8::encode_scalar(text[0] as u32);
        let tail = vstd::utf8::encode_utf8(text.drop_first());
        lemma_zero_byte_of_char(text[0]);
        lemma_zero_byte_is_nul(text.drop_first());
        if head.contains(0u8) {
            let i = choose|i: int| 0 <= i < head.len() && head[i] == 0u8;
            assert((head + tail)[i] == 0u8);
            assert(text[0] == '\0');
        } else if tail.contains(0u8) {
            let i = choose|i: int| 0 <= i < tail.len() && tail[i] == 0u8;
            assert((head + tail)[head.len() + i] == 0u8);
            let j = choose|j: int|
                0 <= j < text.drop_first().len() && text.drop_first()[j] == '\0';
            assert(text[j + 1] == '\0');
        } else {
            assert forall|i: int| 0 <= i < (head + tail).len() implies (head + tail)[i]
                != 0u8 by {
                if i >= head.len() {
                    assert((head + tail)[i] == tail[i - head.len()]);
                }
            }
            assert forall|j: int| 0 <= j < text.len() implies text[j] != '\0' by {
                if j > 0 {
                    assert(text[j] == text.drop_first()[j - 1]);
                }
            }
        }
    }
}

/// Tests a text for the NUL character.
pub fn has_nul(text: &str) -> (found: bool)
    ensures
        found == holds_nul(text@),
{
    let bytes = text.as_bytes();
    proof {
        lemma_zero_byte_is_nul(text@);
    }
    let mut i: usize = 0;
    while i < bytes.len()
        invariant
            i <= bytes.len(),
            bytes@ == vstd::utf8::encode_utf8(text@),
            bytes@.contains(0u8) <==> holds_nul(text@),
            forall|j: int| 0 <= j < i ==> bytes@[j] != 0u8,
        decreases bytes.len() - i,
    {
        if bytes[i] == 0u8 {
            assert(bytes@[i as int] == 0u8);
            return true;
        }
        i += 1;
    }
    false
}

/// What the decoding of the credential means for startup: the identity where
/// the backend produced one, and otherwise an undecodable credential with the
/// backend's error as its cause.
pub fn credential_outcome(decoded: Result<native_tls::Identity, native_tls::Error>) -> (outcome:
    Result<native_tls::Identity, StartError>)
    ensures
        match decoded {
            Ok(identity) => outcome == Ok::<native_tls::Identity, StartError>(identity),
            Err(cause) => outcome == Err::<native_tls::Identity, StartError>(
                StartError::UndecodableCredential(Some(cause)),
            ),
        },
{
    match decoded {
        Ok(identity) => Ok(identity),
        Err(cause) => Err(StartError::UndecodableCredential(Some(cause))),
    }
}

/// What the building of the acceptor means for startup: the acceptor where
/// the backend produced one, and otherwise an unbuildable acceptor with the
/// backend's error.
pub fn acceptor_outcome(built: Result<native_tls::TlsAcceptor, native_tls::Error>) -> (outcome:
    Result<native_tls::TlsAcceptor, StartError>)
    ensures
        match built {
            Ok(acceptor) => outcome == Ok::<native_tls::TlsAcceptor, StartError>(acceptor),
            Err(cause) => outcome == Err::<native_tls::TlsAcceptor, StartError>(
                StartError::UnbuildableAcceptor(cause),
            ),
        },
{
    match built {
        Ok(acceptor) => Ok(acceptor),
        Err(cause) => Err(StartError::UnbuildableAcceptor(cause)),
    }
}

/// All that is needed to listen: where to bind, the application to share
/// among the connections, and the acceptor for their handshakes.
#[derive(Debug)]
pub struct Startup<A> {
    pub host: String,
    pub port: u16,
    pub app: A,
    pub acceptor: tokio_native_tls::TlsAcceptor,
}

/// A server that has not started yet: the application it serves and the TLS
/// credential it will present.
pub struct SSLServer<A> {
    app: A,
    cert: Option<Vec<u8>>,
    cert_pass: &'static str,
}

impl<A> SSLServer<A> {
    /// The application handle the server was made with.
    pub closed spec fn application(&self) -> A {
        self.app
    }

    /// The certificate bundle, if one has been set.
    pub closed spec fn credential(&self) -> Option<Seq<u8>> {
        match self.cert {
            Some(bytes) => Some(bytes@),
            None => None,
        }
    }

    /// The passphrase for the certificate bundle.
    pub closed spec fn passphrase(&self) -> Seq<char> {
        self.cert_pass@
    }

    /// A server for a committed application, with no credential yet and an
    /// empty passphrase.
    pub fn new(app: A) -> (server: Self)
        ensures
            server.application() == app,
            server.credential() is None,
            server.passphrase() == Seq::<char>::empty(),
    {
        proof {
            reveal_strlit("");
        }
        SSLServer { app, cert: None, cert_pass: "" }
    }

    /// Sets the certificate bundle.
    pub fn cert(&mut self, cert: Vec<u8>)
        ensures
            final(self).credential() == Some(cert@),
            final(self).passphrase() == old(self).passphrase(),
            final(self).application() == old(self).application(),
    {
        self.cert = Some(cert);
    }

    /// Sets the passphrase of the certificate bundle.
    pub fn cert_pass(&mut self, cert_pass: &'static str)
        ensures
            final(self).passphrase() == cert_pass@,
            final(self).credential() == old(self).credential(),
            final(self).application() == old(self).application(),
    {
        self.cert_pass = cert_pass;
    }

    /// Whether a certificate bundle has been set.
    pub fn has_cert(&self) -> (present: bool)
        ensures
            present == self.credential() is Some,
    {
        self.cert.is_some()
    }

    /// Prepares the server to listen on `host` and `port`: decodes the
    /// credential with the passphrase and builds the TLS acceptor from it.
    /// Nothing is bound here, so a credential that the backend refuses ends
    /// startup before any socket exists. A server without a credential must
    /// not be built.
    ///
    /// Whether the backend takes the credential is not known here. Whatever
    /// it says, success keeps the address and the application as given, a
    /// passphrase with a NUL character is refused without asking the
    /// backend, and every other failure carries the backend's error.
    pub fn build(self, host: &str, port: u16) -> (started: Result<Startup<A>, StartError>)
        requires
            self.credential() is Some,
        ensures
            holds_nul(self.passphrase()) ==> started matches Err(
                StartError::UndecodableCredential(None),
            ),
            started matches Ok(startup) ==> {
                &&& startup.host@ == host@
                &&& startup.port == port
                &&& startup.app == self.application()
            },
            started matches Err(StartError::UndecodableCredential(cause)) ==> (cause is None
                <==> holds_nul(self.passphrase())),
    {
        let SSLServer { app, cert, cert_pass } = self;
        let bundle = cert.unwrap();
        proof {
            lemma_zero_byte_is_nul(cert_pass@);
        }
        if has_nul(cert_pass) {
            return Err(StartError::UndecodableCredential(None));
        }
        let identity = match credential_outcome(decode_identity(bundle.as_slice(), cert_pass)) {
            Ok(identity) => identity,
            Err(error) => {
                return Err(error);
            },
        };
        let acceptor = match acceptor_outcome(make_acceptor(identity)) {
            Ok(acceptor) => acceptor,
            Err(error) => {
                return Err(error);
            },
        };
        Ok(Startup { host: host.to_owned(), port, app, acceptor: into_async(acceptor) })
    }
}

} // verus!
