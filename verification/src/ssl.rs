//! The TLS side of a server: which certificate chain and which private key a
//! pair of PEM files gives, and the configuration and sessions made of them.

use std::sync::Arc;
use vstd::prelude::*;
use vstd::string::StringExecFns;

verus! {

/// `rustls::ServerConfig`: the configuration of a TLS server.
#[verifier::external_type_specification]
#[verifier::external_body]
pub struct ExServerConfig(rustls::ServerConfig);

/// `rustls::ServerConnection`: the server side of one TLS session.
#[verifier::external_type_specification]
#[verifier::external_body]
pub struct ExServerConnection(rustls::ServerConnection);

/// A private key file in a buffer that is wiped when it is dropped
/// (`zeroize::Zeroizing`).
#[verifier::external_body]
pub struct SecretPem {
    bytes: zeroize::Zeroizing<Vec<u8>>,
}

/// The bytes that a guarded buffer holds.
pub uninterp spec fn secret_bytes(secret: SecretPem) -> Seq<u8>;

/// The DER contents of the certificates of a PEM file, in order; `None`
/// where the file cannot be read as PEM.
pub uninterp spec fn pem_certificates(pem: Seq<u8>) -> Option<Seq<Seq<u8>>>;

/// The DER contents of the PKCS#8 private keys of a PEM file, in order;
/// `None` where the file cannot be read as PEM.
pub uninterp spec fn pem_pkcs8_keys(pem: Seq<u8>) -> Option<Seq<Seq<u8>>>;

/// The DER contents of the PKCS#1 RSA private keys of a PEM file, in order;
/// `None` where the file cannot be read as PEM.
pub uninterp spec fn pem_rsa_keys(pem: Seq<u8>) -> Option<Seq<Seq<u8>>>;

/// Whether a session can be started under a configuration
/// (`ServerConnection::new`).
pub uninterp spec fn session_starts(config: rustls::ServerConfig) -> bool;

/// The certificate chain and the private key that a configuration was built
/// from.
pub uninterp spec fn built_from(config: rustls::ServerConfig) -> IdentityView;

/// The contents of each vector of `v`.
pub open spec fn contents(v: Seq<Vec<u8>>) -> Seq<Seq<u8>> {
    v.map_values(|x: Vec<u8>| x@)
}

/// Whether a parsed list is what a PEM file holds: the items where it could
/// be read, the error where it could not.
pub open spec fn is_parse_of(parsed: Result<Vec<Vec<u8>>, String>, expected: Option<Seq<Seq<u8>>>) -> bool {
    match parsed {
        Ok(items) => expected == Some(contents(items@)),
        Err(_) => expected.is_none(),
    }
}

/// `rustls_pemfile::certs`, with every item collected: the certificates of
/// the file as DER bytes, or the message of the first error.
#[verifier::external_body]
pub(crate) fn read_certificates(pem: &[u8]) -> (r: Result<Vec<Vec<u8>>, String>)
    ensures
        is_parse_of(r, pem_certificates(pem@)),
{
    rustls_pemfile::certs(&mut std::io::Cursor::new(pem))
        .map(|item| item.map(|der| der.as_ref().to_vec()).map_err(|error| error.to_string()))
        .collect()
}

/// `rustls_pemfile::pkcs8_private_keys`, with every item collected: the
/// PKCS#8 keys of the file as DER bytes, or the message of the first error.
#[verifier::external_body]
pub(crate) fn read_pkcs8_keys(pem: &[u8]) -> (r: Result<Vec<Vec<u8>>, String>)
    ensures
        is_parse_of(r, pem_pkcs8_keys(pem@)),
{
    rustls_pemfile::pkcs8_private_keys(&mut std::io::Cursor::new(pem))
        .map(|item| item.map(|der| der.secret_pkcs8_der().to_vec()).map_err(|error| error.to_string()))
        .collect()
}

/// `rustls_pemfile::rsa_private_keys`, with every item collected: the
/// PKCS#1 keys of the file as DER bytes, or the message of the first error.
#[verifier::external_body]
pub(crate) fn read_rsa_keys(pem: &[u8]) -> (r: Result<Vec<Vec<u8>>, String>)
    ensures
        is_parse_of(r, pem_rsa_keys(pem@)),
{
    rustls_pemfile::rsa_private_keys(&mut std::io::Cursor::new(pem))
        .map(|item| item.map(|der| der.secret_pkcs1_der().to_vec()).map_err(|error| error.to_string()))
        .collect()
}

/// `Zeroizing::new`: the buffer holds the bytes that it was given.
#[verifier::external_body]
pub(crate) fn guard(bytes: Vec<u8>) -> (r: SecretPem)
    ensures
        secret_bytes(r) == bytes@,
{
    SecretPem { bytes: zeroize::Zeroizing::new(bytes) }
}

/// `Zeroizing::deref`: the bytes that the buffer holds.
#[verifier::external_body]
pub(crate) fn guarded(secret: &SecretPem) -> (r: &[u8])
    ensures
        r@ == secret_bytes(*secret),
{
    secret.bytes.as_slice()
}

/// `Zeroize::zeroize` for a vector: the bytes are overwritten with zeros and
/// the vector is left empty.
#[verifier::external_body]
pub(crate) fn wipe(bytes: &mut Vec<u8>)
    ensures
        final(bytes)@ == Seq::<u8>::empty(),
{
    zeroize::Zeroize::zeroize(bytes);
}

/// `CryptoProvider::get_default`, `ring::default_provider`,
/// `ServerConfig::builder_with_provider` and the builder's
/// `with_safe_default_protocol_versions`, `with_no_client_auth` and
/// `with_single_cert`: a server configuration without client authentication
/// for one certificate chain and its key, under the provider that the
/// process has installed or else under `ring`. Whether one comes out lies
/// with what the provider makes of the key; the message says what failed.
/// The configuration that comes out is built from this chain and this key,
/// and it sets no limit on the size of fragments, so that a session can
/// always be started under it.
#[verifier::external_body]
pub(crate) fn build_config(chain: &Vec<Vec<u8>>, kind: KeyKind, key: &Vec<u8>) -> (r: Result<
    rustls::ServerConfig,
    String,
>)
    ensures
        r matches Ok(config) ==> session_starts(config),
        r matches Ok(config) ==> built_from(config) == (IdentityView {
            chain: contents(chain@),
            key_kind: kind,
            key: key@,
        }),
{
    let provider = match rustls::crypto::CryptoProvider::get_default() {
        Some(provider) => provider.clone(),
        None => Arc::new(rustls::crypto::ring::default_provider()),
    };
    let chain = chain.iter().map(|der| rustls_pki_types::CertificateDer::from(der.clone())).collect();
    let key: rustls_pki_types::PrivateKeyDer<'static> = match kind {
        KeyKind::Pkcs8 => rustls_pki_types::PrivatePkcs8KeyDer::from(key.clone()).into(),
        KeyKind::Pkcs1 => rustls_pki_types::PrivatePkcs1KeyDer::from(key.clone()).into(),
    };
    rustls::ServerConfig::builder_with_provider(provider)
        .with_safe_default_protocol_versions()
        .and_then(|builder| builder.with_no_client_auth().with_single_cert(chain, key))
        .map_err(|error| error.to_string())
}

/// `ServerConnection::new`: a new server-side session under a configuration,
/// or the message of the error that `rustls` gives. The configuration alone
/// decides which: the call fails only on a limit for the size of fragments
/// that is out of range.
#[verifier::external_body]
pub(crate) fn new_session(config: &Arc<rustls::ServerConfig>) -> (r: Result<
    rustls::ServerConnection,
    String,
>)
    ensures
        r.is_ok() == session_starts(**config),
{
    rustls::ServerConnection::new(config.clone()).map_err(|error| error.to_string())
}

/// The encoding of a private key.
#[derive(Debug, Clone, Copy, PartialEq, Eq, Structural)]
pub enum KeyKind {
    /// PKCS#8.
    Pkcs8,
    /// PKCS#1, the older encoding of RSA keys.
    Pkcs1,
}

/// Why a TLS context or session could not be made.
#[derive(Debug, Clone, PartialEq, Eq)]
pub enum TlsError {
    /// A file could not be read as PEM; the message says why.
    Pem(String),
    /// The certificate file holds no certificate.
    NoCertificate,
    /// The key file holds neither a PKCS#8 nor a PKCS#1 private key.
    NoPrivateKey,
    /// The TLS library refused the certificate chain or the key.
    Config(String),
    /// The TLS library could not start a session.
    Session(String),
}

/// What an error says, as text: the message of the library that failed, or
/// what is missing from the files.
pub open spec fn error_text(error: TlsError) -> Seq<char> {
    match error {
        TlsError::Pem(message) => message@,
        TlsError::NoCertificate => "Couldn't extract certificate chain from config."@,
        TlsError::NoPrivateKey => "Couldn't extract private key from config."@,
        TlsError::Config(message) => message@,
        TlsError::Session(message) => message@,
    }
}

impl TlsError {
    /// What the error says, as text.
    pub fn to_string(&self) -> (r: String)
        ensures
            r@ == error_text(*self),
    {
        match self {
            TlsError::Pem(message) => message.clone(),
            TlsError::NoCertificate => String::from_str(
                "Couldn't extract certificate chain from config.",
            ),
            TlsError::NoPrivateKey => String::from_str("Couldn't extract private key from config."),
            TlsError::Config(message) => message.clone(),
            TlsError::Session(message) => message.clone(),
        }
    }
}

/// The certificate chain and the private key that a server shows.
pub struct TlsIdentity {
    /// The certificates in DER, the server's own first.
    pub chain: Vec<Vec<u8>>,
    /// The encoding of the key.
    pub key_kind: KeyKind,
    /// The key in DER.
    pub key: Vec<u8>,
}

/// What an identity is, as the contracts see it.
pub struct IdentityView {
    pub chain: Seq<Seq<u8>>,
    pub key_kind: KeyKind,
    pub key: Seq<u8>,
}

impl View for TlsIdentity {
    type V = IdentityView;

    open spec fn view(&self) -> IdentityView {
        IdentityView { chain: contents(self.chain@), key_kind: self.key_kind, key: self.key@ }
    }
}

impl TlsIdentity {
    /// Overwrites the key with zeros and leaves it empty. The chain stays.
    pub fn wipe_key(&mut self)
        ensures
            final(self)@ == (IdentityView { key: Seq::empty(), ..old(self)@ }),
    {
        wipe(&mut self.key);
    }
}

/// What goes wrong with a pair of PEM files.
#[derive(PartialEq, Eq, Structural)]
pub enum Refusal {
    Pem,
    NoCertificate,
    NoPrivateKey,
}

/// The identity that the parsed files give.
///
/// The certificate file must be readable and hold at least one certificate.
/// The key file must be readable for PKCS#8 keys; its first PKCS#8 key is
/// the key. Where it has none, the file must be readable for PKCS#1 keys,
/// and the first of them is the key.
pub open spec fn identity_of(
    certificates: Option<Seq<Seq<u8>>>,
    pkcs8_keys: Option<Seq<Seq<u8>>>,
    rsa_keys: Option<Seq<Seq<u8>>>,
) -> Result<IdentityView, Refusal> {
    if certificates.is_none() {
        Err(Refusal::Pem)
    } else if certificates.unwrap().len() == 0 {
        Err(Refusal::NoCertificate)
    } else if pkcs8_keys.is_none() {
        Err(Refusal::Pem)
    } else if pkcs8_keys.unwrap().len() > 0 {
        Ok(
            IdentityView {
                chain: certificates.unwrap(),
                key_kind: KeyKind::Pkcs8,
                key: pkcs8_keys.unwrap()[0],
            },
        )
    } else if rsa_keys.is_none() {
        Err(Refusal::Pem)
    } else if rsa_keys.unwrap().len() > 0 {
        Ok(
            IdentityView {
                chain: certificates.unwrap(),
                key_kind: KeyKind::Pkcs1,
                key: rsa_keys.unwrap()[0],
            },
        )
    } else {
        Err(Refusal::NoPrivateKey)
    }
}

/// The refusal that an error stands for, if it stands for one.
pub open spec fn refusal_of(error: TlsError) -> Option<Refusal> {
    match error {
        TlsError::Pem(_) => Some(Refusal::Pem),
        TlsError::NoCertificate => Some(Refusal::NoCertificate),
        TlsError::NoPrivateKey => Some(Refusal::NoPrivateKey),
        _ => None,
    }
}

/// Whether `result` is what the files give: their identity, or the error of
/// their refusal.
pub open spec fn is_identity_of(
    result: Result<TlsIdentity, TlsError>,
    expected: Result<IdentityView, Refusal>,
) -> bool {
    match result {
        Ok(identity) => expected == Ok::<IdentityView, Refusal>(identity@),
        Err(error) => expected.is_err() && refusal_of(error) == Some(expected->Err_0),
    }
}

/// Picks the first item of a list as the key.
fn first_key(chain: Vec<Vec<u8>>, kind: KeyKind, keys: Vec<Vec<u8>>) -> (r: TlsIdentity)
    requires
        keys@.len() > 0,
    ensures
        r@ == (IdentityView { chain: contents(chain@), key_kind: kind, key: keys@[0]@ }),
{
    let mut keys = keys;
    keys.truncate(1);
    let key = keys.pop();
    match key {
        Some(key) => TlsIdentity { chain, key_kind: kind, key },
        None => vstd::pervasive::unreached(),
    }
}

/// Reads the certificate chain and the private key of a server from the
/// contents of its two PEM files.
pub fn read_identity(certificates: &[u8], private_key: &SecretPem) -> (r: Result<TlsIdentity, TlsError>)
    ensures
        is_identity_of(
            r,
            identity_of(
                pem_certificates(certificates@),
                pem_pkcs8_keys(secret_bytes(*private_key)),
                pem_rsa_keys(secret_bytes(*private_key)),
            ),
        ),
{
    let chain = match read_certificates(certificates) {
        Ok(chain) => chain,
        Err(message) => {
            return Err(TlsError::Pem(message));
        },
    };
    if chain.len() == 0 {
        return Err(TlsError::NoCertificate);
    }
    let pkcs8 = match read_pkcs8_keys(guarded(private_key)) {
        Ok(keys) => keys,
        Err(message) => {
            return Err(TlsError::Pem(message));
        },
    };
    if pkcs8.len() > 0 {
        return Ok(first_key(chain, KeyKind::Pkcs8, pkcs8));
    }
    let rsa = match read_rsa_keys(guarded(private_key)) {
        Ok(keys) => keys,
        Err(message) => {
            return Err(TlsError::Pem(message));
        },
    };
    if rsa.len() > 0 {
        Ok(first_key(chain, KeyKind::Pkcs1, rsa))
    } else {
        Err(TlsError::NoPrivateKey)
    }
}

/// A TLS configuration for the sessions of one server.
pub struct RustlsContext {
    config: Arc<rustls::ServerConfig>,
}

impl RustlsContext {
    /// The configuration that the context holds.
    pub closed spec fn configuration(&self) -> rustls::ServerConfig {
        *self.config
    }

    /// The identity that the context was made for: what its configuration
    /// was built from.
    pub open spec fn identity(&self) -> IdentityView {
        built_from(self.configuration())
    }

    /// A buffer for the contents of a private key file, wiped when dropped.
    pub fn secret(bytes: Vec<u8>) -> (r: SecretPem)
        ensures
            secret_bytes(r) == bytes@,
    {
        guard(bytes)
    }

    /// The context for an identity, given what the TLS library made of it:
    /// the context holds the configuration, or the error is the message of
    /// the refusal. The key of the identity is wiped either way.
    pub fn configured(identity: TlsIdentity, outcome: Result<rustls::ServerConfig, String>) -> (r:
        Result<RustlsContext, TlsError>)
        ensures
            match outcome {
                Ok(config) => r.is_ok() && r.unwrap().configuration() == config,
                Err(message) => r == Err::<RustlsContext, TlsError>(TlsError::Config(message)),
            },
    {
        let mut identity = identity;
        identity.wipe_key();
        match outcome {
            Ok(config) => Ok(RustlsContext { config: Arc::new(config) }),
            Err(message) => Err(TlsError::Config(message)),
        }
    }

    /// Makes the context of a server from the contents of its certificate
    /// file and of its private key file.
    ///
    /// The files decide the identity as `identity_of` says, and a refusal
    /// there is the error. With an identity, the TLS library decides whether
    /// a configuration comes of it; if not, the error is `Config`. A context
    /// that comes out is built from that identity, and sessions can be
    /// started under it.
    pub fn from_pem(certificates: Vec<u8>, private_key: SecretPem) -> (r: Result<RustlsContext, TlsError>)
        ensures
            match identity_of(
                pem_certificates(certificates@),
                pem_pkcs8_keys(secret_bytes(private_key)),
                pem_rsa_keys(secret_bytes(private_key)),
            ) {
                Ok(identity) => match r {
                    Ok(context) => context.identity() == identity && session_starts(
                        context.configuration(),
                    ),
                    Err(error) => error is Config,
                },
                Err(refusal) => r.is_err() && refusal_of(r->Err_0) == Some(refusal),
            },
    {
        let identity = match read_identity(certificates.as_slice(), &private_key) {
            Ok(identity) => identity,
            Err(error) => {
                return Err(error);
            },
        };
        let outcome = build_config(&identity.chain, identity.key_kind, &identity.key);
        RustlsContext::configured(identity, outcome)
    }

    /// What becomes of the attempt to start a session: the session, or the
    /// error `Session` with the message of the TLS library.
    pub fn accepted(outcome: Result<rustls::ServerConnection, String>) -> (r: Result<
        rustls::ServerConnection,
        TlsError,
    >)
        ensures
            match outcome {
                Ok(session) => r == Ok::<rustls::ServerConnection, TlsError>(session),
                Err(message) => r == Err::<rustls::ServerConnection, TlsError>(
                    TlsError::Session(message),
                ),
            },
    {
        match outcome {
            Ok(session) => Ok(session),
            Err(message) => Err(TlsError::Session(message)),
        }
    }

    /// Starts the TLS session of one accepted connection. The caller joins
    /// it with the connection's socket. A session comes about wherever one
    /// can be started under the configuration, which is so for every context
    /// that `from_pem` made; else the error is `Session`, with the message of
    /// the TLS library.
    pub fn accept(&self) -> (r: Result<rustls::ServerConnection, TlsError>)
        ensures
            r.is_ok() == session_starts(self.configuration()),
            r matches Err(error) ==> error is Session,
    {
        RustlsContext::accepted(new_session(&self.config))
    }
}

} // verus!
