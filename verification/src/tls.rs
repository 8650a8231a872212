//! Optional TLS termination: where the certificate and the key come from, and
//! the configuration of the server that they make.


use std::sync::Arc;

use rustls::pki_types::pem::PemObject;
use rustls::pki_types::{CertificateDer, PrivateKeyDer};
use rustls::ServerConfig;
use vstd::prelude::*;

use crate::text::trimmed;
use crate::typed::{
    all_white_space, blank_is_white_space, is_trim_of, trim_takes_white_space_alone,
};

verus! {

/// The environment variable that holds the path of the certificate chain.
pub const ENV_TLS_CERT: &'static str = "CODEG_TLS_CERT";

/// The environment variable that holds the path of the private key.
pub const ENV_TLS_KEY: &'static str = "CODEG_TLS_KEY";

/// Where the certificate chain and the private key are.
#[derive(Debug, Clone, PartialEq, Eq)]
pub struct TlsPaths {
    pub cert: String,
    pub key: String,
}

/// What a [`TlsPaths`] holds.
#[verifier::ext_equal]
pub struct TlsPathsView {
    pub cert: Seq<char>,
    pub key: Seq<char>,
}

impl View for TlsPaths {
    type V = TlsPathsView;

    open spec fn view(&self) -> TlsPathsView {
        TlsPathsView { cert: self.cert@, key: self.key@ }
    }
}

/// Why there is no TLS configuration. The texts are those of the reasons.
#[derive(Debug, Clone, PartialEq, Eq)]
pub enum TlsConfigError {
    /// One of the two variables is set and the other is not.
    Incomplete { set: &'static str, missing: &'static str },
    /// The certificate chain cannot be read.
    Certificate { path: String, source: String },
    /// The file of the certificate chain holds no certificate.
    EmptyCertificateChain { path: String },
    /// The private key cannot be read.
    PrivateKey { path: String, source: String },
    /// The certificate and the private key cannot serve together.
    Rejected(String),
}

/// What a [`TlsConfigError`] says.
#[verifier::ext_equal]
pub enum TlsErrorView {
    Incomplete { set: Seq<char>, missing: Seq<char> },
    Certificate { path: Seq<char>, source: Seq<char> },
    EmptyCertificateChain { path: Seq<char> },
    PrivateKey { path: Seq<char>, source: Seq<char> },
    Rejected(Seq<char>),
}

impl View for TlsConfigError {
    type V = TlsErrorView;

    open spec fn view(&self) -> TlsErrorView {
        match *self {
            TlsConfigError::Incomplete { set, missing } => TlsErrorView::Incomplete {
                set: set@,
                missing: missing@,
            },
            TlsConfigError::Certificate { path, source } => TlsErrorView::Certificate {
                path: path@,
                source: source@,
            },
            TlsConfigError::EmptyCertificateChain { path } => TlsErrorView::EmptyCertificateChain {
                path: path@,
            },
            TlsConfigError::PrivateKey { path, source } => TlsErrorView::PrivateKey {
                path: path@,
                source: source@,
            },
            TlsConfigError::Rejected(source) => TlsErrorView::Rejected(source@),
        }
    }
}

/// The error in words.
pub open spec fn error_message(error: TlsErrorView) -> Seq<char> {
    match error {
        TlsErrorView::Incomplete { set, missing } => set + " is set but "@ + missing
            + " is not; set both to serve HTTPS, or neither to serve plain HTTP"@,
        TlsErrorView::Certificate { path, source } => "failed to load the certificate chain from "@
            + path + " (CODEG_TLS_CERT): "@ + source,
        TlsErrorView::EmptyCertificateChain { path } => path
            + " (CODEG_TLS_CERT) contains no certificates"@,
        TlsErrorView::PrivateKey { path, source } => "failed to load the private key from "@ + path
            + " (CODEG_TLS_KEY): "@ + source,
        TlsErrorView::Rejected(source) => "certificate and private key were rejected: "@ + source,
    }
}

impl TlsConfigError {
    /// The error in words.
    pub fn message(&self) -> (text: String)
        ensures
            text@ == error_message(self@),
    {
        match self {
            TlsConfigError::Incomplete { set, missing } => {
                let mut text: String = (*set).to_owned();
                text.append(" is set but ");
                text.append(missing);
                text.append(" is not; set both to serve HTTPS, or neither to serve plain HTTP");
                text
            },
            TlsConfigError::Certificate { path, source } => {
                let mut text: String = "failed to load the certificate chain from ".to_owned();
                text.append(path.as_str());
                text.append(" (CODEG_TLS_CERT): ");
                text.append(source.as_str());
                text
            },
            TlsConfigError::EmptyCertificateChain { path } => {
                let mut text: String = path.as_str().to_owned();
                text.append(" (CODEG_TLS_CERT) contains no certificates");
                text
            },
            TlsConfigError::PrivateKey { path, source } => {
                let mut text: String = "failed to load the private key from ".to_owned();
                text.append(path.as_str());
                text.append(" (CODEG_TLS_KEY): ");
                text.append(source.as_str());
                text
            },
            TlsConfigError::Rejected(source) => {
                let mut text: String = "certificate and private key were rejected: ".to_owned();
                text.append(source.as_str());
                text
            },
        }
    }
}

/// A variable counts as set when more than white space stands in it; white
/// space around its value does not count.
pub open spec fn set_value(variable: Option<String>) -> Option<Seq<char>> {
    match variable {
        Some(value) => if trimmed(value@).len() == 0 {
            None
        } else {
            Some(trimmed(value@))
        },
        None => None,
    }
}

/// The value of a variable that is set, without white space around it.
fn set_variable(variable: Option<String>) -> (r: Option<String>)
    ensures
        match r {
            Some(value) => set_value(variable) == Some(value@),
            None => set_value(variable) is None,
        },
{
    match variable {
        Some(value) => {
            let value = value.as_str().trim();
            if value.is_empty() {
                None
            } else {
                Some(value.to_owned())
            }
        },
        None => None,
    }
}

/// The paths that the two variables name. With neither there is no TLS; one
/// without the other is an error.
pub open spec fn resolved_paths(cert: Option<Seq<char>>, key: Option<Seq<char>>) -> Result<
    Option<TlsPathsView>,
    TlsErrorView,
> {
    match (cert, key) {
        (Some(cert), Some(key)) => Ok(Some(TlsPathsView { cert, key })),
        (Some(_), None) => Err(
            TlsErrorView::Incomplete { set: "CODEG_TLS_CERT"@, missing: "CODEG_TLS_KEY"@ },
        ),
        (None, Some(_)) => Err(
            TlsErrorView::Incomplete { set: "CODEG_TLS_KEY"@, missing: "CODEG_TLS_CERT"@ },
        ),
        (None, None) => Ok(None),
    }
}

/// What a result with optional paths in it says.
pub open spec fn paths_result(r: Result<Option<TlsPaths>, TlsConfigError>) -> Result<
    Option<TlsPathsView>,
    TlsErrorView,
> {
    match r {
        Ok(Some(paths)) => Ok(Some(paths@)),
        Ok(None) => Ok(None),
        Err(error) => Err(error@),
    }
}

/// The paths that the two variables name; `Ok(None)` means plain HTTP. Half a
/// TLS configuration is an operator's mistake, never a reason to fall back to
/// cleartext.
pub fn resolve_tls_paths(cert: Option<String>, key: Option<String>) -> (r: Result<
    Option<TlsPaths>,
    TlsConfigError,
>)
    ensures
        paths_result(r) == resolved_paths(set_value(cert), set_value(key)),
{
    match (set_variable(cert), set_variable(key)) {
        (Some(cert), Some(key)) => Ok(Some(TlsPaths { cert, key })),
        (Some(_), None) => Err(
            TlsConfigError::Incomplete { set: ENV_TLS_CERT, missing: ENV_TLS_KEY },
        ),
        (None, Some(_)) => Err(
            TlsConfigError::Incomplete { set: ENV_TLS_KEY, missing: ENV_TLS_CERT },
        ),
        (None, None) => Ok(None),
    }
}

/// The server falls back to plain HTTP only when neither variable is set.
pub proof fn cleartext_only_without_any_setting(cert: Option<String>, key: Option<String>)
    ensures
        resolved_paths(set_value(cert), set_value(key)) == Ok::<Option<TlsPathsView>, TlsErrorView>(
            None,
        ) <==> set_value(cert) is None && set_value(key) is None,
{
}

/// `part` stands somewhere in `text`.
pub open spec fn mentions(text: Seq<char>, part: Seq<char>) -> bool {
    exists|head: Seq<char>, tail: Seq<char>| text == #[trigger] (head + part + tail)
}

/// Half a TLS configuration is reported with the name of the variable that is
/// missing.
pub proof fn half_a_setting_names_the_missing_variable(cert: Option<String>, key: Option<String>)
    requires
        set_value(cert) is Some != set_value(key) is Some,
    ensures
        resolved_paths(set_value(cert), set_value(key)) is Err,
        mentions(
            error_message(resolved_paths(set_value(cert), set_value(key))->Err_0),
            if set_value(key) is None {
                "CODEG_TLS_KEY"@
            } else {
                "CODEG_TLS_CERT"@
            },
        ),
{
    let error = resolved_paths(set_value(cert), set_value(key))->Err_0;
    let (set, missing) = (error->set, error->missing);
    let tail = " is not; set both to serve HTTPS, or neither to serve plain HTTP"@;
    assert(error_message(error) == (set + " is set but "@) + missing + tail);
}

/// The encoding of a private key.
#[derive(Debug, Clone, Copy, PartialEq, Eq, Structural)]
pub enum KeyFormat {
    Pkcs1,
    Sec1,
    Pkcs8,
}

/// A private key: its encoding, and the encoded bytes.
#[derive(PartialEq, Eq)]
pub struct PrivateKey {
    pub format: KeyFormat,
    pub der: Vec<u8>,
}

/// What a [`PrivateKey`] holds.
#[verifier::ext_equal]
pub struct PrivateKeyView {
    pub format: KeyFormat,
    pub der: Seq<u8>,
}

impl View for PrivateKey {
    type V = PrivateKeyView;

    open spec fn view(&self) -> PrivateKeyView {
        PrivateKeyView { format: self.format, der: self.der@ }
    }
}

/// The bytes of each of these.
pub open spec fn byte_lists(lists: Seq<Vec<u8>>) -> Seq<Seq<u8>> {
    Seq::new(lists.len(), |i: int| lists[i]@)
}

/// What a result with certificates in it says.
pub open spec fn chain_result(r: Result<Vec<Vec<u8>>, String>) -> Result<
    Seq<Seq<u8>>,
    Seq<char>,
> {
    match r {
        Ok(chain) => Ok(byte_lists(chain@)),
        Err(text) => Err(text@),
    }
}

/// What a result with a private key in it says.
pub open spec fn key_result(r: Result<PrivateKey, String>) -> Result<PrivateKeyView, Seq<char>> {
    match r {
        Ok(key) => Ok(key@),
        Err(text) => Err(text@),
    }
}

/// What the PEM reader makes of a text as certificates: their encodings in the
/// order of the text, or why the text cannot be read.
pub uninterp spec fn pem_certificates(text: Seq<u8>) -> Result<Seq<Seq<u8>>, Seq<char>>;

/// What the PEM reader makes of a text as a private key: the first one in it,
/// or why there is none.
pub uninterp spec fn pem_private_key(text: Seq<u8>) -> Result<PrivateKeyView, Seq<char>>;

/// Why `rustls` does not take a chain with a private key; `None` where it takes
/// them. `random` says whether the random numbers of the system can be had.
pub uninterp spec fn single_cert_rejection(
    chain: Seq<Seq<u8>>,
    key: PrivateKeyView,
    random: bool,
) -> Option<Seq<char>>;

/// `CertificateDer::pem_reader_iter` on these bytes, with all certificates it
/// gives, or with the text of the first error. Both depend on the bytes alone.
#[verifier::external_body]
fn read_certificates(text: &Vec<u8>) -> (r: Result<Vec<Vec<u8>>, String>)
    ensures
        chain_result(r) == pem_certificates(text@),
{
    let certificates: Result<Vec<CertificateDer<'static>>, rustls::pki_types::pem::Error> =
        CertificateDer::pem_reader_iter(text.as_slice()).collect();
    match certificates {
        Ok(certificates) => Ok(certificates.iter().map(|der| der.to_vec()).collect()),
        Err(error) => Err(error.to_string()),
    }
}

/// `PrivateKeyDer::from_pem_reader` on these bytes: the first private key in
/// them, or the text of the error. Both depend on the bytes alone.
#[verifier::external_body]
fn read_private_key(text: &Vec<u8>) -> (r: Result<PrivateKey, String>)
    ensures
        key_result(r) == pem_private_key(text@),
{
    match PrivateKeyDer::from_pem_reader(text.as_slice()) {
        Ok(key) => {
            let format = match &key {
                PrivateKeyDer::Pkcs1(_) => KeyFormat::Pkcs1,
                PrivateKeyDer::Sec1(_) => KeyFormat::Sec1,
                _ => KeyFormat::Pkcs8,
            };
            Ok(PrivateKey { format, der: key.secret_der().to_vec() })
        },
        Err(error) => Err(error.to_string()),
    }
}

/// The configuration of a TLS server.
#[verifier::external_type_specification]
#[verifier::external_body]
pub struct ExServerConfig(ServerConfig);

/// A version of the TLS protocol.
pub enum TlsVersion {
    Tls12,
    Tls13,
}

/// Where a TLS server has its cryptography from.
pub enum Provider {
    Ring,
    Other,
}

/// What a TLS server serves with.
#[verifier::ext_equal]
pub struct ServedView {
    /// The certificates that it shows.
    pub chain: Seq<Seq<u8>>,
    /// The private key that it signs with.
    pub key: PrivateKeyView,
    /// The protocols that it offers to speak over TLS.
    pub protocols: Seq<Seq<u8>>,
    /// Whether it asks its clients for a certificate.
    pub asks_clients: bool,
    /// Where it has its cryptography from.
    pub provider: Provider,
    /// The versions of TLS that it speaks.
    pub versions: Set<TlsVersion>,
}

/// The versions of TLS that `rustls` enables by default.
pub open spec fn default_versions() -> Set<TlsVersion> {
    set![TlsVersion::Tls12, TlsVersion::Tls13]
}

/// What a [`ServerConfig`] holds: the chain and the key it was made with, its
/// `alpn_protocols`, whether its verifier asks clients for a certificate, the
/// cryptography provider it was made with, and the protocol versions enabled.
pub uninterp spec fn config_contents(config: ServerConfig) -> ServedView;

/// Why a configuration was not built; `None` where it was.
pub open spec fn rejection_of(r: Result<Arc<ServerConfig>, String>) -> Option<Seq<char>> {
    match r {
        Ok(_) => None,
        Err(text) => Some(text@),
    }
}

/// What `rustls` says of a key that it cannot load.
pub open spec fn unknown_key_text() -> Seq<char> {
    "unexpected error: failed to parse private key as RSA, ECDSA, or EdDSA"@
}

/// `ConfigBuilder::with_single_cert` on a builder with the `ring` provider, the
/// default protocol versions and no client authentication; the protocols go to
/// the field `alpn_protocols` of the configuration. It serves the chain with the
/// key. Whether the key is taken, and why not, depends on the chain and the key,
/// and on whether the system has random numbers: an ECDSA key, which is never in
/// the format PKCS #1, cannot be loaded without them, and is reported as unknown.
/// By default TLS 1.2 and TLS 1.3 are enabled.
#[verifier::external_body]
fn build_config(chain: Vec<Vec<u8>>, key: PrivateKey, alpn_protocols: Vec<Vec<u8>>) -> (r: Result<
    Arc<ServerConfig>,
    String,
>)
    ensures
        exists|random: bool|
            rejection_of(r) == #[trigger] single_cert_rejection(byte_lists(chain@), key@, random),
        rejection_of(r) == single_cert_rejection(byte_lists(chain@), key@, true) || (rejection_of(r)
            == Some(unknown_key_text()) && key.format != KeyFormat::Pkcs1),
        r matches Ok(config) ==> config_contents(*config) == (ServedView {
            chain: byte_lists(chain@),
            key: key@,
            protocols: byte_lists(alpn_protocols@),
            asks_clients: false,
            provider: Provider::Ring,
            versions: default_versions(),
        }),
{
    let chain = chain.into_iter().map(CertificateDer::from).collect();
    let key = match key.format {
        KeyFormat::Pkcs1 => PrivateKeyDer::Pkcs1(key.der.into()),
        KeyFormat::Sec1 => PrivateKeyDer::Sec1(key.der.into()),
        KeyFormat::Pkcs8 => PrivateKeyDer::Pkcs8(key.der.into()),
    };
    let provider = Arc::new(rustls::crypto::ring::default_provider());
    let mut config = ServerConfig::builder_with_provider(provider)
        .with_safe_default_protocol_versions()
        .and_then(|builder| builder.with_no_client_auth().with_single_cert(chain, key))
        .map_err(|error| error.to_string())?;
    config.alpn_protocols = alpn_protocols;
    Ok(Arc::new(config))
}

/// A certificate chain, not empty, and a private key.
#[verifier::ext_equal]
pub struct TlsIdentityView {
    pub chain: Seq<Seq<u8>>,
    pub key: PrivateKeyView,
}

/// The certificates that were read from the path of the chain, of which there
/// must be some.
pub open spec fn usable_chain(
    paths: TlsPathsView,
    chain: Result<Seq<Seq<u8>>, Seq<char>>,
) -> Result<Seq<Seq<u8>>, TlsErrorView> {
    match chain {
        Err(source) => Err(TlsErrorView::Certificate { path: paths.cert, source }),
        Ok(chain) => if chain.len() == 0 {
            Err(TlsErrorView::EmptyCertificateChain { path: paths.cert })
        } else {
            Ok(chain)
        },
    }
}

/// The private key that was read from its path.
pub open spec fn usable_key(paths: TlsPathsView, key: Result<PrivateKeyView, Seq<char>>) -> Result<
    PrivateKeyView,
    TlsErrorView,
> {
    match key {
        Err(source) => Err(TlsErrorView::PrivateKey { path: paths.key, source }),
        Ok(key) => Ok(key),
    }
}

/// What the certificates and the private key that were read from these paths
/// make. Trouble with the certificates is reported before trouble with the key.
pub open spec fn identity_of(
    paths: TlsPathsView,
    chain: Result<Seq<Seq<u8>>, Seq<char>>,
    key: Result<PrivateKeyView, Seq<char>>,
) -> Result<TlsIdentityView, TlsErrorView> {
    match (usable_chain(paths, chain), usable_key(paths, key)) {
        (Err(error), _) => Err(error),
        (_, Err(error)) => Err(error),
        (Ok(chain), Ok(key)) => Ok(TlsIdentityView { chain, key }),
    }
}

/// A file that cannot be used is reported with its path.
pub proof fn load_error_names_its_file(
    paths: TlsPathsView,
    chain: Result<Seq<Seq<u8>>, Seq<char>>,
    key: Result<PrivateKeyView, Seq<char>>,
)
    requires
        identity_of(paths, chain, key) is Err,
    ensures
        mentions(
            error_message(identity_of(paths, chain, key)->Err_0),
            if chain is Err || chain->Ok_0.len() == 0 {
                paths.cert
            } else {
                paths.key
            },
        ),
{
    let error = identity_of(paths, chain, key)->Err_0;
    match error {
        TlsErrorView::Certificate { path, source } => {
            let tail = " (CODEG_TLS_CERT): "@ + source;
            assert(error_message(error) =~= "failed to load the certificate chain from "@ + path
                + tail);
        },
        TlsErrorView::EmptyCertificateChain { path } => {
            assert(error_message(error) =~= Seq::<char>::empty() + path
                + " (CODEG_TLS_CERT) contains no certificates"@);
        },
        TlsErrorView::PrivateKey { path, source } => {
            let tail = " (CODEG_TLS_KEY): "@ + source;
            assert(error_message(error) =~= "failed to load the private key from "@ + path + tail);
        },
        _ => {},
    }
}

/// The certificates that were read from the path of the chain, or why they
/// cannot be used.
pub fn accept_chain(paths: &TlsPaths, chain: Result<Vec<Vec<u8>>, String>) -> (r: Result<
    Vec<Vec<u8>>,
    TlsConfigError,
>)
    ensures
        loaded_chain_result(r) == usable_chain(paths@, chain_result(chain)),
{
    match chain {
        Ok(chain) => {
            if chain.is_empty() {
                Err(TlsConfigError::EmptyCertificateChain { path: paths.cert.as_str().to_owned() })
            } else {
                Ok(chain)
            }
        },
        Err(source) => Err(
            TlsConfigError::Certificate { path: paths.cert.as_str().to_owned(), source },
        ),
    }
}

/// The private key that was read from its path, or why it cannot be used.
pub fn accept_key(paths: &TlsPaths, key: Result<PrivateKey, String>) -> (r: Result<
    PrivateKey,
    TlsConfigError,
>)
    ensures
        loaded_key_result(r) == usable_key(paths@, key_result(key)),
{
    match key {
        Ok(key) => Ok(key),
        Err(source) => Err(
            TlsConfigError::PrivateKey { path: paths.key.as_str().to_owned(), source },
        ),
    }
}

/// What a result with usable certificates in it says.
pub open spec fn loaded_chain_result(r: Result<Vec<Vec<u8>>, TlsConfigError>) -> Result<
    Seq<Seq<u8>>,
    TlsErrorView,
> {
    match r {
        Ok(chain) => Ok(byte_lists(chain@)),
        Err(error) => Err(error@),
    }
}

/// What a result with a usable private key in it says.
pub open spec fn loaded_key_result(r: Result<PrivateKey, TlsConfigError>) -> Result<
    PrivateKeyView,
    TlsErrorView,
> {
    match r {
        Ok(key) => Ok(key@),
        Err(error) => Err(error@),
    }
}

/// What a file reads as: what `parsed` makes of its bytes, or why it cannot be
/// read.
pub open spec fn file_result<T>(
    file: Result<Vec<u8>, String>,
    parsed: spec_fn(Seq<u8>) -> Result<T, Seq<char>>,
) -> Result<T, Seq<char>> {
    match file {
        Ok(bytes) => parsed(bytes@),
        Err(text) => Err(text@),
    }
}

/// What the two files make.
pub open spec fn loaded_identity(
    paths: TlsPathsView,
    cert_file: Result<Vec<u8>, String>,
    key_file: Result<Vec<u8>, String>,
) -> Result<TlsIdentityView, TlsErrorView> {
    identity_of(
        paths,
        file_result(cert_file, |bytes: Seq<u8>| pem_certificates(bytes)),
        file_result(key_file, |bytes: Seq<u8>| pem_private_key(bytes)),
    )
}

/// The protocols that a server offers: HTTP/1.1 alone. Negotiating HTTP/2 would
/// push every WebSocket onto a connection of its own, as the HTTP stack has no
/// extended CONNECT.
pub open spec fn http_protocols() -> Seq<Seq<u8>> {
    seq![vstd::utf8::encode_utf8("http/1.1"@)]
}

/// What a server serves with that has this chain and this key: it offers
/// HTTP/1.1 alone, and asks its clients for nothing. The provider is named, as
/// no default one is installed.
pub open spec fn served(chain: Seq<Seq<u8>>, key: PrivateKeyView) -> ServedView {
    ServedView {
        chain,
        key,
        protocols: http_protocols(),
        asks_clients: false,
        provider: Provider::Ring,
        versions: default_versions(),
    }
}

/// `r` says that `rustls` takes this chain with this key, and serves them, or
/// else why it does not.
pub open spec fn follows(
    chain: Seq<Seq<u8>>,
    key: PrivateKeyView,
    random: bool,
    r: Result<Arc<ServerConfig>, TlsConfigError>,
) -> bool {
    match single_cert_rejection(chain, key, random) {
        None => r matches Ok(config) && config_contents(*config) == served(chain, key),
        Some(text) => r matches Err(error) && error@ == TlsErrorView::Rejected(text),
    }
}

/// What a configuration with this chain and this key comes to: what `rustls`
/// says of them. Only an ECDSA key, which is never in the format PKCS #1, needs
/// random numbers, and is reported as unknown where the system has none.
pub open spec fn may_configure(
    chain: Seq<Seq<u8>>,
    key: PrivateKeyView,
    r: Result<Arc<ServerConfig>, TlsConfigError>,
) -> bool {
    &&& exists|random: bool| #[trigger] follows(chain, key, random, r)
    &&& follows(chain, key, true, r) || (key.format != KeyFormat::Pkcs1 && (r matches Err(error)
        && error@ == TlsErrorView::Rejected(unknown_key_text())))
}

/// A chain and a key that `rustls` takes, with random numbers and without, are
/// served.
pub proof fn accepted_identity_is_served(
    chain: Seq<Seq<u8>>,
    key: PrivateKeyView,
    r: Result<Arc<ServerConfig>, TlsConfigError>,
)
    requires
        may_configure(chain, key, r),
        forall|random: bool| #[trigger] single_cert_rejection(chain, key, random) is None,
    ensures
        r is Ok,
        config_contents(*r->Ok_0) == served(chain, key),
{
}

/// What a configuration becomes that was built, or rejected in these words.
pub fn accept_config(built: Result<Arc<ServerConfig>, String>) -> (r: Result<
    Arc<ServerConfig>,
    TlsConfigError,
>)
    ensures
        match built {
            Ok(config) => r == Ok::<Arc<ServerConfig>, TlsConfigError>(config),
            Err(text) => r matches Err(error) && error@ == TlsErrorView::Rejected(text@),
        },
{
    match built {
        Ok(config) => Ok(config),
        Err(text) => Err(TlsConfigError::Rejected(text)),
    }
}

/// The certificate chain of these paths, given what its file holds or why it
/// cannot be read.
pub fn load_chain(paths: &TlsPaths, cert_file: Result<Vec<u8>, String>) -> (r: Result<
    Vec<Vec<u8>>,
    TlsConfigError,
>)
    ensures
        loaded_chain_result(r) == usable_chain(
            paths@,
            file_result(cert_file, |bytes: Seq<u8>| pem_certificates(bytes)),
        ),
{
    match cert_file {
        Ok(bytes) => accept_chain(paths, read_certificates(&bytes)),
        Err(text) => accept_chain(paths, Err(text)),
    }
}

/// The configuration of a server with this certificate chain and the private key
/// of these paths, given what the file of the key holds or why it cannot be read.
pub fn chain_config(
    paths: &TlsPaths,
    chain: Vec<Vec<u8>>,
    key_file: Result<Vec<u8>, String>,
) -> (r: Result<Arc<ServerConfig>, TlsConfigError>)
    ensures
        match usable_key(
            paths@,
            file_result(key_file, |bytes: Seq<u8>| pem_private_key(bytes)),
        ) {
            Err(reason) => r matches Err(error) && error@ == reason,
            Ok(key) => may_configure(byte_lists(chain@), key, r),
        },
{
    let key: Result<PrivateKey, String> = match key_file {
        Ok(bytes) => read_private_key(&bytes),
        Err(text) => Err(text),
    };
    match accept_key(paths, key) {
        Ok(key) => {
            let protocol: Vec<u8> = "http/1.1".as_bytes_vec();
            let alpn_protocols: Vec<Vec<u8>> = vec![protocol];
            assert(byte_lists(alpn_protocols@) =~= http_protocols());
            let built = build_config(chain, key, alpn_protocols);
            let r = accept_config(built);
            proof {
                let (chain, key) = (byte_lists(chain@), key@);
                let random = choose|random: bool|
                    rejection_of(built) == #[trigger] single_cert_rejection(chain, key, random);
                assert(follows(chain, key, random, r));
            }
            r
        },
        Err(error) => Err(error),
    }
}

/// The configuration of a server with the certificate chain and the private key
/// of these paths, given what the two files hold or why they cannot be read.
pub fn server_config(
    paths: &TlsPaths,
    cert_file: Result<Vec<u8>, String>,
    key_file: Result<Vec<u8>, String>,
) -> (r: Result<Arc<ServerConfig>, TlsConfigError>)
    ensures
        match loaded_identity(paths@, cert_file, key_file) {
            Err(reason) => r matches Err(error) && error@ == reason,
            Ok(identity) => may_configure(identity.chain, identity.key, r),
        },
{
    match load_chain(paths, cert_file) {
        Ok(chain) => chain_config(paths, chain, key_file),
        Err(error) => Err(error),
    }
}

/// A variable that is not set, or has nothing but white space in it.
pub open spec fn is_unset(variable: Option<String>) -> bool {
    match variable {
        Some(value) => all_white_space(value@),
        None => true,
    }
}

/// The paths are those that the two variables hold, character for character but
/// for white space around them. With neither set there is no TLS; with one of
/// them, the error names the one that is set and the one that is missing.
pub proof fn tls_paths_are_as_typed(cert: Option<String>, key: Option<String>)
    ensures
        is_unset(cert) && is_unset(key) ==> resolved_paths(set_value(cert), set_value(key)) == Ok::<
            Option<TlsPathsView>,
            TlsErrorView,
        >(None),
        !is_unset(cert) && !is_unset(key) ==> {
            &&& resolved_paths(set_value(cert), set_value(key)) matches Ok(Some(paths))
            &&& is_trim_of(cert->0@, paths.cert)
            &&& is_trim_of(key->0@, paths.key)
        },
        !is_unset(cert) && is_unset(key) ==> resolved_paths(set_value(cert), set_value(key))
            == Err::<Option<TlsPathsView>, TlsErrorView>(
            TlsErrorView::Incomplete { set: "CODEG_TLS_CERT"@, missing: "CODEG_TLS_KEY"@ },
        ),
        is_unset(cert) && !is_unset(key) ==> resolved_paths(set_value(cert), set_value(key))
            == Err::<Option<TlsPathsView>, TlsErrorView>(
            TlsErrorView::Incomplete { set: "CODEG_TLS_KEY"@, missing: "CODEG_TLS_CERT"@ },
        ),
{
    if let Some(value) = cert {
        blank_is_white_space(value@);
        trim_takes_white_space_alone(value@);
    }
    if let Some(value) = key {
        blank_is_white_space(value@);
        trim_takes_white_space_alone(value@);
    }
}

/// What the two files make is what they hold: all certificates of the one, in
/// their order, and the private key of the other. A file that cannot be used is
/// reported with its path and with the reason, the one of the chain first.
pub proof fn identity_is_what_the_files_hold(
    paths: TlsPathsView,
    cert_file: Result<Vec<u8>, String>,
    key_file: Result<Vec<u8>, String>,
)
    ensures
        match (cert_file, key_file) {
            (Err(reason), _) => loaded_identity(paths, cert_file, key_file) == Err::<
                TlsIdentityView,
                TlsErrorView,
            >(TlsErrorView::Certificate { path: paths.cert, source: reason@ }),
            (Ok(cert), key_file) => match pem_certificates(cert@) {
                Err(reason) => loaded_identity(paths, cert_file, key_file) == Err::<
                    TlsIdentityView,
                    TlsErrorView,
                >(TlsErrorView::Certificate { path: paths.cert, source: reason }),
                Ok(chain) => if chain.len() == 0 {
                    loaded_identity(paths, cert_file, key_file) == Err::<
                        TlsIdentityView,
                        TlsErrorView,
                    >(TlsErrorView::EmptyCertificateChain { path: paths.cert })
                } else {
                    match key_file {
                        Err(reason) => loaded_identity(paths, cert_file, key_file) == Err::<
                            TlsIdentityView,
                            TlsErrorView,
                        >(TlsErrorView::PrivateKey { path: paths.key, source: reason@ }),
                        Ok(key) => match pem_private_key(key@) {
                            Err(reason) => loaded_identity(paths, cert_file, key_file) == Err::<
                                TlsIdentityView,
                                TlsErrorView,
                            >(TlsErrorView::PrivateKey { path: paths.key, source: reason }),
                            Ok(key) => {
                                &&& loaded_identity(paths, cert_file, key_file) matches Ok(identity)
                                &&& identity.chain == chain
                                &&& identity.key == key
                            },
                        },
                    }
                },
            },
        },
{
}

/// A configuration serves the chain and the key it was made for, offers HTTP/1.1
/// and nothing else, asks its clients for no certificate, has its cryptography
/// from `ring` and speaks TLS 1.2 and TLS 1.3. There is none only where `rustls`
/// refuses the chain with the key, and the error is in its words.
pub proof fn configuration_serves_what_was_loaded(
    chain: Seq<Seq<u8>>,
    key: PrivateKeyView,
    r: Result<Arc<ServerConfig>, TlsConfigError>,
)
    requires
        may_configure(chain, key, r),
    ensures
        r matches Ok(config) ==> {
            let contents = config_contents(*config);
            &&& contents.chain == chain
            &&& contents.key == key
            &&& contents.protocols.len() == 1
            &&& contents.protocols[0] == vstd::utf8::encode_utf8("http/1.1"@)
            &&& !contents.asks_clients
            &&& contents.provider == Provider::Ring
            &&& forall|version: TlsVersion| #[trigger] contents.versions.contains(version)
        },
        r is Ok ==> single_cert_rejection(chain, key, true) is None,
        r matches Err(error) ==> (error@ matches TlsErrorView::Rejected(text) && exists|
            random: bool,
        | #[trigger] single_cert_rejection(chain, key, random) == Some(text)),
        key.format == KeyFormat::Pkcs1 ==> (r is Ok <==> single_cert_rejection(chain, key, true)
            is None),
{
    let random = choose|random: bool| #[trigger] follows(chain, key, random, r);
    if r is Err {
        assert(single_cert_rejection(chain, key, random) is Some);
    }
}

/// An error says what it is about: which variable, which file, and why.
pub proof fn error_says_what_it_is_about(error: TlsErrorView)
    ensures
        error matches TlsErrorView::Incomplete { set, missing } ==> mentions(
            error_message(error),
            set,
        ) && mentions(error_message(error), missing),
        error matches TlsErrorView::Certificate { path, source } ==> mentions(
            error_message(error),
            path,
        ) && mentions(error_message(error), source) && mentions(
            error_message(error),
            "CODEG_TLS_CERT"@,
        ),
        error matches TlsErrorView::EmptyCertificateChain { path } ==> mentions(
            error_message(error),
            path,
        ) && mentions(error_message(error), "CODEG_TLS_CERT"@),
        error matches TlsErrorView::PrivateKey { path, source } ==> mentions(
            error_message(error),
            path,
        ) && mentions(error_message(error), source) && mentions(
            error_message(error),
            "CODEG_TLS_KEY"@,
        ),
        error matches TlsErrorView::Rejected(source) ==> mentions(error_message(error), source),
{
    reveal_strlit(" (CODEG_TLS_CERT): ");
    reveal_strlit(" (CODEG_TLS_CERT) contains no certificates");
    reveal_strlit(" (CODEG_TLS_KEY): ");
    reveal_strlit("CODEG_TLS_CERT");
    reveal_strlit("CODEG_TLS_KEY");
    let none = Seq::<char>::empty();
    let message = error_message(error);
    match error {
        TlsErrorView::Incomplete { set, missing } => {
            let end = " is not; set both to serve HTTPS, or neither to serve plain HTTP"@;
            assert(message =~= none + set + (" is set but "@ + missing + end));
            assert(message =~= (set + " is set but "@) + missing + end);
        },
        TlsErrorView::Certificate { path, source } => {
            let start = "failed to load the certificate chain from "@;
            assert(message =~= start + path + (" (CODEG_TLS_CERT): "@ + source));
            assert(message =~= (start + path + " (CODEG_TLS_CERT): "@) + source + none);
            assert(message =~= (start + path + seq![' ', '(']) + "CODEG_TLS_CERT"@ + (seq![
                ')',
                ':',
                ' ',
            ] + source));
        },
        TlsErrorView::EmptyCertificateChain { path } => {
            let end = " (CODEG_TLS_CERT) contains no certificates"@;
            assert(message =~= none + path + end);
            assert(message =~= (path + seq![' ', '(']) + "CODEG_TLS_CERT"@ + end.skip(16));
        },
        TlsErrorView::PrivateKey { path, source } => {
            let start = "failed to load the private key from "@;
            assert(message =~= start + path + (" (CODEG_TLS_KEY): "@ + source));
            assert(message =~= (start + path + " (CODEG_TLS_KEY): "@) + source + none);
            assert(message =~= (start + path + seq![' ', '(']) + "CODEG_TLS_KEY"@ + (seq![
                ')',
                ':',
                ' ',
            ] + source));
        },
        TlsErrorView::Rejected(source) => {
            let start = "certificate and private key were rejected: "@;
            assert(message =~= start + source + none);
        },
    }
}

} // verus!
