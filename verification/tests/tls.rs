use codeg::listener::{
    after_accept, after_handshake, after_receive, AcceptEvent, AcceptStep, HandshakeEvent,
    ReceiveStep, TlsListener, ACCEPT_QUEUE,
};
use codeg::tls::{
    accept_chain, accept_config, accept_key, chain_config, load_chain, resolve_tls_paths,
    server_config, KeyFormat, PrivateKey, TlsConfigError, TlsPaths, ENV_TLS_CERT, ENV_TLS_KEY,
};
use rustls::pki_types::pem::PemObject;
use rustls::pki_types::CertificateDer;
use std::path::PathBuf;

/// A certificate for the Ed25519 key with a seed of zeros.
const CERT: &str = "-----BEGIN CERTIFICATE-----
MIIBVTCCAQegAwIBAgIUEYb5vDsj5Senc4CIQBxX5+lyiaQwBQYDK2VwMBQxEjAQ
BgNVBAMMCWxvY2FsaG9zdDAgFw0yNjExMTYwOTI2MTNaGA8yMTI2MTAyMzA5MjYx
M1owFDESMBAGA1UEAwwJbG9jYWxob3N0MCowBQYDK2VwAyEAO2onvM62pC1io6jQ
Km8Nc2UyFXcd4kOmOsBIoYtZ2imjaTBnMB0GA1UdDgQWBBSMMMl+f9VGDOO5YttM
11h57s2KvTAfBgNVHSMEGDAWgBSMMMl+f9VGDOO5YttM11h57s2KvTAPBgNVHRMB
Af8EBTADAQH/MBQGA1UdEQQNMAuCCWxvY2FsaG9zdDAFBgMrZXADQQCgWxPTJxZ/
kt0KcoNnGh/l+I/JBojD/YrO/CrRv2EhxIv93gf7M0WCLlU7qr/0yebwkOHHQlRw
aAlU+3BIDc4A
-----END CERTIFICATE-----
";

/// A certificate for the P-256 key 1, whose point is the generator.
const CURVE_CERT: &str = "-----BEGIN CERTIFICATE-----
MIIBlTCCATugAwIBAgIUTR/2w85TWUc1FVD9owSZALhvztMwCgYIKoZIzj0EAwIw
FDESMBAGA1UEAwwJbG9jYWxob3N0MCAXDTI2MTExNjA5MjYxM1oYDzIxMjYxMDIz
MDkyNjEzWjAUMRIwEAYDVQQDDAlsb2NhbGhvc3QwWTATBgcqhkjOPQIBBggqhkjO
PQMBBwNCAARrF9Hy4SxCR/i85uVjpEDydwN9gS3rM6D0oTlF2JjClk/jQuL+Gn+b
jufrSnwPnhYrzjNXazFezsu2QGg3v1H1o2kwZzAdBgNVHQ4EFgQUtGejmZ6176Zx
3gAy8Iqcnl79oOEwHwYDVR0jBBgwFoAUtGejmZ6176Zx3gAy8Iqcnl79oOEwDwYD
VR0TAQH/BAUwAwEB/zAUBgNVHREEDTALgglsb2NhbGhvc3QwCgYIKoZIzj0EAwID
SAAwRQIgT8KSggmDkDxmuX4KLI368+4ElYrUgbSKcx8xH5ujlPQCIQC7O63yKgY4
S4gUWvAmCeMOGu7a/w19UpGJ85MDz6UG7w==
-----END CERTIFICATE-----
";

/// The two coordinates of the generator of P-256.
const GENERATOR: [u32; 16] = [
    0x6b17_d1f2, 0xe12c_4247, 0xf8bc_e6e5, 0x63a4_40f2,
    0x7703_7d81, 0x2deb_33a0, 0xf4a1_3945, 0xd898_c296,
    0x4fe3_42e2, 0xfe1a_7f9b, 0x8ee7_eb4a, 0x7c0f_9e16,
    0x2bce_3357, 0x6b31_5ece, 0xcbb6_4068, 0x37bf_51f5,
];

fn base64(bytes: &[u8]) -> String {
    let digits: Vec<char> = ('A'..='Z')
        .chain('a'..='z')
        .chain('0'..='9')
        .chain(['+', '/'])
        .collect();
    let mut text = String::new();
    for chunk in bytes.chunks(3) {
        let mut group = [0u8; 3];
        group[..chunk.len()].copy_from_slice(chunk);
        let bits = u32::from_be_bytes([0, group[0], group[1], group[2]]);
        for i in 0..4 {
            if i <= chunk.len() {
                text.push(digits[(bits >> (18 - 6 * i)) as usize & 63]);
            } else {
                text.push('=');
            }
        }
    }
    text
}

fn pem(label: &str, der: &[u8]) -> String {
    let body = base64(der);
    format!("-----BEGIN {label}-----\n{body}\n-----END {label}-----\n")
}

/// The Ed25519 key whose seed repeats one byte, as PKCS #8.
fn edwards_key(seed: u8) -> String {
    // Version 0, the algorithm, and 32 bytes in an octet string.
    let mut der: Vec<u8> = vec![
        0x30, 0x2e, 0x02, 0x01, 0x00, 0x30, 0x05, 0x06, 0x03, 0x2b, 0x65, 0x70,
        0x04, 0x22, 0x04, 0x20,
    ];
    der.extend([seed; 32]);
    pem("PRIVATE KEY", &der)
}

/// The P-256 key 1, as SEC1.
fn curve_key() -> String {
    // Version 1 and 32 bytes in an octet string, then the curve and the point.
    let mut der: Vec<u8> = vec![0x30, 0x77, 0x02, 0x01, 0x01, 0x04, 0x20];
    der.extend([0; 31]);
    der.push(1);
    der.extend([
        0xa0, 0x0a, 0x06, 0x08, 0x2a, 0x86, 0x48, 0xce, 0x3d, 0x03, 0x01, 0x07,
        0xa1, 0x44, 0x03, 0x42, 0x00, 0x04,
    ]);
    der.extend(GENERATOR.iter().flat_map(|word| word.to_be_bytes()));
    pem("EC PRIVATE KEY", &der)
}

fn paths() -> TlsPaths {
    TlsPaths {
        cert: "/c.pem".to_string(),
        key: "/k.pem".to_string(),
    }
}

fn bytes(text: &str) -> Result<Vec<u8>, String> {
    Ok(text.as_bytes().to_vec())
}

#[test]
fn both_vars_unset_means_plain_http() {
    assert_eq!(resolve_tls_paths(None, None).unwrap(), None);
    assert_eq!(
        resolve_tls_paths(Some("  ".to_string()), Some(String::new())).unwrap(),
        None
    );
}

#[test]
fn both_vars_set_means_https() {
    let paths = resolve_tls_paths(Some("/c.pem".to_string()), Some("/k.pem".to_string()))
        .unwrap()
        .unwrap();
    assert_eq!(PathBuf::from(paths.cert), PathBuf::from("/c.pem"));
    assert_eq!(PathBuf::from(paths.key), PathBuf::from("/k.pem"));
}

#[test]
fn half_a_config_names_the_missing_var() {
    let err = resolve_tls_paths(Some("/c.pem".to_string()), None)
        .unwrap_err()
        .message();
    assert!(
        err.contains(ENV_TLS_KEY),
        "should name the missing var: {err}"
    );

    let err = resolve_tls_paths(None, Some("/k.pem".to_string()))
        .unwrap_err()
        .message();
    assert!(
        err.contains(ENV_TLS_CERT),
        "should name the missing var: {err}"
    );

    // A whitespace-only value is unset, not half-configured.
    let err = resolve_tls_paths(Some("/c.pem".to_string()), Some(" ".to_string()))
        .unwrap_err()
        .message();
    assert!(err.contains(ENV_TLS_KEY), "{err}");
}

#[test]
fn a_missing_certificate_file_is_reported_with_its_path() {
    let dir = tempfile::tempdir().unwrap();
    let cert = dir.path().join("absent.pem");
    let opened = CertificateDer::pem_file_iter(&cert);
    let reason = match opened {
        Ok(_) => panic!("the file should be absent"),
        Err(error) => error.to_string(),
    };
    let err = server_config(
        &TlsPaths {
            cert: cert.display().to_string(),
            key: dir.path().join("absent.key").display().to_string(),
        },
        Err(reason.clone()),
        Err(reason.clone()),
    )
    .unwrap_err();
    assert!(
        err.message().contains(&cert.display().to_string()),
        "{}",
        err.message()
    );
    assert_eq!(
        err,
        TlsConfigError::Certificate {
            path: cert.display().to_string(),
            source: reason,
        }
    );
}

#[test]
fn paths_are_trimmed() {
    let paths = resolve_tls_paths(Some(" /c.pem\n".to_string()), Some("\t/k.pem ".to_string()));
    assert_eq!(
        paths.unwrap(),
        Some(TlsPaths {
            cert: "/c.pem".to_string(),
            key: "/k.pem".to_string(),
        })
    );
}

#[test]
fn half_a_config_says_which_half() {
    let err = resolve_tls_paths(Some("/c.pem".to_string()), None).unwrap_err();
    assert_eq!(
        err,
        TlsConfigError::Incomplete {
            set: ENV_TLS_CERT,
            missing: ENV_TLS_KEY,
        }
    );
    assert_eq!(
        err.message(),
        "CODEG_TLS_CERT is set but CODEG_TLS_KEY is not; set both to serve HTTPS, or neither to \
         serve plain HTTP"
    );
}

#[test]
fn a_chain_with_its_key_makes_a_config_for_http_1_1() {
    for (cert, key) in [(CERT, edwards_key(0)), (CURVE_CERT, curve_key())] {
        let config = server_config(&paths(), bytes(cert), bytes(&key)).unwrap();
        assert_eq!(config.alpn_protocols, vec![b"http/1.1".to_vec()]);
        assert_eq!(
            config.crypto_provider().cipher_suites,
            rustls::crypto::ring::default_provider().cipher_suites
        );
    }
}

#[test]
fn a_whole_chain_and_other_sections_may_stand_in_one_file() {
    let key = edwards_key(0);
    let both = format!("{key}a comment\n{CERT}{CURVE_CERT}");
    assert!(server_config(&paths(), bytes(&both), bytes(&both)).is_ok());
}

#[test]
fn a_key_of_another_certificate_is_rejected() {
    let err = server_config(&paths(), bytes(CERT), bytes(&edwards_key(1))).unwrap_err();
    assert_eq!(
        err,
        TlsConfigError::Rejected("keys may not be consistent: KeyMismatch".to_string())
    );
    assert_eq!(
        err.message(),
        "certificate and private key were rejected: keys may not be consistent: KeyMismatch"
    );
}

#[test]
fn a_chain_without_certificates_is_reported_before_the_key() {
    let err = server_config(&paths(), bytes(""), bytes("")).unwrap_err();
    assert_eq!(
        err,
        TlsConfigError::EmptyCertificateChain {
            path: "/c.pem".to_string(),
        }
    );
    assert_eq!(
        err.message(),
        "/c.pem (CODEG_TLS_CERT) contains no certificates"
    );
    assert!(matches!(
        server_config(&paths(), bytes(&curve_key()), bytes(&curve_key())),
        Err(TlsConfigError::EmptyCertificateChain { .. })
    ));
}

#[test]
fn a_chain_that_cannot_be_read_is_reported() {
    let cut = "-----BEGIN CERTIFICATE-----\nAAAA\n";
    let err = server_config(&paths(), bytes(cut), bytes(&curve_key())).unwrap_err();
    match &err {
        TlsConfigError::Certificate { path, source } => {
            assert_eq!(path, "/c.pem");
            assert!(source.starts_with("missing section end marker"), "{source}");
        }
        other => panic!("{other:?}"),
    }
    assert!(err
        .message()
        .starts_with("failed to load the certificate chain from /c.pem (CODEG_TLS_CERT): "));
}

#[test]
fn a_key_that_cannot_be_read_is_reported() {
    let err = server_config(&paths(), bytes(CERT), bytes(CERT)).unwrap_err();
    assert_eq!(
        err,
        TlsConfigError::PrivateKey {
            path: "/k.pem".to_string(),
            source: "no items found".to_string(),
        }
    );
    assert_eq!(
        err.message(),
        "failed to load the private key from /k.pem (CODEG_TLS_KEY): no items found"
    );
    let err = server_config(&paths(), bytes(CERT), Err("gone".to_string())).unwrap_err();
    assert_eq!(
        err.message(),
        "failed to load the private key from /k.pem (CODEG_TLS_KEY): gone"
    );
}

fn key() -> PrivateKey {
    PrivateKey {
        format: KeyFormat::Sec1,
        der: vec![1, 2, 3],
    }
}

#[test]
fn a_chain_is_used_unless_it_is_empty_or_unread() {
    assert_eq!(
        accept_chain(&paths(), Ok(vec![vec![7], vec![]])),
        Ok(vec![vec![7], vec![]])
    );
    assert_eq!(
        accept_chain(&paths(), Err("a".to_string())),
        Err(TlsConfigError::Certificate {
            path: "/c.pem".to_string(),
            source: "a".to_string(),
        })
    );
    assert_eq!(
        accept_chain(&paths(), Ok(vec![])),
        Err(TlsConfigError::EmptyCertificateChain {
            path: "/c.pem".to_string(),
        })
    );
}

#[test]
fn a_key_is_used_unless_it_is_unread() {
    assert!(accept_key(&paths(), Ok(key())) == Ok(key()));
    assert_eq!(
        accept_key(&paths(), Err("b".to_string())).err(),
        Some(TlsConfigError::PrivateKey {
            path: "/k.pem".to_string(),
            source: "b".to_string(),
        })
    );
}

#[test]
fn trouble_is_reported_in_the_order_of_the_files() {
    let err = server_config(&paths(), Err("a".to_string()), Err("b".to_string())).unwrap_err();
    assert!(matches!(err, TlsConfigError::Certificate { .. }));
    let err = server_config(&paths(), bytes(""), Err("b".to_string())).unwrap_err();
    assert!(matches!(err, TlsConfigError::EmptyCertificateChain { .. }));
    let err = server_config(&paths(), bytes(CERT), Err("b".to_string())).unwrap_err();
    assert!(matches!(err, TlsConfigError::PrivateKey { .. }));
}

#[test]
fn a_chain_and_its_key_may_be_loaded_one_after_the_other() {
    let both = format!("{CERT}{CURVE_CERT}");
    let chain = load_chain(&paths(), bytes(&both)).unwrap();
    let shown: Vec<Vec<u8>> = CertificateDer::pem_slice_iter(both.as_bytes())
        .map(|der| der.unwrap().to_vec())
        .collect();
    assert_eq!(chain, shown);
    assert_eq!(chain.len(), 2);
    let config = chain_config(&paths(), chain, bytes(&edwards_key(0))).unwrap();
    assert_eq!(config.alpn_protocols, vec![b"http/1.1".to_vec()]);
    // Without a chain no key will do.
    assert_eq!(
        chain_config(&paths(), vec![], bytes(&edwards_key(0))).unwrap_err(),
        TlsConfigError::Rejected("peer sent no certificates".to_string())
    );
}

#[test]
fn a_key_that_is_none_is_rejected_in_every_format() {
    for label in ["RSA PRIVATE KEY", "EC PRIVATE KEY", "PRIVATE KEY"] {
        let key = pem(label, &[0, 0, 0]);
        let err = server_config(&paths(), bytes(CERT), bytes(&key)).unwrap_err();
        assert_eq!(
            err,
            TlsConfigError::Rejected(
                "unexpected error: failed to parse private key as RSA, ECDSA, or EdDSA"
                    .to_string()
            )
        );
    }
}

#[test]
fn a_rejected_config_is_an_error() {
    assert_eq!(
        accept_config(Err("why".to_string())).unwrap_err(),
        TlsConfigError::Rejected("why".to_string())
    );
}

#[test]
fn only_a_closed_queue_stops_the_listener() {
    assert_eq!(ACCEPT_QUEUE, 64);
    assert!(matches!(
        after_accept(AcceptEvent::Accepted("peer")),
        AcceptStep::Handshake {
            connection: "peer",
            timeout_seconds: 10
        }
    ));
    assert!(matches!(
        after_accept::<u8>(AcceptEvent::Failed),
        AcceptStep::Retry { wait_seconds: 1 }
    ));
    assert!(matches!(
        after_accept::<u8>(AcceptEvent::QueueClosed),
        AcceptStep::Stop
    ));
}

#[test]
fn a_listener_survives_failures() {
    let started = TlsListener::new(Ok::<u16, String>(3080)).unwrap();
    let events = vec![
        AcceptEvent::Failed,
        AcceptEvent::Accepted('a'),
        AcceptEvent::Failed,
        AcceptEvent::Accepted('b'),
        AcceptEvent::QueueClosed,
    ];
    let mut taken = String::new();
    let mut pauses = 0;
    for event in events {
        match after_accept(event) {
            AcceptStep::Handshake { connection, .. } => taken.push(connection),
            AcceptStep::Retry { wait_seconds } => pauses += wait_seconds,
            AcceptStep::Stop => taken.push('.'),
        }
        assert_eq!(*started.local_addr(), 3080);
    }
    assert_eq!(taken, "ab.");
    assert_eq!(pauses, 2);
}

#[test]
fn a_listener_without_an_address_does_not_start() {
    let started: Result<TlsListener<u16>, &str> = TlsListener::new(Err("no address"));
    assert_eq!(started, Err("no address"));
}

#[test]
fn only_a_completed_handshake_is_handed_on() {
    assert_eq!(after_handshake(HandshakeEvent::Completed(7)), Some(7));
    assert_eq!(after_handshake::<i32>(HandshakeEvent::Failed), None);
    assert_eq!(after_handshake::<i32>(HandshakeEvent::TimedOut), None);
}

#[test]
fn a_call_parks_when_nothing_can_come() {
    assert!(matches!(after_receive(Some(7)), ReceiveStep::Return(7)));
    assert!(matches!(after_receive::<i32>(None), ReceiveStep::Park));
}
