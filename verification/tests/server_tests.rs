use statiker::config::Config;
use statiker::server::{tls_needs_probe, validate_tls, FileRead, TlsError, TlsProbe};

#[test]
fn test_validate_tls_disabled() {
    let cfg = Config::default();
    assert!(validate_tls(&cfg.tls, &TlsProbe::default()).is_ok());
}

#[test]
fn test_validate_tls_enabled_no_paths() {
    let mut cfg = Config::default();
    cfg.tls.enabled = true;
    let result = validate_tls(&cfg.tls, &TlsProbe::default());
    assert!(result.is_err());
    assert!(result.unwrap_err().message().contains("empty"));
}

#[test]
fn test_validate_tls_enabled_empty_cert_path() {
    let mut cfg = Config::default();
    cfg.tls.enabled = true;
    cfg.tls.key_path = "key.pem".to_string();
    let result = validate_tls(&cfg.tls, &TlsProbe::default());
    assert!(result.is_err());
}

#[test]
fn test_validate_tls_enabled_empty_key_path() {
    let mut cfg = Config::default();
    cfg.tls.enabled = true;
    cfg.tls.cert_path = "cert.pem".to_string();
    let result = validate_tls(&cfg.tls, &TlsProbe::default());
    assert!(result.is_err());
}

#[test]
fn tls_validation_names_each_failure() {
    let mut cfg = Config::default();
    cfg.tls.enabled = true;
    cfg.tls.cert_path = "cert.pem".to_string();
    assert!(!tls_needs_probe(&cfg.tls));
    assert_eq!(validate_tls(&cfg.tls, &TlsProbe::default()), Err(TlsError::EmptyPath));
    cfg.tls.key_path = "key.pem".to_string();
    assert!(tls_needs_probe(&cfg.tls));
    let good = TlsProbe {
        cert_is_file: true,
        key_is_file: true,
        cert_read: FileRead::Done,
        key_read: FileRead::Done,
    };
    assert_eq!(validate_tls(&cfg.tls, &good), Ok(()));
    assert_eq!(
        validate_tls(&cfg.tls, &TlsProbe { cert_is_file: false, ..good }),
        Err(TlsError::NotRegularFile)
    );
    assert_eq!(
        validate_tls(&cfg.tls, &TlsProbe { key_is_file: false, ..good }),
        Err(TlsError::NotRegularFile)
    );
    assert_eq!(
        validate_tls(&cfg.tls, &TlsProbe { cert_read: FileRead::OpenFailed, key_read: FileRead::ReadFailed, ..good }),
        Err(TlsError::CertOpen)
    );
    assert_eq!(
        validate_tls(&cfg.tls, &TlsProbe { cert_read: FileRead::ReadFailed, ..good }),
        Err(TlsError::CertRead)
    );
    assert_eq!(
        validate_tls(&cfg.tls, &TlsProbe { key_read: FileRead::OpenFailed, ..good }),
        Err(TlsError::KeyOpen)
    );
    assert_eq!(
        validate_tls(&cfg.tls, &TlsProbe { key_read: FileRead::ReadFailed, ..good }),
        Err(TlsError::KeyRead)
    );
    assert_eq!(TlsError::NotRegularFile.message(), "TLS enabled but cert or key file not found or not a regular file.");
    assert_eq!(TlsError::CertOpen.message(), "opening TLS cert file");
    assert_eq!(TlsError::CertRead.message(), "reading TLS cert file");
    assert_eq!(TlsError::KeyOpen.message(), "opening TLS key file");
    assert_eq!(TlsError::KeyRead.message(), "reading TLS key file");
    cfg.tls.enabled = false;
    assert!(!tls_needs_probe(&cfg.tls));
    assert_eq!(validate_tls(&cfg.tls, &TlsProbe::default()), Ok(()));
}
