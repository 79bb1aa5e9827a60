//! Validation of the TLS settings.

use crate::config::Tls;
use vstd::prelude::*;

verus! {

/// How opening and reading a file went.
#[derive(Clone, Copy, Debug, PartialEq, Eq, Structural)]
pub enum FileRead {
    Done,
    OpenFailed,
    ReadFailed,
}

/// What the filesystem reported of the certificate and key files.
#[derive(Clone, Copy, Debug, PartialEq, Eq, Structural)]
pub struct TlsProbe {
    pub cert_is_file: bool,
    pub key_is_file: bool,
    pub cert_read: FileRead,
    pub key_read: FileRead,
}

/// Why the TLS settings cannot be used.
#[derive(Clone, Copy, Debug, PartialEq, Eq, Structural)]
pub enum TlsError {
    /// TLS is on and the path of the certificate or of the key is empty.
    EmptyPath,
    /// The certificate or the key is missing or is not a regular file.
    NotRegularFile,
    CertOpen,
    CertRead,
    KeyOpen,
    KeyRead,
}

impl TlsError {
    pub open spec fn text(self) -> Seq<char> {
        match self {
            TlsError::EmptyPath => "TLS enabled but cert_path or key_path is empty. Provide paths in config or disable TLS."@,
            TlsError::NotRegularFile => "TLS enabled but cert or key file not found or not a regular file."@,
            TlsError::CertOpen => "opening TLS cert file"@,
            TlsError::CertRead => "reading TLS cert file"@,
            TlsError::KeyOpen => "opening TLS key file"@,
            TlsError::KeyRead => "reading TLS key file"@,
        }
    }

    /// What to tell the operator.
    pub fn message(&self) -> (s: String)
        ensures
            s@ == self.text(),
    {
        match self {
            TlsError::EmptyPath => "TLS enabled but cert_path or key_path is empty. Provide paths in config or disable TLS.".to_owned(),
            TlsError::NotRegularFile => "TLS enabled but cert or key file not found or not a regular file.".to_owned(),
            TlsError::CertOpen => "opening TLS cert file".to_owned(),
            TlsError::CertRead => "reading TLS cert file".to_owned(),
            TlsError::KeyOpen => "opening TLS key file".to_owned(),
            TlsError::KeyRead => "reading TLS key file".to_owned(),
        }
    }
}

/// Whether the settings call for a look at the files: TLS is on and both
/// paths are given.
pub open spec fn needs_probe(tls: Tls) -> bool {
    tls.enabled && tls.cert_path@.len() > 0 && tls.key_path@.len() > 0
}

/// What the validation of the TLS settings gives. The probe counts only where
/// the settings call for one. The certificate is judged before the key.
pub open spec fn tls_outcome(tls: Tls, probe: TlsProbe) -> Result<(), TlsError> {
    if !tls.enabled {
        Ok(())
    } else if tls.cert_path@.len() == 0 || tls.key_path@.len() == 0 {
        Err(TlsError::EmptyPath)
    } else if !probe.cert_is_file || !probe.key_is_file {
        Err(TlsError::NotRegularFile)
    } else if probe.cert_read == FileRead::OpenFailed {
        Err(TlsError::CertOpen)
    } else if probe.cert_read == FileRead::ReadFailed {
        Err(TlsError::CertRead)
    } else if probe.key_read == FileRead::OpenFailed {
        Err(TlsError::KeyOpen)
    } else if probe.key_read == FileRead::ReadFailed {
        Err(TlsError::KeyRead)
    } else {
        Ok(())
    }
}

impl Default for TlsProbe {
    /// The probe of files that were never looked at.
    fn default() -> (p: Self)
        ensures
            p == (TlsProbe {
                cert_is_file: false,
                key_is_file: false,
                cert_read: FileRead::OpenFailed,
                key_read: FileRead::OpenFailed,
            }),
    {
        TlsProbe {
            cert_is_file: false,
            key_is_file: false,
            cert_read: FileRead::OpenFailed,
            key_read: FileRead::OpenFailed,
        }
    }
}

/// Whether the files have to be looked at before the settings can be judged.
pub fn tls_needs_probe(tls: &Tls) -> (b: bool)
    ensures
        b == needs_probe(*tls),
{
    tls.enabled && tls.cert_path.as_str().unicode_len() > 0 && tls.key_path.as_str().unicode_len()
        > 0
}

/// Validates the TLS settings against what the filesystem reported. With TLS
/// off there is nothing to validate. With TLS on, both paths must be given,
/// both must name regular files, and both files must open and read.
pub fn validate_tls(tls: &Tls, probe: &TlsProbe) -> (r: Result<(), TlsError>)
    ensures
        r == tls_outcome(*tls, *probe),
        !needs_probe(*tls) ==> forall|other: TlsProbe| r == tls_outcome(*tls, other),
{
    if !tls.enabled {
        return Ok(());
    }
    if tls.cert_path.as_str().unicode_len() == 0 || tls.key_path.as_str().unicode_len() == 0 {
        return Err(TlsError::EmptyPath);
    }
    if !probe.cert_is_file || !probe.key_is_file {
        return Err(TlsError::NotRegularFile);
    }
    match probe.cert_read {
        FileRead::OpenFailed => {
            return Err(TlsError::CertOpen);
        },
        FileRead::ReadFailed => {
            return Err(TlsError::CertRead);
        },
        FileRead::Done => {},
    }
    match probe.key_read {
        FileRead::OpenFailed => Err(TlsError::KeyOpen),
        FileRead::ReadFailed => Err(TlsError::KeyRead),
        FileRead::Done => Ok(()),
    }
}

} // verus!
