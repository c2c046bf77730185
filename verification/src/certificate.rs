//! The certificate-retrieval contract: a mode in, a certificate chain with
//! a private key and a fingerprint out. The cryptographic work and the
//! file system belong to the surrounding program; this module fixes the
//! decision of which action each mode requires.
use vstd::prelude::*;

verus! {

/// Represents the origin of a certificate.
#[derive(Debug, Clone)]
pub enum CertOrigin {
    /// The certificate was generated.
    Generated {
        /// The hostname used when generating the certificate.
        server_hostname: String,
    },
    /// The certificate was loaded from a file.
    Loaded,
}

/// How the server should retrieve its certificate.
#[derive(Debug, Clone)]
pub enum CertificateRetrievalMode {
    /// Always generate a new self-signed certificate when starting up.
    GenerateSelfSigned {
        /// Used as the subject of the certificate.
        server_hostname: String,
    },
    /// Load the certificate and key from the two files.
    LoadFromFile {
        /// Path of the file holding the certificate in PEM form.
        cert_file: String,
        /// Path of the file holding the private key in PEM form.
        key_file: String,
    },
    /// Load the certificate and key from the two files, or generate a
    /// self-signed certificate if the files do not exist.
    LoadFromFileOrGenerateSelfSigned {
        /// Path of the file holding the certificate in PEM form.
        cert_file: String,
        /// Path of the file holding the private key in PEM form.
        key_file: String,
        /// Save a generated certificate to disk when enabled.
        save_on_disk: bool,
        /// Used as the subject of the certificate.
        server_hostname: String,
    },
}

/// Represents a server certificate: the certificate chain and private key
/// in DER form, and the fingerprint derived from the leaf certificate.
#[derive(Debug, Clone)]
pub struct ServerCertificate {
    /// The server's certificate chain, leaf first, each in DER form.
    pub cert_chain: Vec<Vec<u8>>,
    /// The server's private key in DER form.
    pub priv_key: Vec<u8>,
    /// The fingerprint of the leaf certificate.
    pub fingerprint: Vec<u8>,
}

/// The action a certificate-retrieval mode asks for, given whether the
/// named files exist.
#[derive(Debug, Clone)]
pub enum CertAction {
    /// Generate a self-signed certificate for the hostname; persist it to
    /// the two files when they are given.
    Generate {
        /// Used as the subject of the certificate.
        server_hostname: String,
        /// The certificate and key files to write, when persisting.
        save_files: Option<(String, String)>,
    },
    /// Load the certificate and key from the two files.
    Load {
        /// Path of the file holding the certificate in PEM form.
        cert_file: String,
        /// Path of the file holding the private key in PEM form.
        key_file: String,
    },
}

/// Decides what a certificate-retrieval mode asks for: always-generate
/// generates without persisting, load-from-file always loads, and the
/// combined mode loads exactly when both files exist, otherwise generates
/// and persists only when asked to.
pub fn certificate_action(mode: CertificateRetrievalMode, cert_file_exists: bool, key_file_exists: bool) -> (r: CertAction)
    ensures
        mode matches CertificateRetrievalMode::GenerateSelfSigned { server_hostname } ==> r
            == (CertAction::Generate { server_hostname, save_files: None }),
        mode matches CertificateRetrievalMode::LoadFromFile { cert_file, key_file } ==> r == (
        CertAction::Load { cert_file, key_file }),
        mode matches CertificateRetrievalMode::LoadFromFileOrGenerateSelfSigned {
            cert_file,
            key_file,
            save_on_disk,
            server_hostname,
        } ==> r == (if cert_file_exists && key_file_exists {
            CertAction::Load { cert_file, key_file }
        } else {
            CertAction::Generate {
                server_hostname,
                save_files: if save_on_disk {
                    Some((cert_file, key_file))
                } else {
                    None
                },
            }
        }),
{
    match mode {
        CertificateRetrievalMode::GenerateSelfSigned { server_hostname } => CertAction::Generate {
            server_hostname,
            save_files: None,
        },
        CertificateRetrievalMode::LoadFromFile { cert_file, key_file } => CertAction::Load {
            cert_file,
            key_file,
        },
        CertificateRetrievalMode::LoadFromFileOrGenerateSelfSigned {
            cert_file,
            key_file,
            save_on_disk,
            server_hostname,
        } => {
            if cert_file_exists && key_file_exists {
                CertAction::Load { cert_file, key_file }
            } else {
                CertAction::Generate {
                    server_hostname,
                    save_files: if save_on_disk {
                        Some((cert_file, key_file))
                    } else {
                        None
                    },
                }
            }
        },
    }
}

/// The origin that a certificate-retrieval action reports for what it
/// produced.
pub fn action_origin(action: &CertAction) -> (r: CertOrigin)
    ensures
        action matches CertAction::Load { .. } ==> r is Loaded,
        action matches CertAction::Generate { server_hostname, .. } ==> r == (
        CertOrigin::Generated { server_hostname: *server_hostname }),
{
    match action {
        CertAction::Load { .. } => CertOrigin::Loaded,
        CertAction::Generate { server_hostname, .. } => CertOrigin::Generated {
            server_hostname: server_hostname.clone(),
        },
    }
}

} // verus!
