//! The errors of formal checks.

use vstd::prelude::*;

verus! {

/// What can go wrong with a certificate.
#[derive(Debug, PartialEq, Eq)]
pub enum CertificateError {
    Violated { name: String, reason: String },
    InvalidCertificate(String),
    VerificationFailed(String),
}

} // verus!
