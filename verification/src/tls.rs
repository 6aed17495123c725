//! The certificates that the service shows to its clients.

use crate::text;
use tokio_rustls::rustls::pki_types::pem::PemObject;
use tokio_rustls::rustls::pki_types::CertificateDer;
use vstd::prelude::*;
use vstd::string::*;

verus! {

/// The view of certificates, or of the reason why there are none.
pub open spec fn certificates_view(certificates: Result<Vec<Vec<u8>>, String>) -> Result<
    Seq<Seq<u8>>,
    Seq<char>,
> {
    match certificates {
        Ok(list) => Ok(text::views(list@)),
        Err(reason) => Err(reason@),
    }
}

/// The certificates in a PEM file, each as the bytes of its DER form, or the
/// message with which `rustls-pki-types` rejects the file.
pub uninterp spec fn certificate_list(pem: Seq<u8>) -> Result<Seq<Seq<u8>>, Seq<char>>;

/// Calls `CertificateDer::pem_slice_iter` and collects what it yields up to the
/// first error; `certificate_list` stands for the outcome, which depends on the
/// bytes alone.
#[verifier::external_body]
fn parse_certificates(pem: &[u8]) -> (certificates: Result<Vec<Vec<u8>>, String>)
    ensures
        certificates_view(certificates) == certificate_list(pem@),
{
    match CertificateDer::pem_slice_iter(pem).collect::<Result<Vec<_>, _>>() {
        Ok(list) => Ok(list.iter().map(|certificate| certificate.as_ref().to_vec()).collect()),
        Err(err) => Err(err.to_string()),
    }
}

/// The certificates of the file at `path`, given the reading of its content.
pub open spec fn loaded(
    path: Seq<char>,
    parsed: Result<Seq<Seq<u8>>, Seq<char>>,
) -> Result<Seq<Seq<u8>>, Seq<char>> {
    match parsed {
        Ok(list) => Ok(list),
        Err(reason) => Err("failed to parse certificate file "@ + path + ": "@ + reason),
    }
}

/// The certificates of the file at `path`, given the reading of its content.
pub fn certificates_of(path: &str, parsed: Result<Vec<Vec<u8>>, String>) -> (certificates: Result<
    Vec<Vec<u8>>,
    String,
>)
    ensures
        certificates_view(certificates) == loaded(path@, certificates_view(parsed)),
{
    match parsed {
        Ok(list) => Ok(list),
        Err(reason) => Err(
            "failed to parse certificate file ".to_owned().concat(path).concat(": ").concat(
                reason.as_str(),
            ),
        ),
    }
}

/// The certificates of the file at `path`, given its content or the reason why
/// it could not be read.
pub fn load_certificates(path: &str, raw: Result<Vec<u8>, String>) -> (certificates: Result<
    Vec<Vec<u8>>,
    String,
>)
    ensures
        certificates_view(certificates) == (match raw {
            Ok(pem) => loaded(path@, certificate_list(pem@)),
            Err(reason) => Err("failed to read certificate file "@ + path@ + ": "@ + reason@),
        }),
{
    match raw {
        Ok(pem) => certificates_of(path, parse_certificates(pem.as_slice())),
        Err(reason) => Err(
            "failed to read certificate file ".to_owned().concat(path).concat(": ").concat(
                reason.as_str(),
            ),
        ),
    }
}

/// Certificates that can be read are passed on, all of them and in order; what
/// cannot be read is refused with the path of the file and the reason.
pub proof fn law_readable_certificates_are_passed_on(
    path: Seq<char>,
    list: Seq<Seq<u8>>,
    reason: Seq<char>,
    certificates: Vec<Vec<u8>>,
    message: String,
)
    ensures
        loaded(path, Ok(list)) == Ok::<Seq<Seq<u8>>, Seq<char>>(list),
        loaded(path, Err(reason)) == Err::<Seq<Seq<u8>>, Seq<char>>(
            "failed to parse certificate file "@ + path + ": "@ + reason,
        ),
        certificates_view(Ok(certificates)) == Ok::<Seq<Seq<u8>>, Seq<char>>(
            text::views(certificates@),
        ),
        certificates_view(Err(message)) == Err::<Seq<Seq<u8>>, Seq<char>>(message@),
{
}

} // verus!
