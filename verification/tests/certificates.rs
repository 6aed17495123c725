use axum_health::tls::{certificates_of, load_certificates};
use tokio_rustls::rustls::pki_types::pem::PemObject;
use tokio_rustls::rustls::pki_types::CertificateDer;

const TWO: &str = "some text\n\
    -----BEGIN CERTIFICATE-----\nAQID\n-----END CERTIFICATE-----\n\
    -----BEGIN PUBLIC KEY-----\nBwg=\n-----END PUBLIC KEY-----\n\
    -----BEGIN CERTIFICATE-----\nBAUG\nBw==\n-----END CERTIFICATE-----\n";

#[test]
fn certificates_are_read_in_order() {
    let certificates = load_certificates("cert.pem", Ok(TWO.as_bytes().to_vec()));
    assert_eq!(certificates, Ok(vec![vec![1, 2, 3], vec![4, 5, 6, 7]]));
}

#[test]
fn a_file_without_certificates_holds_none() {
    assert_eq!(load_certificates("cert.pem", Ok(vec![])), Ok(vec![]));
    let text = b"no certificate".to_vec();
    assert_eq!(load_certificates("cert.pem", Ok(text)), Ok(vec![]));
}

#[test]
fn unreadable_certificate_files_are_reported() {
    assert_eq!(
        load_certificates("certs/a.pem", Err("No such file".to_string())),
        Err("failed to read certificate file certs/a.pem: No such file".to_string())
    );
}

#[test]
fn malformed_certificate_files_are_reported() {
    for pem in [
        "-----BEGIN CERTIFICATE-----\nAQID\n",
        "-----BEGIN CERTIFICATE\nAQID\n",
        "-----BEGIN CERTIFICATE-----\n?\n-----END CERTIFICATE-----\n",
    ] {
        let reason = CertificateDer::pem_slice_iter(pem.as_bytes())
            .next()
            .unwrap()
            .unwrap_err();
        assert_eq!(
            load_certificates("a.pem", Ok(pem.as_bytes().to_vec())),
            Err(format!("failed to parse certificate file a.pem: {reason}"))
        );
    }
    assert_eq!(
        certificates_of("a.pem", Err("bad".to_string())),
        Err("failed to parse certificate file a.pem: bad".to_string())
    );
    assert_eq!(
        certificates_of("a.pem", Ok(vec![vec![1]])),
        Ok(vec![vec![1]])
    );
}
