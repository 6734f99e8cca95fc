//! Certificates and keys for the TLS listener, read from PEM text.

use vstd::prelude::*;

verus! {

/// The DER contents of the `CERTIFICATE` sections of `pem`, in order, as
/// `rustls`'s PEM reader finds them; `None` when a section does not decode.
pub uninterp spec fn pem_certificates(pem: Seq<u8>) -> Option<Seq<Seq<u8>>>;

/// The DER contents of the PKCS #8 `PRIVATE KEY` sections of `pem`, in
/// order, as `rustls`'s PEM reader finds them; `None` when a section does not
/// decode.
pub uninterp spec fn pem_pkcs8_keys(pem: Seq<u8>) -> Option<Seq<Seq<u8>>>;

/// `rustls::internal::pemfile::certs` on the bytes `pem`, each certificate
/// taken as its DER bytes. Reading from a byte slice cannot fail, so `None`
/// comes only from a section that does not decode.
#[verifier::external_body]
fn parse_pem_certificates(pem: &[u8]) -> (r: Option<Vec<Vec<u8>>>)
    ensures
        match r {
            Some(v) => pem_certificates(pem@) == Some(v@.map_values(|c: Vec<u8>| c@)),
            None => pem_certificates(pem@) is None,
        },
{
    match rustls::internal::pemfile::certs(&mut &pem[..]) {
        Ok(cs) => Some(cs.into_iter().map(|c| c.0).collect()),
        Err(_) => None,
    }
}

/// `rustls::internal::pemfile::pkcs8_private_keys` on the bytes `pem`, each
/// key taken as its DER bytes. Reading from a byte slice cannot fail, so
/// `None` comes only from a section that does not decode.
#[verifier::external_body]
fn parse_pem_pkcs8_keys(pem: &[u8]) -> (r: Option<Vec<Vec<u8>>>)
    ensures
        match r {
            Some(v) => pem_pkcs8_keys(pem@) == Some(v@.map_values(|k: Vec<u8>| k@)),
            None => pem_pkcs8_keys(pem@) is None,
        },
{
    match rustls::internal::pemfile::pkcs8_private_keys(&mut &pem[..]) {
        Ok(ks) => Some(ks.into_iter().map(|k| k.0).collect()),
        Err(_) => None,
    }
}

/// Why a domain's certificate and key could not be loaded.
pub enum CertLoadError {
    /// The certificate file does not parse.
    CertsUnparsable,
    /// The key file does not parse.
    KeysUnparsable,
    /// The key file parses but holds no PKCS #8 key.
    NoKey,
}

/// The certificate chain of `cert_pem` and the first PKCS #8 key of
/// `key_pem`, as DER bytes. The certificates are read first.
pub fn cert_and_key(cert_pem: &[u8], key_pem: &[u8]) -> (r: Result<(Vec<Vec<u8>>, Vec<u8>), CertLoadError>)
    ensures
        match (pem_certificates(cert_pem@), pem_pkcs8_keys(key_pem@)) {
            (None, _) => r matches Err(CertLoadError::CertsUnparsable),
            (Some(_), None) => r matches Err(CertLoadError::KeysUnparsable),
            (Some(cs), Some(ks)) => if ks.len() == 0 {
                r matches Err(CertLoadError::NoKey)
            } else {
                r matches Ok((c, k)) && c@.map_values(|v: Vec<u8>| v@) == cs && k@ == ks[0]
            },
        },
{
    let certs = match parse_pem_certificates(cert_pem) {
        Some(c) => c,
        None => {
            return Err(CertLoadError::CertsUnparsable);
        },
    };
    let mut keys = match parse_pem_pkcs8_keys(key_pem) {
        Some(k) => k,
        None => {
            return Err(CertLoadError::KeysUnparsable);
        },
    };
    if keys.len() == 0 {
        return Err(CertLoadError::NoKey);
    }
    let ghost ks = keys@.map_values(|k: Vec<u8>| k@);
    let key = keys.remove(0);
    assert(key@ == ks[0]);
    Ok((certs, key))
}

} // verus!
