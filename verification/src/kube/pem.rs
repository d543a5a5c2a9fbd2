//! The calls into the TLS library: reading PEM sections and checking that a
//! key can sign.

use vstd::prelude::*;
use std::sync::Arc;
use tokio_rustls::rustls::internal::pemfile::{certs, rsa_private_keys};
use tokio_rustls::rustls::sign::RSASigningKey;
use tokio_rustls::rustls::PrivateKey;

verus! {

/// The DER bodies of the `CERTIFICATE` sections of a PEM text, in their
/// order, as the TLS library reads them; `None` where it rejects the text.
pub uninterp spec fn pem_certificates(pem: Seq<u8>) -> Option<Seq<Seq<u8>>>;

/// The DER bodies of the `RSA PRIVATE KEY` sections of a PEM text, in their
/// order, as the TLS library reads them; `None` where it rejects the text.
pub uninterp spec fn pem_rsa_private_keys(pem: Seq<u8>) -> Option<Seq<Seq<u8>>>;

/// Whether the TLS library takes a DER encoding as an RSA signing key.
pub uninterp spec fn rsa_key_accepted(der: Seq<u8>) -> bool;

/// What a list of byte strings holds.
pub open spec fn sections_of(list: Option<Vec<Vec<u8>>>) -> Option<Seq<Seq<u8>>> {
    match list {
        Some(l) => Some(l.deep_view()),
        None => None,
    }
}

/// Calls `rustls::internal::pemfile::certs` on an in-memory text. Trusted:
/// the result is a function of the bytes alone, which `pem_certificates`
/// names; nothing more is claimed of it.
#[verifier::external_body]
pub(crate) fn read_certificates(pem: &Vec<u8>) -> (found: Option<Vec<Vec<u8>>>)
    ensures
        sections_of(found) == pem_certificates(pem@),
{
    let mut rd: &[u8] = pem.as_slice();
    certs(&mut rd).ok().map(|list| list.into_iter().map(|c| c.0).collect())
}

/// Calls `rustls::internal::pemfile::rsa_private_keys` on an in-memory text.
/// Trusted: the result is a function of the bytes alone, which
/// `pem_rsa_private_keys` names; nothing more is claimed of it.
#[verifier::external_body]
pub(crate) fn read_rsa_private_keys(pem: &Vec<u8>) -> (found: Option<Vec<Vec<u8>>>)
    ensures
        sections_of(found) == pem_rsa_private_keys(pem@),
{
    let mut rd: &[u8] = pem.as_slice();
    rsa_private_keys(&mut rd).ok().map(|list| list.into_iter().map(|k| k.0).collect())
}

/// Calls `rustls::sign::RSASigningKey::new` on a DER encoding and tells
/// whether it gave a key. Trusted: the answer is a function of the bytes
/// alone, which `rsa_key_accepted` names.
#[verifier::external_body]
pub(crate) fn accepts_rsa_key(der: &Vec<u8>) -> (accepted: bool)
    ensures
        accepted == rsa_key_accepted(der@),
{
    RSASigningKey::new(&PrivateKey(der.clone())).is_ok()
}

/// Calls `Arc::clone`. Trusted: the new handle points at the same value.
#[verifier::external_body]
pub(crate) fn share<T>(handle: &Arc<T>) -> (other: Arc<T>)
    ensures
        other == *handle,
{
    Arc::clone(handle)
}

} // verus!
