//! Choosing the certificate for a handshake.

use vstd::prelude::*;
use std::sync::Arc;
use crate::kube::Kube;
use crate::kube::certs::CertificateEntry;

verus! {

/// The text of an optional server name.
pub open spec fn name_of(server_name: Option<&str>) -> Option<Seq<char>> {
    match server_name {
        Some(name) => Some(name@),
        None => None,
    }
}

/// Picks the certificate for the server name that a client sent: the entry
/// bound to exactly that name, and none for a client that sent no name or a
/// name that is not bound. Names are compared as they are, without folding
/// case and without wildcards.
pub fn resolve(kube: &Kube, server_name: Option<&str>) -> (found: Option<Arc<CertificateEntry>>)
    ensures
        match found {
            Some(entry) => name_of(server_name) matches Some(name) && kube@.bindings.contains_key(
                name,
            ) && kube@.bindings[name] == entry@,
            None => name_of(server_name) matches Some(name) ==> !kube@.bindings.contains_key(
                name,
            ),
        },
{
    match server_name {
        Some(name) => kube.get_cert(name),
        None => None,
    }
}

} // verus!
