//! The state that the control plane drives: the routing snapshot and the
//! certificate bindings.

use vstd::prelude::*;
use vstd::string::*;
use std::sync::Arc;
use crate::kube::api::{ApiIngress, ApiSecret, WatchEvent, annotation_value, datum_bytes};
use crate::kube::certs::{
    CertificateEntry, CertificateStore, EntryView, bind_all, entry_of_sections, unbind_all,
};
use crate::kube::pem::{
    pem_certificates, pem_rsa_private_keys, read_certificates, read_rsa_private_keys,
};
use crate::kube::state::{
    BackendView, Ingress, IngressBackend, IngressParseError, IngressView, SecretParseError,
    host_matches, ingress_complete, lemma_ingress_read, parsed_ingress, select_path, select_rule,
    upstream_host,
};
use crate::text::{filled_pieces, same_text, split_filled, starts_with};

pub mod api;
pub mod certs;
pub mod pem;
pub mod state;

verus! {

/// The annotation that names the controller an ingress belongs to.
pub const INGRESS_CLASS_KEY: &'static str = "kubernetes.io/ingress.class";

/// The class of the ingresses that this proxy serves.
pub const INGRESS_CLASS: &'static str = "aether";

/// The type of the secrets that hold a certificate and its key.
pub const TLS_SECRET_TYPE: &'static str = "kubernetes.io/tls";

/// The annotation that lists the hosts a secret's certificate serves.
pub const HOSTS_KEY: &'static str = "aether.rs/hosts";

/// The data key of a secret's certificate chain.
pub const CERTIFICATE_KEY: &'static str = "tls.crt";

/// The data key of a secret's private key.
pub const PRIVATE_KEY_KEY: &'static str = "tls.key";

/// The proxy's view of the cluster: at most one routing snapshot, and the
/// certificate bindings.
pub struct Kube {
    ingress: Option<Ingress>,
    certificates: CertificateStore,
}

/// What a [`Kube`] is.
pub struct KubeView {
    pub snapshot: Option<IngressView>,
    pub bindings: Map<Seq<char>, EntryView>,
}

impl View for Kube {
    type V = KubeView;

    closed spec fn view(&self) -> KubeView {
        KubeView {
            snapshot: match self.ingress {
                Some(i) => Some(i@),
                None => None,
            },
            bindings: self.certificates@,
        }
    }
}

/// Why a request found no upstream.
#[derive(Debug, PartialEq, Eq)]
pub enum AuthorityError {
    /// No routing snapshot is installed.
    NoIngress,
    /// The snapshot has neither a matching path nor a default route.
    NoBackend,
}

/// The text of an optional string.
pub open spec fn text_of(s: Option<&str>) -> Option<Seq<char>> {
    match s {
        Some(t) => Some(t@),
        None => None,
    }
}

/// What a lookup answers: the upstream host and port that the installed
/// snapshot gives to the request, or why there is none.
pub open spec fn authority_result(
    snapshot: Option<IngressView>,
    virt_host: Option<Seq<char>>,
    req_path: Seq<char>,
) -> Result<(Seq<char>, u32), AuthorityError> {
    match snapshot {
        None => Err(AuthorityError::NoIngress),
        Some(snap) => match snap.authority_for(virt_host, req_path) {
            None => Err(AuthorityError::NoBackend),
            Some(found) => Ok(found),
        },
    }
}

/// One write to the routing snapshot: a new snapshot in place of the old
/// one, or none.
pub enum SnapshotWrite {
    Replace(IngressView),
    Clear,
}

/// The snapshot that is installed after `writes` were applied in turn to
/// `start`. Each write takes effect whole, so only the last one counts.
pub open spec fn snapshot_after(
    start: Option<IngressView>,
    writes: Seq<SnapshotWrite>,
) -> Option<IngressView> {
    if writes.len() == 0 {
        start
    } else {
        match writes.last() {
            SnapshotWrite::Replace(snapshot) => Some(snapshot),
            SnapshotWrite::Clear => None,
        }
    }
}

/// A reader that comes anywhere among a series of writes sees one version
/// and no mixture: the snapshot from before the series, none, or one that a
/// single earlier write of the series installed.
pub proof fn lemma_reader_sees_one_version(
    start: Option<IngressView>,
    writes: Seq<SnapshotWrite>,
    k: int,
)
    requires
        0 <= k <= writes.len(),
    ensures
        ({
            let seen = snapshot_after(start, writes.take(k));
            ||| seen == start
            ||| seen is None
            ||| exists|i: int| 0 <= i < k && writes[i] == SnapshotWrite::Replace(seen->0)
        }),
{
    if k > 0 {
        assert(writes.take(k).last() == writes[k - 1]);
    }
}

/// What an optional backend is.
pub open spec fn backend_of(b: Option<&IngressBackend>) -> Option<BackendView> {
    match b {
        Some(x) => Some(x@),
        None => None,
    }
}

/// Whether an ingress carries this proxy's class annotation.
pub open spec fn is_own_ingress(api_ingress: ApiIngress) -> bool {
    annotation_value(api_ingress.metadata.annotations@, INGRESS_CLASS_KEY@) == Some(INGRESS_CLASS@)
}

/// The snapshot after an ingress was added or modified: the one it
/// describes, where it is of this proxy's class and complete; the earlier one
/// otherwise.
pub open spec fn after_set_ingress(
    snapshot: Option<IngressView>,
    api_ingress: ApiIngress,
) -> Option<IngressView> {
    if is_own_ingress(api_ingress) {
        match parsed_ingress(api_ingress) {
            Ok(ingress) => Some(ingress),
            Err(_) => snapshot,
        }
    } else {
        snapshot
    }
}

/// What adding or modifying an ingress reports: the parse error of one of
/// this proxy's class, and success otherwise.
pub open spec fn set_ingress_result(api_ingress: ApiIngress) -> Result<(), IngressParseError> {
    if is_own_ingress(api_ingress) {
        match parsed_ingress(api_ingress) {
            Ok(_) => Ok(()),
            Err(e) => Err(e),
        }
    } else {
        Ok(())
    }
}

/// The snapshot after an ingress was deleted: none, where it is of this
/// proxy's class; the earlier one otherwise.
pub open spec fn after_remove_ingress(
    snapshot: Option<IngressView>,
    api_ingress: ApiIngress,
) -> Option<IngressView> {
    if is_own_ingress(api_ingress) {
        None
    } else {
        snapshot
    }
}

/// Whether a secret is of the type that holds a certificate and its key.
pub open spec fn is_tls_secret(secret: ApiSecret) -> bool {
    secret.type_ matches Some(t) && t@ == TLS_SECRET_TYPE@
}

/// The hosts that a secret's annotation lists: the pieces between its commas
/// that are not empty, untrimmed. `None` where it has no such annotation.
pub open spec fn secret_hosts(secret: ApiSecret) -> Option<Seq<Seq<char>>> {
    match annotation_value(secret.metadata.annotations@, HOSTS_KEY@) {
        Some(list) => Some(filled_pieces(list, ',')),
        None => None,
    }
}

/// The entry that a secret's data give. The certificate is judged first: its
/// absence is missing data, a rejected or empty chain an invalid certificate.
/// Then the key: its absence is missing data, and a rejected or empty key
/// list, or a first key that cannot sign, an invalid private key.
pub open spec fn secret_entry(secret: ApiSecret) -> Result<EntryView, SecretParseError> {
    match datum_bytes(secret.data@, CERTIFICATE_KEY@) {
        None => Err(SecretParseError::NoSecretData),
        Some(crt) => {
            let chain = pem_certificates(crt);
            if chain is None || chain->0.len() == 0 {
                Err(SecretParseError::InvalidCertificate)
            } else {
                match datum_bytes(secret.data@, PRIVATE_KEY_KEY@) {
                    None => Err(SecretParseError::NoSecretData),
                    Some(key) => entry_of_sections(chain, pem_rsa_private_keys(key)),
                }
            }
        },
    }
}

/// The bindings after a secret was added or modified: every host that it
/// lists is bound to its entry, where it is a TLS secret with a host list and
/// sound data; nothing changes otherwise.
pub open spec fn after_set_secret(
    bindings: Map<Seq<char>, EntryView>,
    secret: ApiSecret,
) -> Map<Seq<char>, EntryView> {
    if is_tls_secret(secret) && secret_hosts(secret) is Some && secret_entry(secret) is Ok {
        bind_all(bindings, secret_hosts(secret)->0, secret_entry(secret)->Ok_0)
    } else {
        bindings
    }
}

/// What adding or modifying a secret reports: the error in the data of a TLS
/// secret that has a host list, and success otherwise.
pub open spec fn set_secret_result(secret: ApiSecret) -> Result<(), SecretParseError> {
    if is_tls_secret(secret) && secret_hosts(secret) is Some {
        match secret_entry(secret) {
            Ok(_) => Ok(()),
            Err(e) => Err(e),
        }
    } else {
        Ok(())
    }
}

/// The bindings after a secret was deleted: every host that it lists is
/// unbound, where it is a TLS secret with a host list; nothing changes
/// otherwise.
pub open spec fn after_remove_secret(
    bindings: Map<Seq<char>, EntryView>,
    secret: ApiSecret,
) -> Map<Seq<char>, EntryView> {
    if is_tls_secret(secret) && secret_hosts(secret) is Some {
        unbind_all(bindings, secret_hosts(secret)->0)
    } else {
        bindings
    }
}

/// An ingress of another class changes nothing, whether it is added,
/// modified or deleted.
pub proof fn lemma_other_class_is_ignored(snapshot: Option<IngressView>, api_ingress: ApiIngress)
    requires
        !is_own_ingress(api_ingress),
    ensures
        after_set_ingress(snapshot, api_ingress) == snapshot,
        after_remove_ingress(snapshot, api_ingress) == snapshot,
        set_ingress_result(api_ingress) == Ok::<(), IngressParseError>(()),
{
}

/// An ingress of this proxy's class that lacks a field is reported and
/// leaves the snapshot as it was.
pub proof fn lemma_incomplete_ingress_is_rejected(
    snapshot: Option<IngressView>,
    api_ingress: ApiIngress,
)
    requires
        is_own_ingress(api_ingress),
        !ingress_complete(api_ingress),
    ensures
        set_ingress_result(api_ingress) is Err,
        !(set_ingress_result(api_ingress)->Err_0 is WatchError),
        after_set_ingress(snapshot, api_ingress) == snapshot,
{
    lemma_ingress_read(api_ingress);
    crate::kube::state::lemma_parse_error_kinds(api_ingress);
}

/// Whether a secret binds its hosts when it is added or modified.
pub open spec fn secret_binds(secret: ApiSecret) -> bool {
    is_tls_secret(secret) && secret_hosts(secret) is Some && secret_entry(secret) is Ok
}

/// The last writer wins: after two secrets were taken in turn, a host that
/// the second binds has the second's certificate and key, whatever the first
/// held.
pub proof fn lemma_last_writer_wins(
    bindings: Map<Seq<char>, EntryView>,
    first: ApiSecret,
    second: ApiSecret,
    host: Seq<char>,
)
    requires
        secret_binds(second),
        secret_hosts(second)->0.contains(host),
    ensures
        after_set_secret(after_set_secret(bindings, first), second).contains_key(host),
        after_set_secret(after_set_secret(bindings, first), second)[host] == secret_entry(
            second,
        )->Ok_0,
{
}

/// A secret that binds its hosts leaves every other host as it was.
pub proof fn lemma_binding_is_isolated(
    bindings: Map<Seq<char>, EntryView>,
    secret: ApiSecret,
    host: Seq<char>,
)
    requires
        secret_hosts(secret) matches Some(hosts) ==> !hosts.contains(host),
    ensures
        after_set_secret(bindings, secret).contains_key(host) == bindings.contains_key(host),
        bindings.contains_key(host) ==> after_set_secret(bindings, secret)[host] == bindings[host],
{
}

/// Removal is isolated: after a TLS secret was deleted, the hosts that it
/// lists are unbound, and every other host is bound as before.
pub proof fn lemma_removal_is_isolated(
    bindings: Map<Seq<char>, EntryView>,
    secret: ApiSecret,
    host: Seq<char>,
)
    requires
        is_tls_secret(secret),
        secret_hosts(secret) is Some,
    ensures
        secret_hosts(secret)->0.contains(host) ==> !after_remove_secret(
            bindings,
            secret,
        ).contains_key(host),
        !secret_hosts(secret)->0.contains(host) ==> {
            &&& after_remove_secret(bindings, secret).contains_key(host) == bindings.contains_key(
                host,
            )
            &&& bindings.contains_key(host) ==> after_remove_secret(bindings, secret)[host]
                == bindings[host]
        },
{
}

/// The bound hosts are those that the secrets taken so far list, less those
/// of the secrets deleted: binding adds exactly the listed hosts, removal
/// takes exactly the listed hosts away.
pub proof fn lemma_bound_hosts(bindings: Map<Seq<char>, EntryView>, secret: ApiSecret)
    requires
        is_tls_secret(secret),
        secret_hosts(secret) is Some,
    ensures
        secret_entry(secret) is Ok ==> after_set_secret(bindings, secret).dom()
            == bindings.dom().union(secret_hosts(secret)->0.to_set()),
        secret_entry(secret) is Err ==> after_set_secret(bindings, secret) == bindings,
        after_remove_secret(bindings, secret).dom() == bindings.dom().difference(
            secret_hosts(secret)->0.to_set(),
        ),
{
    let hosts = secret_hosts(secret)->0;
    if secret_entry(secret) is Ok {
        assert(after_set_secret(bindings, secret).dom() =~= bindings.dom().union(hosts.to_set()));
    }
    assert(after_remove_secret(bindings, secret).dom() =~= bindings.dom().difference(
        hosts.to_set(),
    ));
}

/// Tells whether an ingress carries this proxy's class annotation.
fn has_own_class(api_ingress: &ApiIngress) -> (own: bool)
    ensures
        own == is_own_ingress(*api_ingress),
{
    match api_ingress.metadata.annotation(INGRESS_CLASS_KEY) {
        Some(class) => same_text(class.as_str(), INGRESS_CLASS),
        None => false,
    }
}

/// Reads the host list of a TLS secret; `None` for a secret of another type
/// or without the annotation.
fn listed_hosts(secret: &ApiSecret) -> (hosts: Option<Vec<String>>)
    ensures
        match hosts {
            Some(list) => is_tls_secret(*secret) && secret_hosts(*secret) == Some(
                list.deep_view(),
            ),
            None => !is_tls_secret(*secret) || secret_hosts(*secret) is None,
        },
{
    let type_matches = match &secret.type_ {
        Some(t) => same_text(t.as_str(), TLS_SECRET_TYPE),
        None => false,
    };
    if !type_matches {
        return None;
    }
    match secret.metadata.annotation(HOSTS_KEY) {
        Some(list) => Some(split_filled(list.as_str(), ',')),
        None => None,
    }
}

/// Reads the certificate chain and the key of a secret.
fn read_entry(secret: &ApiSecret) -> (made: Result<CertificateEntry, SecretParseError>)
    ensures
        match secret_entry(*secret) {
            Ok(view) => made matches Ok(entry) && entry@ == view,
            Err(e) => made == Err::<CertificateEntry, _>(e),
        },
{
    let crt = match secret.datum(CERTIFICATE_KEY) {
        Some(crt) => crt,
        None => {
            return Err(SecretParseError::NoSecretData);
        },
    };
    let chain = read_certificates(crt);
    let sound = match &chain {
        Some(list) => list.len() > 0,
        None => false,
    };
    if !sound {
        return Err(SecretParseError::InvalidCertificate);
    }
    let key = match secret.datum(PRIVATE_KEY_KEY) {
        Some(key) => key,
        None => {
            return Err(SecretParseError::NoSecretData);
        },
    };
    let keys = read_rsa_private_keys(key);
    CertificateEntry::from_sections(chain, keys)
}

impl Kube {
    /// A state with no snapshot and no bindings.
    pub fn new() -> (kube: Kube)
        ensures
            kube@.snapshot is None,
            kube@.bindings == Map::<Seq<char>, EntryView>::empty(),
    {
        Kube { ingress: None, certificates: CertificateStore::new() }
    }

    /// Installs `snapshot` in place of the one before it, whole.
    pub fn replace(&mut self, snapshot: Ingress)
        ensures
            final(self)@.snapshot == Some(snapshot@),
            final(self)@.snapshot == snapshot_after(
                old(self)@.snapshot,
                seq![SnapshotWrite::Replace(snapshot@)],
            ),
            final(self)@.bindings == old(self)@.bindings,
    {
        self.ingress = Some(snapshot);
    }

    /// Leaves no snapshot installed.
    pub fn clear(&mut self)
        ensures
            final(self)@.snapshot is None,
            final(self)@.snapshot == snapshot_after(old(self)@.snapshot, seq![SnapshotWrite::Clear]),
            final(self)@.bindings == old(self)@.bindings,
    {
        self.ingress = None;
    }

    /// Finds the upstream host and port for a request.
    ///
    /// The result is computed from the one snapshot that `self` holds: the
    /// last matching path of the last applicable rule wins over earlier ones
    /// and over the default route.
    pub fn get_authority(&self, virt_host: Option<&str>, req_path: &str) -> (found: Result<
        (String, u32),
        AuthorityError,
    >)
        ensures
            match authority_result(self@.snapshot, text_of(virt_host), req_path@) {
                Ok((host, port)) => found matches Ok((h, p)) && h@ == host && p == port,
                Err(e) => found == Err::<(String, u32), _>(e),
            },
    {
        let ingress = match &self.ingress {
            None => {
                return Err(AuthorityError::NoIngress);
            },
            Some(ingress) => ingress,
        };
        let mut backend: Option<&IngressBackend> = ingress.default_route.as_ref();
        let mut i: usize = 0;
        assert(ingress@.rules.take(0) == Seq::<crate::kube::state::RuleView>::empty());
        while i < ingress.rules.len()
            invariant
                i <= ingress.rules.len(),
                backend_of(backend) == select_rule(
                    ingress@.rules.take(i as int),
                    text_of(virt_host),
                    req_path@,
                    ingress@.default_route,
                ),
            decreases ingress.rules.len() - i,
        {
            let rule = &ingress.rules[i];
            let applies = match &rule.host {
                Some(host) => match virt_host {
                    Some(virt_host) => same_text(virt_host, host.as_str()),
                    None => true,
                },
                None => true,
            };
            proof {
                let upto = ingress@.rules.take(i + 1);
                assert(upto.drop_last() == ingress@.rules.take(i as int));
                assert(upto.last() == rule@);
                assert(applies == host_matches(rule@.host, text_of(virt_host)));
            }
            if applies {
                let ghost earlier = backend_of(backend);
                let mut j: usize = 0;
                assert(rule@.paths.take(0) == Seq::<crate::kube::state::PathView>::empty());
                while j < rule.paths.len()
                    invariant
                        j <= rule.paths.len(),
                        backend_of(backend) == select_path(
                            rule@.paths.take(j as int),
                            req_path@,
                            earlier,
                        ),
                    decreases rule.paths.len() - j,
                {
                    let path = &rule.paths[j];
                    proof {
                        let upto = rule@.paths.take(j + 1);
                        assert(upto.drop_last() == rule@.paths.take(j as int));
                        assert(upto.last() == path@);
                    }
                    if starts_with(req_path, path.path.as_str()) {
                        backend = Some(&path.backend);
                    }
                    j += 1;
                }
                assert(rule@.paths.take(j as int) == rule@.paths);
            }
            i += 1;
        }
        assert(ingress@.rules.take(i as int) == ingress@.rules);
        match backend {
            Some(backend) => {
                let mut host = backend.name.clone();
                host.append(".");
                host.append(ingress.namespace.as_str());
                proof {
                    reveal_strlit(".");
                    assert("."@ == seq!['.']);
                    assert(host@ == upstream_host(backend@, ingress@.namespace));
                }
                Ok((host, backend.port))
            },
            None => Err(AuthorityError::NoBackend),
        }
    }

    /// The entry that `host` is bound to, by its exact text.
    pub fn get_cert(&self, host: &str) -> (found: Option<Arc<CertificateEntry>>)
        ensures
            match found {
                Some(entry) => self@.bindings.contains_key(host@) && self@.bindings[host@]
                    == entry@,
                None => !self@.bindings.contains_key(host@),
            },
    {
        self.certificates.get(host)
    }

    /// Takes an added or modified ingress as the routing snapshot. One of
    /// another class is passed over; one that lacks a field is reported, and
    /// the earlier snapshot stays.
    pub fn set_ingress(&mut self, api_ingress: ApiIngress) -> (done: Result<
        (),
        IngressParseError,
    >)
        ensures
            done == set_ingress_result(api_ingress),
            final(self)@.snapshot == after_set_ingress(old(self)@.snapshot, api_ingress),
            final(self)@.bindings == old(self)@.bindings,
            !is_own_ingress(api_ingress) ==> done is Ok && final(self)@ == old(self)@,
            is_own_ingress(api_ingress) ==> (done is Ok <==> ingress_complete(api_ingress)),
            done is Err ==> final(self)@ == old(self)@,
    {
        proof {
            lemma_ingress_read(api_ingress);
        }
        if !has_own_class(&api_ingress) {
            return Ok(());
        }
        match Ingress::try_from(api_ingress) {
            Ok(ingress) => {
                self.replace(ingress);
                Ok(())
            },
            Err(e) => Err(e),
        }
    }

    /// Drops the routing snapshot when this proxy's ingress was deleted. One
    /// of another class is passed over.
    pub fn remove_ingress(&mut self, api_ingress: ApiIngress) -> (done: Result<
        (),
        IngressParseError,
    >)
        ensures
            done == Ok::<(), IngressParseError>(()),
            final(self)@.snapshot == after_remove_ingress(old(self)@.snapshot, api_ingress),
            final(self)@.bindings == old(self)@.bindings,
            !is_own_ingress(api_ingress) ==> final(self)@ == old(self)@,
    {
        if !has_own_class(&api_ingress) {
            return Ok(());
        }
        self.clear();
        Ok(())
    }

    /// Binds the hosts that an added or modified TLS secret lists to its
    /// certificate and key. A secret of another type or without a host list
    /// is passed over; one with unsound data is reported, and no binding
    /// changes.
    pub fn set_secret(&mut self, secret: ApiSecret) -> (done: Result<(), SecretParseError>)
        ensures
            done == set_secret_result(secret),
            final(self)@.bindings == after_set_secret(old(self)@.bindings, secret),
            final(self)@.snapshot == old(self)@.snapshot,
            done is Err ==> final(self)@ == old(self)@,
    {
        let hosts = match listed_hosts(&secret) {
            Some(hosts) => hosts,
            None => {
                return Ok(());
            },
        };
        let entry = match read_entry(&secret) {
            Ok(entry) => entry,
            Err(e) => {
                return Err(e);
            },
        };
        self.certificates.bind_all(hosts, Arc::new(entry));
        Ok(())
    }

    /// Unbinds the hosts that a deleted TLS secret lists. A secret of another
    /// type or without a host list is passed over.
    pub fn remove_secret(&mut self, secret: ApiSecret) -> (done: Result<(), SecretParseError>)
        ensures
            done == Ok::<(), SecretParseError>(()),
            final(self)@.bindings == after_remove_secret(old(self)@.bindings, secret),
            final(self)@.snapshot == old(self)@.snapshot,
    {
        let hosts = match listed_hosts(&secret) {
            Some(hosts) => hosts,
            None => {
                return Ok(());
            },
        };
        self.certificates.unbind_all(&hosts);
        Ok(())
    }

    /// Handles one event of the ingress watch: an added or modified ingress
    /// is taken, a deleted one dropped, a failure of the watch reported, and
    /// anything else passed over.
    pub fn on_ingress_event(&mut self, event: WatchEvent<ApiIngress>) -> (done: Result<
        (),
        IngressParseError,
    >)
        ensures
            final(self)@.bindings == old(self)@.bindings,
            match event {
                WatchEvent::Added(i) | WatchEvent::Modified(i) => {
                    &&& done == set_ingress_result(i)
                    &&& final(self)@.snapshot == after_set_ingress(old(self)@.snapshot, i)
                },
                WatchEvent::Deleted(i) => {
                    &&& done == Ok::<(), IngressParseError>(())
                    &&& final(self)@.snapshot == after_remove_ingress(old(self)@.snapshot, i)
                },
                WatchEvent::Error(e) => {
                    &&& done == Err::<(), _>(IngressParseError::WatchError(e))
                    &&& final(self)@.snapshot == old(self)@.snapshot
                },
                WatchEvent::Bookmark => {
                    &&& done == Ok::<(), IngressParseError>(())
                    &&& final(self)@.snapshot == old(self)@.snapshot
                },
            },
    {
        match event {
            WatchEvent::Added(ingress) => self.set_ingress(ingress),
            WatchEvent::Modified(ingress) => self.set_ingress(ingress),
            WatchEvent::Deleted(ingress) => self.remove_ingress(ingress),
            WatchEvent::Error(e) => Err(IngressParseError::WatchError(e)),
            WatchEvent::Bookmark => Ok(()),
        }
    }

    /// Handles one event of the secret watch: an added or modified secret is
    /// bound, a deleted one unbound, a failure of the watch reported, and
    /// anything else passed over.
    pub fn on_secret_event(&mut self, event: WatchEvent<ApiSecret>) -> (done: Result<
        (),
        SecretParseError,
    >)
        ensures
            final(self)@.snapshot == old(self)@.snapshot,
            match event {
                WatchEvent::Added(s) | WatchEvent::Modified(s) => {
                    &&& done == set_secret_result(s)
                    &&& final(self)@.bindings == after_set_secret(old(self)@.bindings, s)
                },
                WatchEvent::Deleted(s) => {
                    &&& done == Ok::<(), SecretParseError>(())
                    &&& final(self)@.bindings == after_remove_secret(old(self)@.bindings, s)
                },
                WatchEvent::Error(e) => {
                    &&& done == Err::<(), _>(SecretParseError::WatchError(e))
                    &&& final(self)@.bindings == old(self)@.bindings
                },
                WatchEvent::Bookmark => {
                    &&& done == Ok::<(), SecretParseError>(())
                    &&& final(self)@.bindings == old(self)@.bindings
                },
            },
    {
        match event {
            WatchEvent::Added(secret) => self.set_secret(secret),
            WatchEvent::Modified(secret) => self.set_secret(secret),
            WatchEvent::Deleted(secret) => self.remove_secret(secret),
            WatchEvent::Error(e) => Err(SecretParseError::WatchError(e)),
            WatchEvent::Bookmark => Ok(()),
        }
    }
}

} // verus!
