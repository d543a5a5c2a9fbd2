//! Certificates and keys, and the hosts they are bound to.

use vstd::prelude::*;
use std::sync::Arc;
use crate::kube::pem::{accepts_rsa_key, rsa_key_accepted, sections_of, share};
use crate::kube::state::SecretParseError;
use crate::text::same_text;

verus! {

/// A certificate chain and the key that signs for it.
#[derive(Debug, Clone, PartialEq, Eq)]
pub struct CertificateEntry {
    /// DER-encoded certificates, the leaf first.
    pub certificate_chain: Vec<Vec<u8>>,
    /// The DER encoding of the RSA private key.
    pub private_key: Vec<u8>,
}

/// What a [`CertificateEntry`] is.
pub struct EntryView {
    pub certificate_chain: Seq<Seq<u8>>,
    pub private_key: Seq<u8>,
}

impl View for CertificateEntry {
    type V = EntryView;

    open spec fn view(&self) -> EntryView {
        EntryView {
            certificate_chain: self.certificate_chain.deep_view(),
            private_key: self.private_key@,
        }
    }
}

/// The entry that parsed PEM sections give: the whole chain and the first
/// key. A chain that was rejected or is empty is an invalid certificate; a
/// key list that was rejected or is empty, or a first key that cannot sign,
/// is an invalid private key. The chain is judged first.
pub open spec fn entry_of_sections(
    chain: Option<Seq<Seq<u8>>>,
    keys: Option<Seq<Seq<u8>>>,
) -> Result<EntryView, SecretParseError> {
    match chain {
        None => Err(SecretParseError::InvalidCertificate),
        Some(chain) => if chain.len() == 0 {
            Err(SecretParseError::InvalidCertificate)
        } else {
            match keys {
                None => Err(SecretParseError::InvalidPrivateKey),
                Some(keys) => if keys.len() == 0 || !rsa_key_accepted(keys[0]) {
                    Err(SecretParseError::InvalidPrivateKey)
                } else {
                    Ok(EntryView { certificate_chain: chain, private_key: keys[0] })
                },
            }
        },
    }
}

impl CertificateEntry {
    /// Builds an entry from the sections that were read from a secret's two
    /// PEM texts.
    pub fn from_sections(chain: Option<Vec<Vec<u8>>>, keys: Option<Vec<Vec<u8>>>) -> (made: Result<
        CertificateEntry,
        SecretParseError,
    >)
        ensures
            match entry_of_sections(sections_of(chain), sections_of(keys)) {
                Ok(view) => made matches Ok(entry) && entry@ == view,
                Err(e) => made == Err::<CertificateEntry, _>(e),
            },
    {
        let certificate_chain = match chain {
            Some(certificate_chain) => certificate_chain,
            None => {
                return Err(SecretParseError::InvalidCertificate);
            },
        };
        if certificate_chain.len() == 0 {
            return Err(SecretParseError::InvalidCertificate);
        }
        let mut keys = match keys {
            Some(keys) => keys,
            None => {
                return Err(SecretParseError::InvalidPrivateKey);
            },
        };
        if keys.len() == 0 {
            return Err(SecretParseError::InvalidPrivateKey);
        }
        let ghost first = keys.deep_view()[0];
        let private_key = keys.swap_remove(0);
        assert(private_key@ == first);
        if !accepts_rsa_key(&private_key) {
            return Err(SecretParseError::InvalidPrivateKey);
        }
        Ok(CertificateEntry { certificate_chain, private_key })
    }
}

/// One host and the entry that serves it.
struct HostBinding {
    host: String,
    entry: Arc<CertificateEntry>,
}

/// The certificate bindings: each host has at most one entry.
pub struct CertificateStore {
    bindings: Vec<HostBinding>,
}

impl CertificateStore {
    #[verifier::type_invariant]
    spec fn hosts_differ(self) -> bool {
        forall|i: int, j: int|
            0 <= i < j < self.bindings@.len() ==> self.bindings@[i].host@ != self.bindings@[j].host@
    }

    /// Whether some binding is for `host`.
    spec fn binds(self, host: Seq<char>) -> bool {
        exists|i: int| 0 <= i < self.bindings@.len() && self.bindings@[i].host@ == host
    }

    /// The place of the binding for `host`.
    spec fn place(self, host: Seq<char>) -> int {
        choose|i: int| 0 <= i < self.bindings@.len() && self.bindings@[i].host@ == host
    }

    /// Finds the binding for `host`.
    fn position(&self, host: &str) -> (at: Option<usize>)
        ensures
            match at {
                Some(i) => i < self.bindings@.len() && self.bindings@[i as int].host@ == host@,
                None => !self.binds(host@),
            },
    {
        let mut i: usize = 0;
        while i < self.bindings.len()
            invariant
                i <= self.bindings.len(),
                forall|k: int| 0 <= k < i ==> self.bindings@[k].host@ != host@,
            decreases self.bindings.len() - i,
        {
            if same_text(self.bindings[i].host.as_str(), host) {
                return Some(i);
            }
            i += 1;
        }
        None
    }
}

impl View for CertificateStore {
    type V = Map<Seq<char>, EntryView>;

    closed spec fn view(&self) -> Map<Seq<char>, EntryView> {
        Map::new(
            |host: Seq<char>| self.binds(host),
            |host: Seq<char>| self.bindings@[self.place(host)].entry@,
        )
    }
}

impl CertificateStore {
    /// A store without bindings.
    pub fn new() -> (store: CertificateStore)
        ensures
            store@ == Map::<Seq<char>, EntryView>::empty(),
    {
        let store = CertificateStore { bindings: Vec::new() };
        assert(store@ =~= Map::<Seq<char>, EntryView>::empty());
        store
    }

    /// Binds `host` to `entry`, in place of what it was bound to.
    pub fn put(&mut self, host: String, entry: Arc<CertificateEntry>)
        ensures
            final(self)@ == old(self)@.insert(host@, entry@),
    {
        proof {
            use_type_invariant(&*self);
        }
        let at = self.position(host.as_str());
        let mut bindings: Vec<HostBinding> = Vec::new();
        std::mem::swap(&mut bindings, &mut self.bindings);
        let ghost before = bindings@;
        match at {
            Some(i) => {
                bindings.set(i, HostBinding { host, entry });
            },
            None => {
                bindings.push(HostBinding { host, entry });
            },
        }
        self.bindings = bindings;
        proof {
            let old_store = *old(self);
            let new_store = *final(self);
            assert forall|h: Seq<char>|
                new_store.binds(h) == (old_store.binds(h) || h == host@) by {
                if old_store.binds(h) {
                    let k = old_store.place(h);
                    assert(new_store.bindings@[k].host@ == h);
                }
                if h == host@ {
                    let k = match at {
                        Some(i) => i as int,
                        None => before.len() as int,
                    };
                    assert(new_store.bindings@[k].host@ == h);
                }
                if new_store.binds(h) && h != host@ {
                    let k = new_store.place(h);
                    assert(old_store.bindings@[k].host@ == h);
                }
            }
            assert forall|h: Seq<char>| new_store.binds(h) implies new_store@[h] == old(
                self,
            )@.insert(host@, entry@)[h] by {
                let k = new_store.place(h);
                if h != host@ {
                    assert(old_store.bindings@[k].host@ == h);
                    assert(old_store.binds(h));
                    assert(old_store.place(h) == k);
                }
            }
            assert(final(self)@ =~= old(self)@.insert(host@, entry@));
        }
    }

    /// Removes the binding of `host`, if it has one.
    pub fn remove(&mut self, host: &str)
        ensures
            final(self)@ == old(self)@.remove(host@),
    {
        proof {
            use_type_invariant(&*self);
        }
        let at = self.position(host);
        match at {
            Some(i) => {
                let mut bindings: Vec<HostBinding> = Vec::new();
                std::mem::swap(&mut bindings, &mut self.bindings);
                let _ = bindings.remove(i);
                self.bindings = bindings;
                proof {
                    let old_store = *old(self);
                    let new_store = *final(self);
                    assert forall|h: Seq<char>| new_store.binds(h) == (old_store.binds(h) && h
                        != host@) by {
                        if old_store.binds(h) && h != host@ {
                            let k = old_store.place(h);
                            if k < i {
                                assert(new_store.bindings@[k].host@ == h);
                            } else {
                                assert(new_store.bindings@[k - 1].host@ == h);
                            }
                        }
                        if new_store.binds(h) {
                            let k = new_store.place(h);
                            if k < i {
                                assert(old_store.bindings@[k].host@ == h);
                            } else {
                                assert(old_store.bindings@[k + 1].host@ == h);
                            }
                        }
                    }
                    assert forall|h: Seq<char>| new_store.binds(h) implies new_store@[h] == old(
                        self,
                    )@[h] by {
                        let k = new_store.place(h);
                        if k < i {
                            assert(old_store.bindings@[k].host@ == h);
                            assert(old_store.place(h) == k);
                        } else {
                            assert(old_store.bindings@[k + 1].host@ == h);
                            assert(old_store.place(h) == k + 1);
                        }
                    }
                    assert(final(self)@ =~= old(self)@.remove(host@));
                }
            },
            None => {
                assert(final(self)@ =~= old(self)@.remove(host@));
            },
        }
    }

    /// The entry that `host` is bound to, shared with the store.
    pub fn get(&self, host: &str) -> (found: Option<Arc<CertificateEntry>>)
        ensures
            match found {
                Some(entry) => self@.contains_key(host@) && self@[host@] == entry@,
                None => !self@.contains_key(host@),
            },
    {
        proof {
            use_type_invariant(self);
        }
        match self.position(host) {
            Some(i) => {
                assert(self.binds(host@));
                assert(self.place(host@) == i);
                Some(share(&self.bindings[i].entry))
            },
            None => None,
        }
    }
}

/// The bindings after every host of `hosts` was bound to `entry`: those
/// hosts have `entry`, the others keep what they had.
pub open spec fn bind_all(
    bindings: Map<Seq<char>, EntryView>,
    hosts: Seq<Seq<char>>,
    entry: EntryView,
) -> Map<Seq<char>, EntryView> {
    Map::new(
        |host: Seq<char>| hosts.contains(host) || bindings.contains_key(host),
        |host: Seq<char>|
            if hosts.contains(host) {
                entry
            } else {
                bindings[host]
            },
    )
}

/// The bindings after every host of `hosts` was removed: those hosts have
/// none, the others keep what they had.
pub open spec fn unbind_all(bindings: Map<Seq<char>, EntryView>, hosts: Seq<Seq<char>>) -> Map<
    Seq<char>,
    EntryView,
> {
    Map::new(
        |host: Seq<char>| !hosts.contains(host) && bindings.contains_key(host),
        |host: Seq<char>| bindings[host],
    )
}

impl CertificateStore {
    /// Binds every host of `hosts` to `entry`, which they then share.
    pub fn bind_all(&mut self, hosts: Vec<String>, entry: Arc<CertificateEntry>)
        ensures
            final(self)@ == bind_all(old(self)@, hosts.deep_view(), entry@),
    {
        let ghost names = hosts.deep_view();
        assert(names.take(0) == Seq::<Seq<char>>::empty());
        assert(self@ =~= bind_all(old(self)@, names.take(0), entry@));
        for host in iter: hosts
            invariant
                iter.seq().len() == names.len(),
                forall|k: int| 0 <= k < names.len() ==> (#[trigger] iter.seq()[k])@ == names[k],
                self@ == bind_all(old(self)@, names.take(iter.index() as int), entry@),
        {
            let ghost done = names.take(iter.index() as int);
            let ghost next = names.take(iter.index() + 1);
            self.put(host, share(&entry));
            proof {
                assert(host@ == names[iter.index() as int]);
                assert(next == done.push(host@));
                assert forall|h: Seq<char>| next.contains(h) == (done.contains(h) || h
                    == host@) by {
                    if done.contains(h) {
                        let k = choose|k: int| 0 <= k < done.len() && done[k] == h;
                        assert(next[k] == h);
                    }
                    if h == host@ {
                        assert(next[next.len() - 1] == h);
                    }
                }
                assert(self@ =~= bind_all(old(self)@, next, entry@));
            }
        }
        assert(names.take(names.len() as int) == names);
    }

    /// Removes the binding of every host of `hosts`.
    pub fn unbind_all(&mut self, hosts: &Vec<String>)
        ensures
            final(self)@ == unbind_all(old(self)@, hosts.deep_view()),
    {
        let ghost names = hosts.deep_view();
        assert(names.take(0) == Seq::<Seq<char>>::empty());
        assert(self@ =~= unbind_all(old(self)@, names.take(0)));
        let mut i: usize = 0;
        while i < hosts.len()
            invariant
                i <= hosts.len(),
                names == hosts.deep_view(),
                self@ == unbind_all(old(self)@, names.take(i as int)),
            decreases hosts.len() - i,
        {
            let ghost done = names.take(i as int);
            let ghost next = names.take(i + 1);
            let host = &hosts[i];
            self.remove(host.as_str());
            proof {
                assert(host@ == names[i as int]);
                assert(next == done.push(host@));
                assert forall|h: Seq<char>| next.contains(h) == (done.contains(h) || h
                    == host@) by {
                    if done.contains(h) {
                        let k = choose|k: int| 0 <= k < done.len() && done[k] == h;
                        assert(next[k] == h);
                    }
                    if h == host@ {
                        assert(next[next.len() - 1] == h);
                    }
                }
                assert(self@ =~= unbind_all(old(self)@, next));
            }
            i += 1;
        }
        assert(names.take(names.len() as int) == names);
    }
}

} // verus!
