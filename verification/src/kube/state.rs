//! The routing snapshot and the rules by which a request finds its backend.

use vstd::prelude::*;
use crate::text::has_prefix;
use crate::kube::api::{
    ApiBackend, ApiHttpPath, ApiIngress, ApiIngressRule, ErrorResponse,
};

verus! {

/// A target service inside the snapshot's namespace.
#[derive(Debug, Clone, PartialEq, Eq)]
pub struct IngressBackend {
    pub name: String,
    pub port: u32,
}

/// A literal path prefix and the backend that serves it.
#[derive(Debug, Clone, PartialEq, Eq)]
pub struct IngressPath {
    pub path: String,
    pub backend: IngressBackend,
}

/// The paths served for one virtual host, or for every host.
#[derive(Debug, Clone, PartialEq, Eq)]
pub struct IngressRule {
    pub host: Option<String>,
    pub paths: Vec<IngressPath>,
}

/// A routing snapshot: the whole routing policy at one moment.
#[derive(Debug, Clone, PartialEq, Eq)]
pub struct Ingress {
    pub namespace: String,
    pub default_route: Option<IngressBackend>,
    pub rules: Vec<IngressRule>,
}

/// What an [`IngressBackend`] is.
pub struct BackendView {
    pub name: Seq<char>,
    pub port: u32,
}

/// What an [`IngressPath`] is.
pub struct PathView {
    pub path: Seq<char>,
    pub backend: BackendView,
}

/// What an [`IngressRule`] is.
pub struct RuleView {
    pub host: Option<Seq<char>>,
    pub paths: Seq<PathView>,
}

/// What an [`Ingress`] is.
pub struct IngressView {
    pub namespace: Seq<char>,
    pub default_route: Option<BackendView>,
    pub rules: Seq<RuleView>,
}

impl View for IngressBackend {
    type V = BackendView;

    open spec fn view(&self) -> BackendView {
        BackendView { name: self.name@, port: self.port }
    }
}

impl View for IngressPath {
    type V = PathView;

    open spec fn view(&self) -> PathView {
        PathView { path: self.path@, backend: self.backend@ }
    }
}

impl View for IngressRule {
    type V = RuleView;

    open spec fn view(&self) -> RuleView {
        RuleView {
            host: match self.host {
                Some(h) => Some(h@),
                None => None,
            },
            paths: self.paths@.map_values(|p: IngressPath| p@),
        }
    }
}

impl View for Ingress {
    type V = IngressView;

    open spec fn view(&self) -> IngressView {
        IngressView {
            namespace: self.namespace@,
            default_route: match self.default_route {
                Some(b) => Some(b@),
                None => None,
            },
            rules: self.rules@.map_values(|r: IngressRule| r@),
        }
    }
}

/// Whether a rule for `rule_host` applies to a request for `virt_host`: a rule
/// without a host applies to every request, a request without a host is served
/// by every rule, and two hosts must be the same text.
pub open spec fn host_matches(rule_host: Option<Seq<char>>, virt_host: Option<Seq<char>>) -> bool {
    rule_host is None || virt_host is None || rule_host == virt_host
}

/// The backend that `paths` give to `req_path`: that of the last path that is
/// a prefix of it, and `fallback` where none is.
pub open spec fn select_path(
    paths: Seq<PathView>,
    req_path: Seq<char>,
    fallback: Option<BackendView>,
) -> Option<BackendView>
    decreases paths.len(),
{
    if paths.len() == 0 {
        fallback
    } else if has_prefix(req_path, paths.last().path) {
        Some(paths.last().backend)
    } else {
        select_path(paths.drop_last(), req_path, fallback)
    }
}

/// The backend that `rules` give to a request: the last matching path of the
/// last applicable rule that has one, and `fallback` where there is none.
pub open spec fn select_rule(
    rules: Seq<RuleView>,
    virt_host: Option<Seq<char>>,
    req_path: Seq<char>,
    fallback: Option<BackendView>,
) -> Option<BackendView>
    decreases rules.len(),
{
    if rules.len() == 0 {
        fallback
    } else {
        let earlier = select_rule(rules.drop_last(), virt_host, req_path, fallback);
        if host_matches(rules.last().host, virt_host) {
            select_path(rules.last().paths, req_path, earlier)
        } else {
            earlier
        }
    }
}

/// The host name under which a backend is reached from inside the cluster.
pub open spec fn upstream_host(backend: BackendView, namespace: Seq<char>) -> Seq<char> {
    backend.name + seq!['.'] + namespace
}

impl IngressView {
    /// The backend that this snapshot gives to a request, if any.
    pub open spec fn backend_for(self, virt_host: Option<Seq<char>>, req_path: Seq<char>) -> Option<
        BackendView,
    > {
        select_rule(self.rules, virt_host, req_path, self.default_route)
    }

    /// The upstream host and port for a request, if a backend serves it.
    pub open spec fn authority_for(
        self,
        virt_host: Option<Seq<char>>,
        req_path: Seq<char>,
    ) -> Option<(Seq<char>, u32)> {
        match self.backend_for(virt_host, req_path) {
            Some(b) => Some((upstream_host(b, self.namespace), b.port)),
            None => None,
        }
    }
}

/// Why an ingress object was not taken as the routing snapshot.
#[derive(Debug, PartialEq, Eq)]
pub enum IngressParseError {
    WatchError(ErrorResponse),
    MissingNamespace,
    MissingSpec,
    NoBackendService,
    NoServicePort,
    MissingHttpRule,
    MissingPath,
}

/// Why a secret was not taken into the certificate bindings.
#[derive(Debug, PartialEq, Eq)]
pub enum SecretParseError {
    WatchError(ErrorResponse),
    NoSecretData,
    InvalidPrivateKey,
    InvalidCertificate,
}

/// What a backend of the control plane becomes: its service's name and port
/// number, where both are there and the number is not negative.
pub open spec fn parsed_backend(api_backend: ApiBackend) -> Result<BackendView, IngressParseError> {
    match api_backend.service {
        None => Err(IngressParseError::NoBackendService),
        Some(api_service) => match api_service.port {
            None => Err(IngressParseError::NoServicePort),
            Some(api_port) => match api_port.number {
                None => Err(IngressParseError::NoServicePort),
                Some(number) => if number < 0 {
                    Err(IngressParseError::NoServicePort)
                } else {
                    Ok(BackendView { name: api_service.name@, port: number as u32 })
                },
            },
        },
    }
}

/// What a path of the control plane becomes: its prefix and its backend.
pub open spec fn parsed_path(api_path: ApiHttpPath) -> Result<PathView, IngressParseError> {
    match api_path.path {
        None => Err(IngressParseError::MissingPath),
        Some(path) => match parsed_backend(api_path.backend) {
            Err(e) => Err(e),
            Ok(backend) => Ok(PathView { path: path@, backend }),
        },
    }
}

/// The paths of a rule in their order, or the error of the first that has one.
pub open spec fn parsed_paths(api_paths: Seq<ApiHttpPath>) -> Result<
    Seq<PathView>,
    IngressParseError,
>
    decreases api_paths.len(),
{
    if api_paths.len() == 0 {
        Ok(Seq::empty())
    } else {
        match parsed_paths(api_paths.drop_last()) {
            Err(e) => Err(e),
            Ok(paths) => match parsed_path(api_paths.last()) {
                Err(e) => Err(e),
                Ok(path) => Ok(paths.push(path)),
            },
        }
    }
}

/// What a rule of the control plane becomes: its host and its paths.
pub open spec fn parsed_rule(api_rule: ApiIngressRule) -> Result<RuleView, IngressParseError> {
    match api_rule.http {
        None => Err(IngressParseError::MissingHttpRule),
        Some(http) => match parsed_paths(http.paths@) {
            Err(e) => Err(e),
            Ok(paths) => Ok(
                RuleView {
                    host: match api_rule.host {
                        Some(h) => Some(h@),
                        None => None,
                    },
                    paths,
                },
            ),
        },
    }
}

/// The rules of an ingress in their order, or the error of the first that has
/// one.
pub open spec fn parsed_rules(api_rules: Seq<ApiIngressRule>) -> Result<
    Seq<RuleView>,
    IngressParseError,
>
    decreases api_rules.len(),
{
    if api_rules.len() == 0 {
        Ok(Seq::empty())
    } else {
        match parsed_rules(api_rules.drop_last()) {
            Err(e) => Err(e),
            Ok(rules) => match parsed_rule(api_rules.last()) {
                Err(e) => Err(e),
                Ok(rule) => Ok(rules.push(rule)),
            },
        }
    }
}

/// The routing snapshot that an ingress object describes, or the first field
/// that it lacks: the namespace, the specification, a field of the default
/// backend, then a field of a rule.
pub open spec fn parsed_ingress(api_ingress: ApiIngress) -> Result<IngressView, IngressParseError> {
    match api_ingress.metadata.namespace {
        None => Err(IngressParseError::MissingNamespace),
        Some(namespace) => match api_ingress.spec {
            None => Err(IngressParseError::MissingSpec),
            Some(api_spec) => {
                let default_route = match api_spec.default_backend {
                    None => Ok(None),
                    Some(api_backend) => match parsed_backend(api_backend) {
                        Err(e) => Err(e),
                        Ok(backend) => Ok(Some(backend)),
                    },
                };
                match default_route {
                    Err(e) => Err(e),
                    Ok(default_route) => match parsed_rules(api_spec.rules@) {
                        Err(e) => Err(e),
                        Ok(rules) => Ok(
                            IngressView { namespace: namespace@, default_route, rules },
                        ),
                    },
                }
            },
        },
    }
}

impl IngressBackend {
    /// Reads a backend from its control-plane form.
    pub fn try_from(api_backend: ApiBackend) -> (parsed: Result<IngressBackend, IngressParseError>)
        ensures
            match parsed_backend(api_backend) {
                Ok(view) => parsed matches Ok(backend) && backend@ == view,
                Err(e) => parsed == Err::<IngressBackend, _>(e),
            },
    {
        let api_service = match api_backend.service {
            Some(api_service) => api_service,
            None => {
                return Err(IngressParseError::NoBackendService);
            },
        };
        let api_port = match api_service.port {
            Some(api_port) => api_port,
            None => {
                return Err(IngressParseError::NoServicePort);
            },
        };
        let name = api_service.name;
        let number = match api_port.number {
            Some(number) => number,
            None => {
                return Err(IngressParseError::NoServicePort);
            },
        };
        if number < 0 {
            return Err(IngressParseError::NoServicePort);
        }
        Ok(IngressBackend { name, port: number as u32 })
    }
}

impl IngressPath {
    /// Reads a path from its control-plane form.
    pub fn try_from(api_path: ApiHttpPath) -> (parsed: Result<IngressPath, IngressParseError>)
        ensures
            match parsed_path(api_path) {
                Ok(view) => parsed matches Ok(path) && path@ == view,
                Err(e) => parsed == Err::<IngressPath, _>(e),
            },
    {
        let path = match api_path.path {
            Some(path) => path,
            None => {
                return Err(IngressParseError::MissingPath);
            },
        };
        let backend = match IngressBackend::try_from(api_path.backend) {
            Ok(backend) => backend,
            Err(e) => {
                return Err(e);
            },
        };
        Ok(IngressPath { path, backend })
    }
}

impl IngressRule {
    /// Reads a rule from its control-plane form, keeping the order of its
    /// paths.
    pub fn try_from(api_rule: ApiIngressRule) -> (parsed: Result<IngressRule, IngressParseError>)
        ensures
            match parsed_rule(api_rule) {
                Ok(view) => parsed matches Ok(rule) && rule@ == view,
                Err(e) => parsed == Err::<IngressRule, _>(e),
            },
    {
        let http = match api_rule.http {
            Some(http) => http,
            None => {
                return Err(IngressParseError::MissingHttpRule);
            },
        };
        let ghost api_paths = http.paths@;
        let mut paths: Vec<IngressPath> = Vec::with_capacity(http.paths.len());
        assert(api_paths.take(0) == Seq::<ApiHttpPath>::empty());
        assert(paths@.map_values(|p: IngressPath| p@) == Seq::<PathView>::empty());
        for api_path in iter: http.paths
            invariant
                iter.seq() == api_paths,
                api_rule.http matches Some(h) && h.paths@ == api_paths,
                parsed_paths(api_paths.take(iter.index() as int)) == Ok::<_, IngressParseError>(
                    paths@.map_values(|p: IngressPath| p@),
                ),
        {
            proof {
                let upto = api_paths.take(iter.index() + 1);
                assert(upto.drop_last() == api_paths.take(iter.index() as int));
                assert(upto.last() == api_path);
            }
            let ghost before = paths@.map_values(|p: IngressPath| p@);
            match IngressPath::try_from(api_path) {
                Ok(path) => {
                    paths.push(path);
                    assert(paths@.map_values(|p: IngressPath| p@) == before.push(path@));
                },
                Err(e) => {
                    proof {
                        assert(parsed_paths(api_paths.take(iter.index() + 1)) == Err::<
                            Seq<PathView>,
                            _,
                        >(e));
                        lemma_paths_error_stays(api_paths, iter.index() + 1);
                    }
                    return Err(e);
                },
            }
        }
        assert(api_paths.take(api_paths.len() as int) == api_paths);
        Ok(IngressRule { host: api_rule.host, paths })
    }
}

/// An error among the first `n` paths is the error of the whole list.
pub proof fn lemma_paths_error_stays(api_paths: Seq<ApiHttpPath>, n: int)
    requires
        0 <= n <= api_paths.len(),
        parsed_paths(api_paths.take(n)) is Err,
    ensures
        parsed_paths(api_paths) == parsed_paths(api_paths.take(n)),
    decreases api_paths.len() - n,
{
    if n < api_paths.len() {
        let upto = api_paths.take(n + 1);
        assert(upto.drop_last() == api_paths.take(n));
        lemma_paths_error_stays(api_paths, n + 1);
    } else {
        assert(api_paths.take(n) == api_paths);
    }
}

/// An error among the first `n` rules is the error of the whole list.
pub proof fn lemma_rules_error_stays(api_rules: Seq<ApiIngressRule>, n: int)
    requires
        0 <= n <= api_rules.len(),
        parsed_rules(api_rules.take(n)) is Err,
    ensures
        parsed_rules(api_rules) == parsed_rules(api_rules.take(n)),
    decreases api_rules.len() - n,
{
    if n < api_rules.len() {
        let upto = api_rules.take(n + 1);
        assert(upto.drop_last() == api_rules.take(n));
        lemma_rules_error_stays(api_rules, n + 1);
    } else {
        assert(api_rules.take(n) == api_rules);
    }
}

impl Ingress {
    /// Reads a routing snapshot from an ingress object, keeping the order of
    /// its rules.
    pub fn try_from(api_ingress: ApiIngress) -> (parsed: Result<Ingress, IngressParseError>)
        ensures
            match parsed_ingress(api_ingress) {
                Ok(view) => parsed matches Ok(ingress) && ingress@ == view,
                Err(e) => parsed == Err::<Ingress, _>(e),
            },
    {
        let namespace = match api_ingress.metadata.namespace {
            Some(namespace) => namespace,
            None => {
                return Err(IngressParseError::MissingNamespace);
            },
        };
        let api_spec = match api_ingress.spec {
            Some(api_spec) => api_spec,
            None => {
                return Err(IngressParseError::MissingSpec);
            },
        };
        let default_route = match api_spec.default_backend {
            Some(api_backend) => match IngressBackend::try_from(api_backend) {
                Ok(backend) => Some(backend),
                Err(e) => {
                    return Err(e);
                },
            },
            None => None,
        };
        let ghost api_rules = api_spec.rules@;
        let mut rules: Vec<IngressRule> = Vec::with_capacity(api_spec.rules.len());
        assert(api_rules.take(0) == Seq::<ApiIngressRule>::empty());
        assert(rules@.map_values(|r: IngressRule| r@) == Seq::<RuleView>::empty());
        for api_rule in iter: api_spec.rules
            invariant
                iter.seq() == api_rules,
                api_ingress.metadata.namespace is Some,
                api_ingress.spec matches Some(s) && s.rules@ == api_rules,
                api_ingress.spec matches Some(s) && (s.default_backend matches Some(b)
                    ==> parsed_backend(b) is Ok),
                parsed_rules(api_rules.take(iter.index() as int)) == Ok::<_, IngressParseError>(
                    rules@.map_values(|r: IngressRule| r@),
                ),
        {
            proof {
                let upto = api_rules.take(iter.index() + 1);
                assert(upto.drop_last() == api_rules.take(iter.index() as int));
                assert(upto.last() == api_rule);
            }
            let ghost before = rules@.map_values(|r: IngressRule| r@);
            match IngressRule::try_from(api_rule) {
                Ok(rule) => {
                    rules.push(rule);
                    assert(rules@.map_values(|r: IngressRule| r@) == before.push(rule@));
                },
                Err(e) => {
                    proof {
                        assert(parsed_rules(api_rules.take(iter.index() + 1)) == Err::<
                            Seq<RuleView>,
                            _,
                        >(e));
                        lemma_rules_error_stays(api_rules, iter.index() + 1);
                    }
                    return Err(e);
                },
            }
        }
        assert(api_rules.take(api_rules.len() as int) == api_rules);
        Ok(Ingress { namespace, default_route, rules })
    }
}

/// Whether some path of `paths` is a prefix of `req_path`.
pub open spec fn some_path_matches(paths: Seq<PathView>, req_path: Seq<char>) -> bool {
    exists|j: int| 0 <= j < paths.len() && has_prefix(req_path, #[trigger] paths[j].path)
}

/// Whether a rule applies to a request's host and has a path that is a prefix
/// of its path.
pub open spec fn rule_serves(
    rule: RuleView,
    virt_host: Option<Seq<char>>,
    req_path: Seq<char>,
) -> bool {
    host_matches(rule.host, virt_host) && some_path_matches(rule.paths, req_path)
}

/// A rule without a host applies to every request, with or without a host; a
/// rule with a host applies to the requests for that host and to those that
/// name none, and to no others.
pub proof fn lemma_host_matching(rule_host: Option<Seq<char>>, virt_host: Option<Seq<char>>)
    ensures
        rule_host is None ==> host_matches(rule_host, virt_host),
        virt_host is None ==> host_matches(rule_host, virt_host),
        rule_host matches Some(h) ==> (host_matches(rule_host, virt_host) <==> (virt_host is None
            || virt_host == Some(h))),
{
}

/// Within one rule the last path that is a prefix of the request's path
/// wins, whatever came before it.
pub proof fn lemma_last_path_wins(
    paths: Seq<PathView>,
    req_path: Seq<char>,
    fallback: Option<BackendView>,
    j: int,
)
    requires
        0 <= j < paths.len(),
        has_prefix(req_path, paths[j].path),
        forall|k: int| j < k < paths.len() ==> !has_prefix(req_path, #[trigger] paths[k].path),
    ensures
        select_path(paths, req_path, fallback) == Some(paths[j].backend),
    decreases paths.len(),
{
    if j < paths.len() - 1 {
        assert(!has_prefix(req_path, paths[paths.len() - 1].path));
        lemma_last_path_wins(paths.drop_last(), req_path, fallback, j);
    }
}

/// A rule of which no path is a prefix of the request's path changes
/// nothing.
pub proof fn lemma_no_path_keeps_fallback(
    paths: Seq<PathView>,
    req_path: Seq<char>,
    fallback: Option<BackendView>,
)
    requires
        !some_path_matches(paths, req_path),
    ensures
        select_path(paths, req_path, fallback) == fallback,
    decreases paths.len(),
{
    if paths.len() > 0 {
        assert(!has_prefix(req_path, paths[paths.len() - 1].path));
        assert forall|j: int| 0 <= j < paths.drop_last().len() implies !has_prefix(
            req_path,
            #[trigger] paths.drop_last()[j].path,
        ) by {
            assert(paths.drop_last()[j] == paths[j]);
        }
        lemma_no_path_keeps_fallback(paths.drop_last(), req_path, fallback);
    }
}

/// A rule that has a matching path hides what came before it.
pub proof fn lemma_matching_rule_hides_earlier(
    paths: Seq<PathView>,
    req_path: Seq<char>,
    first: Option<BackendView>,
    second: Option<BackendView>,
)
    requires
        some_path_matches(paths, req_path),
    ensures
        select_path(paths, req_path, first) == select_path(paths, req_path, second),
        select_path(paths, req_path, first) is Some,
    decreases paths.len(),
{
    let j = choose|j: int| 0 <= j < paths.len() && has_prefix(req_path, #[trigger] paths[j].path);
    if !has_prefix(req_path, paths.last().path) {
        assert(paths.drop_last()[j] == paths[j]);
        lemma_matching_rule_hides_earlier(paths.drop_last(), req_path, first, second);
    }
}

/// Among the rules the last one that serves the request wins: its last
/// matching path gives the backend, whatever earlier rules and the default
/// route say.
pub proof fn lemma_last_rule_wins(
    rules: Seq<RuleView>,
    virt_host: Option<Seq<char>>,
    req_path: Seq<char>,
    fallback: Option<BackendView>,
    i: int,
)
    requires
        0 <= i < rules.len(),
        rule_serves(rules[i], virt_host, req_path),
        forall|k: int|
            i < k < rules.len() ==> !rule_serves(#[trigger] rules[k], virt_host, req_path),
    ensures
        select_rule(rules, virt_host, req_path, fallback) == select_path(
            rules[i].paths,
            req_path,
            None,
        ),
        select_rule(rules, virt_host, req_path, fallback) is Some,
    decreases rules.len(),
{
    let earlier = select_rule(rules.drop_last(), virt_host, req_path, fallback);
    if i == rules.len() - 1 {
        lemma_matching_rule_hides_earlier(rules[i].paths, req_path, earlier, None);
    } else {
        let last = rules.last();
        assert(!rule_serves(rules[rules.len() - 1], virt_host, req_path));
        if host_matches(last.host, virt_host) {
            lemma_no_path_keeps_fallback(last.paths, req_path, earlier);
        }
        assert(rules.drop_last()[i] == rules[i]);
        assert forall|k: int| i < k < rules.drop_last().len() implies !rule_serves(
            #[trigger] rules.drop_last()[k],
            virt_host,
            req_path,
        ) by {
            assert(rules.drop_last()[k] == rules[k]);
        }
        lemma_last_rule_wins(rules.drop_last(), virt_host, req_path, fallback, i);
    }
}

/// Where no rule serves the request, the default route does.
pub proof fn lemma_no_rule_leaves_default(
    rules: Seq<RuleView>,
    virt_host: Option<Seq<char>>,
    req_path: Seq<char>,
    fallback: Option<BackendView>,
)
    requires
        forall|k: int|
            0 <= k < rules.len() ==> !rule_serves(#[trigger] rules[k], virt_host, req_path),
    ensures
        select_rule(rules, virt_host, req_path, fallback) == fallback,
    decreases rules.len(),
{
    if rules.len() > 0 {
        let last = rules.last();
        let earlier = select_rule(rules.drop_last(), virt_host, req_path, fallback);
        assert(!rule_serves(rules[rules.len() - 1], virt_host, req_path));
        if host_matches(last.host, virt_host) {
            lemma_no_path_keeps_fallback(last.paths, req_path, earlier);
        }
        assert forall|k: int| 0 <= k < rules.drop_last().len() implies !rule_serves(
            #[trigger] rules.drop_last()[k],
            virt_host,
            req_path,
        ) by {
            assert(rules.drop_last()[k] == rules[k]);
        }
        lemma_no_rule_leaves_default(rules.drop_last(), virt_host, req_path, fallback);
    }
}

/// Whether a backend names its service and a port number that is not
/// negative.
pub open spec fn backend_complete(api_backend: ApiBackend) -> bool {
    api_backend.service matches Some(api_service) && api_service.port matches Some(api_port)
        && api_port.number matches Some(number) && number >= 0
}

/// Whether a path has its prefix and a complete backend.
pub open spec fn path_complete(api_path: ApiHttpPath) -> bool {
    api_path.path is Some && backend_complete(api_path.backend)
}

/// Whether a rule has its HTTP block and only complete paths in it.
pub open spec fn rule_complete(api_rule: ApiIngressRule) -> bool {
    api_rule.http matches Some(http) && forall|j: int|
        0 <= j < http.paths@.len() ==> path_complete(#[trigger] http.paths@[j])
}

/// Whether an ingress object has every field that a routing snapshot needs.
pub open spec fn ingress_complete(api_ingress: ApiIngress) -> bool {
    &&& api_ingress.metadata.namespace is Some
    &&& api_ingress.spec matches Some(api_spec) && (api_spec.default_backend matches Some(b)
        ==> backend_complete(b)) && forall|i: int|
        0 <= i < api_spec.rules@.len() ==> rule_complete(#[trigger] api_spec.rules@[i])
}

/// A list of paths is read exactly when each of them is complete, and then
/// path by path.
pub proof fn lemma_paths_read(api_paths: Seq<ApiHttpPath>)
    ensures
        parsed_paths(api_paths) is Ok <==> forall|j: int|
            0 <= j < api_paths.len() ==> path_complete(#[trigger] api_paths[j]),
        parsed_paths(api_paths) matches Ok(paths) ==> paths.len() == api_paths.len() && forall|
            j: int,
        |
            0 <= j < api_paths.len() ==> parsed_path(api_paths[j]) == Ok::<_, IngressParseError>(
                #[trigger] paths[j],
            ),
    decreases api_paths.len(),
{
    if api_paths.len() > 0 {
        let init = api_paths.drop_last();
        lemma_paths_read(init);
        if forall|j: int| 0 <= j < api_paths.len() ==> path_complete(#[trigger] api_paths[j]) {
            assert forall|j: int| 0 <= j < init.len() implies path_complete(#[trigger] init[j]) by {
                assert(init[j] == api_paths[j]);
            }
            assert(path_complete(api_paths[api_paths.len() - 1]));
        }
        if parsed_paths(api_paths) is Ok {
            assert forall|j: int| 0 <= j < api_paths.len() implies path_complete(
                #[trigger] api_paths[j],
            ) by {
                if j < init.len() {
                    assert(init[j] == api_paths[j]);
                }
            }
            let paths = parsed_paths(api_paths)->Ok_0;
            let before = parsed_paths(init)->Ok_0;
            assert forall|j: int| 0 <= j < api_paths.len() implies parsed_path(api_paths[j])
                == Ok::<_, IngressParseError>(#[trigger] paths[j]) by {
                if j < init.len() {
                    assert(init[j] == api_paths[j]);
                    assert(paths[j] == before[j]);
                }
            }
        }
    }
}

/// A list of rules is read exactly when each of them is complete, and then
/// rule by rule.
pub proof fn lemma_rules_read(api_rules: Seq<ApiIngressRule>)
    ensures
        parsed_rules(api_rules) is Ok <==> forall|i: int|
            0 <= i < api_rules.len() ==> rule_complete(#[trigger] api_rules[i]),
        parsed_rules(api_rules) matches Ok(rules) ==> rules.len() == api_rules.len() && forall|
            i: int,
        |
            0 <= i < api_rules.len() ==> parsed_rule(api_rules[i]) == Ok::<_, IngressParseError>(
                #[trigger] rules[i],
            ),
    decreases api_rules.len(),
{
    if api_rules.len() > 0 {
        let init = api_rules.drop_last();
        let last = api_rules.last();
        lemma_rules_read(init);
        if last.http is Some {
            lemma_paths_read(last.http->0.paths@);
        }
        if forall|i: int| 0 <= i < api_rules.len() ==> rule_complete(#[trigger] api_rules[i]) {
            assert forall|i: int| 0 <= i < init.len() implies rule_complete(#[trigger] init[i]) by {
                assert(init[i] == api_rules[i]);
            }
            assert(rule_complete(api_rules[api_rules.len() - 1]));
        }
        if parsed_rules(api_rules) is Ok {
            assert forall|i: int| 0 <= i < api_rules.len() implies rule_complete(
                #[trigger] api_rules[i],
            ) by {
                if i < init.len() {
                    assert(init[i] == api_rules[i]);
                }
            }
            let rules = parsed_rules(api_rules)->Ok_0;
            let before = parsed_rules(init)->Ok_0;
            assert forall|i: int| 0 <= i < api_rules.len() implies parsed_rule(api_rules[i])
                == Ok::<_, IngressParseError>(#[trigger] rules[i]) by {
                if i < init.len() {
                    assert(init[i] == api_rules[i]);
                    assert(rules[i] == before[i]);
                }
            }
        }
    }
}

/// An ingress object becomes a routing snapshot exactly when it has every
/// field that one needs; the snapshot then has the object's namespace and as
/// many rules, in the same order.
pub proof fn lemma_ingress_read(api_ingress: ApiIngress)
    ensures
        parsed_ingress(api_ingress) is Ok <==> ingress_complete(api_ingress),
        parsed_ingress(api_ingress) matches Ok(ingress) ==> {
            &&& api_ingress.metadata.namespace matches Some(namespace) && ingress.namespace
                == namespace@
            &&& api_ingress.spec matches Some(api_spec) && ingress.rules.len()
                == api_spec.rules@.len() && (ingress.default_route is Some
                <==> api_spec.default_backend is Some) && forall|i: int|
                0 <= i < api_spec.rules@.len() ==> parsed_rule(api_spec.rules@[i]) == Ok::<
                    _,
                    IngressParseError,
                >(#[trigger] ingress.rules[i])
        },
{
    if api_ingress.spec is Some {
        lemma_rules_read(api_ingress.spec->0.rules@);
    }
}

/// Of several broken paths the first decides: the error of a list of paths
/// is the error of its first path that is not complete.
pub proof fn lemma_first_broken_path(api_paths: Seq<ApiHttpPath>, j: int)
    requires
        0 <= j < api_paths.len(),
        forall|k: int| 0 <= k < j ==> path_complete(#[trigger] api_paths[k]),
        !path_complete(api_paths[j]),
    ensures
        parsed_path(api_paths[j]) is Err,
        parsed_paths(api_paths) == Err::<Seq<PathView>, _>(parsed_path(api_paths[j])->Err_0),
{
    let sound = api_paths.take(j);
    assert forall|k: int| 0 <= k < sound.len() implies path_complete(#[trigger] sound[k]) by {
        assert(sound[k] == api_paths[k]);
    }
    lemma_paths_read(sound);
    let upto = api_paths.take(j + 1);
    assert(upto.drop_last() == sound);
    assert(upto.last() == api_paths[j]);
    lemma_paths_error_stays(api_paths, j + 1);
}

/// Of several broken rules the first decides: the error of a list of rules
/// is the error of its first rule that is not complete.
pub proof fn lemma_first_broken_rule(api_rules: Seq<ApiIngressRule>, i: int)
    requires
        0 <= i < api_rules.len(),
        forall|k: int| 0 <= k < i ==> rule_complete(#[trigger] api_rules[k]),
        !rule_complete(api_rules[i]),
    ensures
        parsed_rule(api_rules[i]) is Err,
        parsed_rules(api_rules) == Err::<Seq<RuleView>, _>(parsed_rule(api_rules[i])->Err_0),
{
    let sound = api_rules.take(i);
    assert forall|k: int| 0 <= k < sound.len() implies rule_complete(#[trigger] sound[k]) by {
        assert(sound[k] == api_rules[k]);
    }
    lemma_rules_read(sound);
    if api_rules[i].http is Some {
        lemma_paths_read(api_rules[i].http->0.paths@);
    }
    let upto = api_rules.take(i + 1);
    assert(upto.drop_last() == sound);
    assert(upto.last() == api_rules[i]);
    lemma_rules_error_stays(api_rules, i + 1);
}

/// What a missing field is reported as: never as a failure of the watch.
pub proof fn lemma_parse_error_kinds(api_ingress: ApiIngress)
    ensures
        parsed_ingress(api_ingress) matches Err(e) ==> !(e is WatchError),
        api_ingress.metadata.namespace is None ==> parsed_ingress(api_ingress) == Err::<
            IngressView,
            _,
        >(IngressParseError::MissingNamespace),
        api_ingress.metadata.namespace is Some && api_ingress.spec is None ==> parsed_ingress(
            api_ingress,
        ) == Err::<IngressView, _>(IngressParseError::MissingSpec),
{
    if api_ingress.spec is Some {
        lemma_rules_errors(api_ingress.spec->0.rules@);
    }
}

/// The errors of a list of paths are those of a path.
proof fn lemma_paths_errors(api_paths: Seq<ApiHttpPath>)
    ensures
        parsed_paths(api_paths) matches Err(e) ==> e is MissingPath || e is NoBackendService || e
            is NoServicePort,
    decreases api_paths.len(),
{
    if api_paths.len() > 0 {
        lemma_paths_errors(api_paths.drop_last());
    }
}

/// The errors of a list of rules are those of a rule.
proof fn lemma_rules_errors(api_rules: Seq<ApiIngressRule>)
    ensures
        parsed_rules(api_rules) matches Err(e) ==> e is MissingHttpRule || e is MissingPath || e
            is NoBackendService || e is NoServicePort,
    decreases api_rules.len(),
{
    if api_rules.len() > 0 {
        lemma_rules_errors(api_rules.drop_last());
        if api_rules.last().http is Some {
            lemma_paths_errors(api_rules.last().http->0.paths@);
        }
    }
}

} // verus!
