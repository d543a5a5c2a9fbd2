use aether::kube::api::{
    Annotation, ApiBackend, ApiHttpPath, ApiHttpRule, ApiIngress, ApiIngressRule, ApiIngressSpec,
    ApiMeta, ApiService, ApiServicePort, ErrorResponse, WatchEvent,
};
use aether::kube::state::{
    Ingress, IngressBackend, IngressParseError, IngressPath, IngressRule,
};
use aether::kube::{AuthorityError, Kube};

fn service(name: &str, port: i32) -> ApiBackend {
    ApiBackend {
        service: Some(ApiService {
            name: name.to_string(),
            port: Some(ApiServicePort { number: Some(port) }),
        }),
    }
}

fn http_path(path: &str, name: &str, port: i32) -> ApiHttpPath {
    ApiHttpPath { path: Some(path.to_string()), backend: service(name, port) }
}

fn http_rule(host: Option<&str>, paths: Vec<ApiHttpPath>) -> ApiIngressRule {
    ApiIngressRule { host: host.map(|h| h.to_string()), http: Some(ApiHttpRule { paths }) }
}

fn own_ingress(default_backend: Option<ApiBackend>, rules: Vec<ApiIngressRule>) -> ApiIngress {
    ApiIngress {
        metadata: ApiMeta {
            name: None,
            namespace: Some("ns".to_string()),
            annotations: vec![Annotation {
                key: "kubernetes.io/ingress.class".to_string(),
                value: "aether".to_string(),
            }],
        },
        spec: Some(ApiIngressSpec { default_backend, rules }),
    }
}

fn serving_kube() -> Kube {
    let mut kube = Kube::new();
    let first = own_ingress(None, vec![http_rule(None, vec![http_path("/", "web", 80)])]);
    assert_eq!(kube.set_ingress(first), Ok(()));
    kube
}

fn still_serving(kube: &Kube) {
    assert_eq!(kube.get_authority(None, "/"), Ok(("web.ns".to_string(), 80)));
}

#[test]
fn backend_is_read_from_service_and_port() {
    assert_eq!(
        IngressBackend::try_from(service("web", 8080)),
        Ok(IngressBackend { name: "web".to_string(), port: 8080 })
    );
    assert_eq!(
        IngressBackend::try_from(service("web", 0)),
        Ok(IngressBackend { name: "web".to_string(), port: 0 })
    );
    assert_eq!(
        IngressBackend::try_from(service("web", i32::MAX)),
        Ok(IngressBackend { name: "web".to_string(), port: 2147483647 })
    );
}

#[test]
fn backend_without_service_is_rejected() {
    assert_eq!(
        IngressBackend::try_from(ApiBackend { service: None }),
        Err(IngressParseError::NoBackendService)
    );
}

#[test]
fn backend_without_port_is_rejected() {
    let no_port = ApiBackend { service: Some(ApiService { name: "web".to_string(), port: None }) };
    assert_eq!(IngressBackend::try_from(no_port), Err(IngressParseError::NoServicePort));
    let no_number = ApiBackend {
        service: Some(ApiService {
            name: "web".to_string(),
            port: Some(ApiServicePort { number: None }),
        }),
    };
    assert_eq!(IngressBackend::try_from(no_number), Err(IngressParseError::NoServicePort));
}

#[test]
fn backend_with_negative_port_is_rejected() {
    assert_eq!(
        IngressBackend::try_from(service("web", -1)),
        Err(IngressParseError::NoServicePort)
    );
    assert_eq!(
        IngressBackend::try_from(service("web", i32::MIN)),
        Err(IngressParseError::NoServicePort)
    );
}

#[test]
fn path_is_read_with_its_backend() {
    assert_eq!(
        IngressPath::try_from(http_path("/api", "api", 81)),
        Ok(IngressPath {
            path: "/api".to_string(),
            backend: IngressBackend { name: "api".to_string(), port: 81 },
        })
    );
}

#[test]
fn path_without_prefix_is_rejected_before_its_backend() {
    let broken = ApiHttpPath { path: None, backend: ApiBackend { service: None } };
    assert_eq!(IngressPath::try_from(broken), Err(IngressParseError::MissingPath));
    let no_service =
        ApiHttpPath { path: Some("/".to_string()), backend: ApiBackend { service: None } };
    assert_eq!(IngressPath::try_from(no_service), Err(IngressParseError::NoBackendService));
}

#[test]
fn rule_keeps_host_and_path_order() {
    let rule = http_rule(
        Some("h"),
        vec![http_path("/b", "b", 2), http_path("/a", "a", 1), http_path("/b", "c", 3)],
    );
    assert_eq!(
        IngressRule::try_from(rule),
        Ok(IngressRule {
            host: Some("h".to_string()),
            paths: vec![
                IngressPath {
                    path: "/b".to_string(),
                    backend: IngressBackend { name: "b".to_string(), port: 2 },
                },
                IngressPath {
                    path: "/a".to_string(),
                    backend: IngressBackend { name: "a".to_string(), port: 1 },
                },
                IngressPath {
                    path: "/b".to_string(),
                    backend: IngressBackend { name: "c".to_string(), port: 3 },
                },
            ],
        })
    );
}

#[test]
fn rule_without_http_block_is_rejected() {
    let rule = ApiIngressRule { host: Some("h".to_string()), http: None };
    assert_eq!(IngressRule::try_from(rule), Err(IngressParseError::MissingHttpRule));
}

#[test]
fn rule_reports_its_first_broken_path() {
    let rule = http_rule(
        None,
        vec![
            http_path("/", "web", 80),
            ApiHttpPath { path: Some("/x".to_string()), backend: ApiBackend { service: None } },
            ApiHttpPath { path: None, backend: service("web", 80) },
        ],
    );
    assert_eq!(IngressRule::try_from(rule), Err(IngressParseError::NoBackendService));
}

#[test]
fn rule_without_paths_is_read() {
    assert_eq!(
        IngressRule::try_from(http_rule(None, vec![])),
        Ok(IngressRule { host: None, paths: vec![] })
    );
}

#[test]
fn ingress_is_read_in_order() {
    let api = own_ingress(
        Some(service("fallback", 8080)),
        vec![
            http_rule(Some("b"), vec![http_path("/", "b", 2)]),
            http_rule(None, vec![]),
            http_rule(Some("a"), vec![http_path("/", "a", 1)]),
        ],
    );
    assert_eq!(
        Ingress::try_from(api),
        Ok(Ingress {
            namespace: "ns".to_string(),
            default_route: Some(IngressBackend { name: "fallback".to_string(), port: 8080 }),
            rules: vec![
                IngressRule {
                    host: Some("b".to_string()),
                    paths: vec![IngressPath {
                        path: "/".to_string(),
                        backend: IngressBackend { name: "b".to_string(), port: 2 },
                    }],
                },
                IngressRule { host: None, paths: vec![] },
                IngressRule {
                    host: Some("a".to_string()),
                    paths: vec![IngressPath {
                        path: "/".to_string(),
                        backend: IngressBackend { name: "a".to_string(), port: 1 },
                    }],
                },
            ],
        })
    );
}

#[test]
fn ingress_without_default_backend_has_no_default_route() {
    assert_eq!(
        Ingress::try_from(own_ingress(None, vec![])),
        Ok(Ingress { namespace: "ns".to_string(), default_route: None, rules: vec![] })
    );
}

#[test]
fn ingress_without_namespace_is_rejected_first() {
    let mut api = own_ingress(None, vec![]);
    api.metadata.namespace = None;
    api.spec = None;
    assert_eq!(Ingress::try_from(api), Err(IngressParseError::MissingNamespace));
}

#[test]
fn ingress_without_spec_is_rejected() {
    let mut api = own_ingress(None, vec![]);
    api.spec = None;
    assert_eq!(Ingress::try_from(api), Err(IngressParseError::MissingSpec));
}

#[test]
fn ingress_reports_default_backend_before_rules() {
    let api = own_ingress(
        Some(ApiBackend { service: Some(ApiService { name: "x".to_string(), port: None }) }),
        vec![ApiIngressRule { host: None, http: None }],
    );
    assert_eq!(Ingress::try_from(api), Err(IngressParseError::NoServicePort));
}

#[test]
fn ingress_reports_its_first_broken_rule() {
    let api = own_ingress(
        None,
        vec![
            http_rule(None, vec![http_path("/", "web", 80)]),
            http_rule(None, vec![ApiHttpPath { path: None, backend: service("web", 80) }]),
            ApiIngressRule { host: None, http: None },
        ],
    );
    assert_eq!(Ingress::try_from(api), Err(IngressParseError::MissingPath));
}

#[test]
fn missing_namespace_leaves_the_snapshot() {
    let mut kube = serving_kube();
    let mut api = own_ingress(None, vec![]);
    api.metadata.namespace = None;
    assert_eq!(kube.set_ingress(api), Err(IngressParseError::MissingNamespace));
    still_serving(&kube);
}

#[test]
fn missing_spec_leaves_the_snapshot() {
    let mut kube = serving_kube();
    let mut api = own_ingress(None, vec![]);
    api.spec = None;
    assert_eq!(kube.set_ingress(api), Err(IngressParseError::MissingSpec));
    still_serving(&kube);
}

#[test]
fn missing_http_rule_leaves_the_snapshot() {
    let mut kube = serving_kube();
    let api = own_ingress(None, vec![ApiIngressRule { host: None, http: None }]);
    assert_eq!(kube.set_ingress(api), Err(IngressParseError::MissingHttpRule));
    still_serving(&kube);
}

#[test]
fn missing_path_leaves_the_snapshot() {
    let mut kube = serving_kube();
    let api = own_ingress(
        None,
        vec![http_rule(None, vec![ApiHttpPath { path: None, backend: service("other", 1) }])],
    );
    assert_eq!(kube.set_ingress(api), Err(IngressParseError::MissingPath));
    still_serving(&kube);
}

#[test]
fn missing_service_leaves_the_snapshot() {
    let mut kube = serving_kube();
    let api = own_ingress(Some(ApiBackend { service: None }), vec![]);
    assert_eq!(kube.set_ingress(api), Err(IngressParseError::NoBackendService));
    still_serving(&kube);
}

#[test]
fn missing_port_leaves_the_snapshot() {
    let mut kube = serving_kube();
    let api = own_ingress(
        None,
        vec![http_rule(
            None,
            vec![ApiHttpPath {
                path: Some("/".to_string()),
                backend: ApiBackend {
                    service: Some(ApiService { name: "other".to_string(), port: None }),
                },
            }],
        )],
    );
    assert_eq!(kube.set_ingress(api), Err(IngressParseError::NoServicePort));
    still_serving(&kube);
}

#[test]
fn missing_field_on_first_event_leaves_no_snapshot() {
    let mut kube = Kube::new();
    let mut api = own_ingress(None, vec![]);
    api.spec = None;
    assert_eq!(kube.set_ingress(api), Err(IngressParseError::MissingSpec));
    assert_eq!(kube.get_authority(None, "/"), Err(AuthorityError::NoIngress));
}

#[test]
fn ingress_events_drive_the_snapshot() {
    let mut kube = Kube::new();
    let first = own_ingress(None, vec![http_rule(None, vec![http_path("/", "one", 1)])]);
    let second = own_ingress(None, vec![http_rule(None, vec![http_path("/", "two", 2)])]);
    assert_eq!(kube.on_ingress_event(WatchEvent::Added(first)), Ok(()));
    assert_eq!(kube.get_authority(None, "/"), Ok(("one.ns".to_string(), 1)));
    assert_eq!(kube.on_ingress_event(WatchEvent::Modified(second.clone())), Ok(()));
    assert_eq!(kube.get_authority(None, "/"), Ok(("two.ns".to_string(), 2)));
    assert_eq!(kube.on_ingress_event(WatchEvent::Bookmark), Ok(()));
    assert_eq!(kube.get_authority(None, "/"), Ok(("two.ns".to_string(), 2)));
    assert_eq!(kube.on_ingress_event(WatchEvent::Deleted(second)), Ok(()));
    assert_eq!(kube.get_authority(None, "/"), Err(AuthorityError::NoIngress));
}

#[test]
fn ingress_watch_error_is_reported_and_changes_nothing() {
    let mut kube = serving_kube();
    let failure = ErrorResponse {
        status: "Failure".to_string(),
        message: "too old resource version".to_string(),
        reason: "Expired".to_string(),
        code: 410,
    };
    assert_eq!(
        kube.on_ingress_event(WatchEvent::Error(failure.clone())),
        Err(IngressParseError::WatchError(failure))
    );
    still_serving(&kube);
}

#[test]
fn broken_ingress_event_is_reported_and_changes_nothing() {
    let mut kube = serving_kube();
    let mut api = own_ingress(None, vec![]);
    api.spec = None;
    assert_eq!(
        kube.on_ingress_event(WatchEvent::Modified(api)),
        Err(IngressParseError::MissingSpec)
    );
    still_serving(&kube);
}
