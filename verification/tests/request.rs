use aether::kube::api::{
    Annotation, ApiBackend, ApiHttpPath, ApiHttpRule, ApiIngress, ApiIngressRule, ApiIngressSpec,
    ApiMeta, ApiService, ApiServicePort,
};
use aether::kube::Kube;
use aether::request::{
    check_header_value, forward_headers, hop_by_hop, names_match, prepare, strip_hop_by_hop,
    Header, RequestError, UpstreamRequest,
};

fn header(name: &str, value: &str) -> Header {
    Header { name: name.to_string(), value: value.as_bytes().to_vec() }
}

fn target(name: &str, port: i32) -> ApiBackend {
    ApiBackend {
        service: Some(ApiService {
            name: name.to_string(),
            port: Some(ApiServicePort { number: Some(port) }),
        }),
    }
}

fn routed(default_backend: Option<ApiBackend>, rules: Vec<ApiIngressRule>) -> Kube {
    let mut kube = Kube::new();
    let ingress = ApiIngress {
        metadata: ApiMeta {
            name: None,
            namespace: Some("ns".to_string()),
            annotations: vec![Annotation {
                key: "kubernetes.io/ingress.class".to_string(),
                value: "aether".to_string(),
            }],
        },
        spec: Some(ApiIngressSpec { default_backend, rules }),
    };
    assert_eq!(kube.set_ingress(ingress), Ok(()));
    kube
}

fn example_com() -> Kube {
    routed(
        None,
        vec![ApiIngressRule {
            host: Some("example.com".to_string()),
            http: Some(ApiHttpRule {
                paths: vec![ApiHttpPath { path: Some("/".to_string()), backend: target("web", 80) }],
            }),
        }],
    )
}

#[test]
fn basic_route_is_prepared() {
    let kube = example_com();
    let made = prepare(
        &kube,
        Some("example.com"),
        "/users",
        Some("/users"),
        vec![header("accept", "*/*")],
        "10.1.2.3",
    );
    assert_eq!(
        made,
        Ok(UpstreamRequest {
            authority: "web.ns:80".to_string(),
            path_and_query: "/users".to_string(),
            headers: vec![header("accept", "*/*"), header("x-forwarded-for", "10.1.2.3")],
        })
    );
}

#[test]
fn query_is_kept() {
    let kube = example_com();
    let made =
        prepare(&kube, Some("example.com"), "/search", Some("/search?q=a&b=c"), vec![], "::1")
            .unwrap();
    assert_eq!(made.authority, "web.ns:80");
    assert_eq!(made.path_and_query, "/search?q=a&b=c");
    assert_eq!(made.headers, vec![header("x-forwarded-for", "::1")]);
}

#[test]
fn no_match_and_no_default_is_not_available() {
    let kube = example_com();
    assert_eq!(
        prepare(&kube, Some("other.com"), "/", Some("/"), vec![], "10.1.2.3"),
        Err(RequestError::IngressNotAvailable)
    );
}

#[test]
fn no_snapshot_is_not_available() {
    let kube = Kube::new();
    assert_eq!(
        prepare(&kube, Some("example.com"), "/", Some("/"), vec![], "10.1.2.3"),
        Err(RequestError::IngressNotAvailable)
    );
}

#[test]
fn default_route_is_prepared() {
    let kube = routed(Some(target("fallback", 8080)), vec![]);
    let made = prepare(&kube, Some("anything"), "/path", Some("/path"), vec![], "10.1.2.3").unwrap();
    assert_eq!(made.authority, "fallback.ns:8080");
    assert_eq!(made.path_and_query, "/path");
}

#[test]
fn missing_path_and_query_becomes_root() {
    let kube = routed(Some(target("fallback", 8080)), vec![]);
    let made = prepare(&kube, None, "", None, vec![], "10.1.2.3").unwrap();
    assert_eq!(made.authority, "fallback.ns:8080");
    assert_eq!(made.path_and_query, "/");
}

#[test]
fn peer_that_is_no_header_value_is_rejected_first() {
    let kube = Kube::new();
    assert_eq!(
        prepare(&kube, None, "/", Some("/"), vec![], "10.1.2.3\n"),
        Err(RequestError::InvalidHeader)
    );
    let kube = example_com();
    assert_eq!(
        prepare(&kube, Some("example.com"), "/", Some("/"), vec![], "\u{7f}"),
        Err(RequestError::InvalidHeader)
    );
}

#[test]
fn uri_that_cannot_be_built_is_reported() {
    let kube = routed(Some(target("fallback", 8080)), vec![]);
    assert_eq!(
        prepare(&kube, None, "/a b", Some("/a b"), vec![], "10.1.2.3"),
        Err(RequestError::HttpBuild)
    );
    let odd = routed(Some(target("not a host", 80)), vec![]);
    assert_eq!(
        prepare(&odd, None, "/", Some("/"), vec![], "10.1.2.3"),
        Err(RequestError::HttpBuild)
    );
}

#[test]
fn route_is_judged_before_the_uri() {
    let kube = example_com();
    assert_eq!(
        prepare(&kube, Some("other.com"), "/a b", Some("/a b"), vec![], "10.1.2.3"),
        Err(RequestError::IngressNotAvailable)
    );
}

#[test]
fn client_address_header_is_replaced() {
    let sent = forward_headers(
        vec![
            header("x-forwarded-for", "1.1.1.1"),
            header("host", "example.com"),
            header("X-Forwarded-For", "2.2.2.2"),
            header("accept", "*/*"),
        ],
        "10.1.2.3",
    );
    assert_eq!(
        sent,
        vec![
            header("host", "example.com"),
            header("accept", "*/*"),
            header("x-forwarded-for", "10.1.2.3"),
        ]
    );
}

#[test]
fn other_headers_keep_their_order_and_repeats() {
    let sent = forward_headers(
        vec![header("cookie", "a=1"), header("accept", "*/*"), header("cookie", "b=2")],
        "10.1.2.3",
    );
    assert_eq!(
        sent,
        vec![
            header("cookie", "a=1"),
            header("accept", "*/*"),
            header("cookie", "b=2"),
            header("x-forwarded-for", "10.1.2.3"),
        ]
    );
}

#[test]
fn address_header_alone_when_client_sent_none() {
    assert_eq!(forward_headers(vec![], "10.1.2.3"), vec![header("x-forwarded-for", "10.1.2.3")]);
}

#[test]
fn hop_by_hop_headers_are_stripped() {
    let kept = strip_hop_by_hop(vec![
        header("content-type", "text/html"),
        header("connection", "keep-alive"),
        header("keep-alive", "timeout=5"),
        header("set-cookie", "a=1"),
        header("upgrade", "h2c"),
        header("transfer-encoding", "chunked"),
        header("set-cookie", "b=2"),
        header("Connection", "close"),
    ]);
    assert_eq!(
        kept,
        vec![
            header("content-type", "text/html"),
            header("set-cookie", "a=1"),
            header("set-cookie", "b=2"),
        ]
    );
}

#[test]
fn stripping_keeps_everything_else() {
    let all = vec![header("content-length", "3"), header("te", "trailers"), header("via", "x")];
    assert_eq!(strip_hop_by_hop(all.clone()), all);
    assert_eq!(strip_hop_by_hop(vec![]), vec![]);
}

#[test]
fn hop_by_hop_names() {
    assert!(hop_by_hop("connection"));
    assert!(hop_by_hop("keep-alive"));
    assert!(hop_by_hop("upgrade"));
    assert!(hop_by_hop("transfer-encoding"));
    assert!(hop_by_hop("Transfer-Encoding"));
    assert!(!hop_by_hop("content-length"));
    assert!(!hop_by_hop("connection "));
    assert!(!hop_by_hop("keepalive"));
    assert!(!hop_by_hop(""));
}

#[test]
fn names_match_without_regard_to_ascii_case() {
    assert!(names_match("X-Forwarded-For", "x-forwarded-for"));
    assert!(names_match("HOST", "host"));
    assert!(names_match("", ""));
    assert!(!names_match("host", "hos"));
    assert!(!names_match("host", "most"));
    assert!(!names_match("a@", "a`"));
    assert!(!names_match("a[", "a{"));
    assert!(!names_match("\u{c9}", "\u{e9}"));
}

#[test]
fn header_value_bytes() {
    assert!(check_header_value("10.1.2.3"));
    assert!(check_header_value("2001:db8::1"));
    assert!(check_header_value(""));
    assert!(check_header_value("a\tb"));
    assert!(check_header_value("caf\u{e9}"));
    assert!(check_header_value(" ~"));
    assert!(!check_header_value("a\nb"));
    assert!(!check_header_value("a\rb"));
    assert!(!check_header_value("\u{0}"));
    assert!(!check_header_value("\u{1f}"));
    assert!(!check_header_value("\u{7f}"));
}

#[test]
fn request_is_assembled_only_when_accepted() {
    let made = UpstreamRequest::assemble(
        true,
        "web.ns:80".to_string(),
        "/".to_string(),
        vec![header("a", "b")],
    );
    assert_eq!(
        made,
        Ok(UpstreamRequest {
            authority: "web.ns:80".to_string(),
            path_and_query: "/".to_string(),
            headers: vec![header("a", "b")],
        })
    );
    assert_eq!(
        UpstreamRequest::assemble(false, "web.ns:80".to_string(), "/".to_string(), vec![]),
        Err(RequestError::HttpBuild)
    );
}
