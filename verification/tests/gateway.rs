use gateway_core::headers::is_hop_by_hop;
use gateway_core::query::extract_param;
use gateway_core::relay::{relay_upstream, FetchOutcome, UpstreamResponse};
use gateway_core::response::{build_json, build_text, Message};
use gateway_core::router::{handle_request, HttpMethod, RequestAction};
use gateway_core::validate::{validate, AllowList, RejectReason};

fn body_string(body: &[u8]) -> String {
    String::from_utf8(body.to_vec()).unwrap()
}

#[test]
fn hop_by_hop_names_any_case() {
    let hop = [
        "connection",
        "keep-alive",
        "proxy-authenticate",
        "proxy-authorization",
        "te",
        "trailers",
        "transfer-encoding",
        "upgrade",
    ];
    for name in hop {
        assert!(is_hop_by_hop(name));
        assert!(is_hop_by_hop(&name.to_uppercase()));
    }
    assert!(is_hop_by_hop("Keep-Alive"));
    assert!(is_hop_by_hop("TE"));
    assert!(!is_hop_by_hop("content-type"));
    assert!(!is_hop_by_hop("x-custom"));
}

#[test]
fn extract_param_cases() {
    assert_eq!(extract_param(Some("a=1&b=2"), "b"), Some("2".to_string()));
    assert_eq!(extract_param(Some(""), "a"), None);
    assert_eq!(extract_param(None, "a"), None);
    assert_eq!(
        extract_param(Some("malformed&b=2"), "b"),
        Some("2".to_string())
    );
    assert_eq!(extract_param(Some("a=1&a=2"), "a"), Some("1".to_string()));
    assert_eq!(extract_param(Some("a="), "a"), Some(String::new()));
    assert_eq!(extract_param(Some("ab=1"), "a"), None);
}

#[test]
fn validate_rejects_and_accepts() {
    let allow = AllowList::standard();
    assert_eq!(
        validate(&allow, "ftp://host/x").unwrap_err(),
        RejectReason::UnsupportedScheme
    );
    assert_eq!(
        validate(&allow, "not a url").unwrap_err(),
        RejectReason::InvalidUrl
    );
    assert_eq!(
        validate(&allow, "http://evil.example/x").unwrap_err(),
        RejectReason::HostNotAllowed
    );
    let ok = validate(&allow, "https://api.github.com/x").unwrap();
    assert_eq!(ok.target, "https://api.github.com/x");
}

#[test]
fn root_route_serves_json_payload() {
    let allow = AllowList::standard();
    let action = handle_request(&allow, HttpMethod::Get, "/", None);
    let resp = match action {
        RequestAction::Respond(r) => r,
        RequestAction::Forward(_) => panic!("root route must respond directly"),
    };
    assert_eq!(resp.status, 200);
    assert_eq!(resp.headers.len(), 1);
    assert_eq!(resp.headers[0].0, "content-type");
    assert_eq!(resp.headers[0].1, "application/json");
    let value: serde_json::Value = serde_json::from_slice(&resp.body).unwrap();
    assert_eq!(value["number"], 8);
    assert!(value["hello"].is_string());
}

#[test]
fn proxy_route_rejects_disallowed_host() {
    let allow = AllowList::standard();
    let action = handle_request(
        &allow,
        HttpMethod::Get,
        "/proxy",
        Some("url=http://evil.example"),
    );
    let resp = match action {
        RequestAction::Respond(r) => r,
        RequestAction::Forward(_) => panic!("disallowed host must not be forwarded"),
    };
    assert_eq!(resp.status, 403);
    assert!(body_string(&resp.body).contains("not allowed"));
}

#[test]
fn proxy_route_requires_url_param() {
    let allow = AllowList::standard();
    for query in [None, Some(""), Some("target=x")] {
        let action = handle_request(&allow, HttpMethod::Get, "/proxy", query);
        let resp = match action {
            RequestAction::Respond(r) => r,
            RequestAction::Forward(_) => panic!("missing url must not be forwarded"),
        };
        assert_eq!(resp.status, 400);
        assert_eq!(body_string(&resp.body), "Missing url query param");
    }
}

#[test]
fn proxy_route_rejects_bad_urls_with_400() {
    let allow = AllowList::standard();
    for query in ["url=not a url", "url=ftp://api.github.com/x"] {
        let action = handle_request(&allow, HttpMethod::Get, "/proxy", Some(query));
        let resp = match action {
            RequestAction::Respond(r) => r,
            RequestAction::Forward(_) => panic!("invalid url must not be forwarded"),
        };
        assert_eq!(resp.status, 400);
        assert_eq!(body_string(&resp.body), "Invalid url");
    }
}

#[test]
fn proxy_route_forwards_allowed_target() {
    let allow = AllowList::standard();
    let action = handle_request(
        &allow,
        HttpMethod::Get,
        "/proxy",
        Some("url=https://api.github.com/x"),
    );
    match action {
        RequestAction::Forward(v) => assert_eq!(v.target, "https://api.github.com/x"),
        RequestAction::Respond(_) => panic!("allowed target must be forwarded"),
    }
}

#[test]
fn fixed_proxy_route_uses_constant_target() {
    let allow = AllowList::standard();
    let action = handle_request(&allow, HttpMethod::Get, "/proxy/todo", None);
    match action {
        RequestAction::Forward(v) => {
            assert_eq!(v.target, "https://jsonplaceholder.typicode.com/todos/1")
        }
        RequestAction::Respond(_) => panic!("fixed proxy route must forward"),
    }
}

#[test]
fn unknown_routes_get_404() {
    let allow = AllowList::standard();
    for (method, path) in [
        (HttpMethod::Get, "/unknown/path"),
        (HttpMethod::Other, "/"),
        (HttpMethod::Other, "/proxy"),
    ] {
        let action = handle_request(&allow, method, path, None);
        let resp = match action {
            RequestAction::Respond(r) => r,
            RequestAction::Forward(_) => panic!("unknown route must not forward"),
        };
        assert_eq!(resp.status, 404);
        assert_eq!(body_string(&resp.body), "Not Found");
    }
}

#[test]
fn relay_round_trip_filters_hop_by_hop() {
    let upstream = UpstreamResponse {
        status: 200,
        headers: vec![
            ("Connection".to_string(), "close".to_string()),
            ("content-type".to_string(), "text/plain".to_string()),
        ],
        body: vec![1, 2, 3, 250],
    };
    let resp = relay_upstream(FetchOutcome::Received(upstream));
    assert_eq!(resp.status, 200);
    assert_eq!(resp.body, vec![1, 2, 3, 250]);
    assert!(resp
        .headers
        .iter()
        .any(|h| h.0 == "content-type" && h.1 == "text/plain"));
    assert!(!resp.headers.iter().any(|h| h.0 == "Connection"));
}

#[test]
fn relay_maps_failures_to_502() {
    let connect = relay_upstream(FetchOutcome::ConnectFailed);
    assert_eq!(connect.status, 502);
    assert_eq!(body_string(&connect.body), "Upstream fetch failed");
    let read = relay_upstream(FetchOutcome::ReadFailed);
    assert_eq!(read.status, 502);
    assert_eq!(body_string(&read.body), "Upstream read failed");
}

#[test]
fn relay_clamps_out_of_range_status() {
    let upstream = UpstreamResponse {
        status: 99,
        headers: vec![],
        body: vec![],
    };
    let resp = relay_upstream(FetchOutcome::Received(upstream));
    assert_eq!(resp.status, 502);
}

#[test]
fn routes_are_idempotent() {
    let allow = AllowList::standard();
    let cases: [(HttpMethod, &str, Option<&str>); 4] = [
        (HttpMethod::Get, "/", None),
        (HttpMethod::Get, "/proxy", Some("url=http://evil.example")),
        (HttpMethod::Get, "/proxy", None),
        (HttpMethod::Get, "/nowhere", None),
    ];
    for (method, path, query) in cases {
        let first = handle_request(&allow, method, path, query);
        let second = handle_request(&allow, method, path, query);
        match (first, second) {
            (RequestAction::Respond(a), RequestAction::Respond(b)) => {
                assert_eq!(a.status, b.status);
                assert_eq!(a.body, b.body);
                assert_eq!(a.headers, b.headers);
            }
            (RequestAction::Forward(a), RequestAction::Forward(b)) => {
                assert_eq!(a.target, b.target);
            }
            _ => panic!("identical requests produced different shapes"),
        }
    }
}

#[test]
fn build_text_sets_body_and_header() {
    let resp = build_text("Not Found", 404);
    assert_eq!(resp.status, 404);
    assert_eq!(resp.body, b"Not Found".to_vec());
    assert_eq!(resp.headers.len(), 1);
    assert_eq!(resp.headers[0].0, "content-type");
    assert_eq!(resp.headers[0].1, "text/plain; charset=utf-8");
}

#[test]
fn build_json_serializes_exactly() {
    let msg = Message {
        hello: "hi".to_string(),
        number: 8,
    };
    let resp = build_json(&msg, 200);
    assert_eq!(resp.status, 200);
    assert_eq!(resp.body, b"{\"hello\":\"hi\",\"number\":8}".to_vec());
    assert_eq!(resp.headers[0].1, "application/json");
}

#[test]
fn build_json_escapes_and_round_trips() {
    let msg = Message {
        hello: "a\"b\\c\nd\u{1}é€".to_string(),
        number: 4294967295,
    };
    let resp = build_json(&msg, 201);
    let value: serde_json::Value = serde_json::from_slice(&resp.body).unwrap();
    assert_eq!(value["hello"], "a\"b\\c\nd\u{1}é€");
    assert_eq!(value["number"], 4294967295u32);
}
