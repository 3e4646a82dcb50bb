use rusty::basic::parser::{Path, Route};
use rusty::basic::router::{
    answer_connection, incoming_request, listening_ports, location_entries_for, respond, response_for,
    try_incoming_request,
};

fn s(x: &str) -> String {
    x.to_string()
}

fn routes() -> Vec<(String, Route)> {
    vec![
        (
            s("main"),
            Route {
                ports: vec![s("8080"), s("8081")],
                hosts: vec![s("localhost")],
                force_host: None,
                force_ssl: Some(false),
                priority: Some(1),
                paths: vec![(s("^/$"), Path { service: s("200") }), (s("^/old"), Path { service: s("301") })],
            },
        ),
        (
            s("backup"),
            Route {
                ports: vec![s("8080")],
                hosts: vec![s("localhost")],
                force_host: None,
                force_ssl: None,
                priority: Some(3),
                paths: vec![(s("^/old"), Path { service: s("400") })],
            },
        ),
    ]
}

fn lines(ls: &[&str]) -> Vec<String> {
    ls.iter().map(|l| s(l)).collect()
}

#[test]
fn plain_routing() {
    let (svc, data) = incoming_request(&lines(&["GET / HTTP/1.1", "Host: localhost:8081"]), &routes());
    assert_eq!(svc, "200");
    assert_eq!(data[0], (s("request_uri"), s("/")));
    assert_eq!(data.len(), 3);
    let (svc, _) = incoming_request(&lines(&["GET /old/x HTTP/1.1", "Host: localhost:8080"]), &routes());
    assert_eq!(svc, "400");
    let (svc, _) = incoming_request(&lines(&["GET /old/x HTTP/1.1", "Host: localhost:8081"]), &routes());
    assert_eq!(svc, "301");
    let (svc, data) = incoming_request(&lines(&["GET /x HTTP/1.1"]), &routes());
    assert_eq!(svc, "400");
    assert_eq!(data.len(), 1);
    let (svc, _) = incoming_request(&lines(&["GET /x HTTP/1.1", "Host: localhost:8080"]), &routes());
    assert_eq!(svc, "404");
}

#[test]
fn plain_refusals() {
    assert!(try_incoming_request(&Vec::new(), &routes()).is_none());
    assert!(try_incoming_request(&lines(&["GET / HTTP/1.1", "Host: localhost"]), &routes()).is_none());
    assert!(try_incoming_request(&lines(&["GET / HTTP/1.1", "Host: localhost:8080"]), &routes()).is_some());
}

#[test]
fn plain_ports() {
    assert_eq!(listening_ports(&routes()), vec![s("8080"), s("8081")]);
}

#[test]
fn plain_responses() {
    assert_eq!(respond(&s("200")), b"HTTP/1.1 200 OK\r\n\r\nService: \"200\"".to_vec());
    assert_eq!(respond(&s("home")), b"HTTP/1.1 404 Not Found\r\n\r\nService: \"home\"".to_vec());
    assert_eq!(respond(&s("301")), b"HTTP/1.1 301 Moved Permanently\r\n\r\nService: \"301\"".to_vec());
    assert_eq!(respond(&s("400")), b"HTTP/1.1 400 Bad Request\r\n\r\nService: \"400\"".to_vec());
}

#[test]
fn plain_response_and_entries() {
    assert_eq!(response_for(&s("200"), "\"x\""), b"HTTP/1.1 200 OK\r\n\r\nService: \"x\"".to_vec());
    assert_eq!(
        location_entries_for("/a/b", s("/b")),
        vec![(s("request_uri_non_regex"), s("/b")), (s("request_uri_regex"), s("/a"))]
    );
}

#[test]
fn a_connection_gets_the_response_to_its_route() {
    let ok = answer_connection(&lines(&["GET / HTTP/1.1", "Host: localhost:8080"]), &routes()).unwrap();
    let (service, _) = incoming_request(&lines(&["GET / HTTP/1.1", "Host: localhost:8080"]), &routes());
    assert_eq!(ok, respond(&service));
    let bad = answer_connection(&lines(&["GET / HTTP/1.1"]), &routes()).unwrap();
    assert_eq!(String::from_utf8(bad).unwrap(), "HTTP/1.1 400 Bad Request\r\n\r\nService: \"400\"");
    assert!(answer_connection(&Vec::new(), &routes()).is_none());
}
