use rusty::modular::parser::Route;
use rusty::modular::router::{
    incoming_request, listening_ports, location_entries_for, parse_head, read_budget, receive_chunk, request_lines,
    route_candidates, try_incoming_request, ReadStep, CHUNK_SIZE,
};

fn s(x: &str) -> String {
    x.to_string()
}

fn route(ports: &[&str], hosts: &[&str], priority: Option<usize>, paths: &[(&str, &str)]) -> Route {
    Route {
        ports: ports.iter().map(|p| s(p)).collect(),
        hosts: hosts.iter().map(|h| s(h)).collect(),
        priority,
        paths: paths.iter().map(|(a, b)| (s(a), s(b))).collect(),
    }
}

fn lines(ls: &[&str]) -> Vec<String> {
    ls.iter().map(|l| s(l)).collect()
}

fn get<'a>(data: &'a [(String, String)], k: &str) -> Option<&'a str> {
    data.iter().find(|(key, _)| key == k).map(|(_, v)| v.as_str())
}

fn routes() -> Vec<(String, Route)> {
    vec![
        (s("site"), route(&["8080"], &["example.com"], None, &[("^/", "home"), ("^/static", "files")])),
        (s("api"), route(&["8080", "9090"], &["example.com"], Some(2), &[("^/api", "api")])),
        (s("other"), route(&["8080"], &["other.org"], None, &[("^/", "other")])),
    ]
}

#[test]
fn empty_request_is_bad() {
    let (service, data) = incoming_request(s("1.2.3.4"), &Vec::new(), &routes());
    assert_eq!(service, "400");
    assert!(data.is_empty());
}

#[test]
fn malformed_request_line_is_bad() {
    for first in ["", "GET", "GET /api", "   "] {
        let (service, data) = incoming_request(s("1.2.3.4"), &lines(&[first, "Host: example.com:8080"]), &routes());
        assert_eq!(service, "400");
        assert!(data.is_empty());
    }
}

#[test]
fn missing_host_is_bad() {
    let req = lines(&["GET /api HTTP/1.1", "Accept: */*", ""]);
    let (service, data) = incoming_request(s("1.2.3.4"), &req, &routes());
    assert_eq!(service, "400");
    assert_eq!(get(&data, "peer_ip"), Some("1.2.3.4"));
    assert_eq!(get(&data, "request_method"), Some("GET"));
    assert_eq!(get(&data, "request_uri"), Some("/api"));
    assert_eq!(get(&data, "request_protocol"), Some("HTTP/1.1"));
    assert_eq!(data.len(), 4);
}

#[test]
fn longest_location_wins() {
    let req = lines(&["GET /static/app.js HTTP/1.1", "Host: example.com:8080", ""]);
    let (service, data) = incoming_request(s("ip"), &req, &routes());
    assert_eq!(service, "files");
    assert_eq!(get(&data, "request_uri_non_regex"), Some("/app.js"));
    assert_eq!(get(&data, "request_uri_regex"), Some("/static"));
    assert_eq!(get(&data, "request_uri_trimmed"), Some("static/app.js"));
}

#[test]
fn host_and_port_select_routes() {
    let req = lines(&["GET /x HTTP/1.1", "Host:  other.org :8080", ""]);
    let (service, _) = incoming_request(s("ip"), &req, &routes());
    assert_eq!(service, "other");
    let req = lines(&["GET /x HTTP/1.1", "Host: example.com:9090", ""]);
    let (service, data) = incoming_request(s("ip"), &req, &routes());
    assert_eq!(service, "404");
    assert_eq!(get(&data, "request_uri_non_regex"), Some("/x"));
    assert_eq!(get(&data, "request_uri_regex"), Some(""));
}

#[test]
fn body_lines_are_not_headers() {
    let req = lines(&["POST / HTTP/1.1", "Host: example.com:8080", "", "Host: other.org:8080"]);
    let (headers, body) = parse_head(&req);
    assert_eq!(headers, vec![(s("Host"), s("example.com:8080"))]);
    assert_eq!(body, vec![s("Host: other.org:8080")]);
    let (service, _) = incoming_request(s("ip"), &req, &routes());
    assert_eq!(service, "home");
}

#[test]
fn failing_requests_are_refused() {
    let rs = routes();
    let short = try_incoming_request(s("ip"), &lines(&["GET /"]), &rs).unwrap();
    assert_eq!(short.0, "400");
    assert!(short.1.is_empty());
    assert!(try_incoming_request(s("ip"), &lines(&["GET / HTTP/1.1", "Host: example.com"]), &rs).is_none());
    let bad = vec![(s("r"), route(&["80"], &["h"], None, &[("(", "x")]))];
    assert!(try_incoming_request(s("ip"), &lines(&["GET / HTTP/1.1", "Host: h:80"]), &bad).is_none());
    let ok = try_incoming_request(s("ip"), &lines(&["GET /api HTTP/1.1", "Host: example.com:8080"]), &rs);
    assert_eq!(ok.unwrap().0, "api");
}

#[test]
fn candidates_follow_route_order() {
    let c = route_candidates(&routes(), &s("example.com"), &s("8080"));
    let pats: Vec<&str> = c.iter().map(|c| c.pattern.as_str()).collect();
    assert_eq!(pats, vec!["^/", "^/static", "^/api"]);
    assert_eq!(c[2].priority, Some(2));
    assert_eq!((c[2].route, c[2].location), (1, 0));
}

#[test]
fn ports_listed_once() {
    assert_eq!(listening_ports(&routes()), vec![s("8080"), s("9090")]);
}

#[test]
fn reading_a_request() {
    assert_eq!(read_budget(100), Some(100));
    assert_eq!(read_budget(usize::MAX), None);
    let mut budget = read_budget(1000).unwrap();
    let mut text = String::new();
    let buf = [b'a'; CHUNK_SIZE];
    assert!(matches!(receive_chunk(&mut budget, &mut text, &buf), ReadStep::Continue));
    assert_eq!(budget, 1000 - 512);
    assert!(matches!(receive_chunk(&mut budget, &mut text, b"x\r\ny"), ReadStep::Complete));
    assert_eq!(text.len(), 516);
    assert_eq!(request_lines(&text).len(), 2);
    assert!(matches!(receive_chunk(&mut budget, &mut text, &buf[..500]), ReadStep::TooLarge));
    let mut budget = 1;
    let bad = [0xffu8; 2];
    assert!(matches!(receive_chunk(&mut budget, &mut text, &bad), ReadStep::TooLarge));
}

#[test]
fn a_zero_byte_ends_a_full_chunk() {
    let mut budget = 2000;
    let mut text = String::new();
    let mut buf = [b'a'; CHUNK_SIZE];
    buf[100] = 0;
    assert!(matches!(receive_chunk(&mut budget, &mut text, &buf), ReadStep::Complete));
    assert_eq!(budget, 2000 - 512);
    let mut budget = 512;
    let full = [b'a'; CHUNK_SIZE];
    assert!(matches!(receive_chunk(&mut budget, &mut text, &full), ReadStep::Continue));
    assert_eq!(budget, 0);
    assert!(matches!(receive_chunk(&mut budget, &mut text, &[]), ReadStep::Complete));
}

#[test]
fn reads_end_within_the_budget() {
    // Each full chunk costs 512 bytes of budget; with 1100 at most two reads go on.
    let mut budget = 1100;
    let mut text = String::new();
    let full = [b'a'; CHUNK_SIZE];
    let mut continued = 0;
    loop {
        match receive_chunk(&mut budget, &mut text, &full) {
            ReadStep::Continue => continued += 1,
            _ => break,
        }
    }
    assert_eq!(continued, 1100 / CHUNK_SIZE);
}

#[test]
fn entries_from_a_remainder() {
    assert_eq!(
        location_entries_for("/docs/x/", s("/x/")),
        vec![
            (s("request_uri_non_regex"), s("/x/")),
            (s("request_uri_regex"), s("/docs")),
            (s("request_uri_trimmed"), s("docs/x")),
        ]
    );
}
