use rusty::modular::parser::ParamValue;
use rusty::web_module::{execute, file_request, substitute_data, FileCheck};

fn s(x: &str) -> String {
    x.to_string()
}

fn text(k: &str, v: &str) -> (String, ParamValue) {
    (s(k), ParamValue::Text(s(v)))
}

fn data() -> Vec<(String, String)> {
    vec![(s("request_uri_non_regex"), s("/a.html")), (s("request_uri_trimmed"), s("a.html"))]
}

#[test]
fn substitution() {
    assert_eq!(
        substitute_data(&s("https://x$request_uri_non_regex$?$missing$"), &data()),
        "https://x/a.html?$missing$"
    );
}

#[test]
fn nothing_configured() {
    let a = execute(&Vec::new(), &data(), None);
    assert_eq!((a.status_code.as_str(), a.redirect.as_str()), ("404", "404"));
    assert_eq!(a.headers, vec![(s("Rusty-Module"), s("web-server"))]);
}

#[test]
fn location_redirects() {
    let params = vec![text("location", "https://x.org$request_uri_non_regex$")];
    let a = execute(&params, &data(), None);
    assert_eq!((a.status_code.as_str(), a.redirect.as_str()), ("301", ""));
    assert_eq!(a.headers[1], (s("Location"), s("https://x.org/a.html")));
}

#[test]
fn files() {
    let params = vec![text("file", "$request_uri_trimmed$"), text("root", "/srv/www")];
    assert_eq!(file_request(&params, &data()), Some((s("a.html"), s("/srv/www"))));
    assert_eq!(file_request(&vec![text("file", "x")], &data()), None);
    let a = execute(&params, &data(), Some(FileCheck::Contents(b"<p>".to_vec())));
    assert_eq!((a.status_code.as_str(), a.redirect.as_str()), ("200", ""));
    assert_eq!(a.body, b"<p>".to_vec());
    let a = execute(&params, &data(), Some(FileCheck::OutsideRoot));
    assert_eq!((a.status_code.as_str(), a.redirect.as_str()), ("403", "403"));
    assert!(a.body.is_empty());
    let a = execute(&params, &data(), Some(FileCheck::FileMissing));
    assert_eq!((a.status_code.as_str(), a.redirect.as_str()), ("404", "404"));
    let a = execute(&params, &data(), Some(FileCheck::RootNotDirectory));
    assert_eq!(a.status_code, "403");
}

#[test]
fn fixed_return() {
    let params = vec![text("return", "204"), (s("other"), ParamValue::Other(s("42")))];
    let a = execute(&params, &data(), None);
    assert_eq!((a.status_code.as_str(), a.redirect.as_str()), ("204", ""));
}
