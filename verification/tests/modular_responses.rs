use rusty::modular::parser::{Config, Data, Http, Service};
use rusty::modular::server::{
    after_module, compose_response, fill_status_page, finish_response, follow_answer, plan_service,
    status_page_response, AfterModule,
    ModuleAnswer, Plan,
};

fn s(x: &str) -> String {
    x.to_string()
}

fn data() -> Data {
    Data { status_codes: vec![(s("404"), s("Not Found")), (s("200"), s("OK")), (s("500"), s("Internal Server Error"))] }
}

fn config() -> Config {
    Config {
        http: Http {
            routes: Vec::new(),
            services: vec![(s("web"), Service { module: s("web-server"), parameters: Vec::new() })],
            max_body_size: 1000,
        },
        modules: Vec::new(),
    }
}

fn sd() -> Vec<(String, String)> {
    vec![(s("request_protocol"), s("HTTP/1.1"))]
}

#[test]
fn no_protocol_sends_nothing() {
    assert!(matches!(plan_service(&s("web"), &Vec::new(), &data(), &config()), Plan::Empty));
}

#[test]
fn plans_for_services() {
    match plan_service(&s("web"), &sd(), &data(), &config()) {
        Plan::RunModule { protocol, module, service } => {
            assert_eq!(protocol, "HTTP/1.1");
            assert_eq!(module, "web-server");
            assert_eq!(service, 0);
        }
        _ => panic!("expected a module run"),
    }
    match plan_service(&s("200"), &sd(), &data(), &config()) {
        Plan::StatusPage { code, text, .. } => assert_eq!((code.as_str(), text.as_str()), ("200", "OK")),
        _ => panic!("expected a status page"),
    }
    match plan_service(&s("nothing"), &sd(), &data(), &config()) {
        Plan::StatusPage { code, text, .. } => assert_eq!((code.as_str(), text.as_str()), ("404", "Not Found")),
        _ => panic!("expected a status page"),
    }
}

fn answer(code: &str, redirect: &str) -> ModuleAnswer {
    ModuleAnswer { status_code: s(code), headers: Vec::new(), body: b"hi".to_vec(), redirect: s(redirect) }
}

#[test]
fn after_a_module() {
    assert!(matches!(after_module(&s("web"), &Vec::new(), &data(), &answer("200", "web")), AfterModule::Empty));
    assert!(matches!(after_module(&s("web"), &Vec::new(), &data(), &answer("200", "other")), AfterModule::Redirect(x) if x == "other"));
    assert!(matches!(after_module(&s("web"), &Vec::new(), &data(), &answer("200", "")), AfterModule::Reply { code, text } if code == "200" && text == "OK"));
    assert!(matches!(after_module(&s("web"), &Vec::new(), &data(), &answer("999", "")), AfterModule::Redirect(x) if x == "500"));
    assert!(matches!(after_module(&s("500"), &Vec::new(), &data(), &answer("999", "")), AfterModule::Empty));
    assert!(matches!(after_module(&s("web"), &Vec::new(), &data(), &ModuleAnswer::empty()), AfterModule::Redirect(x) if x == "500"));
}

#[test]
fn redirect_cycles_end() {
    // web -> other -> web: the second hand-over to web sends nothing.
    let first = after_module(&s("web"), &Vec::new(), &data(), &answer("200", "other"));
    assert!(matches!(first, AfterModule::Redirect(ref x) if x == "other"));
    let back = after_module(&s("other"), &vec![s("web")], &data(), &answer("200", "web"));
    assert!(matches!(back, AfterModule::Empty));
    let onward = after_module(&s("other"), &vec![s("web")], &data(), &answer("200", "third"));
    assert!(matches!(onward, AfterModule::Redirect(x) if x == "third"));
    // a failing service after 500 has answered does not go back to it
    let again = after_module(&s("web"), &vec![s("500")], &data(), &answer("999", ""));
    assert!(matches!(again, AfterModule::Empty));
    let reply = after_module(&s("web"), &vec![s("500")], &data(), &answer("200", ""));
    assert!(matches!(reply, AfterModule::Reply { code, .. } if code == "200"));
}

#[test]
fn response_bytes() {
    let extra = vec![(s("Content-Type"), s("text/plain")), (s("X-A"), s("1"))];
    let bytes = compose_response(&s("HTTP/1.1"), s("DATE"), &s("200"), &s("OK"), &extra, b"hello".to_vec());
    let text = String::from_utf8(bytes).unwrap();
    assert_eq!(
        text,
        "HTTP/1.1 200 OK\r\nServer: rusty\r\nDate: DATE\r\nContent-Type: text/plain\r\nX-A: 1\r\nContent-Length: 5\r\n\r\nhello"
    );
}

#[test]
fn status_page() {
    let t = "<h1>$status_code$ $status_text$</h1>";
    assert_eq!(fill_status_page(t, "404", "Not Found"), "<h1>404 Not Found</h1>");
    let bytes = status_page_response(&s("HTTP/1.0"), &s("404"), &s("Not Found"), t);
    let text = String::from_utf8(bytes).unwrap();
    assert!(text.starts_with("HTTP/1.0 404 Not Found\r\nServer: rusty\r\nDate: "));
    assert!(text.ends_with("Content-Length: 22\r\n\r\n<h1>404 Not Found</h1>"));
}

#[test]
fn one_content_length_line() {
    let extra = vec![(s("Content-Length"), s("999")), (s("Server"), s("other"))];
    let bytes = compose_response(&s("HTTP/1.1"), s("D"), &s("200"), &s("OK"), &extra, b"abc".to_vec());
    let text = String::from_utf8(bytes).unwrap();
    assert_eq!(text.matches("Content-Length: ").count(), 1);
    assert_eq!(text.matches("Server: ").count(), 1);
    assert_eq!(
        text,
        "HTTP/1.1 200 OK\r\nServer: other\r\nDate: D\r\nContent-Type: text/html\r\nContent-Length: 3\r\n\r\nabc"
    );
}

#[test]
fn following_answers_along_a_chain() {
    let mut cfg = config();
    cfg.http.services.push((s("other"), Service { module: s("web-server"), parameters: Vec::new() }));
    let mut service = s("web");
    let mut visited: Vec<String> = Vec::new();
    let step = follow_answer(&mut service, &mut visited, 0, &sd(), &data(), &cfg, &answer("200", "other"));
    assert!(matches!(step, AfterModule::Redirect(ref x) if x == "other"));
    assert_eq!((service.as_str(), visited.clone()), ("other", vec![s("web")]));
    let step = follow_answer(&mut service, &mut visited, 1, &sd(), &data(), &cfg, &answer("200", "web"));
    assert!(matches!(step, AfterModule::Empty));
    assert_eq!((service.as_str(), visited.clone()), ("other", vec![s("web")]));
    let step = follow_answer(&mut service, &mut visited, 1, &sd(), &data(), &cfg, &answer("404", ""));
    assert!(matches!(step, AfterModule::Reply { code, text } if code == "404" && text == "Not Found"));
    assert_eq!(service, "other");
}

#[test]
fn responses_are_dated_in_rfc2822_form() {
    let bytes = finish_response(&s("HTTP/1.1"), &s("200"), &s("OK"), &Vec::new(), b"x".to_vec());
    let text = String::from_utf8(bytes).unwrap();
    let date = text.lines().find_map(|l| l.strip_prefix("Date: ")).unwrap().to_string();
    let fields: Vec<&str> = date.split(' ').collect();
    assert_eq!(fields.len(), 6);
    assert!(["Sun,", "Mon,", "Tue,", "Wed,", "Thu,", "Fri,", "Sat,"].contains(&fields[0]));
    assert!((1..=2).contains(&fields[1].len()) && fields[1].chars().all(|c| c.is_ascii_digit()));
    assert!(["Jan", "Feb", "Mar", "Apr", "May", "Jun", "Jul", "Aug", "Sep", "Oct", "Nov", "Dec"].contains(&fields[2]));
    assert!(fields[3].len() == 4 && fields[3].chars().all(|c| c.is_ascii_digit()));
    assert_eq!(fields[4].len(), 8);
    assert_eq!(fields[5], "+0000");
    assert!(!date.contains('\r') && !date.contains('\n'));
}

#[test]
fn the_blank_line_ends_the_head() {
    let extra = vec![(s("X-A"), s("1"))];
    let bytes = finish_response(&s("HTTP/1.1"), &s("200"), &s("OK"), &extra, b"a\r\n\r\nb".to_vec());
    let text = String::from_utf8(bytes).unwrap();
    let end = text.find("\r\n\r\n").unwrap();
    assert_eq!(&text[end + 4..], "a\r\n\r\nb");
    let head = &text[..end];
    assert!(head.starts_with("HTTP/1.1 200 OK\r\n"));
    assert_eq!(head.lines().filter(|l| l.starts_with("Content-Length: ")).count(), 1);
    assert!(head.lines().any(|l| l == "Content-Length: 6"));
}
