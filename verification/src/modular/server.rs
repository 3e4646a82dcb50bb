//! Answering a routed request: the service's module runs, or a status page is
//! shown, and the response is written out.
//!
//! Running a module and reading the status page template are outside work; the
//! decisions between them are made here, one step at a time.
use vstd::prelude::*;
use vstd::string::*;
use vstd::slice::slice_to_vec;
use vstd::utf8::encode_utf8;
use crate::assoc::{lemma_first_from, lemma_get_insert, lemma_insert_distinct, text_keys, TextMap, pairs, keys_of, first_index, map_get, map_insert, insert_pair, get_pair, find_key};
use crate::text::{occurs_at, digit_char, decimal, decimal_string, replace_spec, replace_all, views, contains_string, lemma_contains_push, lemma_holds_string};
use super::parser::{Config, Data};

verus! {

/// What a module answers: a status code, extra headers, the body, and the
/// service to hand the request to instead (empty for none).
pub struct ModuleAnswer {
    pub status_code: String,
    pub headers: Vec<(String, String)>,
    pub body: Vec<u8>,
    pub redirect: String,
}

impl ModuleAnswer {
    /// The answer that stands for a module that is not loaded: everything empty.
    pub fn empty() -> (a: ModuleAnswer)
        ensures
            a.status_code@ == Seq::<char>::empty(),
            a.headers@ == Seq::<(String, String)>::empty(),
            a.body@ == Seq::<u8>::empty(),
            a.redirect@ == Seq::<char>::empty(),
    {
        ModuleAnswer { status_code: String::new(), headers: Vec::new(), body: Vec::new(), redirect: String::new() }
    }
}

/// What to do for a service.
pub enum Plan {
    /// Send nothing.
    Empty,
    /// Show the status page for this code and reason phrase.
    StatusPage { protocol: String, code: String, text: String },
    /// Run this module for the service at this position of the configuration,
    /// with the request data and that service's parameters.
    RunModule { protocol: String, module: String, service: usize },
}

/// What to do after a module has answered.
pub enum AfterModule {
    /// Send nothing.
    Empty,
    /// Answer the request with this service instead.
    Redirect(String),
    /// Send the module's body with this status and the module's headers.
    Reply { code: String, text: String },
}

/// The reason phrase of a status code, if the table has it.
pub open spec fn status_text(data: Data, code: Seq<char>) -> Option<Seq<char>> {
    map_get(pairs(data.status_codes@), code)
}

/// The position of a service in the configuration.
pub open spec fn service_index(config: Config, name: Seq<char>) -> Option<int> {
    first_index(keys_of(config.http.services@), name)
}

/// The status table has the default code `404`.
pub open spec fn table_ok(data: Data) -> bool {
    status_text(data, "404"@) is Some
}

/// Decides how a service answers. Without a request protocol nothing is sent.
/// A service the configuration does not define shows a status page: for the
/// service's name if that is a code of the status table, else for `404`. A
/// defined service runs its module.
pub fn plan_service(service: &String, service_data: &Vec<(String, String)>, data: &Data, config: &Config) -> (p: Plan)
    requires
        map_get(pairs(service_data@), "request_protocol"@) is Some ==> table_ok(*data),
    ensures
        match map_get(pairs(service_data@), "request_protocol"@) {
            None => p is Empty,
            Some(protocol) => match service_index(*config, service@) {
                None => {
                    let code = if status_text(*data, service@) is Some {
                        service@
                    } else {
                        "404"@
                    };
                    p matches Plan::StatusPage { protocol: q, code: c, text: t } && q@ == protocol
                        && c@ == code && Some(t@) == status_text(*data, code)
                },
                Some(i) => p matches Plan::RunModule { protocol: q, module: m, service: k } && q@
                    == protocol && k == i && m@ == config.http.services@[i].1.module@,
            },
        },
{
    let protocol = match get_pair(service_data, &String::from_str("request_protocol")) {
        None => return Plan::Empty,
        Some(p) => p,
    };
    match find_key(&config.http.services, service) {
        Some(i) => Plan::RunModule { protocol, module: config.http.services[i].1.module.clone(), service: i },
        None => {
            match get_pair(&data.status_codes, service) {
                Some(text) => Plan::StatusPage { protocol, code: service.clone(), text },
                None => {
                    let code = String::from_str("404");
                    let text = match get_pair(&data.status_codes, &code) {
                        Some(t) => t,
                        None => {
                            assert(false);
                            String::new()
                        },
                    };
                    Plan::StatusPage { protocol, code, text }
                },
            }
        },
    }
}

/// The service a module's answer hands the request over to, if any: the
/// service it names, or, where it names none and its status code is not in
/// the table, the service `500`. `None` means the answer is sent.
pub open spec fn handover(data: Data, code: Seq<char>, redirect: Seq<char>) -> Option<Seq<char>> {
    if redirect.len() > 0 {
        Some(redirect)
    } else if status_text(data, code) is None {
        Some("500"@)
    } else {
        None
    }
}

/// Decides what follows a module's answer for `service`, the services that
/// handed the request over to it being `visited`. An answer whose status code
/// is in the table and that names no other service is sent with that code, the
/// module's body and its headers. Otherwise the request is handed over (see
/// `handover`), unless the service it would go to has already answered it,
/// `service` included: then nothing is sent, so that no chain of hand-overs
/// runs forever.
///
/// A module is taken to answer the same each time it is asked for the same
/// service and request. Under that, coming back to a service that has answered
/// means the hand-overs would go round for ever; a redirect of a service to
/// itself is the shortest such round. A module that answers differently when
/// asked again would, after such a return, be asked again only by a chain
/// without this cut.
pub fn after_module(service: &String, visited: &Vec<String>, data: &Data, answer: &ModuleAnswer) -> (a: AfterModule)
    ensures
        ({
            let seen = views(visited@).push(service@);
            match handover(*data, answer.status_code@, answer.redirect@) {
                None => a matches AfterModule::Reply { code: c, text: x } && c@ == answer.status_code@
                    && Some(x@) == status_text(*data, answer.status_code@),
                Some(t) => if seen.contains(t) {
                    a is Empty
                } else {
                    a matches AfterModule::Redirect(s) && s@ == t
                },
            }
        }),
{
    let target = if !answer.redirect.as_str().is_empty() {
        answer.redirect.clone()
    } else {
        match get_pair(&data.status_codes, &answer.status_code) {
            Some(text) => return AfterModule::Reply { code: answer.status_code.clone(), text },
            None => String::from_str("500"),
        }
    };
    proof {
        lemma_contains_push(views(visited@), service@, target@);
        lemma_holds_string(visited@, target@);
    }
    if target == *service || contains_string(visited, &target) {
        AfterModule::Empty
    } else {
        AfterModule::Redirect(target)
    }
}

/// Takes in the answer of the module of `service`, the service at position
/// `index` of the configuration: decides as `after_module` does and, on a
/// hand-over, moves on to the next service, `service` joining the visited
/// ones. What the request is answered with stays the same: the chain from the
/// state before and from the state after ends alike, whatever the modules of
/// the other services answer.
pub fn follow_answer(
    service: &mut String,
    visited: &mut Vec<String>,
    index: usize,
    service_data: &Vec<(String, String)>,
    data: &Data,
    config: &Config,
    answer: &ModuleAnswer,
) -> (a: AfterModule)
    requires
        !views(old(visited)@).contains(old(service)@),
        map_get(pairs(service_data@), "request_protocol"@) is Some,
        service_index(*config, old(service)@) == Some(index as int),
    ensures
        match a {
            AfterModule::Redirect(t) => final(service)@ == t@ && views(final(visited)@) == views(
                old(visited)@,
            ).push(old(service)@) && !views(final(visited)@).contains(final(service)@),
            _ => final(service)@ == old(service)@ && views(final(visited)@) == views(old(visited)@),
        },
        ({
            let seen = views(old(visited)@).push(old(service)@);
            match handover(*data, answer.status_code@, answer.redirect@) {
                None => a matches AfterModule::Reply { code: c, text: x } && c@ == answer.status_code@
                    && Some(x@) == status_text(*data, answer.status_code@),
                Some(t) => if seen.contains(t) {
                    a is Empty
                } else {
                    a matches AfterModule::Redirect(s) && s@ == t
                },
            }
        }),
        forall|answers: spec_fn(int) -> (Seq<char>, Seq<char>)|
            answers(index as int) == (answer.status_code@, answer.redirect@) ==> #[trigger] chain_end(
                *config,
                *data,
                pairs(service_data@),
                old(service)@,
                views(old(visited)@),
                answers,
            ) == match a {
                AfterModule::Empty => None,
                AfterModule::Reply { .. } => Some(old(service)@),
                AfterModule::Redirect(_) => chain_end(
                    *config,
                    *data,
                    pairs(service_data@),
                    final(service)@,
                    views(final(visited)@),
                    answers,
                ),
            },
{
    let a = after_module(service, visited, data, answer);
    match &a {
        AfterModule::Redirect(t) => {
            let ghost before = views(visited@);
            let ghost current = service@;
            visited.push(service.clone());
            assert(views(visited@) =~= before.push(current));
            *service = t.clone();
        },
        _ => {},
    }
    a
}

/// How many of `keys` are not among `seen`.
pub open spec fn unseen(keys: Seq<Seq<char>>, seen: Seq<Seq<char>>) -> nat
    decreases keys.len(),
{
    if keys.len() == 0 {
        0
    } else {
        unseen(keys.drop_last(), seen) + if seen.contains(keys.last()) {
            0nat
        } else {
            1nat
        }
    }
}

/// Marking a service as seen leaves no more keys unseen, and fewer where it is
/// a key not seen before.
pub proof fn lemma_unseen_push(keys: Seq<Seq<char>>, seen: Seq<Seq<char>>, s: Seq<char>)
    ensures
        unseen(keys, seen.push(s)) <= unseen(keys, seen),
        keys.contains(s) && !seen.contains(s) ==> unseen(keys, seen.push(s)) < unseen(keys, seen),
    decreases keys.len(),
{
    if keys.len() > 0 {
        lemma_unseen_push(keys.drop_last(), seen, s);
        lemma_contains_push(seen, s, keys.last());
        if keys.contains(s) && !seen.contains(s) && keys.last() != s {
            let k = choose|k: int| 0 <= k < keys.len() && keys[k] == s;
            assert(keys.drop_last()[k] == s);
        }
    }
}

proof fn lemma_unseen_le(keys: Seq<Seq<char>>, seen: Seq<Seq<char>>)
    ensures
        unseen(keys, seen) <= keys.len(),
    decreases keys.len(),
{
    if keys.len() > 0 {
        lemma_unseen_le(keys.drop_last(), seen);
    }
}

/// Where answering `service` ends, the services in `seen` having handed the
/// request over to it, when the module of the service at position `i` answers
/// with the status code and redirect `answers(i)`: `None` where nothing is
/// sent, else the service whose answer is sent (its status page where the
/// configuration does not define it). Each module answers as `answers` says
/// for its service, the same each time it is asked.
pub open spec fn chain_end(
    config: Config,
    data: Data,
    service_data: TextMap,
    service: Seq<char>,
    seen: Seq<Seq<char>>,
    answers: spec_fn(int) -> (Seq<char>, Seq<char>),
) -> Option<Seq<char>>
    decreases unseen(keys_of(config.http.services@), seen),
{
    if seen.contains(service) || map_get(service_data, "request_protocol"@) is None {
        None
    } else {
        match service_index(config, service) {
            None => Some(service),
            Some(i) => {
                let passed = seen.push(service);
                match handover(data, answers(i).0, answers(i).1) {
                    None => Some(service),
                    Some(t) => if passed.contains(t) {
                        None
                    } else {
                        proof {
                            lemma_first_from(keys_of(config.http.services@), service, 0);
                            lemma_unseen_push(keys_of(config.http.services@), seen, service);
                        }
                        chain_end(config, data, service_data, t, passed, answers)
                    },
                }
            },
        }
    }
}

/// A module that names another service hands the request over to it: the
/// answer is that service's, unless it has answered already (the service
/// itself included), in which case nothing is sent. For the first service of
/// a request that is exactly a redirect to itself.
pub proof fn lemma_redirect_followed(
    config: Config,
    data: Data,
    service_data: TextMap,
    service: Seq<char>,
    seen: Seq<Seq<char>>,
    answers: spec_fn(int) -> (Seq<char>, Seq<char>),
    i: int,
)
    requires
        !seen.contains(service),
        map_get(service_data, "request_protocol"@) is Some,
        service_index(config, service) == Some(i),
        answers(i).1.len() > 0,
    ensures
        chain_end(config, data, service_data, service, seen, answers) == if seen.push(service).contains(
            answers(i).1,
        ) {
            None
        } else {
            chain_end(config, data, service_data, answers(i).1, seen.push(service), answers)
        },
        seen.len() == 0 ==> (seen.push(service).contains(answers(i).1) <==> answers(i).1 == service),
{
    lemma_contains_push(seen, service, answers(i).1);
}

/// A module that names no other service and a status code outside the table
/// hands the request over to the service `500`, unless that service has
/// answered already (or is the one answering), in which case nothing is sent.
pub proof fn lemma_fallback_500(
    config: Config,
    data: Data,
    service_data: TextMap,
    service: Seq<char>,
    seen: Seq<Seq<char>>,
    answers: spec_fn(int) -> (Seq<char>, Seq<char>),
    i: int,
)
    requires
        !seen.contains(service),
        map_get(service_data, "request_protocol"@) is Some,
        service_index(config, service) == Some(i),
        answers(i).1.len() == 0,
        status_text(data, answers(i).0) is None,
    ensures
        chain_end(config, data, service_data, service, seen, answers) == if seen.push(service).contains(
            "500"@,
        ) {
            None
        } else {
            chain_end(config, data, service_data, "500"@, seen.push(service), answers)
        },
{
}

/// The service `s` is defined and its module's answer hands the request over to `t`.
pub open spec fn leads_to(
    config: Config,
    data: Data,
    answers: spec_fn(int) -> (Seq<char>, Seq<char>),
    s: Seq<char>,
    t: Seq<char>,
) -> bool {
    match service_index(config, s) {
        Some(i) => handover(data, answers(i).0, answers(i).1) == Some(t),
        None => false,
    }
}

/// Having passed through a service `s` that hands over to `t` does not change
/// where the chain from `t` ends: were the chain to come back to `s`, `s`
/// would hand over to `t` again, which has already answered.
proof fn lemma_passed_irrelevant(
    config: Config,
    data: Data,
    service_data: TextMap,
    u: Seq<char>,
    seen: Seq<Seq<char>>,
    path: Seq<Seq<char>>,
    s: Seq<char>,
    t: Seq<char>,
    answers: spec_fn(int) -> (Seq<char>, Seq<char>),
)
    requires
        !seen.contains(s),
        !path.contains(s),
        leads_to(config, data, answers, s, t),
        path.contains(t) || u == t,
    ensures
        chain_end(config, data, service_data, u, seen.push(s) + path, answers) == chain_end(
            config,
            data,
            service_data,
            u,
            seen + path,
            answers,
        ),
    decreases unseen(keys_of(config.http.services@), seen + path),
{
    let a = seen.push(s) + path;
    let b = seen + path;
    lemma_contains_push(seen, s, u);
    assert forall|x: Seq<char>| #[trigger] a.contains(x) <==> b.contains(x) || x == s by {
        lemma_contains_push(seen, s, x);
        if a.contains(x) {
            let k = choose|k: int| 0 <= k < a.len() && a[k] == x;
            if k < seen.len() {
                assert(b[k] == x);
            } else if k > seen.len() {
                assert(path[k - seen.len() - 1] == x);
                assert(b[k - 1] == x);
            }
        }
        if b.contains(x) {
            let k = choose|k: int| 0 <= k < b.len() && b[k] == x;
            if k < seen.len() {
                assert(a[k] == x);
            } else {
                assert(a[k + 1] == x);
            }
        }
        if x == s {
            assert(a[seen.len() as int] == s);
        }
    }
    assert forall|x: Seq<char>| #[trigger] b.contains(x) <==> seen.contains(x) || path.contains(x) by {
        if b.contains(x) {
            let k = choose|k: int| 0 <= k < b.len() && b[k] == x;
            if k < seen.len() {
                assert(seen[k] == x);
            } else {
                assert(path[k - seen.len()] == x);
            }
        }
        if seen.contains(x) {
            let k = choose|k: int| 0 <= k < seen.len() && seen[k] == x;
            assert(b[k] == x);
        }
        if path.contains(x) {
            let k = choose|k: int| 0 <= k < path.len() && path[k] == x;
            assert(b[seen.len() + k] == x);
        }
    }
    assert(!b.contains(s));
    let keys = keys_of(config.http.services@);
    if b.contains(u) || map_get(service_data, "request_protocol"@) is None {
        assert(a.contains(u) || map_get(service_data, "request_protocol"@) is None);
        assert(chain_end(config, data, service_data, u, a, answers) is None);
        assert(chain_end(config, data, service_data, u, b, answers) is None);
    } else if u == s {
        // `s` hands over to `t`, which has answered already
        lemma_contains_push(b, s, t);
        assert(b.push(s).contains(t));
        assert(a.contains(u));
        assert(chain_end(config, data, service_data, u, a, answers) is None);
        assert(chain_end(config, data, service_data, u, b, answers) is None);
    } else {
        assert(!a.contains(u));
        match service_index(config, u) {
            None => {},
            Some(i) => {
                match handover(data, answers(i).0, answers(i).1) {
                    None => {},
                    Some(x) => {
                        lemma_contains_push(a, u, x);
                        lemma_contains_push(b, u, x);
                        let path2 = path.push(u);
                        assert(a.push(u) =~= seen.push(s) + path2);
                        assert(b.push(u) =~= seen + path2);
                        lemma_contains_push(path, u, t);
                        lemma_contains_push(path, u, s);
                        assert(a.push(u).contains(x) <==> b.push(u).contains(x) || x == s);
                        if b.push(u).contains(x) {
                            assert(chain_end(config, data, service_data, u, a, answers) is None);
                            assert(chain_end(config, data, service_data, u, b, answers) is None);
                        } else if x == s {
                            // the chain from the state without `s` reaches `s`, which hands over
                            // to `t` again, and `t` has answered
                            let bb = b.push(u);
                            lemma_contains_push(bb, s, t);
                            lemma_contains_push(b, u, t);
                            assert(bb.push(s).contains(t));
                            assert(!bb.contains(s));
                            assert(chain_end(config, data, service_data, s, bb, answers) is None);
                            assert(chain_end(config, data, service_data, u, a, answers) is None);
                            assert(chain_end(config, data, service_data, u, b, answers) is None);
                        } else {
                            lemma_first_from(keys, u, 0);
                            assert(keys[i] == u);
                            lemma_unseen_push(keys, b, u);
                            lemma_passed_irrelevant(config, data, service_data, x, seen, path2, s, t, answers);
                        }
                    },
                }
            },
        }
    }
}

/// The hand-over law as a request's answer first sees it: a module of the
/// service `s` that names another service makes the answer that service's
/// answer, as if the request had come to it directly, and one that names `s`
/// itself sends nothing. A module is taken to answer the same each time it is
/// asked for the same service.
pub proof fn lemma_redirect_fresh(
    config: Config,
    data: Data,
    service_data: TextMap,
    service: Seq<char>,
    answers: spec_fn(int) -> (Seq<char>, Seq<char>),
    i: int,
)
    requires
        map_get(service_data, "request_protocol"@) is Some,
        service_index(config, service) == Some(i),
        answers(i).1.len() > 0,
    ensures
        chain_end(config, data, service_data, service, seq![], answers) == if answers(i).1 == service {
            None
        } else {
            chain_end(config, data, service_data, answers(i).1, seq![], answers)
        },
{
    let t = answers(i).1;
    let empty = Seq::<Seq<char>>::empty();
    lemma_redirect_followed(config, data, service_data, service, empty, answers, i);
    if t != service {
        assert(empty.push(service) + empty =~= empty.push(service));
        assert(empty + empty =~= empty);
        lemma_passed_irrelevant(config, data, service_data, t, empty, empty, service, t, answers);
    }
}

/// The fall-back law as a request's answer first sees it: a module of the
/// service `s` that names no service and a status code outside the table makes
/// the answer that of the service `500`, as if the request had come to it
/// directly, unless `s` is `500` itself, which sends nothing. A module is
/// taken to answer the same each time it is asked for the same service.
pub proof fn lemma_fallback_fresh(
    config: Config,
    data: Data,
    service_data: TextMap,
    service: Seq<char>,
    answers: spec_fn(int) -> (Seq<char>, Seq<char>),
    i: int,
)
    requires
        map_get(service_data, "request_protocol"@) is Some,
        service_index(config, service) == Some(i),
        answers(i).1.len() == 0,
        status_text(data, answers(i).0) is None,
    ensures
        chain_end(config, data, service_data, service, seq![], answers) == if service == "500"@ {
            None
        } else {
            chain_end(config, data, service_data, "500"@, seq![], answers)
        },
{
    let empty = Seq::<Seq<char>>::empty();
    lemma_fallback_500(config, data, service_data, service, empty, answers, i);
    lemma_contains_push(empty, service, "500"@);
    if service != "500"@ {
        assert(empty.push(service) + empty =~= empty.push(service));
        assert(empty + empty =~= empty);
        lemma_passed_irrelevant(config, data, service_data, "500"@, empty, empty, service, "500"@, answers);
    }
}

/// Services that have handed a request over in turn are distinct services of
/// the configuration, so a chain of hand-overs has at most as many links as
/// the configuration has services: answering a request ends.
pub proof fn lemma_chain_bounded(config: Config, seen: Seq<Seq<char>>)
    requires
        seen.no_duplicates(),
        forall|k: int| 0 <= k < seen.len() ==> #[trigger] service_index(config, seen[k]) is Some,
    ensures
        seen.len() <= config.http.services@.len(),
{
    lemma_unseen_bound(keys_of(config.http.services@), config, seen);
    lemma_unseen_le(keys_of(config.http.services@), seq![]);
}

proof fn lemma_unseen_bound(keys: Seq<Seq<char>>, config: Config, seen: Seq<Seq<char>>)
    requires
        keys == keys_of(config.http.services@),
        seen.no_duplicates(),
        forall|k: int| 0 <= k < seen.len() ==> #[trigger] service_index(config, seen[k]) is Some,
    ensures
        unseen(keys, seen) + seen.len() <= unseen(keys, seq![]),
    decreases seen.len(),
{
    if seen.len() > 0 {
        let shorter = seen.drop_last();
        let s = seen.last();
        assert forall|k: int| 0 <= k < shorter.len() implies #[trigger] service_index(config, shorter[k]) is Some by {
            assert(shorter[k] == seen[k]);
        }
        assert(shorter.no_duplicates());
        lemma_unseen_bound(keys, config, shorter);
        assert(service_index(config, seen[seen.len() - 1]) is Some);
        lemma_first_from(keys, s, 0);
        if shorter.contains(s) {
            let k = choose|k: int| 0 <= k < shorter.len() && shorter[k] == s;
            assert(seen[k] == seen[seen.len() - 1]);
        }
        let j = service_index(config, s)->0;
        assert(keys[j] == s);
        assert(keys.contains(s));
        assert(shorter.push(s) =~= seen);
        lemma_unseen_push(keys, shorter, s);
    } else {
        assert(seen =~= seq![]);
    }
}

/// The status page: the template with `$status_code$` and then `$status_text$` replaced.
pub open spec fn status_page(template: Seq<char>, code: Seq<char>, text: Seq<char>) -> Seq<char> {
    replace_spec(replace_spec(template, "$status_code$"@, code), "$status_text$"@, text)
}

/// Fills the status page template with a code and its reason phrase.
pub fn fill_status_page(template: &str, code: &str, text: &str) -> (page: String)
    ensures
        page@ == status_page(template@, code@, text@),
{
    let with_code = replace_all(template, "$status_code$", code);
    replace_all(with_code.as_str(), "$status_text$", text)
}

/// The headers every response starts with.
pub open spec fn base_headers(date: Seq<char>) -> TextMap {
    seq![("Server"@, "rusty"@), ("Date"@, date), ("Content-Type"@, "text/html"@)]
}

/// `h` with the first `n` entries of `extra` inserted in order.
pub open spec fn insert_all(h: TextMap, extra: TextMap, n: nat) -> TextMap
    decreases n,
{
    if n == 0 {
        h
    } else {
        map_insert(insert_all(h, extra, (n - 1) as nat), extra[n - 1].0, extra[n - 1].1)
    }
}

/// The headers of a response: the base headers, the module's headers, and the
/// content length.
pub open spec fn response_headers(date: Seq<char>, extra: TextMap, content_len: nat) -> TextMap {
    map_insert(insert_all(base_headers(date), extra, extra.len()), "Content-Length"@, decimal(content_len))
}

/// The header lines of the first `n` headers.
pub open spec fn header_text(h: TextMap, n: nat) -> Seq<char>
    decreases n,
{
    if n == 0 {
        seq![]
    } else {
        header_text(h, (n - 1) as nat) + h[n - 1].0 + ": "@ + h[n - 1].1 + "\r\n"@
    }
}

/// The status line, the header lines and the blank line of a response.
pub open spec fn response_head(protocol: Seq<char>, code: Seq<char>, text: Seq<char>, h: TextMap) -> Seq<char> {
    protocol + " "@ + code + " "@ + text + "\r\n"@ + header_text(h, h.len()) + "\r\n"@
}

/// The bytes of a response.
pub open spec fn response_bytes(
    protocol: Seq<char>,
    date: Seq<char>,
    code: Seq<char>,
    text: Seq<char>,
    extra: TextMap,
    content: Seq<u8>,
) -> Seq<u8> {
    encode_utf8(response_head(protocol, code, text, response_headers(date, extra, content.len()))) + content
}

/// Every response gives the byte length of its content as `Content-Length`,
/// whatever headers the module set.
pub proof fn lemma_content_length(date: Seq<char>, extra: TextMap, content_len: nat)
    ensures
        map_get(response_headers(date, extra, content_len), "Content-Length"@) == Some(decimal(content_len)),
{
    lemma_get_insert(
        insert_all(base_headers(date), extra, extra.len()),
        "Content-Length"@,
        decimal(content_len),
        "Content-Length"@,
    );
}

proof fn lemma_insert_all_distinct(h: TextMap, extra: TextMap, n: nat)
    requires
        text_keys(h).no_duplicates(),
        n <= extra.len(),
    ensures
        text_keys(insert_all(h, extra, n)).no_duplicates(),
    decreases n,
{
    if n > 0 {
        lemma_insert_all_distinct(h, extra, (n - 1) as nat);
        lemma_insert_distinct(insert_all(h, extra, (n - 1) as nat), extra[n - 1].0, extra[n - 1].1);
    }
}

/// No header name occurs twice among the headers of a response, and the one
/// header named `Content-Length` gives the byte length of the content,
/// whatever headers the module set.
pub proof fn lemma_headers_distinct(date: Seq<char>, extra: TextMap, content_len: nat)
    ensures
        text_keys(response_headers(date, extra, content_len)).no_duplicates(),
        forall|i: int|
            0 <= i < response_headers(date, extra, content_len).len() && #[trigger] response_headers(
                date,
                extra,
                content_len,
            )[i].0 == "Content-Length"@ ==> response_headers(date, extra, content_len)[i].1 == decimal(
                content_len,
            ),
{
    let base = base_headers(date);
    reveal_strlit("Server");
    reveal_strlit("Date");
    reveal_strlit("Content-Type");
    assert(text_keys(base)[0] != text_keys(base)[1]) by {
        assert("Server"@[0] != "Date"@[0]);
    }
    assert(text_keys(base)[0] != text_keys(base)[2]) by {
        assert("Server"@[0] != "Content-Type"@[0]);
    }
    assert(text_keys(base)[1] != text_keys(base)[2]) by {
        assert("Date"@[0] != "Content-Type"@[0]);
    }
    lemma_insert_all_distinct(base, extra, extra.len());
    let h0 = insert_all(base, extra, extra.len());
    lemma_insert_distinct(h0, "Content-Length"@, decimal(content_len));
    let h = response_headers(date, extra, content_len);
    lemma_content_length(date, extra, content_len);
    lemma_first_from(text_keys(h), "Content-Length"@, 0);
    assert forall|i: int| 0 <= i < h.len() && #[trigger] h[i].0 == "Content-Length"@ implies h[i].1
        == decimal(content_len) by {
        let j = first_index(text_keys(h), "Content-Length"@)->0;
        assert(text_keys(h)[i] == "Content-Length"@);
        assert(text_keys(h)[j] == "Content-Length"@);
    }
}

/// No carriage return or line feed occurs in `s`.
pub open spec fn line_safe(s: Seq<char>) -> bool {
    forall|i: int| 0 <= i < s.len() ==> #[trigger] s[i] != '\r' && s[i] != '\n'
}

/// No name or value of the headers holds a carriage return or a line feed.
pub open spec fn entries_line_safe(h: TextMap) -> bool {
    forall|j: int| 0 <= j < h.len() ==> line_safe((#[trigger] h[j]).0) && line_safe(h[j].1)
}

proof fn lemma_concat_safe(a: Seq<char>, b: Seq<char>)
    requires
        line_safe(a),
        line_safe(b),
    ensures
        line_safe(a + b),
{
    assert forall|i: int| 0 <= i < (a + b).len() implies #[trigger] (a + b)[i] != '\r' && (a + b)[i]
        != '\n' by {
        if i < a.len() {
            assert((a + b)[i] == a[i]);
        } else {
            assert((a + b)[i] == b[i - a.len()]);
        }
    }
}

proof fn lemma_digits_safe(s: Seq<char>)
    requires
        all_digits(s),
    ensures
        line_safe(s),
{
    assert forall|i: int| 0 <= i < s.len() implies #[trigger] s[i] != '\r' && s[i] != '\n' by {
        assert('0' <= s[i] <= '9');
    }
}

/// An RFC 2822 date holds no line break.
pub proof fn lemma_date_line_safe(s: Seq<char>)
    requires
        is_utc_rfc2822(s),
    ensures
        line_safe(s),
{
    let (w, day, m, year, hour, minute, second) = choose|
        weekday: int,
        day: Seq<char>,
        month: int,
        year: Seq<char>,
        hour: Seq<char>,
        minute: Seq<char>,
        second: Seq<char>,
    |
        0 <= weekday < 7 && 0 <= month < 12 && 1 <= day.len() <= 2 && all_digits(day) && year.len() == 4
            && all_digits(year) && hour.len() == 2 && all_digits(hour) && minute.len() == 2 && all_digits(
            minute,
        ) && second.len() == 2 && all_digits(second) && s == #[trigger] utc_rfc2822(
            weekday,
            day,
            month,
            year,
            hour,
            minute,
            second,
        );
    reveal_strlit("Sun");
    reveal_strlit("Mon");
    reveal_strlit("Tue");
    reveal_strlit("Wed");
    reveal_strlit("Thu");
    reveal_strlit("Fri");
    reveal_strlit("Sat");
    reveal_strlit("Jan");
    reveal_strlit("Feb");
    reveal_strlit("Mar");
    reveal_strlit("Apr");
    reveal_strlit("May");
    reveal_strlit("Jun");
    reveal_strlit("Jul");
    reveal_strlit("Aug");
    reveal_strlit("Sep");
    reveal_strlit("Oct");
    reveal_strlit("Nov");
    reveal_strlit("Dec");
    reveal_strlit(", ");
    reveal_strlit(" ");
    reveal_strlit(":");
    reveal_strlit(" +0000");
    let wd = short_weekdays()[w];
    let mo = short_months()[m];
    assert(line_safe(wd));
    assert(line_safe(mo));
    assert(line_safe(", "@));
    assert(line_safe(" "@));
    assert(line_safe(":"@));
    assert(line_safe(" +0000"@));
    lemma_digits_safe(day);
    lemma_digits_safe(year);
    lemma_digits_safe(hour);
    lemma_digits_safe(minute);
    lemma_digits_safe(second);
    lemma_concat_safe(wd, ", "@);
    lemma_concat_safe(wd + ", "@, day);
    lemma_concat_safe(wd + ", "@ + day, " "@);
    lemma_concat_safe(wd + ", "@ + day + " "@, mo);
    lemma_concat_safe(wd + ", "@ + day + " "@ + mo, " "@);
    lemma_concat_safe(wd + ", "@ + day + " "@ + mo + " "@, year);
    lemma_concat_safe(wd + ", "@ + day + " "@ + mo + " "@ + year, " "@);
    lemma_concat_safe(wd + ", "@ + day + " "@ + mo + " "@ + year + " "@, hour);
    lemma_concat_safe(wd + ", "@ + day + " "@ + mo + " "@ + year + " "@ + hour, ":"@);
    lemma_concat_safe(wd + ", "@ + day + " "@ + mo + " "@ + year + " "@ + hour + ":"@, minute);
    lemma_concat_safe(wd + ", "@ + day + " "@ + mo + " "@ + year + " "@ + hour + ":"@ + minute, ":"@);
    lemma_concat_safe(
        wd + ", "@ + day + " "@ + mo + " "@ + year + " "@ + hour + ":"@ + minute + ":"@,
        second,
    );
    lemma_concat_safe(
        wd + ", "@ + day + " "@ + mo + " "@ + year + " "@ + hour + ":"@ + minute + ":"@ + second,
        " +0000"@,
    );
}

proof fn lemma_decimal_safe(n: nat)
    ensures
        line_safe(decimal(n)),
    decreases n,
{
    if n >= 10 {
        lemma_decimal_safe(n / 10);
        let d = decimal(n / 10);
        assert forall|i: int| 0 <= i < d.push(digit_char(n % 10)).len() implies #[trigger] d.push(
            digit_char(n % 10),
        )[i] != '\r' && d.push(digit_char(n % 10))[i] != '\n' by {
            if i < d.len() {
                assert(d.push(digit_char(n % 10))[i] == d[i]);
            }
        }
    }
}

proof fn lemma_insert_safe(m: TextMap, k: Seq<char>, v: Seq<char>)
    requires
        entries_line_safe(m),
        line_safe(k),
        line_safe(v),
    ensures
        entries_line_safe(map_insert(m, k, v)),
        map_insert(m, k, v).len() >= m.len(),
{
    let m2 = map_insert(m, k, v);
    lemma_first_from(text_keys(m), k, 0);
    assert forall|j: int| 0 <= j < m2.len() implies line_safe((#[trigger] m2[j]).0) && line_safe(
        m2[j].1,
    ) by {
        match first_index(text_keys(m), k) {
            Some(i) => {
                if j != i {
                    assert(m2[j] == m[j]);
                } else {
                    assert(m2[j] == (k, v));
                }
            },
            None => {
                if j < m.len() {
                    assert(m2[j] == m[j]);
                }
            },
        }
    }
}

proof fn lemma_insert_all_safe(h: TextMap, extra: TextMap, n: nat)
    requires
        entries_line_safe(h),
        entries_line_safe(extra),
        n <= extra.len(),
    ensures
        entries_line_safe(insert_all(h, extra, n)),
        insert_all(h, extra, n).len() >= h.len(),
    decreases n,
{
    if n > 0 {
        lemma_insert_all_safe(h, extra, (n - 1) as nat);
        assert(line_safe(extra[n - 1].0) && line_safe(extra[n - 1].1));
        lemma_insert_safe(insert_all(h, extra, (n - 1) as nat), extra[n - 1].0, extra[n - 1].1);
    }
}

/// In the header lines, every carriage return is followed by a line feed and
/// never by another carriage return two places on; the lines end with a line
/// break, and do not begin with one.
proof fn lemma_header_text_breaks(h: TextMap, n: nat)
    requires
        entries_line_safe(h),
        n <= h.len(),
    ensures
        ({
            let t = header_text(h, n);
            &&& forall|i: int|
                0 <= i < t.len() && #[trigger] t[i] == '\r' ==> i + 1 < t.len() && t[i + 1] == '\n' && (i
                    + 2 < t.len() ==> t[i + 2] != '\r')
            &&& n > 0 ==> t.len() >= 2 && t[0] != '\r' && t[t.len() - 2] == '\r' && t[t.len() - 1] == '\n'
        }),
    decreases n,
{
    if n > 0 {
        lemma_header_text_breaks(h, (n - 1) as nat);
        reveal_strlit(": ");
        reveal_strlit("\r\n");
        let t0 = header_text(h, (n - 1) as nat);
        let k = h[n - 1].0;
        let v = h[n - 1].1;
        let line = k + ": "@ + v;
        assert(line_safe(k) && line_safe(v));
        assert(line_safe(": "@));
        lemma_concat_safe(k, ": "@);
        lemma_concat_safe(k + ": "@, v);
        let t = header_text(h, n);
        assert(t =~= t0 + line + "\r\n"@);
        assert(line.len() >= 2);
        assert forall|i: int| 0 <= i < t.len() && #[trigger] t[i] == '\r' implies i + 1 < t.len() && t[i
            + 1] == '\n' && (i + 2 < t.len() ==> t[i + 2] != '\r') by {
            if i < t0.len() {
                assert(t[i] == t0[i]);
                assert(t[i + 1] == t0[i + 1]);
                if i + 2 < t0.len() {
                    assert(t[i + 2] == t0[i + 2]);
                } else {
                    assert(t[i + 2] == line[0]);
                }
            } else if i < t0.len() + line.len() {
                assert(t[i] == line[i - t0.len()]);
            } else {
                assert(i == t0.len() + line.len());
            }
        }
        if t0.len() == 0 {
            assert(t[0] == line[0]);
        } else {
            assert(t[0] == t0[0]);
        }
    }
}

/// The layout of a response head whose parts hold no line break: the header
/// names and values hold none either, and the head ends with the blank line
/// (`"\r\n\r\n"`) that comes nowhere earlier, so the content starts right
/// after it.
pub proof fn lemma_response_layout(
    protocol: Seq<char>,
    code: Seq<char>,
    text: Seq<char>,
    date: Seq<char>,
    extra: TextMap,
    content_len: nat,
)
    requires
        line_safe(protocol),
        line_safe(code),
        line_safe(text),
        line_safe(date),
        entries_line_safe(extra),
    ensures
        entries_line_safe(response_headers(date, extra, content_len)),
        ({
            let head = response_head(protocol, code, text, response_headers(date, extra, content_len));
            &&& head.len() >= 4
            &&& head.subrange(head.len() - 4, head.len() as int) == "\r\n\r\n"@
            &&& forall|i: int| 0 <= i < head.len() - 4 ==> !occurs_at(head, "\r\n\r\n"@, i)
        }),
{
    reveal_strlit("Server");
    reveal_strlit("rusty");
    reveal_strlit("Date");
    reveal_strlit("Content-Type");
    reveal_strlit("text/html");
    reveal_strlit("Content-Length");
    reveal_strlit(" ");
    reveal_strlit("\r\n");
    reveal_strlit("\r\n\r\n");
    let base = base_headers(date);
    assert(line_safe("Server"@) && line_safe("rusty"@) && line_safe("Date"@) && line_safe(
        "Content-Type"@,
    ) && line_safe("text/html"@) && line_safe("Content-Length"@));
    assert(entries_line_safe(base)) by {
        assert forall|j: int| 0 <= j < base.len() implies line_safe((#[trigger] base[j]).0) && line_safe(
            base[j].1,
        ) by {
            if j == 0 {
            } else if j == 1 {
            } else {
            }
        }
    }
    lemma_insert_all_safe(base, extra, extra.len());
    lemma_decimal_safe(content_len);
    let h0 = insert_all(base, extra, extra.len());
    lemma_insert_safe(h0, "Content-Length"@, decimal(content_len));
    let h = response_headers(date, extra, content_len);
    assert(h.len() >= 3);
    lemma_header_text_breaks(h, h.len());
    let t = header_text(h, h.len());
    let status = protocol + " "@ + code + " "@ + text;
    assert(line_safe(" "@));
    lemma_concat_safe(protocol, " "@);
    lemma_concat_safe(protocol + " "@, code);
    lemma_concat_safe(protocol + " "@ + code, " "@);
    lemma_concat_safe(protocol + " "@ + code + " "@, text);
    let head = response_head(protocol, code, text, h);
    assert(head =~= status + "\r\n"@ + t + "\r\n"@);
    let off = status.len() + 2;
    assert(head.subrange(head.len() - 4, head.len() as int) =~= "\r\n\r\n"@) by {
        assert(head[head.len() - 4] == t[t.len() - 2]);
        assert(head[head.len() - 3] == t[t.len() - 1]);
    }
    assert forall|i: int| 0 <= i < head.len() - 4 implies !occurs_at(head, "\r\n\r\n"@, i) by {
        if occurs_at(head, "\r\n\r\n"@, i) {
            assert(head.subrange(i, i + 4)[0] == head[i]);
            assert(head.subrange(i, i + 4)[2] == head[i + 2]);
            assert(head[i] == '\r' && head[i + 2] == '\r');
            if i < status.len() {
                assert(head[i] == status[i]);
            } else if i == status.len() {
                assert(head[i + 2] == t[0]);
            } else if i == status.len() + 1 {
                assert(head[i] == '\n');
            } else {
                let j = i - off;
                assert(head[i] == t[j]);
                assert(j + 2 < t.len());
                assert(head[i + 2] == t[j + 2]);
            }
        }
    }
}

proof fn lemma_header_text_prefix(h: TextMap, m: nat, n: nat)
    requires
        m <= n <= h.len(),
    ensures
        header_text(h, m).len() <= header_text(h, n).len(),
        header_text(h, n).subrange(0, header_text(h, m).len() as int) == header_text(h, m),
    decreases n,
{
    if m < n {
        lemma_header_text_prefix(h, m, (n - 1) as nat);
        let a = header_text(h, m);
        let b = header_text(h, (n - 1) as nat);
        let c = header_text(h, n);
        assert(c =~= b + h[n - 1].0 + ": "@ + h[n - 1].1 + "\r\n"@);
        assert(c.subrange(0, a.len() as int) =~= b.subrange(0, a.len() as int));
    } else {
        assert(header_text(h, n).subrange(0, header_text(h, m).len() as int) =~= header_text(h, m));
    }
}

/// Every response, for every content (the empty one included), has in its head
/// the line `Content-Length: ` followed by the decimal byte length of the
/// content: a line of the head starts at `p` and reads so.
pub proof fn lemma_content_length_line(
    protocol: Seq<char>,
    date: Seq<char>,
    code: Seq<char>,
    text: Seq<char>,
    extra: TextMap,
    content: Seq<u8>,
)
    ensures
        exists|head: Seq<char>, p: int|
            response_bytes(protocol, date, code, text, extra, content) == encode_utf8(head) + content && 0
                < p && head[p - 1] == '\n' && #[trigger] occurs_at(
                head,
                "Content-Length: "@ + decimal(content.len()) + "\r\n"@,
                p,
            ),
{
    reveal_strlit("Content-Length: ");
    reveal_strlit("Content-Length");
    reveal_strlit(": ");
    reveal_strlit("\r\n");
    reveal_strlit(" ");
    let h = response_headers(date, extra, content.len());
    let head = response_head(protocol, code, text, h);
    lemma_content_length(date, extra, content.len());
    lemma_first_from(text_keys(h), "Content-Length"@, 0);
    let j = first_index(text_keys(h), "Content-Length"@)->0;
    assert(h[j].0 == "Content-Length"@);
    assert(h[j].1 == decimal(content.len()));
    let line = "Content-Length: "@ + decimal(content.len()) + "\r\n"@;
    assert(h[j].0 + ": "@ + h[j].1 + "\r\n"@ =~= line);
    let before = header_text(h, j as nat);
    let upto = header_text(h, (j + 1) as nat);
    assert(upto =~= before + line);
    lemma_header_text_prefix(h, (j + 1) as nat, h.len());
    let t = header_text(h, h.len());
    let status = protocol + " "@ + code + " "@ + text;
    assert(head =~= status + "\r\n"@ + t + "\r\n"@);
    let p: int = (status.len() + 2 + before.len()) as int;
    assert(head.subrange(p, p + line.len()) =~= line) by {
        assert forall|q: int| 0 <= q < line.len() implies head.subrange(p, p + line.len())[q] == line[q] by {
            assert(head[p + q] == t[before.len() + q]);
            assert(t[before.len() + q] == upto[before.len() + q]);
        }
    }
    assert(occurs_at(head, line, p));
    if j == 0 {
        assert(head[p - 1] == '\n');
    } else {
        assert(before =~= header_text(h, (j - 1) as nat) + h[j - 1].0 + ": "@ + h[j - 1].1 + "\r\n"@);
        lemma_header_text_prefix(h, j as nat, h.len());
        assert(head[p - 1] == t[before.len() - 1]);
        assert(t[before.len() - 1] == before[before.len() - 1]);
    }
    assert(response_bytes(protocol, date, code, text, extra, content) == encode_utf8(head) + content);
}

/// Writes a response dated `date`.
pub fn compose_response(
    protocol: &String,
    date: String,
    code: &String,
    text: &String,
    extra: &Vec<(String, String)>,
    content: Vec<u8>,
) -> (bytes: Vec<u8>)
    ensures
        bytes@ == response_bytes(protocol@, date@, code@, text@, pairs(extra@), content@),
{
    let ghost date_v = date@;
    let mut headers: Vec<(String, String)> = Vec::new();
    headers.push((String::from_str("Server"), String::from_str("rusty")));
    headers.push((String::from_str("Date"), date));
    headers.push((String::from_str("Content-Type"), String::from_str("text/html")));
    assert(pairs(headers@) =~= base_headers(date_v));
    let mut k: usize = 0;
    while k < extra.len()
        invariant
            0 <= k <= extra@.len(),
            pairs(headers@) == insert_all(base_headers(date_v), pairs(extra@), k as nat),
        decreases extra.len() - k,
    {
        assert(pairs(extra@)[k as int] == (extra@[k as int].0@, extra@[k as int].1@));
        insert_pair(&mut headers, extra[k].0.clone(), extra[k].1.clone());
        k += 1;
    }
    insert_pair(&mut headers, String::from_str("Content-Length"), decimal_string(content.len()));
    let ghost h = pairs(headers@);
    let mut head = protocol.clone();
    head.append(" ");
    head.append(code.as_str());
    head.append(" ");
    head.append(text.as_str());
    head.append("\r\n");
    let ghost status = head@;
    let mut j: usize = 0;
    while j < headers.len()
        invariant
            0 <= j <= headers@.len(),
            h == pairs(headers@),
            head@ == status + header_text(h, j as nat),
        decreases headers.len() - j,
    {
        assert(h[j as int] == (headers@[j as int].0@, headers@[j as int].1@));
        head.append(headers[j].0.as_str());
        head.append(": ");
        head.append(headers[j].1.as_str());
        head.append("\r\n");
        j += 1;
    }
    head.append("\r\n");
    let ghost content_v = content@;
    let mut bytes = slice_to_vec(head.as_str().as_bytes());
    let mut rest = content;
    bytes.append(&mut rest);
    bytes
}

/// All characters are decimal digits.
pub open spec fn all_digits(s: Seq<char>) -> bool {
    forall|i: int| 0 <= i < s.len() ==> '0' <= #[trigger] s[i] <= '9'
}

/// The English abbreviations of the weekdays, from Sunday.
pub open spec fn short_weekdays() -> Seq<Seq<char>> {
    seq!["Sun"@, "Mon"@, "Tue"@, "Wed"@, "Thu"@, "Fri"@, "Sat"@]
}

/// The English abbreviations of the months.
pub open spec fn short_months() -> Seq<Seq<char>> {
    seq!["Jan"@, "Feb"@, "Mar"@, "Apr"@, "May"@, "Jun"@, "Jul"@, "Aug"@, "Sep"@, "Oct"@, "Nov"@, "Dec"@]
}

/// An RFC 2822 date of UTC, such as `Tue, 1 Jul 2003 10:52:37 +0000`, from
/// its weekday and month (as positions) and its digit fields.
pub open spec fn utc_rfc2822(
    weekday: int,
    day: Seq<char>,
    month: int,
    year: Seq<char>,
    hour: Seq<char>,
    minute: Seq<char>,
    second: Seq<char>,
) -> Seq<char> {
    short_weekdays()[weekday] + ", "@ + day + " "@ + short_months()[month] + " "@ + year + " "@ + hour
        + ":"@ + minute + ":"@ + second + " +0000"@
}

/// `s` is an RFC 2822 date of UTC: a weekday, a day of one or two digits, a
/// month, a year of four digits, a time of two-digit fields and the offset `+0000`.
pub open spec fn is_utc_rfc2822(s: Seq<char>) -> bool {
    exists|
        weekday: int,
        day: Seq<char>,
        month: int,
        year: Seq<char>,
        hour: Seq<char>,
        minute: Seq<char>,
        second: Seq<char>,
    |
        0 <= weekday < 7 && 0 <= month < 12 && 1 <= day.len() <= 2 && all_digits(day) && year.len() == 4
            && all_digits(year) && hour.len() == 2 && all_digits(hour) && minute.len() == 2 && all_digits(
            minute,
        ) && second.len() == 2 && all_digits(second) && s == #[trigger] utc_rfc2822(
            weekday,
            day,
            month,
            year,
            hour,
            minute,
            second,
        )
}

/// The current time in RFC 2822 form, from `chrono::Utc::now().to_rfc2822()`.
///
/// Trusted: the text is an RFC 2822 date of UTC, as `chrono`'s `write_rfc2822`
/// writes it for an offset of zero; which date it is depends on the clock and
/// is not stated.
#[verifier::external_body]
fn current_date() -> (d: String)
    ensures
        is_utc_rfc2822(d@),
{
    chrono::Utc::now().to_rfc2822()
}

/// Writes a response dated now.
pub fn finish_response(
    protocol: &String,
    code: &String,
    text: &String,
    extra: &Vec<(String, String)>,
    content: Vec<u8>,
) -> (bytes: Vec<u8>)
    ensures
        exists|date: Seq<char>|
            is_utc_rfc2822(date) && bytes@ == response_bytes(
                protocol@,
                date,
                code@,
                text@,
                pairs(extra@),
                content@,
            ),
{
    let date = current_date();
    let ghost d = date@;
    let bytes = compose_response(protocol, date, code, text, extra, content);
    assert(bytes@ == response_bytes(protocol@, d, code@, text@, pairs(extra@), content@));
    bytes
}

/// Writes the status-page response for a code, dated now.
pub fn status_page_response(protocol: &String, code: &String, text: &String, template: &str) -> (bytes: Vec<u8>)
    ensures
        exists|date: Seq<char>|
            is_utc_rfc2822(date) && bytes@ == response_bytes(
                protocol@,
                date,
                code@,
                text@,
                Seq::empty(),
                encode_utf8(status_page(template@, code@, text@)),
            ),
{
    let page = fill_status_page(template, code.as_str(), text.as_str());
    let content = slice_to_vec(page.as_str().as_bytes());
    let no_headers: Vec<(String, String)> = Vec::new();
    assert(pairs(no_headers@) =~= Seq::empty());
    finish_response(protocol, code, text, &no_headers, content)
}

} // verus!
