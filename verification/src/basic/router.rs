//! Request routing of the plain router: from the header lines of a request to
//! the service named by the chosen location, and the fixed response for it.
use vstd::prelude::*;
use crate::text::owned;
use vstd::string::*;
use vstd::utf8::encode_utf8;
use vstd::slice::slice_to_vec;
use crate::assoc::{TextMap, pairs, map_get, map_insert, insert_pair, get_pair};
use crate::pattern::{compile, strip_first, regex_strip_first};
use crate::request::{colon, header_of, host_of, port_of, header_entry, host_and_port};
use crate::routing::{select_spec, select_location, all_compile, all_patterns_compile, cand_matches, prio_gt, lemma_select_characterized};
use crate::text::{
    views, split_spec, ws_tokens, split_whitespace, replace_spec, replace_all,
};
use super::parser::Route;
use crate::route_table::{candidates, candidates_upto, lemma_candidates_in_range};
pub use crate::route_table::{route_candidates, listening_ports};

verus! {

/// The headers of the first `n` lines, a later header replacing an earlier one
/// of the same name.
pub open spec fn header_fold(lines: Seq<Seq<char>>, n: nat) -> TextMap
    decreases n,
{
    if n == 0 {
        seq![]
    } else {
        match header_of(lines[n - 1]) {
            Some((k, v)) => map_insert(header_fold(lines, (n - 1) as nat), k, v),
            None => header_fold(lines, (n - 1) as nat),
        }
    }
}

/// The headers of a request.
pub open spec fn request_headers(lines: Seq<Seq<char>>) -> TextMap {
    header_fold(lines, lines.len())
}

/// Reads the headers of a request's lines.
pub fn parse_headers(lines: &Vec<String>) -> (headers: Vec<(String, String)>)
    ensures
        pairs(headers@) == request_headers(views(lines@)),
{
    let ghost ls = views(lines@);
    let mut headers: Vec<(String, String)> = Vec::new();
    assert(pairs(headers@) =~= seq![]);
    let mut n: usize = 0;
    while n < lines.len()
        invariant
            0 <= n <= lines@.len(),
            ls == views(lines@),
            pairs(headers@) == header_fold(ls, n as nat),
        decreases lines.len() - n,
    {
        assert(ls[n as int] == lines@[n as int]@);
        match header_entry(lines[n].as_str()) {
            Some((k, v)) => insert_pair(&mut headers, k, v),
            None => {},
        }
        n += 1;
    }
    headers
}

/// The `Host` header of a request.
pub open spec fn host_header(lines: Seq<Seq<char>>) -> Option<Seq<char>> {
    map_get(request_headers(lines), "Host"@)
}

/// The request can be routed without failing: it has a first line with a
/// method, a path and a protocol, and its `Host` header, if any, names a port.
pub open spec fn request_ok(lines: Seq<Seq<char>>) -> bool {
    &&& lines.len() > 0
    &&& ws_tokens(lines[0]).len() >= 3
    &&& host_header(lines) matches Some(v) ==> split_spec(v, colon()).len() >= 2
}

/// The locations of the routes that accept the request's host and port all compile.
pub open spec fn patterns_ok(lines: Seq<Seq<char>>, routes: Seq<(String, Route)>) -> bool {
    host_header(lines) matches Some(v) ==> all_compile(candidates(routes, host_of(v), port_of(v)))
}

/// The data derived from the path and the remainder that the chosen location
/// leaves of it: that remainder, and the path with the remainder removed.
pub open spec fn location_entries(path: Seq<char>, rest: Seq<char>) -> TextMap {
    seq![("request_uri_non_regex"@, rest), ("request_uri_regex"@, replace_spec(path, rest, ""@))]
}

/// Builds the data derived from the path and the remainder its chosen location leaves.
pub fn location_entries_for(path: &str, rest: String) -> (entries: Vec<(String, String)>)
    ensures
        pairs(entries@) == location_entries(path@, rest@),
{
    let uri_regex = replace_all(path, rest.as_str(), "");
    let ghost rest_v = rest@;
    let mut entries: Vec<(String, String)> = Vec::new();
    entries.push((owned("request_uri_non_regex"), rest));
    entries.push((owned("request_uri_regex"), uri_regex));
    assert(pairs(entries@) =~= location_entries(path@, rest_v));
    entries
}

/// The service that answers a request and the data derived from it.
///
/// The data holds the request's path; a request without a `Host` header is
/// answered `400`; one that no location of an accepting route matches is
/// answered `404`, and otherwise the service of the chosen location answers it.
/// Past the `Host` check the data also holds the path with the chosen
/// location's first match cut out (the whole path where no location is
/// chosen), and the path with that remainder removed.
pub open spec fn routed(lines: Seq<Seq<char>>, routes: Seq<(String, Route)>) -> (Seq<char>, TextMap) {
    let tokens = ws_tokens(lines[0]);
    let data = seq![("request_uri"@, tokens[1])];
    match host_header(lines) {
        None => ("400"@, data),
        Some(v) => {
            let cands = candidates(routes, host_of(v), port_of(v));
            let rest = match select_spec(cands, tokens[1]) {
                Some((i, _)) => regex_strip_first(cands[i].pattern@, tokens[1]),
                None => tokens[1],
            };
            let data2 = data + location_entries(tokens[1], rest);
            match select_spec(cands, tokens[1]) {
                None => ("404"@, data2),
                Some((i, _)) => (
                    routes[cands[i].route as int].1.paths@[cands[i].location as int].1.service@,
                    data2,
                ),
            }
        },
    }
}

/// Routes a request, given its header lines.
pub fn incoming_request(lines: &Vec<String>, routes: &Vec<(String, Route)>) -> (r: (String, Vec<(String, String)>))
    requires
        request_ok(views(lines@)),
        patterns_ok(views(lines@), routes@),
    ensures
        (r.0@, pairs(r.1@)) == routed(views(lines@), routes@),
{
    let ghost ls = views(lines@);
    assert(ls[0] == lines@[0]@);
    let tokens = split_whitespace(lines[0].as_str());
    assert(views(tokens@)[1] == tokens@[1]@);
    let path = tokens[1].clone();
    let mut data: Vec<(String, String)> = Vec::new();
    data.push((owned("request_uri"), tokens[1].clone()));
    assert(pairs(data@) =~= seq![("request_uri"@, path@)]);
    let headers = parse_headers(lines);
    proof {
        reveal_strlit("Host");
    }
    match get_pair(&headers, &owned("Host")) {
        None => (owned("400"), data),
        Some(value) => {
            let (host, port) = match host_and_port(value.as_str()) {
                Some(hp) => hp,
                None => {
                    assert(false);
                    (owned(""), owned(""))
                },
            };
            let cands = route_candidates(routes, &host, &port);
            let choice = select_location(&cands, path.as_str());
            let location = match &choice {
                Some(c) => cands[c.index].pattern.clone(),
                None => owned(""),
            };
            proof {
                reveal_strlit("");
                assert(""@ =~= Seq::<char>::empty());
            }
            let rest = match compile(location.as_str()) {
                Some(re) => strip_first(&re, path.as_str()),
                None => {
                    assert(false);
                    owned("")
                },
            };
            let ghost before = data@;
            let ghost rest_v = rest@;
            let mut entries = location_entries_for(path.as_str(), rest);
            data.append(&mut entries);
            assert(pairs(data@) =~= pairs(before) + location_entries(path@, rest_v));
            match choice {
                None => (owned("404"), data),
                Some(c) => {
                    proof {
                        assert forall|r: int| 0 <= r < routes@.len() implies #[trigger] routes@[r].1.paths@.len() <= usize::MAX by {
                            assert(routes@[r].1.paths.len() == routes@[r].1.paths@.len());
                        }
                        assert(routes@.len() == routes.len());
                        lemma_candidates_in_range(routes@, host@, port@, routes@.len());
                    }
                    let cand = &cands[c.index];
                    let service = routes[cand.route].1.paths[cand.location].1.service.clone();
                    (service, data)
                },
            }
        },
    }
}

/// Routes a request as `incoming_request` does where that succeeds, and gives
/// `None` on the requests on which routing fails: no lines, a first line
/// without a method, a path and a protocol, a `Host` header without a port, or
/// a location of an accepting route that is not a valid regular expression.
pub fn try_incoming_request(lines: &Vec<String>, routes: &Vec<(String, Route)>) -> (r: Option<(String, Vec<(String, String)>)>)
    ensures
        r is None <==> !(request_ok(views(lines@)) && patterns_ok(views(lines@), routes@)),
        r matches Some(x) ==> (x.0@, pairs(x.1@)) == routed(views(lines@), routes@),
{
    let ghost ls = views(lines@);
    if lines.len() == 0 {
        return None;
    }
    assert(ls[0] == lines@[0]@);
    let tokens = split_whitespace(lines[0].as_str());
    assert(views(tokens@).len() == tokens@.len());
    if tokens.len() < 3 {
        return None;
    }
    let headers = parse_headers(lines);
    proof {
        reveal_strlit("Host");
    }
    match get_pair(&headers, &owned("Host")) {
        None => {},
        Some(value) => {
            match host_and_port(value.as_str()) {
                None => return None,
                Some((host, port)) => {
                    let cands = route_candidates(routes, &host, &port);
                    if !all_patterns_compile(&cands) {
                        return None;
                    }
                },
            }
        },
    }
    Some(incoming_request(lines, routes))
}


/// `{:?}` of a string, as `format!` writes it: the string in double quotes,
/// with escapes.
pub uninterp spec fn debug_text(s: Seq<char>) -> Seq<char>;

/// Writes `s` with `format!("{:?}", s)`.
///
/// Trusted: the text is named `debug_text` of the string; nothing more of it is stated.
#[verifier::external_body]
fn debug_quoted(s: &str) -> (r: String)
    ensures
        r@ == debug_text(s@),
{
    format!("{:?}", s)
}

/// The status line and blank line that answer a service name.
pub open spec fn status_head(service: Seq<char>) -> Seq<char> {
    if service == "200"@ {
        "HTTP/1.1 200 OK\r\n\r\n"@
    } else if service == "400"@ {
        "HTTP/1.1 400 Bad Request\r\n\r\n"@
    } else if service == "301"@ {
        "HTTP/1.1 301 Moved Permanently\r\n\r\n"@
    } else {
        "HTTP/1.1 404 Not Found\r\n\r\n"@
    }
}

/// The response to a service, given the service name as `{:?}` writes it.
pub fn response_for(service: &String, quoted: &str) -> (bytes: Vec<u8>)
    ensures
        bytes@ == encode_utf8(status_head(service@) + "Service: "@ + quoted@),
{
    let mut s = if *service == owned("200") {
        owned("HTTP/1.1 200 OK\r\n\r\n")
    } else if *service == owned("400") {
        owned("HTTP/1.1 400 Bad Request\r\n\r\n")
    } else if *service == owned("301") {
        owned("HTTP/1.1 301 Moved Permanently\r\n\r\n")
    } else {
        owned("HTTP/1.1 404 Not Found\r\n\r\n")
    };
    s.append("Service: ");
    s.append(quoted);
    slice_to_vec(s.as_str().as_bytes())
}

/// The response to a routed request: the status line for the service name
/// (`200`, `400`, `301`, else `404 Not Found`), then the service name quoted.
pub fn respond(service: &String) -> (bytes: Vec<u8>)
    ensures
        bytes@ == encode_utf8(status_head(service@) + "Service: "@ + debug_text(service@)),
{
    let quoted = debug_quoted(service.as_str());
    response_for(service, quoted.as_str())
}

/// The bytes written back on a connection whose request has these header
/// lines: the response to the service the request is routed to, or `None`
/// where routing fails (see `try_incoming_request`) and nothing is written.
pub fn answer_connection(lines: &Vec<String>, routes: &Vec<(String, Route)>) -> (r: Option<Vec<u8>>)
    ensures
        r is None <==> !(request_ok(views(lines@)) && patterns_ok(views(lines@), routes@)),
        r matches Some(bytes) ==> bytes@ == encode_utf8(
            status_head(routed(views(lines@), routes@).0) + "Service: "@ + debug_text(
                routed(views(lines@), routes@).0,
            ),
        ),
{
    match try_incoming_request(lines, routes) {
        None => None,
        Some((service, _data)) => Some(respond(&service)),
    }
}

/// The priorities that decide between routes are the configured ones: each
/// candidate carries the `priority` of the route that offers it, and the route
/// of the chosen location has a priority that no other matching route offering
/// that location exceeds, where a route with a priority ranks above one without.
pub proof fn lemma_priority_decides(
    routes: Seq<(String, Route)>,
    host: Seq<char>,
    port: Seq<char>,
    path: Seq<char>,
)
    requires
        routes.len() <= usize::MAX,
        forall|r: int| 0 <= r < routes.len() ==> #[trigger] routes[r].1.paths@.len() <= usize::MAX,
    ensures
        ({
            let cands = candidates(routes, host, port);
            &&& forall|k: int|
                0 <= k < cands.len() ==> #[trigger] cands[k].priority == routes[cands[k].route as int].1.priority
            &&& select_spec(cands, path) matches Some((i, _)) ==> forall|j: int|
                0 <= j < cands.len() && #[trigger] cand_matches(cands, path, j) && cands[j].pattern@
                    == cands[i].pattern@ ==> !prio_gt(
                    routes[cands[j].route as int].1.priority,
                    routes[cands[i].route as int].1.priority,
                )
        }),
{
    let cands = candidates(routes, host, port);
    lemma_candidates_in_range(routes, host, port, routes.len());
    lemma_select_characterized(cands, path);
    assert forall|k: int| 0 <= k < cands.len() implies #[trigger] cands[k].priority == routes[cands[k].route as int].1.priority by {
        assert(cands[k] == candidates_upto(routes, host, port, routes.len())[k]);
    }
}

} // verus!
