//! Request routing of the module-based server: from the lines of a request to
//! the service that answers it and the data handed to that service.
use vstd::prelude::*;
use crate::text::owned;
use vstd::string::*;
use crate::assoc::{TextMap, pairs, map_get, map_insert, insert_pair, get_pair};
use crate::pattern::{compile, strip_first, regex_strip_first};
use crate::routing::{select_spec, select_location, all_compile, all_patterns_compile, cand_matches, prio_gt, lemma_select_characterized};
use crate::text::{
    views, split_spec, split_str, ws_tokens, split_whitespace, trim_spec, trim, Trim, replace_spec,
    replace_all,
};
use vstd::utf8::{valid_utf8, decode_utf8};
use crate::text::utf8_text;
use crate::request::{colon_space, colon, header_of, host_of, port_of};
use super::parser::Route;
use crate::route_table::{candidates, candidates_upto, lemma_candidates_in_range};
pub use crate::route_table::{route_candidates, listening_ports};

verus! {

/// The headers, the body lines, and whether the blank line has been passed,
/// after the first `n` lines of a request. Lines up to and including the first
/// blank one are read for headers, a later header replacing an earlier one of
/// the same name; the lines after it are the body.
pub open spec fn read_head(lines: Seq<Seq<char>>, n: nat) -> (TextMap, Seq<Seq<char>>, bool)
    decreases n,
{
    if n == 0 {
        (seq![], seq![], false)
    } else {
        let prev = read_head(lines, (n - 1) as nat);
        let line = lines[n - 1];
        if prev.2 {
            (prev.0, prev.1.push(line), true)
        } else {
            match header_of(line) {
                Some((k, v)) => (map_insert(prev.0, k, v), prev.1, line.len() == 0),
                None => (prev.0, prev.1, line.len() == 0),
            }
        }
    }
}

/// The headers of a request.
pub open spec fn request_headers(lines: Seq<Seq<char>>) -> TextMap {
    read_head(lines, lines.len()).0
}

/// The body lines of a request.
pub open spec fn request_body(lines: Seq<Seq<char>>) -> Seq<Seq<char>> {
    read_head(lines, lines.len()).1
}

/// Splits the lines of a request into its headers and its body lines.
pub fn parse_head(lines: &Vec<String>) -> (r: (Vec<(String, String)>, Vec<String>))
    ensures
        pairs(r.0@) == request_headers(views(lines@)),
        views(r.1@) == request_body(views(lines@)),
{
    let ghost ls = views(lines@);
    let mut headers: Vec<(String, String)> = Vec::new();
    let mut body: Vec<String> = Vec::new();
    let mut on_body = false;
    let mut n: usize = 0;
    proof {
        reveal_strlit(": ");
        assert(pairs(headers@) =~= seq![]);
        assert(views(body@) =~= seq![]);
    }
    while n < lines.len()
        invariant
            0 <= n <= lines@.len(),
            ls == views(lines@),
            ": "@ == colon_space(),
            pairs(headers@) == read_head(ls, n as nat).0,
            views(body@) == read_head(ls, n as nat).1,
            on_body == read_head(ls, n as nat).2,
        decreases lines.len() - n,
    {
        let line = &lines[n];
        assert(ls[n as int] == line@);
        if !on_body {
            if line.as_str().is_empty() {
                on_body = true;
            }
            let parts = split_str(line.as_str(), ": ");
            if parts.len() >= 2 {
                assert(views(parts@)[0] == parts@[0]@ && views(parts@)[1] == parts@[1]@);
                insert_pair(&mut headers, parts[0].clone(), parts[1].clone());
            }
        } else {
            let ghost before = body@;
            body.push(line.clone());
            assert(views(body@) =~= views(before).push(line@));
        }
        n += 1;
    }
    assert(read_head(ls, n as nat) == read_head(ls, ls.len()));
    (headers, body)
}

/// The `Host` header of a request.
pub open spec fn host_header(lines: Seq<Seq<char>>) -> Option<Seq<char>> {
    map_get(request_headers(lines), "Host"@)
}

/// The request can be routed without failing: if its first line has a method,
/// a path and a protocol, its `Host` header, if any, names a port.
pub open spec fn request_ok(lines: Seq<Seq<char>>) -> bool {
    request_line_ok(lines) ==> (host_header(lines) matches Some(v) ==> split_spec(v, colon()).len() >= 2)
}

/// The request has a first line with a method, a path and a protocol.
pub open spec fn request_line_ok(lines: Seq<Seq<char>>) -> bool {
    lines.len() > 0 && ws_tokens(lines[0]).len() >= 3
}

/// The locations of the routes that accept the request's host and port all compile.
pub open spec fn patterns_ok(lines: Seq<Seq<char>>, routes: Seq<(String, Route)>) -> bool {
    request_line_ok(lines) ==> (host_header(lines) matches Some(v) ==> all_compile(
        candidates(routes, host_of(v), port_of(v)),
    ))
}

/// The data every routed request gives its service: the peer's address and
/// the method, path and protocol of its first line.
pub open spec fn request_data(peer_ip: Seq<char>, tokens: Seq<Seq<char>>) -> TextMap {
    seq![
        ("peer_ip"@, peer_ip),
        ("request_method"@, tokens[0]),
        ("request_uri"@, tokens[1]),
        ("request_protocol"@, tokens[2]),
    ]
}

/// The data derived from the path and the remainder that the chosen location
/// leaves of it: that remainder, the path with the remainder removed, and the
/// path without its surrounding slashes.
pub open spec fn location_entries(path: Seq<char>, rest: Seq<char>) -> TextMap {
    seq![
        ("request_uri_non_regex"@, rest),
        ("request_uri_regex"@, replace_spec(path, rest, ""@)),
        ("request_uri_trimmed"@, trim_spec(path, Trim::Char('/'))),
    ]
}

/// Builds the data derived from the path and the remainder its chosen location leaves.
pub fn location_entries_for(path: &str, rest: String) -> (entries: Vec<(String, String)>)
    ensures
        pairs(entries@) == location_entries(path@, rest@),
{
    let uri_regex = replace_all(path, rest.as_str(), "");
    let trimmed = trim(path, Trim::Char('/'));
    let ghost rest_v = rest@;
    let mut entries: Vec<(String, String)> = Vec::new();
    entries.push((owned("request_uri_non_regex"), rest));
    entries.push((owned("request_uri_regex"), uri_regex));
    entries.push((owned("request_uri_trimmed"), trimmed));
    assert(pairs(entries@) =~= location_entries(path@, rest_v));
    entries
}

/// The service that answers a request and the data handed to it.
///
/// An empty request, or one whose first line lacks a method, a path or a
/// protocol, is answered `400` with no data; one without a `Host` header
/// `400`; one that no location of an accepting route matches is
/// answered `404`; otherwise the service of the chosen location answers it.
pub open spec fn routed(peer_ip: Seq<char>, lines: Seq<Seq<char>>, routes: Seq<(String, Route)>) -> (Seq<char>, TextMap) {
    if !request_line_ok(lines) {
        ("400"@, seq![])
    } else {
        let tokens = ws_tokens(lines[0]);
        let data = request_data(peer_ip, tokens);
        match host_header(lines) {
            None => ("400"@, data),
            Some(v) => {
                let cands = candidates(routes, host_of(v), port_of(v));
                let rest = match select_spec(cands, tokens[1]) {
                    Some((i, _)) => regex_strip_first(cands[i].pattern@, tokens[1]),
                    None => tokens[1],
                };
                let data2 = data + location_entries(tokens[1], rest);
                match select_spec(cands, tokens[1]) {
                    None => ("404"@, data2),
                    Some((i, _)) => (
                        routes[cands[i].route as int].1.paths@[cands[i].location as int].1@,
                        data2,
                    ),
                }
            },
        }
    }
}

/// Routes a request, given the address of its peer and its lines.
pub fn incoming_request(peer_ip: String, lines: &Vec<String>, routes: &Vec<(String, Route)>) -> (r: (String, Vec<(String, String)>))
    requires
        request_ok(views(lines@)),
        patterns_ok(views(lines@), routes@),
    ensures
        (r.0@, pairs(r.1@)) == routed(peer_ip@, views(lines@), routes@),
{
    let ghost ls = views(lines@);
    let empty: Vec<(String, String)> = Vec::new();
    assert(pairs(empty@) =~= seq![]);
    if lines.len() == 0 {
        return (owned("400"), empty);
    }
    assert(ls[0] == lines@[0]@);
    let tokens = split_whitespace(lines[0].as_str());
    assert(views(tokens@).len() == tokens@.len());
    if tokens.len() < 3 {
        return (owned("400"), empty);
    }
    assert(views(tokens@)[0] == tokens@[0]@ && views(tokens@)[1] == tokens@[1]@ && views(tokens@)[2]
        == tokens@[2]@);
    let path = tokens[1].clone();
    let mut data: Vec<(String, String)> = Vec::new();
    data.push((owned("peer_ip"), peer_ip));
    data.push((owned("request_method"), tokens[0].clone()));
    data.push((owned("request_uri"), tokens[1].clone()));
    data.push((owned("request_protocol"), tokens[2].clone()));
    assert(pairs(data@) =~= request_data(peer_ip@, ws_tokens(ls[0])));
    let (headers, _body) = parse_head(lines);
    match get_pair(&headers, &owned("Host")) {
        None => (owned("400"), data),
        Some(value) => {
            proof {
                reveal_strlit(":");
                reveal_strlit("Host");
                assert(":"@ =~= colon());
            }
            let parts = split_str(value.as_str(), ":");
            assert(views(parts@).len() == parts@.len());
            assert(views(parts@)[0] == parts@[0]@ && views(parts@)[1] == parts@[1]@);
            let host = trim(parts[0].as_str(), Trim::Space);
            let port = parts[1].clone();
            let cands = route_candidates(routes, &host, &port);
            let choice = select_location(&cands, path.as_str());
            let location = match &choice {
                Some(c) => cands[c.index].pattern.clone(),
                None => owned(""),
            };
            proof {
                reveal_strlit("");
                assert(""@ =~= Seq::<char>::empty());
            }
            let rest = match compile(location.as_str()) {
                Some(re) => strip_first(&re, path.as_str()),
                None => {
                    assert(false);
                    owned("")
                },
            };
            let ghost before = data@;
            let ghost rest_v = rest@;
            let mut entries = location_entries_for(path.as_str(), rest);
            data.append(&mut entries);
            assert(pairs(data@) =~= pairs(before) + location_entries(path@, rest_v));
            match choice {
                None => (owned("404"), data),
                Some(c) => {
                    proof {
                        assert forall|r: int| 0 <= r < routes@.len() implies #[trigger] routes@[r].1.paths@.len() <= usize::MAX by {
                            assert(routes@[r].1.paths.len() == routes@[r].1.paths@.len());
                        }
                        assert(routes@.len() == routes.len());
                        lemma_candidates_in_range(routes@, host@, port@, routes@.len());
                    }
                    let cand = &cands[c.index];
                    let service = routes[cand.route].1.paths[cand.location].1.clone();
                    (service, data)
                },
            }
        },
    }
}


/// Routes a request as `incoming_request` does where that succeeds, and gives
/// `None` on the requests on which routing fails: a `Host` header without a
/// port, or a location of an accepting route that is not a valid regular
/// expression.
pub fn try_incoming_request(peer_ip: String, lines: &Vec<String>, routes: &Vec<(String, Route)>) -> (r: Option<(String, Vec<(String, String)>)>)
    ensures
        r is None <==> !(request_ok(views(lines@)) && patterns_ok(views(lines@), routes@)),
        r matches Some(x) ==> (x.0@, pairs(x.1@)) == routed(peer_ip@, views(lines@), routes@),
{
    let ghost ls = views(lines@);
    if lines.len() > 0 {
        assert(ls[0] == lines@[0]@);
        let tokens = split_whitespace(lines[0].as_str());
        assert(views(tokens@).len() == tokens@.len());
        if tokens.len() < 3 {
            return Some(incoming_request(peer_ip, lines, routes));
        }
        let (headers, _body) = parse_head(lines);
        proof {
            reveal_strlit(":");
            reveal_strlit("Host");
            assert(":"@ =~= colon());
        }
        match get_pair(&headers, &owned("Host")) {
            None => {},
            Some(value) => {
                let parts = split_str(value.as_str(), ":");
                assert(views(parts@).len() == parts@.len());
                if parts.len() < 2 {
                    return None;
                }
                assert(views(parts@)[0] == parts@[0]@ && views(parts@)[1] == parts@[1]@);
                let host = trim(parts[0].as_str(), Trim::Space);
                let port = parts[1].clone();
                let cands = route_candidates(routes, &host, &port);
                if !all_patterns_compile(&cands) {
                    return None;
                }
            },
        }
    }
    Some(incoming_request(peer_ip, lines, routes))
}


/// The number of bytes a request is read in at a time.
pub const CHUNK_SIZE: usize = 512;

/// What reading one chunk of a request led to.
pub enum ReadStep {
    /// The chunk was taken in; more is to be read.
    Continue,
    /// The chunk was taken in and held a zero byte: the request is complete.
    Complete,
    /// The request has grown past the size limit; it is treated as empty.
    TooLarge,
}

/// The reading budget for a size limit: the limit itself, where it fits an `i32`.
pub fn read_budget(max_body_size: usize) -> (r: Option<i32>)
    ensures
        r is Some <==> max_body_size <= i32::MAX,
        r matches Some(b) ==> b == max_body_size,
{
    if max_body_size <= 2147483647 {
        Some(max_body_size as i32)
    } else {
        None
    }
}

/// Some byte of the chunk is zero.
pub open spec fn has_zero(buf: Seq<u8>) -> bool {
    exists|i: int| 0 <= i < buf.len() && buf[i] == 0
}

fn contains_zero(buf: &[u8]) -> (b: bool)
    ensures
        b == has_zero(buf@),
{
    let mut i: usize = 0;
    while i < buf.len()
        invariant
            0 <= i <= buf@.len(),
            forall|k: int| 0 <= k < i ==> buf@[k] != 0,
        decreases buf.len() - i,
    {
        if buf[i] == 0 {
            return true;
        }
        i += 1;
    }
    false
}

/// Takes in one chunk of a request: the bytes `read` that one read of at most
/// `CHUNK_SIZE` bytes gave. The budget shrinks by their number; past zero the
/// request is too large. Otherwise the bytes are appended to the text, and the
/// request is complete when the read fell short of a whole chunk (the rest of
/// the zeroed chunk buffer then holds a zero byte) or a byte read was zero.
/// Reading goes on only after a whole chunk that left the budget at zero or more.
/// A chunk within the budget must be UTF-8 text on its own.
pub fn receive_chunk(budget: &mut i32, text: &mut String, read: &[u8]) -> (step: ReadStep)
    requires
        read@.len() <= CHUNK_SIZE,
        *old(budget) >= 0,
        *old(budget) - read@.len() >= 0 ==> valid_utf8(read@),
    ensures
        *final(budget) == *old(budget) - read@.len(),
        *final(budget) < 0 ==> step is TooLarge && final(text)@ == old(text)@,
        *final(budget) >= 0 ==> final(text)@ == old(text)@ + decode_utf8(read@)
            && (step is Complete <==> (read@.len() < CHUNK_SIZE || has_zero(read@)))
            && (step is Continue <==> !(read@.len() < CHUNK_SIZE || has_zero(read@))),
        step is Continue ==> read@.len() == CHUNK_SIZE && *final(budget) >= 0,
{
    let n = read.len();
    *budget = *budget - n as i32;
    if *budget < 0 {
        return ReadStep::TooLarge;
    }
    match utf8_text(read) {
        None => {
            assert(false);
            ReadStep::TooLarge
        },
        Some(t) => {
            text.append(t);
            if n < CHUNK_SIZE || contains_zero(read) {
                return ReadStep::Complete;
            }
            ReadStep::Continue
        },
    }
}

/// The budget left after reads of the given lengths.
pub open spec fn budget_left(limit: int, reads: Seq<int>) -> int
    decreases reads.len(),
{
    if reads.len() == 0 {
        limit
    } else {
        budget_left(limit, reads.drop_last()) - reads.last()
    }
}

/// Each read was a whole chunk after which the budget stayed at zero or more:
/// what `receive_chunk` demands of every read after which it goes on.
pub open spec fn reads_continue(limit: int, reads: Seq<int>) -> bool {
    forall|i: int|
        0 <= i < reads.len() ==> #[trigger] reads[i] == CHUNK_SIZE && budget_left(
            limit,
            reads.take(i + 1),
        ) >= 0
}

proof fn lemma_budget_of_chunks(limit: int, reads: Seq<int>)
    requires
        forall|i: int| 0 <= i < reads.len() ==> #[trigger] reads[i] == CHUNK_SIZE,
    ensures
        budget_left(limit, reads) == limit - CHUNK_SIZE * reads.len(),
    decreases reads.len(),
{
    if reads.len() > 0 {
        let shorter = reads.drop_last();
        assert forall|i: int| 0 <= i < shorter.len() implies #[trigger] shorter[i] == CHUNK_SIZE by {
            assert(shorter[i] == reads[i]);
        }
        lemma_budget_of_chunks(limit, shorter);
    }
}

/// Reading a request ends: with a size limit `limit` at zero or more, at most
/// `limit / CHUNK_SIZE` reads are followed by another, so a request takes at
/// most `limit / CHUNK_SIZE + 1` reads.
pub proof fn lemma_reads_bounded(limit: int, reads: Seq<int>)
    requires
        limit >= 0,
        reads_continue(limit, reads),
    ensures
        reads.len() <= limit / (CHUNK_SIZE as int),
{
    let k = reads.len() as int;
    if k > 0 {
        assert(reads.take(k) =~= reads);
        assert(reads[k - 1] == CHUNK_SIZE);
        lemma_budget_of_chunks(limit, reads);
        assert(limit - 512 * k >= 0);
        assert(k <= limit / 512) by (nonlinear_arith)
            requires
                limit - 512 * k >= 0,
                k > 0,
        ;
    }
}

/// The line separator of a request.
pub open spec fn crlf() -> Seq<char> {
    seq!['\r', '\n']
}

/// The lines of a request's text, split at every `"\r\n"`.
pub fn request_lines(text: &str) -> (lines: Vec<String>)
    ensures
        views(lines@) == split_spec(text@, crlf()),
{
    proof {
        reveal_strlit("\r\n");
        assert("\r\n"@ =~= crlf());
    }
    split_str(text, "\r\n")
}



/// The priorities that decide between routes are the configured ones: each
/// candidate carries the `priority` of the route that offers it, and the route
/// of the chosen location has a priority that no other matching route offering
/// that location exceeds, where a route with a priority ranks above one without.
pub proof fn lemma_priority_decides(
    routes: Seq<(String, Route)>,
    host: Seq<char>,
    port: Seq<char>,
    path: Seq<char>,
)
    requires
        routes.len() <= usize::MAX,
        forall|r: int| 0 <= r < routes.len() ==> #[trigger] routes[r].1.paths@.len() <= usize::MAX,
    ensures
        ({
            let cands = candidates(routes, host, port);
            &&& forall|k: int|
                0 <= k < cands.len() ==> #[trigger] cands[k].priority == routes[cands[k].route as int].1.priority
            &&& select_spec(cands, path) matches Some((i, _)) ==> forall|j: int|
                0 <= j < cands.len() && #[trigger] cand_matches(cands, path, j) && cands[j].pattern@
                    == cands[i].pattern@ ==> !prio_gt(
                    routes[cands[j].route as int].1.priority,
                    routes[cands[i].route as int].1.priority,
                )
        }),
{
    let cands = candidates(routes, host, port);
    lemma_candidates_in_range(routes, host, port, routes.len());
    lemma_select_characterized(cands, path);
    assert forall|k: int| 0 <= k < cands.len() implies #[trigger] cands[k].priority == routes[cands[k].route as int].1.priority by {
        assert(cands[k] == candidates_upto(routes, host, port, routes.len())[k]);
    }
}

} // verus!
