//! The web-server module: redirects, static files and fixed status codes,
//! configured by a service's parameters.
//!
//! Looking at the file system is outside work: `file_request` names the file
//! and root to look at, and `execute` decides the answer from what was found.
use vstd::prelude::*;
use crate::text::owned;
use vstd::string::*;
use crate::assoc::{TextMap, pairs, keys_of, first_index, map_insert, insert_pair, find_key};
use crate::modular::parser::ParamValue;
use crate::modular::server::ModuleAnswer;
use crate::text::{replace_spec, replace_all, replace_from, occurs_at, lemma_replace_absent};

verus! {

/// The position of a parameter.
pub open spec fn param_index(params: Seq<(String, ParamValue)>, key: Seq<char>) -> Option<int> {
    first_index(keys_of(params), key)
}

/// The parameter is present.
pub open spec fn has_param(params: Seq<(String, ParamValue)>, key: Seq<char>) -> bool {
    param_index(params, key) is Some
}

/// The text of a parameter, if it is present and a string.
pub open spec fn param_text(params: Seq<(String, ParamValue)>, key: Seq<char>) -> Option<Seq<char>> {
    match param_index(params, key) {
        Some(i) => match params[i].1 {
            ParamValue::Text(t) => Some(t@),
            ParamValue::Other(_) => None,
        },
        None => None,
    }
}

/// A parameter that is present is a string.
pub open spec fn text_if_present(params: Seq<(String, ParamValue)>, key: Seq<char>) -> bool {
    has_param(params, key) ==> param_text(params, key) is Some
}

/// The parameters can be read without failing: `location` and `return`, where
/// present, are strings, and so are `file` and `root` where both are present.
pub open spec fn params_ok(params: Seq<(String, ParamValue)>) -> bool {
    &&& text_if_present(params, "location"@)
    &&& text_if_present(params, "return"@)
    &&& (has_param(params, "file"@) && has_param(params, "root"@)) ==> (text_if_present(
        params,
        "file"@,
    ) && text_if_present(params, "root"@))
}

/// The marker of a data entry in a template: its key between dollar signs.
pub open spec fn marker(key: Seq<char>) -> Seq<char> {
    seq!['$'] + key + seq!['$']
}

/// `t` with the markers of the first `n` data entries replaced by their
/// values, one entry after the other.
pub open spec fn substitute_upto(t: Seq<char>, data: TextMap, n: nat) -> Seq<char>
    decreases n,
{
    if n == 0 {
        t
    } else {
        replace_spec(substitute_upto(t, data, (n - 1) as nat), marker(data[n - 1].0), data[n - 1].1)
    }
}

/// `t` with the markers of all data entries replaced by their values.
pub open spec fn substitute(t: Seq<char>, data: TextMap) -> Seq<char> {
    substitute_upto(t, data, data.len())
}

/// Replaces the markers of all data entries in `t` by their values.
pub fn substitute_data(t: &String, data: &Vec<(String, String)>) -> (r: String)
    ensures
        r@ == substitute(t@, pairs(data@)),
{
    let mut r = t.clone();
    let mut n: usize = 0;
    while n < data.len()
        invariant
            0 <= n <= data@.len(),
            r@ == substitute_upto(t@, pairs(data@), n as nat),
        decreases data.len() - n,
    {
        let mut mark = String::from_str("$");
        mark.append(data[n].0.as_str());
        mark.append("$");
        proof {
            reveal_strlit("$");
            assert(mark@ =~= marker(data@[n as int].0@));
            assert(pairs(data@)[n as int] == (data@[n as int].0@, data@[n as int].1@));
        }
        r = replace_all(r.as_str(), mark.as_str(), data[n].1.as_str());
        n += 1;
    }
    r
}

fn text_param(params: &Vec<(String, ParamValue)>, key: &str) -> (r: Option<String>)
    ensures
        match r {
            Some(t) => param_text(params@, key@) == Some(t@),
            None => param_text(params@, key@) is None,
        },
{
    match find_key(params, &String::from_str(key)) {
        Some(i) => match &params[i].1 {
            ParamValue::Text(t) => Some(t.clone()),
            ParamValue::Other(_) => None,
        },
        None => None,
    }
}

fn present(params: &Vec<(String, ParamValue)>, key: &str) -> (b: bool)
    ensures
        b == has_param(params@, key@),
{
    find_key(params, &String::from_str(key)).is_some()
}

/// The file and the root to look at, with the data substituted into both, when
/// the parameters name both.
pub fn file_request(params: &Vec<(String, ParamValue)>, data: &Vec<(String, String)>) -> (r: Option<(String, String)>)
    requires
        params_ok(params@),
    ensures
        r is Some <==> has_param(params@, "file"@) && has_param(params@, "root"@),
        r matches Some((f, root)) ==> f@ == substitute(param_text(params@, "file"@)->0, pairs(data@))
            && root@ == substitute(param_text(params@, "root"@)->0, pairs(data@)),
{
    if present(params, "file") && present(params, "root") {
        match (text_param(params, "file"), text_param(params, "root")) {
            (Some(f), Some(root)) => Some((substitute_data(&f, data), substitute_data(&root, data))),
            _ => {
                assert(false);
                None
            },
        }
    } else {
        None
    }
}

/// What looking at the file system found for a file request.
pub enum FileCheck {
    /// The root does not exist.
    RootMissing,
    /// The root is not a directory.
    RootNotDirectory,
    /// The root could not be made absolute.
    RootUnresolved,
    /// The file in the root does not exist.
    FileMissing,
    /// The file in the root is a directory.
    FileIsDirectory,
    /// The file could not be made absolute.
    FileUnresolved,
    /// The file's absolute path is not inside the root's.
    OutsideRoot,
    /// The file, inside the root, holds these bytes.
    Contents(Vec<u8>),
}

/// The header that names the module in its answers.
pub open spec fn module_header() -> (Seq<char>, Seq<char>) {
    ("Rusty-Module"@, "web-server"@)
}

/// The headers of the answer: the module's own, and `Location` with the data
/// substituted where a location is configured.
pub open spec fn answer_headers(params: Seq<(String, ParamValue)>, data: TextMap) -> TextMap {
    if has_param(params, "location"@) {
        map_insert(seq![module_header()], "Location"@, substitute(param_text(params, "location"@)->0, data))
    } else {
        seq![module_header()]
    }
}

/// The status code, body and redirect of the answer.
///
/// Nothing configured: `404`, redirecting to `404`. A location: `301`. A file
/// request: `403` (redirecting to `403`) for a root that is missing or not a
/// directory or a file outside the root, `404` (redirecting to `404`) for a
/// root or file that cannot be resolved and a file that is missing or a
/// directory, and otherwise `200` with the file's bytes. A `return` code
/// replaces the code of an answer that got this far, with no redirect.
pub open spec fn answer_spec(params: Seq<(String, ParamValue)>, check: Option<FileCheck>) -> (Seq<char>, Seq<u8>, Seq<char>) {
    let located = has_param(params, "location"@);
    let code = if located { "301"@ } else { "404"@ };
    let redirect = if located { ""@ } else { "404"@ };
    let early = match check {
        Some(FileCheck::RootMissing) => Some("403"@),
        Some(FileCheck::RootNotDirectory) => Some("403"@),
        Some(FileCheck::OutsideRoot) => Some("403"@),
        Some(FileCheck::RootUnresolved) => Some("404"@),
        Some(FileCheck::FileMissing) => Some("404"@),
        Some(FileCheck::FileIsDirectory) => Some("404"@),
        Some(FileCheck::FileUnresolved) => Some("404"@),
        _ => None,
    };
    match early {
        Some(c) => (c, seq![], c),
        None => {
            let (code, body, redirect) = match check {
                Some(FileCheck::Contents(b)) => ("200"@, b@, ""@),
                _ => (code, seq![], redirect),
            };
            match param_text(params, "return"@) {
                Some(r) => (r, body, ""@),
                None => (code, body, redirect),
            }
        },
    }
}

/// A file whose absolute path is outside the root is refused with `403` and
/// no body, whatever the other parameters say.
pub proof fn lemma_outside_root_refused(params: Seq<(String, ParamValue)>)
    ensures
        answer_spec(params, Some(FileCheck::OutsideRoot)) == ("403"@, Seq::<u8>::empty(), "403"@),
{
}

/// A file request whose root is missing or is not a directory is refused with
/// `403` and no body; one whose root or file cannot be resolved, whose file is
/// missing, or whose file is a directory gets `404` and no body. Either way the
/// request is handed over to the service of that code, whatever the other
/// parameters say.
pub proof fn lemma_file_failures(params: Seq<(String, ParamValue)>)
    ensures
        answer_spec(params, Some(FileCheck::RootMissing)) == ("403"@, Seq::<u8>::empty(), "403"@),
        answer_spec(params, Some(FileCheck::RootNotDirectory)) == ("403"@, Seq::<u8>::empty(), "403"@),
        answer_spec(params, Some(FileCheck::RootUnresolved)) == ("404"@, Seq::<u8>::empty(), "404"@),
        answer_spec(params, Some(FileCheck::FileMissing)) == ("404"@, Seq::<u8>::empty(), "404"@),
        answer_spec(params, Some(FileCheck::FileIsDirectory)) == ("404"@, Seq::<u8>::empty(), "404"@),
        answer_spec(params, Some(FileCheck::FileUnresolved)) == ("404"@, Seq::<u8>::empty(), "404"@),
{
}

/// A file inside the root is sent with its bytes as the body, with the code
/// `200` unless a `return` code is configured, and no hand-over.
pub proof fn lemma_file_served(params: Seq<(String, ParamValue)>, bytes: Vec<u8>)
    ensures
        answer_spec(params, Some(FileCheck::Contents(bytes))).1 == bytes@,
        answer_spec(params, Some(FileCheck::Contents(bytes))).2 == Seq::<char>::empty(),
        param_text(params, "return"@) is None ==> answer_spec(params, Some(FileCheck::Contents(bytes))).0
            == "200"@,
{
    reveal_strlit("");
}

/// Substituting one data entry replaces every marker of its key in the
/// template by its value, as `str::replace` does, whatever the value, the
/// empty one included.
pub proof fn lemma_substitute_one(t: Seq<char>, key: Seq<char>, value: Seq<char>)
    ensures
        substitute(t, seq![(key, value)]) == replace_spec(t, marker(key), value),
{
    let data = seq![(key, value)];
    assert(substitute_upto(t, data, 0) == t);
    assert(substitute_upto(t, data, 1) == replace_spec(t, marker(key), value));
}

/// A template that is just the marker of a key becomes that key's value, the
/// empty value included.
pub proof fn lemma_marker_replaced(key: Seq<char>, value: Seq<char>)
    ensures
        substitute(marker(key), seq![(key, value)]) == value,
{
    let m = marker(key);
    lemma_substitute_one(m, key, value);
    assert(m.subrange(0, m.len() as int) =~= m);
    assert(occurs_at(m, m, 0));
    assert(replace_from(m, m, value, m.len() as int) == Seq::<char>::empty());
    assert(replace_from(m, m, value, 0) == value + replace_from(m, m, value, m.len() as int));
    assert(value + Seq::<char>::empty() =~= value);
}

/// A template without the marker of a key is left as it is by that key's entry.
pub proof fn lemma_substitute_absent(t: Seq<char>, key: Seq<char>, value: Seq<char>)
    requires
        forall|j: int| 0 <= j < t.len() ==> !occurs_at(t, marker(key), j),
    ensures
        substitute(t, seq![(key, value)]) == t,
{
    lemma_replace_absent(t, marker(key), value);
    lemma_substitute_one(t, key, value);
}

/// Answers a request for a service of the web-server module, given the
/// service's parameters, the request's data, and what was found on the file
/// system for the file request (`None` exactly when there is none).
pub fn execute(params: &Vec<(String, ParamValue)>, data: &Vec<(String, String)>, check: Option<FileCheck>) -> (a: ModuleAnswer)
    requires
        params_ok(params@),
        check is Some <==> has_param(params@, "file"@) && has_param(params@, "root"@),
    ensures
        pairs(a.headers@) == answer_headers(params@, pairs(data@)),
        (a.status_code@, a.body@, a.redirect@) == answer_spec(params@, check),
{
    let ghost check_v = check;
    let mut headers: Vec<(String, String)> = Vec::new();
    headers.push((owned("Rusty-Module"), owned("web-server")));
    assert(pairs(headers@) =~= seq![module_header()]);
    let mut status_code = owned("404");
    let mut redirect = owned("404");
    let mut body: Vec<u8> = Vec::new();
    if present(params, "location") {
        status_code = owned("301");
        redirect = owned("");
        let location = match text_param(params, "location") {
            Some(t) => t,
            None => {
                assert(false);
                owned("")
            },
        };
        insert_pair(&mut headers, owned("Location"), substitute_data(&location, data));
    }
    match check {
        None => {},
        Some(FileCheck::RootMissing) | Some(FileCheck::RootNotDirectory) | Some(FileCheck::OutsideRoot) => {
            return ModuleAnswer { status_code: owned("403"), headers, body, redirect: owned("403") };
        },
        Some(FileCheck::RootUnresolved) | Some(FileCheck::FileMissing) | Some(FileCheck::FileIsDirectory) | Some(
            FileCheck::FileUnresolved,
        ) => {
            return ModuleAnswer { status_code: owned("404"), headers, body, redirect: owned("404") };
        },
        Some(FileCheck::Contents(bytes)) => {
            body = bytes;
            redirect = owned("");
            status_code = owned("200");
        },
    }
    if present(params, "return") {
        status_code = match text_param(params, "return") {
            Some(t) => t,
            None => {
                assert(false);
                owned("")
            },
        };
        redirect = owned("");
    }
    ModuleAnswer { status_code, headers, body, redirect }
}

} // verus!
