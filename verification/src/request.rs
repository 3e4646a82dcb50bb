//! The parts of an HTTP request line and header that routing reads.
use vstd::prelude::*;
use vstd::string::*;
use crate::text::{views, split_spec, split_str, trim_spec, trim, Trim};

verus! {

/// The separator of a header's name and value.
pub open spec fn colon_space() -> Seq<char> {
    seq![':', ' ']
}

/// The separator of a host and a port.
pub open spec fn colon() -> Seq<char> {
    seq![':']
}

/// The header a line carries: the text before its first `": "` and the text
/// between that and the next one.
pub open spec fn header_of(line: Seq<char>) -> Option<(Seq<char>, Seq<char>)> {
    let parts = split_spec(line, colon_space());
    if parts.len() >= 2 {
        Some((parts[0], parts[1]))
    } else {
        None
    }
}

/// The host named by a `Host` header value: the text before its first `':'`, trimmed.
pub open spec fn host_of(value: Seq<char>) -> Seq<char> {
    trim_spec(split_spec(value, colon())[0], Trim::Space)
}

/// The port named by a `Host` header value: the text between its first and second `':'`.
pub open spec fn port_of(value: Seq<char>) -> Seq<char> {
    split_spec(value, colon())[1]
}

/// The header a line carries, if any.
pub fn header_entry(line: &str) -> (r: Option<(String, String)>)
    ensures
        match r {
            Some((k, v)) => header_of(line@) == Some((k@, v@)),
            None => header_of(line@) is None,
        },
{
    proof {
        reveal_strlit(": ");
        assert(": "@ =~= colon_space());
    }
    let parts = split_str(line, ": ");
    assert(views(parts@).len() == parts@.len());
    if parts.len() >= 2 {
        assert(views(parts@)[0] == parts@[0]@ && views(parts@)[1] == parts@[1]@);
        Some((parts[0].clone(), parts[1].clone()))
    } else {
        None
    }
}

/// The host and the port a `Host` header value names, if it names a port.
pub fn host_and_port(value: &str) -> (r: Option<(String, String)>)
    ensures
        r is Some <==> split_spec(value@, colon()).len() >= 2,
        r matches Some((h, p)) ==> h@ == host_of(value@) && p@ == port_of(value@),
{
    proof {
        reveal_strlit(":");
        assert(":"@ =~= colon());
    }
    let parts = split_str(value, ":");
    assert(views(parts@).len() == parts@.len());
    if parts.len() >= 2 {
        assert(views(parts@)[0] == parts@[0]@ && views(parts@)[1] == parts@[1]@);
        Some((trim(parts[0].as_str(), Trim::Space), parts[1].clone()))
    } else {
        None
    }
}

} // verus!
