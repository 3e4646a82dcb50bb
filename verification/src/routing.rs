//! Choosing the location that serves a request path.
//!
//! Every route that accepts the request's host and port offers its locations,
//! in order, as candidates. A location is a regular expression; the one chosen
//! leaves the fewest bytes of the path unmatched, and among the candidates of
//! one location the route with the higher priority wins.
use vstd::prelude::*;
use vstd::utf8::*;
use crate::pattern::{regex_compiles, regex_matches, regex_strip_first, compile, is_match, strip_first};

verus! {

/// One location offered by a route that accepts the request.
pub struct Candidate {
    /// The location's regular expression.
    pub pattern: String,
    /// The priority of the route that offers it.
    pub priority: Option<usize>,
    /// The position of that route in the route list.
    pub route: usize,
    /// The position of the location in that route's location list.
    pub location: usize,
}

/// The chosen candidate and the number of bytes of the path that its pattern
/// leaves unmatched.
pub struct Choice {
    pub index: usize,
    pub remainder: usize,
}

/// `Option`'s order on priorities: no priority is below every priority.
pub open spec fn prio_gt(a: Option<usize>, b: Option<usize>) -> bool {
    match (a, b) {
        (Some(x), Some(y)) => x > y,
        (Some(_), None) => true,
        _ => false,
    }
}

/// The UTF-8 length of what `pattern` leaves of `path` when its first match is cut out.
pub open spec fn remainder_len(pattern: Seq<char>, path: Seq<char>) -> usize {
    encode_utf8(regex_strip_first(pattern, path)).len() as usize
}

/// Candidate `j` matches `path`.
pub open spec fn cand_matches(cands: Seq<Candidate>, path: Seq<char>, j: int) -> bool {
    regex_matches(cands[j].pattern@, path)
}

/// The choice after candidate `j` has been looked at, given the choice `st`
/// before it, whether the candidate's pattern matched, and how many bytes of
/// the path it left. A candidate that did not match changes nothing. One of the
/// chosen location replaces the choice when its route has a higher priority;
/// one of another location when it leaves fewer bytes; the first match is
/// always taken.
pub open spec fn step_with(
    cands: Seq<Candidate>,
    st: Option<(int, usize)>,
    j: int,
    matched: bool,
    size: usize,
) -> Option<(int, usize)> {
    if !matched {
        st
    } else {
        match st {
            Some((i, cur)) => if cands[i].pattern@ == cands[j].pattern@ {
                if prio_gt(cands[j].priority, cands[i].priority) {
                    Some((j, size))
                } else {
                    st
                }
            } else if cur > size {
                Some((j, size))
            } else {
                st
            },
            None => Some((j, size)),
        }
    }
}

/// The choice after candidate `j` has been looked at, its pattern matched
/// against `path`.
pub open spec fn select_step(
    cands: Seq<Candidate>,
    path: Seq<char>,
    st: Option<(int, usize)>,
    j: int,
) -> Option<(int, usize)> {
    step_with(cands, st, j, cand_matches(cands, path, j), remainder_len(cands[j].pattern@, path))
}

/// The choice after the first `n` candidates have been looked at.
pub open spec fn select_upto(cands: Seq<Candidate>, path: Seq<char>, n: nat) -> Option<(int, usize)>
    decreases n,
{
    if n == 0 {
        None
    } else {
        select_step(cands, path, select_upto(cands, path, (n - 1) as nat), n - 1)
    }
}

/// The candidate chosen for `path`, with its remainder length.
pub open spec fn select_spec(cands: Seq<Candidate>, path: Seq<char>) -> Option<(int, usize)> {
    select_upto(cands, path, cands.len())
}

/// Every candidate's pattern compiles.
pub open spec fn all_compile(cands: Seq<Candidate>) -> bool {
    forall|j: int| 0 <= j < cands.len() ==> regex_compiles(#[trigger] cands[j].pattern@)
}

/// Tests whether every candidate's pattern compiles.
pub fn all_patterns_compile(cands: &Vec<Candidate>) -> (b: bool)
    ensures
        b == all_compile(cands@),
{
    let mut j: usize = 0;
    while j < cands.len()
        invariant
            0 <= j <= cands@.len(),
            forall|k: int| 0 <= k < j ==> regex_compiles(#[trigger] cands@[k].pattern@),
        decreases cands.len() - j,
    {
        if compile(cands[j].pattern.as_str()).is_none() {
            return false;
        }
        j += 1;
    }
    true
}

fn prio_gt_exec(a: Option<usize>, b: Option<usize>) -> (r: bool)
    ensures
        r == prio_gt(a, b),
{
    match (a, b) {
        (Some(x), Some(y)) => x > y,
        (Some(_), None) => true,
        _ => false,
    }
}

/// The spec view of an exec choice.
pub open spec fn choice_view(c: Option<Choice>) -> Option<(int, usize)> {
    match c {
        Some(c) => Some((c.index as int, c.remainder)),
        None => None,
    }
}

/// Looks at candidate `j`, given the choice so far, whether its pattern
/// matched, and how many bytes of the path it left.
pub fn choose_step(cands: &Vec<Candidate>, chosen: Option<Choice>, j: usize, matched: bool, size: usize) -> (r: Option<Choice>)
    requires
        j < cands@.len(),
        chosen matches Some(c) ==> c.index < cands@.len(),
    ensures
        choice_view(r) == step_with(cands@, choice_view(chosen), j as int, matched, size),
        r matches Some(c) ==> c.index < cands@.len(),
{
    if !matched {
        return chosen;
    }
    match chosen {
        Some(c) => {
            if cands[c.index].pattern == cands[j].pattern {
                if prio_gt_exec(cands[j].priority, cands[c.index].priority) {
                    Some(Choice { index: j, remainder: size })
                } else {
                    Some(c)
                }
            } else if c.remainder > size {
                Some(Choice { index: j, remainder: size })
            } else {
                Some(c)
            }
        },
        None => Some(Choice { index: j, remainder: size }),
    }
}

/// Chooses the location for `path` among the candidates, in order.
pub fn select_location(cands: &Vec<Candidate>, path: &str) -> (r: Option<Choice>)
    requires
        all_compile(cands@),
    ensures
        choice_view(r) == select_spec(cands@, path@),
        r matches Some(c) ==> c.index < cands@.len(),
{
    let mut chosen: Option<Choice> = None;
    let mut j: usize = 0;
    while j < cands.len()
        invariant
            0 <= j <= cands@.len(),
            all_compile(cands@),
            choice_view(chosen) == select_upto(cands@, path@, j as nat),
            chosen matches Some(c) ==> c.index < j,
        decreases cands.len() - j,
    {
        let ghost st = select_upto(cands@, path@, j as nat);
        assert(select_upto(cands@, path@, (j + 1) as nat) == select_step(cands@, path@, st, j as int));
        assert(regex_compiles(cands@[j as int].pattern@));
        match compile(cands[j].pattern.as_str()) {
            Some(re) => {
                if is_match(&re, path) {
                    let rest = strip_first(&re, path);
                    let size = rest.as_str().len();
                    chosen = choose_step(cands, chosen, j, true, size);
                } else {
                    chosen = choose_step(cands, chosen, j, false, 0);
                }
            },
            None => {},
        }
        j += 1;
    }
    chosen
}

/// Some candidate at or before position `q` matches and has the location `p`.
pub open spec fn located_by(cands: Seq<Candidate>, path: Seq<char>, q: int, p: Seq<char>) -> bool {
    exists|l: int| 0 <= l <= q && #[trigger] cand_matches(cands, path, l) && cands[l].pattern@ == p
}

/// What the choice after the first `n` candidates satisfies: it is empty exactly
/// when none of them matches; otherwise it matches, its remainder is the
/// smallest, every candidate with that smallest remainder is preceded (or
/// equalled) by a candidate of its location, and among the candidates of its
/// location it is the first with the highest priority.
pub open spec fn chosen_well(cands: Seq<Candidate>, path: Seq<char>, n: int, st: Option<(int, usize)>) -> bool {
    match st {
        None => forall|j: int| 0 <= j < n ==> !#[trigger] cand_matches(cands, path, j),
        Some((i, size)) => {
            &&& 0 <= i < n
            &&& cand_matches(cands, path, i)
            &&& size == remainder_len(cands[i].pattern@, path)
            &&& forall|j: int|
                0 <= j < n && #[trigger] cand_matches(cands, path, j) ==> size <= remainder_len(
                    cands[j].pattern@,
                    path,
                )
            &&& forall|j: int|
                0 <= j < n && #[trigger] cand_matches(cands, path, j) && remainder_len(
                    cands[j].pattern@,
                    path,
                ) == size ==> located_by(cands, path, j, cands[i].pattern@)
            &&& forall|j: int|
                0 <= j < n && #[trigger] cand_matches(cands, path, j) && cands[j].pattern@
                    == cands[i].pattern@ ==> !prio_gt(cands[j].priority, cands[i].priority)
            &&& forall|j: int|
                0 <= j < i && #[trigger] cand_matches(cands, path, j) && cands[j].pattern@
                    == cands[i].pattern@ ==> prio_gt(cands[i].priority, cands[j].priority)
        },
    }
}

/// `prio_gt` is a strict order.
pub proof fn lemma_prio_order(a: Option<usize>, b: Option<usize>, c: Option<usize>)
    ensures
        !prio_gt(a, a),
        prio_gt(a, b) ==> !prio_gt(b, a),
        prio_gt(a, b) && !prio_gt(c, b) ==> !prio_gt(c, a),
        !prio_gt(c, b) && prio_gt(a, b) ==> prio_gt(a, c),
        prio_gt(a, b) && prio_gt(b, c) ==> prio_gt(a, c),
{
}

/// A candidate that does not match leaves the choice as it is.
proof fn lemma_step_unmatched(cands: Seq<Candidate>, path: Seq<char>, j: int, st: Option<(int, usize)>)
    requires
        0 <= j < cands.len(),
        chosen_well(cands, path, j, st),
        !cand_matches(cands, path, j),
    ensures
        chosen_well(cands, path, j + 1, select_step(cands, path, st, j)),
{
    match st {
        None => {},
        Some((i, size)) => {
            assert forall|q: int|
                0 <= q < j + 1 && #[trigger] cand_matches(cands, path, q) && remainder_len(
                    cands[q].pattern@,
                    path,
                ) == size implies located_by(cands, path, q, cands[i].pattern@) by {
                assert(q < j);
            }
        },
    }
}

/// The first matching candidate is chosen.
proof fn lemma_step_first(cands: Seq<Candidate>, path: Seq<char>, j: int)
    requires
        0 <= j < cands.len(),
        chosen_well(cands, path, j, None),
        cand_matches(cands, path, j),
    ensures
        chosen_well(cands, path, j + 1, select_step(cands, path, None, j)),
{
    assert(located_by(cands, path, j, cands[j].pattern@));
    lemma_prio_order(cands[j].priority, cands[j].priority, cands[j].priority);
}

/// A candidate of the chosen location with a higher priority takes its place.
proof fn lemma_step_priority(cands: Seq<Candidate>, path: Seq<char>, j: int, i: int, cur: usize)
    requires
        0 <= j < cands.len(),
        chosen_well(cands, path, j, Some((i, cur))),
        cand_matches(cands, path, j),
        cands[i].pattern@ == cands[j].pattern@,
        prio_gt(cands[j].priority, cands[i].priority),
    ensures
        chosen_well(cands, path, j + 1, select_step(cands, path, Some((i, cur)), j)),
{
    let size = remainder_len(cands[j].pattern@, path);
    assert(size == cur);
    assert(located_by(cands, path, j, cands[j].pattern@));
    assert forall|q: int|
        0 <= q < j + 1 && #[trigger] cand_matches(cands, path, q) && cands[q].pattern@
            == cands[j].pattern@ implies !prio_gt(cands[q].priority, cands[j].priority) by {
        lemma_prio_order(cands[j].priority, cands[i].priority, cands[q].priority);
    }
    assert forall|q: int|
        0 <= q < j && #[trigger] cand_matches(cands, path, q) && cands[q].pattern@
            == cands[j].pattern@ implies prio_gt(cands[j].priority, cands[q].priority) by {
        lemma_prio_order(cands[j].priority, cands[i].priority, cands[q].priority);
    }
}

/// A candidate of the chosen location without a higher priority changes nothing.
proof fn lemma_step_same_location(cands: Seq<Candidate>, path: Seq<char>, j: int, i: int, cur: usize)
    requires
        0 <= j < cands.len(),
        chosen_well(cands, path, j, Some((i, cur))),
        cand_matches(cands, path, j),
        cands[i].pattern@ == cands[j].pattern@,
        !prio_gt(cands[j].priority, cands[i].priority),
    ensures
        chosen_well(cands, path, j + 1, select_step(cands, path, Some((i, cur)), j)),
{
    assert(located_by(cands, path, j, cands[i].pattern@));
}

/// A candidate of another location that leaves fewer bytes takes the place of the choice.
proof fn lemma_step_shorter(cands: Seq<Candidate>, path: Seq<char>, j: int, i: int, cur: usize)
    requires
        0 <= j < cands.len(),
        chosen_well(cands, path, j, Some((i, cur))),
        cand_matches(cands, path, j),
        cands[i].pattern@ != cands[j].pattern@,
        cur > remainder_len(cands[j].pattern@, path),
    ensures
        chosen_well(cands, path, j + 1, select_step(cands, path, Some((i, cur)), j)),
{
    assert(located_by(cands, path, j, cands[j].pattern@));
    lemma_prio_order(cands[j].priority, cands[j].priority, cands[j].priority);
}

/// A candidate of another location that leaves no fewer bytes changes nothing.
proof fn lemma_step_longer(cands: Seq<Candidate>, path: Seq<char>, j: int, i: int, cur: usize)
    requires
        0 <= j < cands.len(),
        chosen_well(cands, path, j, Some((i, cur))),
        cand_matches(cands, path, j),
        cands[i].pattern@ != cands[j].pattern@,
        cur <= remainder_len(cands[j].pattern@, path),
    ensures
        chosen_well(cands, path, j + 1, select_step(cands, path, Some((i, cur)), j)),
{
    assert(located_by(cands, path, i, cands[i].pattern@));
    assert forall|q: int|
        0 <= q < j + 1 && #[trigger] cand_matches(cands, path, q) && remainder_len(
            cands[q].pattern@,
            path,
        ) == cur implies located_by(cands, path, q, cands[i].pattern@) by {
        if q == j {
            assert(cand_matches(cands, path, i));
        }
    }
}

/// Each step keeps `chosen_well`.
proof fn lemma_select_upto(cands: Seq<Candidate>, path: Seq<char>, n: nat)
    requires
        n <= cands.len(),
    ensures
        chosen_well(cands, path, n as int, select_upto(cands, path, n)),
    decreases n,
{
    if n > 0 {
        let j = n - 1;
        lemma_select_upto(cands, path, (n - 1) as nat);
        let st = select_upto(cands, path, (n - 1) as nat);
        if !cand_matches(cands, path, j) {
            lemma_step_unmatched(cands, path, j, st);
        } else {
            match st {
                None => lemma_step_first(cands, path, j),
                Some((i, cur)) => {
                    if cands[i].pattern@ == cands[j].pattern@ {
                        if prio_gt(cands[j].priority, cands[i].priority) {
                            lemma_step_priority(cands, path, j, i, cur);
                        } else {
                            lemma_step_same_location(cands, path, j, i, cur);
                        }
                    } else if cur > remainder_len(cands[j].pattern@, path) {
                        lemma_step_shorter(cands, path, j, i, cur);
                    } else {
                        lemma_step_longer(cands, path, j, i, cur);
                    }
                },
            }
        }
    }
}

/// The choice of a location, stated without the scan that makes it: no
/// candidate is chosen exactly when none matches the path; otherwise the chosen
/// one matches, leaves the fewest bytes of the path unmatched, has the location
/// of the first candidate that leaves that few, and is, among the candidates of
/// that location, the first with the highest priority.
pub proof fn lemma_select_characterized(cands: Seq<Candidate>, path: Seq<char>)
    ensures
        chosen_well(cands, path, cands.len() as int, select_spec(cands, path)),
{
    lemma_select_upto(cands, path, cands.len());
}

} // verus!
