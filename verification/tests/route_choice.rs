use rusty::routing::{all_patterns_compile, choose_step, select_location, Candidate, Choice};

fn cand(p: &str, priority: Option<usize>, route: usize) -> Candidate {
    Candidate { pattern: p.to_string(), priority, route, location: 0 }
}

#[test]
fn steps_on_given_answers() {
    let cands = vec![cand("^/a", Some(1), 0), cand("^/b", None, 1), cand("^/a", Some(2), 2)];
    // no match: unchanged
    assert!(choose_step(&cands, None, 0, false, 3).is_none());
    // first match is taken
    let c = choose_step(&cands, None, 0, true, 3).unwrap();
    assert_eq!((c.index, c.remainder), (0, 3));
    // another location must leave fewer bytes
    let c = choose_step(&cands, Some(Choice { index: 0, remainder: 3 }), 1, true, 3).unwrap();
    assert_eq!(c.index, 0);
    let c = choose_step(&cands, Some(Choice { index: 0, remainder: 3 }), 1, true, 2).unwrap();
    assert_eq!((c.index, c.remainder), (1, 2));
    // the same location needs a higher priority
    let c = choose_step(&cands, Some(Choice { index: 0, remainder: 3 }), 2, true, 3).unwrap();
    assert_eq!(c.index, 2);
    let c = choose_step(&cands, Some(Choice { index: 2, remainder: 3 }), 0, true, 3).unwrap();
    assert_eq!(c.index, 2);
}

#[test]
fn fewest_bytes_left_wins() {
    let cands = vec![cand("^/", None, 0), cand("^/api", None, 1), cand("^/api/v1", None, 2)];
    let c = select_location(&cands, "/api/v1/x").unwrap();
    assert_eq!(c.index, 2);
    assert_eq!(c.remainder, 2);
}

#[test]
fn first_of_equal_remainders_wins() {
    let cands = vec![cand("^/a", None, 0), cand("b$", None, 1)];
    // both leave one byte of "/ab"
    let c = select_location(&cands, "/ab").unwrap();
    assert_eq!(c.index, 0);
}

#[test]
fn priority_decides_within_a_location() {
    let cands = vec![cand("^/", Some(1), 0), cand("^/", Some(5), 1), cand("^/", Some(5), 2), cand("^/", None, 3)];
    let c = select_location(&cands, "/x").unwrap();
    assert_eq!(c.index, 1);
}

#[test]
fn nothing_matches() {
    let cands = vec![cand("^/api", None, 0)];
    assert!(select_location(&cands, "/web").is_none());
    assert!(select_location(&Vec::new(), "/web").is_none());
}

#[test]
fn invalid_patterns_are_found() {
    assert!(all_patterns_compile(&vec![cand("^/", None, 0)]));
    assert!(!all_patterns_compile(&vec![cand("^/", None, 0), cand("[", None, 1)]));
}

#[test]
fn remainder_counts_bytes() {
    let cands = vec![cand("^/", None, 0)];
    let c = select_location(&cands, "/ñ").unwrap();
    assert_eq!(c.remainder, 2);
}
