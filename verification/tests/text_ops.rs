use rusty::assoc::{get_pair, insert_pair};
use rusty::text::{
    chars_of, contains_string, decimal_string, push_unique, replace_all, split_str, split_whitespace,
    trim, Trim,
};

fn s(x: &str) -> String {
    x.to_string()
}

#[test]
fn split_at_every_separator() {
    assert_eq!(split_str("Host: a: b", ": "), vec![s("Host"), s("a"), s("b")]);
    assert_eq!(split_str("abc", ":"), vec![s("abc")]);
    assert_eq!(split_str("", "\r\n"), vec![s("")]);
    assert_eq!(split_str("a\r\n\r\nb", "\r\n"), vec![s("a"), s(""), s("b")]);
    assert_eq!(split_str("::", ":"), vec![s(""), s(""), s("")]);
}

#[test]
fn split_whitespace_words() {
    assert_eq!(split_whitespace("  GET  /x\tHTTP/1.1 "), vec![s("GET"), s("/x"), s("HTTP/1.1")]);
    assert!(split_whitespace(" \t\n").is_empty());
    assert_eq!(split_whitespace("a\u{3000}b"), vec![s("a"), s("b")]);
}

#[test]
fn trim_both_ends() {
    assert_eq!(trim("  example.com \t", Trim::Space), s("example.com"));
    assert_eq!(trim("//a/b//", Trim::Char('/')), s("a/b"));
    assert_eq!(trim("///", Trim::Char('/')), s(""));
    assert_eq!(trim("", Trim::Space), s(""));
}

#[test]
fn replace_matches_std() {
    for (t, f, r) in [
        ("a$x$b$x$", "$x$", "1"),
        ("aaaa", "aa", "b"),
        ("abc", "", "-"),
        ("", "", "x"),
        ("/a/b", "/a/b", ""),
        ("héllo", "l", "L"),
    ] {
        assert_eq!(replace_all(t, f, r), t.replace(f, r));
    }
}

#[test]
fn decimal_matches_to_string() {
    for n in [0usize, 7, 10, 99, 100, 12345, usize::MAX] {
        assert_eq!(decimal_string(n), n.to_string());
    }
}

#[test]
fn chars_and_utf8() {
    assert_eq!(chars_of("añb"), vec!['a', 'ñ', 'b']);
}

#[test]
fn contains_and_unique() {
    let v = vec![s("80"), s("8080")];
    assert!(contains_string(&v, &s("8080")));
    assert!(!contains_string(&v, &s("443")));
    let mut acc = Vec::new();
    for p in ["80", "443", "80"] {
        push_unique(&mut acc, &s(p));
    }
    assert_eq!(acc, vec![s("80"), s("443")]);
}

#[test]
fn map_insert_replaces_in_place() {
    let mut m = Vec::new();
    insert_pair(&mut m, s("Host"), s("a"));
    insert_pair(&mut m, s("Accept"), s("*/*"));
    insert_pair(&mut m, s("Host"), s("b"));
    assert_eq!(m, vec![(s("Host"), s("b")), (s("Accept"), s("*/*"))]);
    assert_eq!(get_pair(&m, &s("Host")), Some(s("b")));
    assert_eq!(get_pair(&m, &s("Missing")), None);
}

#[test]
fn split_then_join_gives_back() {
    for (t, sep) in [("a: b: c", ": "), (":x::", ":"), ("", "\r\n"), ("GET /\r\nHost: h\r\n\r\n", "\r\n")] {
        assert_eq!(split_str(t, sep).join(sep), t);
    }
}

#[test]
fn words_are_nonempty_without_space() {
    for w in split_whitespace(" a\tbb \u{a0} c ") {
        assert!(!w.is_empty());
        assert!(!w.chars().any(|c| c.is_whitespace()));
    }
}

#[test]
fn trimmed_ends() {
    let t = trim(" \t x y \n", Trim::Space);
    assert_eq!(t, "x y");
    assert!(!t.starts_with(char::is_whitespace) && !t.ends_with(char::is_whitespace));
}

#[test]
fn replacing_an_absent_pattern_changes_nothing() {
    assert_eq!(replace_all("<h1>title</h1>", "$status_code$", "404"), "<h1>title</h1>");
}
