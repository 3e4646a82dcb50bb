//! Character-level string operations with specifications over `Seq<char>`.
//!
//! Every operation here states its result exactly, as a spec function over the
//! character sequences of its arguments.
use vstd::prelude::*;
use vstd::string::*;
use vstd::utf8::{valid_utf8, decode_utf8};

verus! {

/// The character views of a sequence of strings.
pub open spec fn views(v: Seq<String>) -> Seq<Seq<char>> {
    v.map_values(|x: String| x@)
}

/// An owned copy of `s`.
pub fn owned(s: &str) -> (r: String)
    ensures
        r@ == s@,
{
    String::from_str(s)
}

/// The characters of `s`, in order.
pub fn chars_of(s: &str) -> (v: Vec<char>)
    ensures
        v@ == s@,
{
    let mut v: Vec<char> = Vec::new();
    for c in it: s.chars()
        invariant
            v@ == it.seq().take(it.index() as int),
            it.seq() == s@,
    {
        v.push(c);
    }
    v
}

/// The owned substring of `s` between character positions `from` and `to`.
pub fn substring(s: &str, from: usize, to: usize) -> (r: String)
    requires
        from <= to <= s@.len(),
    ensures
        r@ == s@.subrange(from as int, to as int),
{
    s.substring_char(from, to).to_owned()
}

/// `p` occurs in `s` at character position `i`.
pub open spec fn occurs_at(s: Seq<char>, p: Seq<char>, i: int) -> bool {
    0 <= i && i + p.len() <= s.len() && s.subrange(i, i + p.len()) == p
}

/// Tests whether `p` occurs in `s` at position `i`.
pub fn occurs_at_exec(s: &Vec<char>, p: &Vec<char>, i: usize) -> (b: bool)
    ensures
        b == occurs_at(s@, p@, i as int),
{
    if i > s.len() || p.len() > s.len() - i {
        return false;
    }
    let mut k: usize = 0;
    while k < p.len()
        invariant
            0 <= k <= p.len(),
            i + p.len() <= s.len(),
            forall|j: int| 0 <= j < k ==> s@[i + j] == p@[j],
        decreases p.len() - k,
    {
        if s[i + k] != p[k] {
            assert(s@.subrange(i as int, i + p.len())[k as int] != p@[k as int]);
            return false;
        }
        k += 1;
    }
    assert(s@.subrange(i as int, i + p.len()) =~= p@);
    true
}

/// The pieces of `s` between the non-overlapping occurrences of `sep`, found
/// from left to right, scanning from position `i` with the current piece
/// starting at `start` (`str::split` with a string pattern).
pub open spec fn split_from(s: Seq<char>, sep: Seq<char>, start: int, i: int) -> Seq<Seq<char>>
    decreases s.len() - i,
{
    if sep.len() == 0 || i < 0 || i + sep.len() > s.len() {
        seq![s.subrange(start, s.len() as int)]
    } else if occurs_at(s, sep, i) {
        seq![s.subrange(start, i)] + split_from(s, sep, i + sep.len(), i + sep.len())
    } else {
        split_from(s, sep, start, i + 1)
    }
}

/// `s` split at every occurrence of the non-empty separator `sep`.
pub open spec fn split_spec(s: Seq<char>, sep: Seq<char>) -> Seq<Seq<char>> {
    split_from(s, sep, 0, 0)
}

/// Splits `s` at every occurrence of `sep`, as `str::split` does.
pub fn split_str(s: &str, sep: &str) -> (parts: Vec<String>)
    requires
        sep@.len() > 0,
    ensures
        views(parts@) == split_spec(s@, sep@),
{
    let sv = chars_of(s);
    let pv = chars_of(sep);
    let mut parts: Vec<String> = Vec::new();
    let mut start: usize = 0;
    let mut i: usize = 0;
    while pv.len() <= sv.len() && i <= sv.len() - pv.len()
        invariant
            sv@ == s@,
            pv@ == sep@,
            pv@.len() > 0,
            0 <= start <= i <= sv@.len(),
            views(parts@) + split_from(sv@, pv@, start as int, i as int) == split_spec(sv@, pv@),
        decreases sv.len() - i,
    {
        if occurs_at_exec(&sv, &pv, i) {
            let piece = substring(s, start, i);
            proof {
                assert(views(parts@.push(piece)) =~= views(parts@).push(piece@));
                assert(views(parts@.push(piece)) + split_from(sv@, pv@, i + pv@.len(), i + pv@.len())
                    =~= views(parts@) + split_from(sv@, pv@, start as int, i as int));
            }
            parts.push(piece);
            i = i + pv.len();
            start = i;
        } else {
            i = i + 1;
        }
    }
    let last = substring(s, start, sv.len());
    proof {
        assert(views(parts@.push(last)) =~= views(parts@).push(last@));
        assert(views(parts@.push(last)) =~= views(parts@) + split_from(sv@, pv@, start as int, i as int));
    }
    parts.push(last);
    parts
}


/// Unicode white space, as `char::is_whitespace` decides it.
pub open spec fn is_ws(c: char) -> bool {
    let u = c as u32;
    ||| 0x9 <= u <= 0xd
    ||| u == 0x20
    ||| u == 0x85
    ||| u == 0xa0
    ||| u == 0x1680
    ||| 0x2000 <= u <= 0x200a
    ||| u == 0x2028
    ||| u == 0x2029
    ||| u == 0x202f
    ||| u == 0x205f
    ||| u == 0x3000
}

/// Decides `is_ws`.
pub fn is_ws_exec(c: char) -> (b: bool)
    ensures
        b == is_ws(c),
{
    let u = c as u32;
    (0x9 <= u && u <= 0xd) || u == 0x20 || u == 0x85 || u == 0xa0 || u == 0x1680 || (0x2000 <= u
        && u <= 0x200a) || u == 0x2028 || u == 0x2029 || u == 0x202f || u == 0x205f || u == 0x3000
}

/// The maximal runs of non-white-space characters of `s`, scanning from
/// position `i`, with the current run starting at `cur` if one is open
/// (`str::split_whitespace`).
pub open spec fn tokens_from(s: Seq<char>, cur: Option<int>, i: int) -> Seq<Seq<char>>
    decreases s.len() - i,
{
    if i < 0 || i >= s.len() {
        match cur {
            Some(a) => seq![s.subrange(a, s.len() as int)],
            None => seq![],
        }
    } else if is_ws(s[i]) {
        match cur {
            Some(a) => seq![s.subrange(a, i)] + tokens_from(s, None, i + 1),
            None => tokens_from(s, None, i + 1),
        }
    } else {
        match cur {
            Some(a) => tokens_from(s, Some(a), i + 1),
            None => tokens_from(s, Some(i), i + 1),
        }
    }
}

/// The white-space separated words of `s`.
pub open spec fn ws_tokens(s: Seq<char>) -> Seq<Seq<char>> {
    tokens_from(s, None, 0)
}

/// Splits `s` into its white-space separated words, as `str::split_whitespace` does.
pub fn split_whitespace(s: &str) -> (words: Vec<String>)
    ensures
        views(words@) == ws_tokens(s@),
{
    let sv = chars_of(s);
    let mut words: Vec<String> = Vec::new();
    let mut cur: Option<usize> = None;
    let mut i: usize = 0;
    while i < sv.len()
        invariant
            sv@ == s@,
            0 <= i <= sv@.len(),
            cur matches Some(a) ==> a < i,
            views(words@) + tokens_from(sv@, match cur {
                Some(a) => Some(a as int),
                None => None,
            }, i as int) == ws_tokens(sv@),
        decreases sv.len() - i,
    {
        if is_ws_exec(sv[i]) {
            if let Some(a) = cur {
                let w = substring(s, a, i);
                proof {
                    assert(views(words@.push(w)) =~= views(words@).push(w@));
                    assert(views(words@.push(w)) + tokens_from(sv@, None, i + 1) =~= views(words@)
                        + tokens_from(sv@, Some(a as int), i as int));
                }
                words.push(w);
                cur = None;
            }
        } else {
            if cur.is_none() {
                cur = Some(i);
            }
        }
        i = i + 1;
    }
    if let Some(a) = cur {
        let w = substring(s, a, sv.len());
        proof {
            assert(views(words@.push(w)) =~= views(words@).push(w@));
            assert(views(words@.push(w)) =~= views(words@) + tokens_from(sv@, Some(a as int), i as int));
        }
        words.push(w);
    } else {
        assert(views(words@) =~= views(words@) + tokens_from(sv@, None, i as int));
    }
    words
}

/// What a trim removes from the ends of a string.
pub enum Trim {
    /// White space, as `str::trim` removes it.
    Space,
    /// Repetitions of one character, as `str::trim_matches` with a `char` removes them.
    Char(char),
}

/// `c` is removed by a trim of kind `t`.
pub open spec fn trims(t: Trim, c: char) -> bool {
    match t {
        Trim::Space => is_ws(c),
        Trim::Char(x) => c == x,
    }
}

fn trims_exec(t: &Trim, c: char) -> (b: bool)
    ensures
        b == trims(*t, c),
{
    match t {
        Trim::Space => is_ws_exec(c),
        Trim::Char(x) => c == *x,
    }
}

/// `s` without its leading characters removed by `t`.
pub open spec fn trim_start_spec(s: Seq<char>, t: Trim) -> Seq<char>
    decreases s.len(),
{
    if s.len() > 0 && trims(t, s[0]) {
        trim_start_spec(s.drop_first(), t)
    } else {
        s
    }
}

/// `s` without its trailing characters removed by `t`.
pub open spec fn trim_end_spec(s: Seq<char>, t: Trim) -> Seq<char>
    decreases s.len(),
{
    if s.len() > 0 && trims(t, s.last()) {
        trim_end_spec(s.drop_last(), t)
    } else {
        s
    }
}

/// `s` without the characters removed by `t` at both ends.
pub open spec fn trim_spec(s: Seq<char>, t: Trim) -> Seq<char> {
    trim_end_spec(trim_start_spec(s, t), t)
}

/// Removes the characters that `t` names from both ends of `s`.
pub fn trim(s: &str, t: Trim) -> (r: String)
    ensures
        r@ == trim_spec(s@, t),
{
    let sv = chars_of(s);
    let mut i: usize = 0;
    assert(sv@.skip(0) =~= sv@);
    while i < sv.len() && trims_exec(&t, sv[i])
        invariant
            sv@ == s@,
            0 <= i <= sv@.len(),
            trim_start_spec(sv@.skip(i as int), t) == trim_start_spec(sv@, t),
        decreases sv.len() - i,
    {
        assert(sv@.skip(i as int).drop_first() =~= sv@.skip(i + 1));
        i = i + 1;
    }
    let mut j: usize = sv.len();
    assert(sv@.subrange(i as int, j as int) =~= sv@.skip(i as int));
    while j > i && trims_exec(&t, sv[j - 1])
        invariant
            sv@ == s@,
            0 <= i <= j <= sv@.len(),
            trim_start_spec(sv@, t) == sv@.skip(i as int),
            trim_end_spec(sv@.subrange(i as int, j as int), t) == trim_spec(sv@, t),
        decreases j,
    {
        assert(sv@.subrange(i as int, j as int).drop_last() =~= sv@.subrange(i as int, j - 1));
        j = j - 1;
    }
    substring(s, i, j)
}

/// The replacement of every non-overlapping occurrence of the non-empty `from`
/// in `s`, scanning left to right from position `i`, by `to`.
pub open spec fn replace_from(s: Seq<char>, from: Seq<char>, to: Seq<char>, i: int) -> Seq<char>
    decreases s.len() - i,
{
    if i < 0 || i >= s.len() {
        seq![]
    } else if from.len() > 0 && occurs_at(s, from, i) {
        to + replace_from(s, from, to, i + from.len())
    } else {
        seq![s[i]] + replace_from(s, from, to, i + 1)
    }
}

/// `to` before, between and after the characters of `s` (the empty pattern
/// matches at every character boundary).
pub open spec fn interleave(s: Seq<char>, to: Seq<char>) -> Seq<char>
    decreases s.len(),
{
    if s.len() == 0 {
        to
    } else {
        to + seq![s[0]] + interleave(s.drop_first(), to)
    }
}

/// `str::replace`: every non-overlapping occurrence of `from` in `s` replaced by `to`.
pub open spec fn replace_spec(s: Seq<char>, from: Seq<char>, to: Seq<char>) -> Seq<char> {
    if from.len() == 0 {
        interleave(s, to)
    } else {
        replace_from(s, from, to, 0)
    }
}

/// Replaces every occurrence of `from` in `s` by `to`, as `str::replace` does.
pub fn replace_all(s: &str, from: &str, to: &str) -> (r: String)
    ensures
        r@ == replace_spec(s@, from@, to@),
{
    let sv = chars_of(s);
    let fv = chars_of(from);
    let mut res = String::new();
    let mut i: usize = 0;
    if fv.len() == 0 {
        assert(sv@.skip(0) =~= sv@);
        assert(res@ + interleave(sv@, to@) =~= interleave(sv@, to@));
        while i < sv.len()
            invariant
                sv@ == s@,
                0 <= i <= sv@.len(),
                res@ + interleave(sv@.skip(i as int), to@) == interleave(sv@, to@),
            decreases sv.len() - i,
        {
            let ghost before = res@;
            res.append(to);
            res.append(s.substring_char(i, i + 1));
            proof {
                assert(sv@.skip(i as int).drop_first() =~= sv@.skip(i + 1));
                assert(sv@.subrange(i as int, i + 1) =~= seq![sv@.skip(i as int)[0]]);
                assert(res@ + interleave(sv@.skip(i + 1), to@) =~= before + interleave(
                    sv@.skip(i as int),
                    to@,
                ));
            }
            i = i + 1;
        }
        res.append(to);
        proof {
            assert(sv@.skip(i as int) =~= Seq::<char>::empty());
        }
        return res;
    }
    let mut seg: usize = 0;
    while i < sv.len()
        invariant
            sv@ == s@,
            fv@ == from@,
            fv@.len() > 0,
            0 <= seg <= i <= sv@.len(),
            res@ + sv@.subrange(seg as int, i as int) + replace_from(sv@, fv@, to@, i as int)
                == replace_spec(sv@, fv@, to@),
        decreases sv.len() - i,
    {
        if occurs_at_exec(&sv, &fv, i) {
            let ghost before = res@;
            res.append(s.substring_char(seg, i));
            res.append(to);
            proof {
                assert(res@ + sv@.subrange(i + fv@.len(), i + fv@.len()) + replace_from(
                    sv@,
                    fv@,
                    to@,
                    i + fv@.len(),
                ) =~= before + sv@.subrange(seg as int, i as int) + replace_from(
                    sv@,
                    fv@,
                    to@,
                    i as int,
                ));
            }
            i = i + fv.len();
            seg = i;
        } else {
            proof {
                assert(res@ + sv@.subrange(seg as int, i + 1) + replace_from(sv@, fv@, to@, i + 1)
                    =~= res@ + sv@.subrange(seg as int, i as int) + replace_from(
                    sv@,
                    fv@,
                    to@,
                    i as int,
                ));
            }
            i = i + 1;
        }
    }
    let ghost before = res@;
    res.append(s.substring_char(seg, i));
    proof {
        assert(res@ =~= before + sv@.subrange(seg as int, i as int) + replace_from(
            sv@,
            fv@,
            to@,
            i as int,
        ));
    }
    res
}

/// `v` holds a string equal to `x`.
pub open spec fn holds_string(v: Seq<String>, x: Seq<char>) -> bool {
    exists|k: int| 0 <= k < v.len() && v[k]@ == x
}

/// Tests whether `v` holds a string equal to `x`.
pub fn contains_string(v: &Vec<String>, x: &String) -> (b: bool)
    ensures
        b == holds_string(v@, x@),
{
    let mut k: usize = 0;
    while k < v.len()
        invariant
            0 <= k <= v@.len(),
            forall|j: int| 0 <= j < k ==> v@[j]@ != x@,
        decreases v.len() - k,
    {
        if v[k] == *x {
            return true;
        }
        k += 1;
    }
    false
}

/// The decimal digit `d`.
pub open spec fn digit_char(d: nat) -> char {
    if d == 0 {
        '0'
    } else if d == 1 {
        '1'
    } else if d == 2 {
        '2'
    } else if d == 3 {
        '3'
    } else if d == 4 {
        '4'
    } else if d == 5 {
        '5'
    } else if d == 6 {
        '6'
    } else if d == 7 {
        '7'
    } else if d == 8 {
        '8'
    } else {
        '9'
    }
}

/// The decimal notation of `n`, without leading zeros.
pub open spec fn decimal(n: nat) -> Seq<char>
    decreases n,
{
    if n < 10 {
        seq![digit_char(n)]
    } else {
        decimal(n / 10).push(digit_char(n % 10))
    }
}

fn digit_str(d: usize) -> (r: &'static str)
    requires
        d < 10,
    ensures
        r@ == seq![digit_char(d as nat)],
{
    if d == 0 {
        proof { reveal_strlit("0"); }
        "0"
    } else if d == 1 {
        proof { reveal_strlit("1"); }
        "1"
    } else if d == 2 {
        proof { reveal_strlit("2"); }
        "2"
    } else if d == 3 {
        proof { reveal_strlit("3"); }
        "3"
    } else if d == 4 {
        proof { reveal_strlit("4"); }
        "4"
    } else if d == 5 {
        proof { reveal_strlit("5"); }
        "5"
    } else if d == 6 {
        proof { reveal_strlit("6"); }
        "6"
    } else if d == 7 {
        proof { reveal_strlit("7"); }
        "7"
    } else if d == 8 {
        proof { reveal_strlit("8"); }
        "8"
    } else {
        proof { reveal_strlit("9"); }
        "9"
    }
}

/// The decimal notation of `n`, as `usize::to_string` writes it.
pub fn decimal_string(n: usize) -> (r: String)
    ensures
        r@ == decimal(n as nat),
    decreases n,
{
    if n < 10 {
        let mut r = String::new();
        r.append(digit_str(n));
        r
    } else {
        let mut r = decimal_string(n / 10);
        r.append(digit_str(n % 10));
        r
    }
}


/// The pieces joined again, with `sep` between neighbours.
pub open spec fn join(parts: Seq<Seq<char>>, sep: Seq<char>) -> Seq<char>
    decreases parts.len(),
{
    if parts.len() == 0 {
        seq![]
    } else if parts.len() == 1 {
        parts[0]
    } else {
        parts[0] + sep + join(parts.drop_first(), sep)
    }
}

proof fn lemma_split_from_join(s: Seq<char>, sep: Seq<char>, start: int, i: int)
    requires
        sep.len() > 0,
        0 <= start <= i <= s.len(),
    ensures
        split_from(s, sep, start, i).len() >= 1,
        join(split_from(s, sep, start, i), sep) == s.subrange(start, s.len() as int),
    decreases s.len() - i,
{
    if i + sep.len() > s.len() {
    } else if occurs_at(s, sep, i) {
        let k = i + sep.len();
        lemma_split_from_join(s, sep, k, k);
        let rest = split_from(s, sep, k, k);
        let all = seq![s.subrange(start, i)] + rest;
        assert(all.drop_first() =~= rest);
        assert(join(all, sep) == s.subrange(start, i) + sep + join(rest, sep));
        assert(s.subrange(start, i) + sep + s.subrange(k, s.len() as int) =~= s.subrange(
            start,
            s.len() as int,
        ));
    } else {
        lemma_split_from_join(s, sep, start, i + 1);
    }
}

/// Splitting at a separator and joining the pieces with it gives the string back.
pub proof fn lemma_split_join(s: Seq<char>, sep: Seq<char>)
    requires
        sep.len() > 0,
    ensures
        split_spec(s, sep).len() >= 1,
        join(split_spec(s, sep), sep) == s,
{
    lemma_split_from_join(s, sep, 0, 0);
    assert(s.subrange(0, s.len() as int) =~= s);
}

/// A word: non-empty and free of white space.
pub open spec fn is_word(w: Seq<char>) -> bool {
    w.len() > 0 && forall|k: int| 0 <= k < w.len() ==> !is_ws(#[trigger] w[k])
}

proof fn lemma_tokens_from_words(s: Seq<char>, cur: Option<int>, i: int)
    requires
        0 <= i <= s.len(),
        cur matches Some(a) ==> 0 <= a < i && forall|k: int| a <= k < i ==> !is_ws(#[trigger] s[k]),
    ensures
        forall|w: int| 0 <= w < tokens_from(s, cur, i).len() ==> is_word(#[trigger] tokens_from(s, cur, i)[w]),
    decreases s.len() - i,
{
    if i < s.len() {
        if is_ws(s[i]) {
            lemma_tokens_from_words(s, None, i + 1);
            if cur is None {
                assert(tokens_from(s, cur, i) == tokens_from(s, None, i + 1));
            }
            if let Some(a) = cur {
                let first = s.subrange(a, i);
                assert(is_word(first)) by {
                    assert forall|k: int| 0 <= k < first.len() implies !is_ws(#[trigger] first[k]) by {
                        assert(first[k] == s[a + k]);
                    }
                }
                let rest = tokens_from(s, None, i + 1);
                assert(tokens_from(s, cur, i) == seq![first] + rest);
                assert forall|w: int| 0 <= w < tokens_from(s, cur, i).len() implies is_word(
                    #[trigger] tokens_from(s, cur, i)[w],
                ) by {
                    if w > 0 {
                        assert(tokens_from(s, cur, i)[w] == rest[w - 1]);
                    }
                }
            }
        } else {
            match cur {
                Some(a) => {
                    lemma_tokens_from_words(s, Some(a), i + 1);
                    assert(tokens_from(s, cur, i) == tokens_from(s, Some(a), i + 1));
                },
                None => {
                    lemma_tokens_from_words(s, Some(i), i + 1);
                    assert(tokens_from(s, cur, i) == tokens_from(s, Some(i), i + 1));
                },
            }
        }
    } else {
        if let Some(a) = cur {
            let first = s.subrange(a, s.len() as int);
            assert(is_word(first)) by {
                assert forall|k: int| 0 <= k < first.len() implies !is_ws(#[trigger] first[k]) by {
                    assert(first[k] == s[a + k]);
                }
            }
            assert(tokens_from(s, cur, i) == seq![first]);
        } else {
            assert(tokens_from(s, cur, i) == Seq::<Seq<char>>::empty());
        }
    }
}

/// Every white-space separated word is non-empty and holds no white space.
pub proof fn lemma_words(s: Seq<char>)
    ensures
        forall|w: int| 0 <= w < ws_tokens(s).len() ==> is_word(#[trigger] ws_tokens(s)[w]),
{
    lemma_tokens_from_words(s, None, 0);
}

proof fn lemma_trim_start(s: Seq<char>, t: Trim)
    ensures
        exists|a: int| 0 <= a <= s.len() && trim_start_spec(s, t) == s.skip(a),
        trim_start_spec(s, t).len() > 0 ==> !trims(t, trim_start_spec(s, t)[0]),
    decreases s.len(),
{
    if s.len() > 0 && trims(t, s[0]) {
        lemma_trim_start(s.drop_first(), t);
        let a = choose|a: int| 0 <= a <= s.drop_first().len() && trim_start_spec(s.drop_first(), t) == s.drop_first().skip(a);
        assert(s.drop_first().skip(a) =~= s.skip(a + 1));
    } else {
        assert(s.skip(0) =~= s);
    }
}

proof fn lemma_trim_end(s: Seq<char>, t: Trim)
    ensures
        exists|b: int| 0 <= b <= s.len() && trim_end_spec(s, t) == s.take(b),
        trim_end_spec(s, t).len() > 0 ==> !trims(t, trim_end_spec(s, t).last()),
    decreases s.len(),
{
    if s.len() > 0 && trims(t, s.last()) {
        lemma_trim_end(s.drop_last(), t);
        let b = choose|b: int| 0 <= b <= s.drop_last().len() && trim_end_spec(s.drop_last(), t) == s.drop_last().take(b);
        assert(s.drop_last().take(b) =~= s.take(b));
    } else {
        assert(s.take(s.len() as int) =~= s);
    }
}

/// A trimmed string is a stretch of the untrimmed one that neither starts nor ends
/// with a character the trim removes.
pub proof fn lemma_trim_ends(s: Seq<char>, t: Trim)
    ensures
        exists|a: int, b: int| 0 <= a <= b <= s.len() && #[trigger] trim_spec(s, t) == s.subrange(a, b),
        trim_spec(s, t).len() > 0 ==> !trims(t, trim_spec(s, t)[0]) && !trims(t, trim_spec(s, t).last()),
{
    lemma_trim_start(s, t);
    let a = choose|a: int| 0 <= a <= s.len() && trim_start_spec(s, t) == s.skip(a);
    let u = trim_start_spec(s, t);
    lemma_trim_end(u, t);
    let b = choose|b: int| 0 <= b <= u.len() && trim_end_spec(u, t) == u.take(b);
    assert(u.take(b) =~= s.subrange(a, a + b));
    if trim_spec(s, t).len() > 0 {
        assert(trim_spec(s, t)[0] == u[0]);
    }
}

proof fn lemma_replace_from_absent(s: Seq<char>, from: Seq<char>, to: Seq<char>, i: int)
    requires
        from.len() > 0,
        0 <= i <= s.len(),
        forall|j: int| i <= j < s.len() ==> !occurs_at(s, from, j),
    ensures
        replace_from(s, from, to, i) == s.skip(i),
    decreases s.len() - i,
{
    if i < s.len() {
        lemma_replace_from_absent(s, from, to, i + 1);
        assert(seq![s[i]] + s.skip(i + 1) =~= s.skip(i));
    } else {
        assert(s.skip(i) =~= Seq::<char>::empty());
    }
}

/// Replacing a pattern that does not occur changes nothing.
pub proof fn lemma_replace_absent(s: Seq<char>, from: Seq<char>, to: Seq<char>)
    requires
        from.len() > 0,
        forall|j: int| 0 <= j < s.len() ==> !occurs_at(s, from, j),
    ensures
        replace_spec(s, from, to) == s,
{
    lemma_replace_from_absent(s, from, to, 0);
    assert(s.skip(0) =~= s);
}

/// `acc` with `x` appended unless it already holds `x`.
pub open spec fn add_unique(acc: Seq<Seq<char>>, x: Seq<char>) -> Seq<Seq<char>> {
    if acc.contains(x) {
        acc
    } else {
        acc.push(x)
    }
}

/// The distinct elements of `s`, in the order of their first occurrence.
pub open spec fn dedup(s: Seq<Seq<char>>) -> Seq<Seq<char>>
    decreases s.len(),
{
    if s.len() == 0 {
        seq![]
    } else {
        add_unique(dedup(s.drop_last()), s.last())
    }
}

/// `dedup` holds each element of its argument exactly once, and nothing else.
pub proof fn lemma_dedup(s: Seq<Seq<char>>)
    ensures
        forall|i: int, j: int|
            0 <= i < j < dedup(s).len() ==> #[trigger] dedup(s)[i] != #[trigger] dedup(s)[j],
        forall|x: Seq<char>| #[trigger] dedup(s).contains(x) <==> s.contains(x),
    decreases s.len(),
{
    if s.len() > 0 {
        let prev = s.drop_last();
        lemma_dedup(prev);
        let d = dedup(prev);
        let l = s.last();
        assert forall|x: Seq<char>| #[trigger] dedup(s).contains(x) <==> s.contains(x) by {
            assert(s =~= prev.push(l));
            lemma_contains_push(prev, l, x);
            lemma_contains_push(d, l, x);
        }
    }
}

/// What `push` does to `contains`.
pub proof fn lemma_contains_push(s: Seq<Seq<char>>, l: Seq<char>, x: Seq<char>)
    ensures
        s.push(l).contains(x) <==> s.contains(x) || x == l,
{
    if s.push(l).contains(x) && x != l {
        let k = choose|k: int| 0 <= k < s.push(l).len() && s.push(l)[k] == x;
        assert(s[k] == x);
    }
    if s.contains(x) {
        let k = choose|k: int| 0 <= k < s.len() && s[k] == x;
        assert(s.push(l)[k] == x);
    }
    if x == l {
        assert(s.push(l)[s.len() as int] == x);
    }
}

/// `v` holds `x` exactly when its view does.
pub proof fn lemma_holds_string(v: Seq<String>, x: Seq<char>)
    ensures
        holds_string(v, x) <==> views(v).contains(x),
{
    if holds_string(v, x) {
        let k = choose|k: int| 0 <= k < v.len() && v[k]@ == x;
        assert(views(v)[k] == x);
    }
    if views(v).contains(x) {
        let k = choose|k: int| 0 <= k < views(v).len() && views(v)[k] == x;
        assert(v[k]@ == x);
    }
}

/// Appends `x` to `acc` unless it already holds it.
pub fn push_unique(acc: &mut Vec<String>, x: &String)
    ensures
        views(final(acc)@) == add_unique(views(old(acc)@), x@),
{
    proof {
        lemma_holds_string(acc@, x@);
    }
    if !contains_string(acc, x) {
        acc.push(x.clone());
        assert(views(acc@) =~= views(old(acc)@).push(x@));
    }
}

/// Reads `bytes` as UTF-8 text with `std::str::from_utf8`.
///
/// Trusted: the result is the decoded text exactly when the bytes are valid
/// UTF-8, as the standard library documents.
#[verifier::external_body]
pub(crate) fn utf8_text(bytes: &[u8]) -> (r: Option<&str>)
    ensures
        r is Some <==> valid_utf8(bytes@),
        r matches Some(t) ==> t@ == decode_utf8(bytes@),
{
    std::str::from_utf8(bytes).ok()
}

} // verus!
