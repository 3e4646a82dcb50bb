//! Route locations are regular expressions, matched by the `regex` crate.
use vstd::prelude::*;

verus! {

/// `regex::Regex::new` accepts the pattern.
pub uninterp spec fn regex_compiles(pattern: Seq<char>) -> bool;

/// `regex::Regex::is_match`: the compiled pattern matches somewhere in the text.
pub uninterp spec fn regex_matches(pattern: Seq<char>, text: Seq<char>) -> bool;

/// `regex::Regex::replace` with the empty replacement: the text with its
/// leftmost-first match removed.
pub uninterp spec fn regex_strip_first(pattern: Seq<char>, text: Seq<char>) -> Seq<char>;

/// `rest` is `text` with one stretch cut out of it.
pub open spec fn cut_from(text: Seq<char>, rest: Seq<char>) -> bool {
    exists|a: int, b: int|
        0 <= a <= b <= text.len() && rest == #[trigger] text.take(a) + #[trigger] text.skip(b)
}

/// The compiled regular expression of the `regex` crate.
#[verifier::external_type_specification]
#[verifier::external_body]
pub struct ExRegex(regex::Regex);

/// A pattern together with the regular expression compiled from it.
pub struct CompiledPattern {
    source: String,
    re: regex::Regex,
}

impl View for CompiledPattern {
    type V = Seq<char>;

    /// The pattern the regular expression was compiled from.
    closed spec fn view(&self) -> Seq<char> {
        self.source@
    }
}

/// Compiles `pattern` with `regex::Regex::new`.
///
/// Trusted: the result is present exactly when the pattern compiles, and then
/// holds the pattern it was compiled from; the empty pattern compiles (it
/// matches the empty string everywhere).
#[verifier::external_body]
pub(crate) fn compile(pattern: &str) -> (r: Option<CompiledPattern>)
    ensures
        r is Some <==> regex_compiles(pattern@),
        r matches Some(p) ==> p@ == pattern@,
        pattern@.len() == 0 ==> r is Some,
{
    regex::Regex::new(pattern).ok().map(|re| CompiledPattern { source: pattern.to_string(), re })
}

/// `regex::Regex::is_match` of the compiled pattern on `text`.
///
/// Trusted: the answer is named `regex_matches` of the pattern and the text;
/// the empty pattern matches every text.
#[verifier::external_body]
pub(crate) fn is_match(p: &CompiledPattern, text: &str) -> (b: bool)
    ensures
        b == regex_matches(p@, text@),
        p@.len() == 0 ==> b,
{
    p.re.is_match(text)
}

/// `regex::Regex::replace(text, "")`: `text` with the leftmost-first match of
/// the compiled pattern cut out.
///
/// Trusted: the result is named `regex_strip_first` of the pattern and the
/// text. As the `regex` documentation states, the text comes back unchanged
/// when nothing matches, and otherwise with one stretch of it removed; the
/// empty pattern's first match is empty, so it leaves the text unchanged.
#[verifier::external_body]
pub(crate) fn strip_first(p: &CompiledPattern, text: &str) -> (stripped: String)
    ensures
        stripped@ == regex_strip_first(p@, text@),
        !regex_matches(p@, text@) ==> stripped@ == text@,
        regex_matches(p@, text@) ==> cut_from(text@, stripped@),
        p@.len() == 0 ==> stripped@ == text@,
{
    p.re.replace(text, "").into_owned()
}

} // verus!
