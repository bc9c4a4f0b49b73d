//! The regular expressions that substitution is built on.
//!
//! Everything here is a thin contract around the `regex` crate. What a
//! compiled expression matches is not stated: the result of a replacement
//! is given a name, and the callers' contracts speak of that name. Whether
//! a pattern is accepted is named too.

use vstd::prelude::*;
use regex::Regex;
use crate::interpolator::keep_or_put;

verus! {

/// A compiled regular expression of the `regex` crate. Nothing inside it
/// is visible here; `regex_source` names the text it was made from.
#[verifier::external_type_specification]
#[verifier::external_body]
pub struct ExRegex(regex::Regex);

/// Whether `c` has a meaning of its own in a regular expression.
pub open spec fn is_meta(c: char) -> bool {
    c == '\\' || c == '.' || c == '+' || c == '*' || c == '?' || c == '(' || c == ')'
        || c == '|' || c == '[' || c == ']' || c == '{' || c == '}' || c == '^' || c == '$'
        || c == '#' || c == '&' || c == '-' || c == '~'
}

/// `text` with a backslash put before each character that has a meaning of
/// its own in a regular expression.
pub open spec fn quoted(text: Seq<char>) -> Seq<char>
    decreases text.len(),
{
    if text.len() == 0 {
        Seq::empty()
    } else if is_meta(text.last()) {
        quoted(text.drop_last()).push('\\').push(text.last())
    } else {
        quoted(text.drop_last()).push(text.last())
    }
}

/// Whether `Regex::new` accepts `pattern`: it is a well-formed expression
/// and what it compiles to stays within the crate's default size limit. The
/// limit is measured on the compiled program, so for a pattern close to it
/// the answer is that of the build at hand.
pub uninterp spec fn regex_compiles(pattern: Seq<char>) -> bool;

/// The text that a compiled expression was made from, which is what
/// `Regex::as_str` gives.
pub uninterp spec fn regex_source(re: Regex) -> Seq<char>;

/// Whether a compiled expression was made by `Regex::new`, with the
/// options that the crate gives by default. Of such an expression, what it
/// matches depends on its source alone.
pub uninterp spec fn regex_plain(re: Regex) -> bool;

/// What `Regex::replace_all` makes of `haystack` for the expression
/// compiled from `pattern`: every non-overlapping match, leftmost first, is
/// replaced by the expansion of `replacement`.
pub uninterp spec fn regex_replaced(
    pattern: Seq<char>,
    haystack: Seq<char>,
    replacement: Seq<char>,
) -> Seq<char>;

/// What `Regex::replace_all` makes of `haystack` for the expression
/// compiled from `pattern` when each non-overlapping match, leftmost first,
/// is replaced by what `keep_or_put` gives for it: a match in which the
/// first group took part is kept as it was found, any other becomes `value`.
pub uninterp spec fn regex_substituted(
    pattern: Seq<char>,
    haystack: Seq<char>,
    value: Seq<char>,
) -> Seq<char>;

/// Calls `regex::escape`. The source walks the characters of `text` and
/// pushes a backslash before each one that `regex_syntax::is_meta_character`
/// accepts; `is_meta` lists the same characters.
#[verifier::external_body]
pub(crate) fn escape(text: &str) -> (out: String)
    ensures
        out@ == quoted(text@),
{
    regex::escape(text)
}

/// Calls `Regex::new` and keeps the expression where there is one. The
/// outcome depends on the pattern alone; a compiled expression reports the
/// pattern it was given as its source (`Regex::as_str`), and `Regex::new`
/// sets no option.
#[verifier::external_body]
pub(crate) fn compile(pattern: &str) -> (re: Option<Regex>)
    ensures
        re is Some <==> regex_compiles(pattern@),
        re is Some ==> regex_source(re.unwrap()) == pattern@ && regex_plain(re.unwrap()),
{
    Regex::new(pattern).ok()
}

/// Calls `Regex::replace_all` with a string replacement, in which `$name`
/// and `${name}` stand for capture groups and `$$` for a dollar sign, and
/// copies the result into a `String`.
#[verifier::external_body]
pub(crate) fn replace_all(re: &Regex, haystack: &str, replacement: &str) -> (out: String)
    requires
        regex_plain(*re),
    ensures
        out@ == regex_replaced(regex_source(*re), haystack@, replacement@),
{
    re.replace_all(haystack, replacement).into_owned()
}

/// Calls `Regex::replace_all` with a function as the replacement, and
/// copies the result into a `String`. The crate calls the function once for
/// each match and puts what it returns in the match's place, unexpanded.
/// The function hands the matched text, and whether the first group took
/// part in the match, to `keep_or_put`.
#[verifier::external_body]
pub(crate) fn substitute_all(re: &Regex, haystack: &str, value: &str) -> (out: String)
    requires
        regex_plain(*re),
    ensures
        out@ == regex_substituted(regex_source(*re), haystack@, value@),
{
    re.replace_all(
        haystack,
        |found: &regex::Captures| keep_or_put(&found[0], found.get(1).is_some(), value),
    ).into_owned()
}

} // verus!
