//! Substitution of a placeholder into a template.
//!
//! A placeholder is a percent sign followed by a key. Every placeholder
//! that does not stand behind a backslash is replaced by a value, also one
//! that follows another directly. Behind a backslash it is kept, and the
//! backslash is dropped. Both steps are replacements by regular expression:
//! the first finds each placeholder together with a backslash before it,
//! where there is one, and leaves those with a backslash as they are; the
//! second, over the result of the first, drops the backslash. Their results
//! are spoken of through `regex_substituted` and `regex_replaced`.

use vstd::prelude::*;
use vstd::std_specs::iter::IteratorSpec;
use vstd::string::StringExecFns;
use regex::Regex;
use crate::pattern::{
    compile, escape, quoted, regex_compiles, regex_plain, regex_replaced, regex_source,
    regex_substituted, replace_all, substitute_all,
};

verus! {

broadcast use vstd::string::group_string_axioms;

/// `String::push` appends one character.
pub assume_specification[ String::push ](s: &mut String, c: char)
    ensures
        final(s)@ == old(s)@.push(c),
;

/// The placeholder of `key`: a percent sign, then the key.
pub open spec fn placeholder(key: Seq<char>) -> Seq<char> {
    "%"@ + key
}

/// The expression that finds each placeholder: one backslash before it is
/// taken into the match, as its first group, where there is one. No other
/// character before the placeholder belongs to the match.
pub open spec fn live_pattern(key: Seq<char>) -> Seq<char> {
    "(\\\\)?%"@ + quoted(key)
}

/// The expression that finds a placeholder behind a backslash.
pub open spec fn escape_pattern(key: Seq<char>) -> Seq<char> {
    "\\\\%"@ + quoted(key)
}

/// `text` with each dollar sign written twice, which is how a replacement
/// string spells a dollar sign that stands for itself.
pub open spec fn verbatim(text: Seq<char>) -> Seq<char>
    decreases text.len(),
{
    if text.len() == 0 {
        Seq::empty()
    } else if text.last() == '$' {
        verbatim(text.drop_last()).push('$').push('$')
    } else {
        verbatim(text.drop_last()).push(text.last())
    }
}

/// The result of substituting `value` for the placeholder of `key` in
/// `text`: every placeholder without a backslash before it becomes the
/// value as it stands, and afterwards each one with a backslash before it
/// is reduced to the bare placeholder.
pub open spec fn interpolated(key: Seq<char>, text: Seq<char>, value: Seq<char>) -> Seq<char> {
    regex_replaced(
        escape_pattern(key),
        regex_substituted(live_pattern(key), text, value),
        verbatim(placeholder(key)),
    )
}

/// What stands in the place of one found placeholder: the text as it was
/// found where a backslash stands before the placeholder, else the value.
pub fn keep_or_put(found: &str, escaped: bool, value: &str) -> (out: String)
    ensures
        out@ == if escaped {
            found@
        } else {
            value@
        },
{
    if escaped {
        String::from_str(found)
    } else {
        String::from_str(value)
    }
}

/// Whether `key` can be made into an interpolator: both of its expressions
/// are accepted.
pub open spec fn accepted(key: Seq<char>) -> bool {
    regex_compiles(live_pattern(key)) && regex_compiles(escape_pattern(key))
}

/// Copies `text`, writing each dollar sign twice.
pub fn spell_verbatim(text: &str) -> (out: String)
    ensures
        out@ == verbatim(text@),
{
    let mut out = String::new();
    let mut rest = text.chars();
    let ghost mut done: Seq<char> = Seq::empty();
    loop
        invariant
            rest.obeys_prophetic_iter_laws(),
            rest.decrease() is Some,
            done + rest.remaining() == text@,
            out@ == verbatim(done),
        ensures
            out@ == verbatim(text@),
        decreases rest.decrease()->0,
    {
        let ghost before = rest.remaining();
        match rest.next() {
            Some(c) => {
                proof {
                    assert(done.push(c).drop_last() == done);
                    assert(done.push(c) + before.drop_first() == done + before);
                    done = done.push(c);
                }
                if c == '$' {
                    out.push('$');
                }
                out.push(c);
            },
            None => {
                proof {
                    assert(done + before == done);
                }
                break ;
            },
        }
    }
    out
}

/// Substitutes values for the placeholder of one key.
pub struct Interpolator {
    key: String,
    live: Regex,
    escape: Regex,
}

impl Interpolator {
    #[verifier::type_invariant]
    spec fn well_formed(self) -> bool {
        &&& regex_source(self.live) == live_pattern(self.key@)
        &&& regex_source(self.escape) == escape_pattern(self.key@)
        &&& regex_plain(self.live)
        &&& regex_plain(self.escape)
    }

    /// The key whose placeholder is substituted.
    pub closed spec fn key(self) -> Seq<char> {
        self.key@
    }

    /// Makes the interpolator for `key`. There is one exactly when both of
    /// the key's expressions are accepted.
    pub fn new(key: &String) -> (made: Option<Interpolator>)
        ensures
            made is Some <==> accepted(key@),
            made is Some ==> made->Some_0.key() == key@,
    {
        let literal = escape(key.as_str());
        let mut live_text = String::from_str("(\\\\)?%");
        live_text.append(literal.as_str());
        let mut escape_text = String::from_str("\\\\%");
        escape_text.append(literal.as_str());
        match compile(live_text.as_str()) {
            None => None,
            Some(live) => match compile(escape_text.as_str()) {
                None => None,
                Some(escape) => Some(Interpolator { key: key.clone(), live, escape }),
            },
        }
    }

    /// Substitutes `value` for the placeholder in `text`.
    pub fn interpolate(&self, text: &String, value: &String) -> (out: String)
        ensures
            out@ == interpolated(self.key(), text@, value@),
    {
        proof {
            use_type_invariant(self);
        }
        let mut bare = String::from_str("%");
        bare.append(self.key.as_str());
        let first = substitute_all(&self.live, text.as_str(), value.as_str());
        replace_all(&self.escape, first.as_str(), spell_verbatim(bare.as_str()).as_str())
    }
}

} // verus!
