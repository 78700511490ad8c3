//! Compiled regular expressions, through the `regex` crate.

use regex::Regex;
use vstd::prelude::*;

verus! {

#[verifier::external_type_specification]
#[verifier::external_body]
pub struct ExRegex(Regex);

/// Whether `regex::Regex::new` accepts `source`; this depends on the source
/// text alone.
pub uninterp spec fn regex_accepts(source: Seq<char>) -> bool;

/// Whether the regular expression compiled from `source` matches somewhere in
/// `text`.
pub uninterp spec fn regex_finds(source: Seq<char>, text: Seq<char>) -> bool;

/// The characters that have a meaning of their own in a regular expression.
pub open spec fn is_meta_character(c: char) -> bool {
    c == '\\' || c == '.' || c == '+' || c == '*' || c == '?' || c == '(' || c == ')' || c
        == '|' || c == '[' || c == ']' || c == '{' || c == '}' || c == '^' || c == '$' || c
        == '#' || c == '&' || c == '-' || c == '~'
}

/// `s` with a backslash put before each meta character.
pub open spec fn escaped(s: Seq<char>) -> Seq<char>
    decreases s.len(),
{
    if s.len() == 0 {
        Seq::empty()
    } else {
        let c = s.last();
        escaped(s.drop_last()) + if is_meta_character(c) {
            seq!['\\', c]
        } else {
            seq![c]
        }
    }
}

/// A compiled regular expression together with the text it was compiled from.
/// Only `compile` builds one, so the two always belong together.
pub(crate) struct LinePattern {
    regex: Regex,
    source: String,
}

impl LinePattern {
    /// The text the expression was compiled from.
    pub(crate) closed spec fn source(&self) -> Seq<char> {
        self.source@
    }
}

/// Relies on `regex::Regex::new`: it compiles `source`, or fails, depending on
/// the text of `source` alone.
#[verifier::external_body]
pub(crate) fn compile(source: String) -> (r: Option<LinePattern>)
    ensures
        r is Some <==> regex_accepts(source@),
        r matches Some(p) ==> p.source() == source@,
{
    match Regex::new(&source) {
        Ok(regex) => Some(LinePattern { regex, source }),
        Err(_) => None,
    }
}

/// Relies on `regex::Regex::is_match`: whether the expression matches
/// anywhere in `text`.
#[verifier::external_body]
pub(crate) fn is_match(p: &LinePattern, text: &str) -> (r: bool)
    ensures
        r == regex_finds(p.source(), text@),
{
    p.regex.is_match(text)
}

/// Relies on `regex::escape`, which puts a backslash before each meta
/// character and copies every other character.
#[verifier::external_body]
pub(crate) fn escape(s: &str) -> (r: String)
    ensures
        r@ == escaped(s@),
{
    regex::escape(s)
}

} // verus!
