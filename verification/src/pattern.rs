//! Regular expressions, compiled and run by the `regex` crate. A `Pattern`
//! keeps the source it was compiled from; what a match or a replacement gives
//! is named as a function of that source and of the haystack.

use vstd::prelude::*;
use regex::Regex;

verus! {

#[verifier::external_type_specification]
#[verifier::external_body]
pub struct ExRegex(Regex);

/// Whether `regex` compiles `pattern` (`Regex::new` succeeds).
pub uninterp spec fn regex_compiles(pattern: Seq<char>) -> bool;

/// Whether the regular expression `pattern` matches somewhere in `haystack`
/// (`Regex::is_match`).
pub uninterp spec fn regex_is_match(pattern: Seq<char>, haystack: Seq<char>) -> bool;

/// `haystack` with the leftmost-first match of `pattern` replaced by
/// `replacement`, its `$name` references expanded (`Regex::replace`).
pub uninterp spec fn regex_replace(pattern: Seq<char>, haystack: Seq<char>, replacement: Seq<char>) -> Seq<char>;

/// A compiled regular expression and the source it was compiled from. Its
/// fields are private and `compile` is its only constructor, so `compiled` is
/// always what `Regex::new` made of `source`.
pub struct Pattern {
    source: String,
    compiled: Regex,
}

impl Pattern {
    /// The source of the regular expression.
    pub closed spec fn source(&self) -> Seq<char> {
        self.source@
    }
}

/// `Regex::new`: compiles `source`; `None` where `regex` refuses it. The
/// pattern keeps `source` as its source.
#[verifier::external_body]
pub fn compile(source: &str) -> (r: Option<Pattern>)
    ensures
        r is Some <==> regex_compiles(source@),
        r matches Some(p) ==> p.source() == source@,
{
    match Regex::new(source) {
        Ok(compiled) => Some(Pattern { source: String::from(source), compiled }),
        Err(_) => None,
    }
}

/// `Regex::is_match`: whether the pattern matches somewhere in `haystack`.
#[verifier::external_body]
pub fn is_match(p: &Pattern, haystack: &str) -> (r: bool)
    ensures
        r == regex_is_match(p.source(), haystack@),
{
    p.compiled.is_match(haystack)
}

/// `Regex::replace`: `haystack` with the leftmost-first match replaced by
/// `replacement`, `$name` expanded to the named capture group.
#[verifier::external_body]
pub fn replace_match(p: &Pattern, haystack: &str, replacement: &str) -> (r: String)
    ensures
        r@ == regex_replace(p.source(), haystack@, replacement@),
{
    p.compiled.replace(haystack, replacement).into_owned()
}

} // verus!
