//! Compiled regular expressions, and the word-bounded patterns built from
//! literal triggers.
use vstd::prelude::*;

use crate::text::{chars_of, string_of};

verus! {

#[verifier::external_type_specification]
#[verifier::external_body]
pub struct ExRegex(regex::Regex);

#[verifier::external_type_specification]
#[verifier::external_body]
pub struct ExRegexError(regex::Error);

/// Whether `source` is a regular expression that the regex crate accepts.
pub uninterp spec fn regex_compiles(source: Seq<char>) -> bool;

/// Whether the regular expression `source` matches somewhere in `haystack`.
pub uninterp spec fn regex_finds(source: Seq<char>, haystack: Seq<char>) -> bool;

/// Whether the character is alphabetic in the sense of Unicode.
pub uninterp spec fn alphabetic(c: char) -> bool;

/// The characters that carry a meaning in a regular expression.
pub open spec fn is_meta(c: char) -> bool {
    c == '\\' || c == '.' || c == '+' || c == '*' || c == '?' || c == '(' || c == ')' || c == '|'
        || c == '[' || c == ']' || c == '{' || c == '}' || c == '^' || c == '$' || c == '#'
        || c == '&' || c == '-' || c == '~'
}

/// `s` with a backslash put before every meta character.
pub open spec fn escaped(s: Seq<char>) -> Seq<char>
    decreases s.len(),
{
    if s.len() == 0 {
        seq![]
    } else if is_meta(s.last()) {
        escaped(s.drop_last()) + seq!['\\', s.last()]
    } else {
        escaped(s.drop_last()).push(s.last())
    }
}

/// The word-boundary anchor `\b`.
pub open spec fn boundary() -> Seq<char> {
    seq!['\\', 'b']
}

/// The pattern source for a literal trigger: the escaped literal, with a word
/// boundary on each side where the escaped literal starts or ends with a
/// letter.
pub open spec fn word_source(t: Seq<char>) -> Seq<char> {
    let e = escaped(t);
    let head = if e.len() > 0 && alphabetic(e[0]) {
        boundary()
    } else {
        seq![]
    };
    let tail = if e.len() > 0 && alphabetic(e.last()) {
        boundary()
    } else {
        seq![]
    };
    head + e + tail
}

/// Relies on `regex::escape`: a backslash before each of the meta characters
/// listed in `is_meta`, every other character kept.
#[verifier::external_body]
pub(crate) fn escape(s: &str) -> (r: String)
    ensures
        r@ == escaped(s@),
{
    regex::escape(s)
}

/// Relies on `regex::Regex::new`: whether it succeeds depends on the source alone.
#[verifier::external_body]
fn compile_regex(source: &str) -> (r: Result<regex::Regex, regex::Error>)
    ensures
        r is Ok <==> regex_compiles(source@),
{
    regex::Regex::new(source)
}

/// Relies on `char::is_alphabetic`.
#[verifier::external_body]
pub(crate) fn is_alphabetic(c: char) -> (r: bool)
    ensures
        r == alphabetic(c),
{
    c.is_alphabetic()
}

/// A compiled regular expression together with its source. The two fields
/// are private and set together by `Pattern::new` only, so the compiled form
/// is always the one of `source`.
#[derive(Debug)]
pub struct Pattern {
    source: String,
    compiled: regex::Regex,
}

impl View for Pattern {
    type V = Seq<char>;

    closed spec fn view(&self) -> Seq<char> {
        self.source@
    }
}

/// Relies on `regex::Regex::is_match` of the expression compiled from the
/// pattern's source: whether it matches anywhere in `text`.
#[verifier::external_body]
fn pattern_finds(p: &Pattern, text: &str) -> (r: bool)
    ensures
        r == regex_finds(p@, text@),
{
    p.compiled.is_match(text)
}

impl Pattern {
    /// Compiles `source`; fails exactly where the regex crate refuses it.
    pub fn new(source: &str) -> (r: Result<Pattern, regex::Error>)
        ensures
            r is Ok <==> regex_compiles(source@),
            r matches Ok(p) ==> p@ == source@,
    {
        match compile_regex(source) {
            Ok(compiled) => Ok(Pattern { source: source.to_owned(), compiled }),
            Err(e) => Err(e),
        }
    }

    /// The source the pattern was compiled from.
    pub fn as_str(&self) -> (r: &str)
        ensures
            r@ == self@,
    {
        self.source.as_str()
    }

    /// Whether the pattern matches somewhere in `text`.
    pub fn is_match(&self, text: &str) -> (r: bool)
        ensures
            r == regex_finds(self@, text@),
    {
        pattern_finds(self, text)
    }
}

/// The pattern source for the literal trigger `t` (see `word_source`).
pub fn word_pattern_source(t: &str) -> (r: String)
    ensures
        r@ == word_source(t@),
{
    let e = escape(t);
    let ec = chars_of(e.as_str());
    let mut out: Vec<char> = Vec::new();
    let n = ec.len();
    if n > 0 && is_alphabetic(ec[0]) {
        out.push('\\');
        out.push('b');
    }
    let mut i: usize = 0;
    while i < n
        invariant
            n == ec@.len(),
            i <= n,
            ec@ == escaped(t@),
            out@ == (if n > 0 && alphabetic(ec@[0]) {
                boundary()
            } else {
                seq![]
            }) + ec@.subrange(0, i as int),
        decreases n - i,
    {
        out.push(ec[i]);
        i += 1;
    }
    if n > 0 && is_alphabetic(ec[n - 1]) {
        out.push('\\');
        out.push('b');
    }
    assert(ec@.subrange(0, n as int) =~= ec@);
    let r = string_of(out.as_slice());
    assert(r@ =~= word_source(t@));
    r
}

} // verus!
