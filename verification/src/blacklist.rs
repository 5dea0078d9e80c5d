//! The blacklist: a pattern whose matches are taken out of a line before
//! the line is sent for synthesis.

use vstd::prelude::*;
use crate::text::{starts_with, trim, trimmed};

verus! {

/// Error of the pattern compiler; its contents are never inspected.
#[verifier::external_type_specification]
#[verifier::external_body]
pub struct ExPatternError(regex::Error);

/// Whether `pattern` compiles.
pub uninterp spec fn pattern_compiles(pattern: Seq<char>) -> bool;

/// `text` with every match of `pattern` replaced by `replacement`.
pub uninterp spec fn pattern_replaced(
    pattern: Seq<char>,
    text: Seq<char>,
    replacement: Seq<char>,
) -> Seq<char>;

/// Calls `regex::Regex::new`, then `replace_all` on the compiled pattern.
/// Trusted: whether the pattern compiles depends on the pattern alone,
/// named `pattern_compiles`, and the text that comes out is a function of
/// the three texts alone, named `pattern_replaced`.
#[verifier::external_body]
fn replace_matches(pattern: &str, text: &str, replacement: &str) -> (r: Result<
    String,
    regex::Error,
>)
    ensures
        r is Ok <==> pattern_compiles(pattern@),
        r matches Ok(s) ==> s@ == pattern_replaced(pattern@, text@, replacement@),
{
    Ok(regex::Regex::new(pattern)?.replace_all(text, replacement).into_owned())
}

#[derive(Clone, Copy, Debug, PartialEq, Eq, Structural)]
pub enum BlacklistError {
    /// The pattern does not compile.
    InvalidPattern,
}

/// What is sent for synthesis in place of `line`: the line without the
/// matches of `pattern`.
pub open spec fn blacklisted(pattern: Seq<char>, line: Seq<char>) -> Seq<char> {
    pattern_replaced(pattern, line, Seq::empty())
}

/// A blacklist pattern that compiles.
#[derive(Debug)]
pub struct Blacklist {
    pattern: String,
}

impl Blacklist {
    #[verifier::type_invariant]
    spec fn compiles(self) -> bool {
        pattern_compiles(self.pattern@)
    }

    pub closed spec fn pattern_text(&self) -> Seq<char> {
        self.pattern@
    }

    /// Takes `pattern` as the blacklist, provided that it compiles.
    pub fn new(pattern: String) -> (r: Result<Blacklist, BlacklistError>)
        ensures
            r is Ok <==> pattern_compiles(pattern@),
            r matches Ok(b) ==> b.pattern_text() == pattern@,
            r matches Err(e) ==> e == BlacklistError::InvalidPattern,
    {
        let empty = String::new();
        match replace_matches(pattern.as_str(), empty.as_str(), empty.as_str()) {
            Ok(_) => Ok(Blacklist { pattern }),
            Err(_) => Err(BlacklistError::InvalidPattern),
        }
    }

    pub fn pattern(&self) -> (p: &str)
        ensures
            p@ == self.pattern_text(),
    {
        self.pattern.as_str()
    }

    /// Removes every match of the pattern from `line`.
    pub fn apply(&self, line: &str) -> (s: String)
        ensures
            s@ == blacklisted(self.pattern_text(), line@),
    {
        proof {
            use_type_invariant(self);
        }
        let empty = String::new();
        match replace_matches(self.pattern.as_str(), line, empty.as_str()) {
            Ok(s) => s,
            Err(_) => {
                // The pattern compiles, so the call cannot fail.
                assert(false);
                String::new()
            },
        }
    }
}

/// Where a blacklist pattern is fetched from.
#[derive(Clone, Copy, Debug, PartialEq, Eq, Structural)]
pub enum BlacklistSource {
    /// An address to download.
    Remote,
    /// A file to read.
    Local,
}

/// A source that begins with `http://` or `https://` is an address; any
/// other is the path of a file.
pub open spec fn source_kind_of(source: Seq<char>) -> BlacklistSource {
    if "http://"@.is_prefix_of(source) || "https://"@.is_prefix_of(source) {
        BlacklistSource::Remote
    } else {
        BlacklistSource::Local
    }
}

/// Tells whether a blacklist source is an address or a file.
pub fn source_kind(source: &str) -> (kind: BlacklistSource)
    ensures
        kind == source_kind_of(source@),
{
    if starts_with(source, "http://") || starts_with(source, "https://") {
        BlacklistSource::Remote
    } else {
        BlacklistSource::Local
    }
}

/// Makes a blacklist of what its source holds: the pattern is the text
/// without the white space around it.
pub fn from_source_text(text: &str) -> (r: Result<Blacklist, BlacklistError>)
    ensures
        r is Ok <==> pattern_compiles(trimmed(text@)),
        r matches Ok(b) ==> b.pattern_text() == trimmed(text@),
        r matches Err(e) ==> e == BlacklistError::InvalidPattern,
{
    Blacklist::new(trim(text))
}

} // verus!
