//! Trusted declarations for the outside crates and for the few `std`
//! functions that vstd does not specify. Every other module calls the
//! outside world only through the functions here.
use vstd::prelude::*;

verus! {

/// What `String::push` appends. Relies on `String::push`: appends the given
/// character to the end of the string (std documentation).
#[verifier::external_body]
pub fn push_char(s: &mut String, c: char)
    ensures
        final(s)@ == old(s)@.push(c),
{
    s.push(c)
}

/// The SHA-256 digest of a byte sequence; 32 bytes, a function of the input
/// alone.
pub uninterp spec fn sha256_of(data: Seq<u8>) -> Seq<u8>;

/// Relies on `sha2::Sha256` via the `Digest` trait: the digest is a function
/// of the input bytes alone and is 32 bytes long.
#[verifier::external_body]
pub fn sha256(data: &Vec<u8>) -> (r: Vec<u8>)
    ensures
        r@ == sha256_of(data@),
        r@.len() == 32,
{
    <sha2::Sha256 as sha2::Digest>::digest(data.as_slice()).to_vec()
}

/// Whether `regex::Regex::new` accepts a pattern; a function of the pattern
/// alone.
pub uninterp spec fn regex_ok(pattern: Seq<char>) -> bool;

/// Relies on `regex::Regex::new`: compiling the same pattern either always
/// succeeds or always fails.
#[verifier::external_body]
pub fn regex_compiles(pattern: &str) -> (r: bool)
    ensures
        r == regex_ok(pattern@),
{
    regex::Regex::new(pattern).is_ok()
}

/// Whether a text matches a regular-expression pattern: `false` when the
/// pattern does not compile, else what `Regex::is_match` returns. A function
/// of pattern and text alone.
pub uninterp spec fn regex_match_of(pattern: Seq<char>, text: Seq<char>) -> bool;

/// Relies on `regex::Regex::is_match`: the match result depends only on the
/// compiled pattern and the text.
#[verifier::external_body]
pub fn regex_is_match(pattern: &str, text: &str) -> (r: bool)
    ensures
        r == regex_match_of(pattern@, text@),
{
    match regex::Regex::new(pattern) {
        Ok(re) => re.is_match(text),
        Err(_) => false,
    }
}

/// Whether `globset::Glob::new` accepts a pattern; a function of the pattern
/// alone.
pub uninterp spec fn glob_ok(pattern: Seq<char>) -> bool;

/// Relies on `globset::Glob::new`: parsing the same glob either always
/// succeeds or always fails.
#[verifier::external_body]
pub fn glob_compiles(pattern: &str) -> (r: bool)
    ensures
        r == glob_ok(pattern@),
{
    globset::Glob::new(pattern).is_ok()
}

/// Whether a text matches a glob pattern: `false` when the pattern does not
/// parse or its compiled form exceeds the library's size limits, else what
/// the one-glob set's `is_match` returns. A function of pattern and text
/// alone, since the limits are fixed constants of the library.
pub uninterp spec fn glob_match_of(pattern: Seq<char>, text: Seq<char>) -> bool;

/// Relies on `globset::GlobSetBuilder::build` and `GlobSet::is_match`:
/// building surfaces oversized compiled patterns as an error rather than a
/// panic, and matching depends only on the glob pattern and the text.
#[verifier::external_body]
pub fn glob_is_match(pattern: &str, text: &str) -> (r: bool)
    ensures
        r == glob_match_of(pattern@, text@),
{
    let mut builder = globset::GlobSetBuilder::new();
    match globset::Glob::new(pattern) {
        Ok(g) => {
            builder.add(g);
            match builder.build() {
                Ok(set) => set.is_match(text),
                Err(_) => false,
            }
        },
        Err(_) => false,
    }
}

/// What brace expansion yields for an input: `None` where the input does not
/// tokenize, parse or expand, else the list of expansions. A function of the
/// input alone.
pub uninterp spec fn brace_expansion_of(s: Seq<char>) -> Option<Seq<Seq<char>>>;

/// Relies on `bracoxide::explode`: expansion is deterministic in the input
/// string.
#[verifier::external_body]
pub fn brace_explode(s: &str) -> (r: Option<Vec<String>>)
    ensures
        match r {
            Some(v) => brace_expansion_of(s@) == Some(v.deep_view()),
            None => brace_expansion_of(s@).is_none(),
        },
{
    match bracoxide::explode(s) {
        Ok(v) => Some(v),
        Err(_) => None,
    }
}

} // verus!
