//! Plain configuration values, build failures, and the parsing of test
//! listings that the runners produce.
use vstd::prelude::*;

use crate::text::{chars_of, ends_with_chars, slice_chars, string_of};

verus! {

/// The client's configuration, as plain values; reading the command line
/// and the environment happens outside the library.
pub struct Config {
    /// Socket address of the broker; none means standalone mode.
    pub broker: Option<String>,
    /// Minimum log level to output.
    pub log_level: String,
    /// Directory for cached container images.
    pub container_image_depot_root: String,
    /// Directory for state that persists between runs.
    pub state_root: String,
    /// Directory for the cache.
    pub cache_root: String,
    /// Target cache size in bytes.
    pub cache_size: u64,
    /// Maximum bytes returned inline for captured output.
    pub inline_limit: u64,
    /// Number of job slots.
    pub slots: u16,
}

/// Options that only make sense on the command line.
pub struct ExtraCommandLineOptions {
    /// Read job specifications from this file instead of standard input.
    pub file: Option<String>,
}

/// A test-binary build that failed.
pub struct BuildError {
    pub stderr: String,
    pub exit_code: u8,
}

impl BuildError {
    /// The exit code a shell would report for a process end: the code
    /// itself, or 128 plus the signal number for a signalled process.
    pub fn encode_termination(code: Option<u8>, signal: u8) -> (r: u8)
        requires
            signal < 128,
        ensures
            r == match code {
                Some(c) => c,
                None => (128 + signal) as u8,
            },
    {
        match code {
            Some(c) => c,
            None => 128 + signal,
        }
    }

    /// A human-readable rendering of the failure.
    pub fn message(&self) -> (r: String) {
        let mut out = String::from_str("build failed\nstderr:\n");
        out.append(self.stderr.as_str());
        out
    }
}

/// A quiet progress view: it shows nothing while tests run.
pub struct QuietNoBar<TermT> {
    pub term: TermT,
}

impl<TermT> QuietNoBar<TermT> {
    /// Wrap a terminal in the quiet view.
    pub fn new(term: TermT) -> (r: Self)
        ensures
            r.term == term,
    {
        Self { term }
    }
}

/// Whether a line consists of blanks only.
pub open spec fn spec_blank(s: Seq<char>) -> bool {
    forall|i: int| 0 <= i < s.len() ==> s[i] == ' ' || s[i] == '\t' || s[i] == '\r'
}

fn is_blank(s: &Vec<char>) -> (r: bool)
    ensures
        r == spec_blank(s@),
{
    let mut i: usize = 0;
    while i < s.len()
        invariant
            i <= s@.len(),
            forall|j: int| 0 <= j < i ==> s@[j] == ' ' || s@[j] == '\t' || s@[j] == '\r',
        decreases s@.len() - i,
    {
        let c = s[i];
        if !(c == ' ' || c == '\t' || c == '\r') {
            return false;
        }
        i = i + 1;
    }
    true
}

/// The non-blank lines of a test binary's case listing, one case name per
/// line, in order.
pub fn parse_case_listing(output: &str) -> (r: Vec<String>)
    ensures
        forall|i: int| 0 <= i < r@.len() ==> !spec_blank(#[trigger] r@[i]@),
{
    let cs = chars_of(output);
    let mut out: Vec<String> = Vec::new();
    let mut line: Vec<char> = Vec::new();
    let mut i: usize = 0;
    while i < cs.len()
        invariant
            i <= cs@.len(),
            forall|k: int| 0 <= k < out@.len() ==> !spec_blank(#[trigger] out@[k]@),
        decreases cs@.len() - i,
    {
        if cs[i] == '\n' {
            if !is_blank(&line) {
                let mut trimmed = line;
                while trimmed.len() > 0 && trimmed[trimmed.len() - 1] == '\r'
                    decreases trimmed@.len(),
                {
                    trimmed.pop();
                }
                if !is_blank(&trimmed) {
                    out.push(string_of(&trimmed));
                }
            }
            line = Vec::new();
        } else {
            line.push(cs[i]);
        }
        i = i + 1;
    }
    if !is_blank(&line) {
        out.push(string_of(&line));
    }
    out
}

/// The case names in a terse test listing: every line written
/// `<name>: test` yields its name, in order.
pub fn parse_terse_case_listing(output: &str) -> (r: Vec<String>) {
    let cs = chars_of(output);
    let marker = chars_of(": test");
    let mut out: Vec<String> = Vec::new();
    let mut line: Vec<char> = Vec::new();
    let mut i: usize = 0;
    while i <= cs.len()
        invariant
            i <= cs@.len() + 1,
        decreases cs@.len() + 1 - i,
    {
        let end_of_line = i == cs.len() || cs[i] == '\n';
        if end_of_line {
            if ends_with_chars(&line, &marker) {
                let name = slice_chars(&line, 0, line.len() - marker.len());
                if name.len() > 0 {
                    out.push(string_of(&name));
                }
            }
            line = Vec::new();
        } else {
            line.push(cs[i]);
        }
        if i == cs.len() {
            return out;
        }
        i = i + 1;
    }
    out
}

} // verus!
