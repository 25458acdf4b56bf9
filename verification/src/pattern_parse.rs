//! Parser for the filter pattern language.
//!
//! Grammar, loosest binding first:
//! `or := and ('||' or)?`, `and := not ('&&' and | '-' and)?`,
//! `not := '!' not | simple`,
//! `simple := '(' or ')' | <word> | <field> '.' <op> '(' <arg> ')'`.
//! Words are `all`, `any`, `true`, `none`, `false`; fields are `name`,
//! `package`, `artifact`; ops are `equals`, `contains`, `starts_with`,
//! `ends_with`, `matches`, `globs`. Regex and glob arguments must compile.
use vstd::prelude::*;

use crate::outside::{glob_compiles, glob_ok, regex_compiles, regex_ok};
use crate::pattern::{AndExpression, CompoundSelector, CompoundSelectorName, Matcher,
    NotExpression, OrExpression, Pattern, SimpleExpression, SimpleSelector, SimpleSelectorName};
use crate::text::{chars_eq, chars_of, string_of};

verus! {

/// Where parsing failed.
#[derive(Clone, Copy, Debug, PartialEq, Eq, Structural)]
pub struct ParseError {
    pub pos: usize,
}

/// A matcher whose regex or glob argument is known to compile.
pub open spec fn wf_matcher(m: Matcher) -> bool {
    match m {
        Matcher::Matches(a) => regex_ok(a@),
        Matcher::Globs(a) => glob_ok(a@),
        _ => true,
    }
}

pub open spec fn wf_simple(s: SimpleExpression) -> bool
    decreases s,
{
    match s {
        SimpleExpression::Or(o) => wf_or(*o),
        SimpleExpression::SimpleSelector(_) => true,
        SimpleExpression::CompoundSelector(cs) => wf_matcher(cs.matcher),
    }
}

pub open spec fn wf_not(n: NotExpression) -> bool
    decreases n,
{
    match n {
        NotExpression::Not(inner) => wf_not(*inner),
        NotExpression::Simple(s) => wf_simple(s),
    }
}

pub open spec fn wf_and(a: AndExpression) -> bool
    decreases a,
{
    match a {
        AndExpression::And(n, rest) => wf_not(n) && wf_and(*rest),
        AndExpression::Diff(n, rest) => wf_not(n) && wf_and(*rest),
        AndExpression::Not(n) => wf_not(n),
    }
}

pub open spec fn wf_or(o: OrExpression) -> bool
    decreases o,
{
    match o {
        OrExpression::Or(a, rest) => wf_and(a) && wf_or(*rest),
        OrExpression::And(a) => wf_and(a),
    }
}

/// Every regex and glob argument in the pattern compiles.
pub open spec fn wf_pattern(p: Pattern) -> bool {
    wf_or(p.0)
}

/// Whether `c` may appear in an identifier.
pub open spec fn spec_ident_char(c: char) -> bool {
    let u = c as u32;
    (97 <= u && u <= 122) || (65 <= u && u <= 90) || (48 <= u && u <= 57) || u == 95
}

fn is_ident_char(c: char) -> (r: bool)
    ensures
        r == spec_ident_char(c),
{
    let u = c as u32;
    (97 <= u && u <= 122) || (65 <= u && u <= 90) || (48 <= u && u <= 57) || u == 95
}

fn skip_ws(s: &Vec<char>, i: usize) -> (j: usize)
    requires
        i <= s@.len(),
    ensures
        i <= j <= s@.len(),
{
    let mut j = i;
    while j < s.len() && (s[j] == ' ' || s[j] == '\t')
        invariant
            i <= j <= s@.len(),
        decreases s@.len() - j,
    {
        j = j + 1;
    }
    j
}

fn parse_ident(s: &Vec<char>, i: usize) -> (r: Result<(Vec<char>, usize), ParseError>)
    requires
        i <= s@.len(),
    ensures
        r matches Ok((_, j)) ==> i < j <= s@.len(),
{
    let mut j = i;
    let mut out: Vec<char> = Vec::new();
    while j < s.len() && is_ident_char(s[j])
        invariant
            i <= j <= s@.len(),
        decreases s@.len() - j,
    {
        out.push(s[j]);
        j = j + 1;
    }
    if j == i {
        Err(ParseError { pos: i })
    } else {
        Ok((out, j))
    }
}

fn selector_word(w: &Vec<char>) -> (r: Option<SimpleSelectorName>) {
    if chars_eq(w, &chars_of("all")) {
        Some(SimpleSelectorName::All)
    } else if chars_eq(w, &chars_of("any")) {
        Some(SimpleSelectorName::Any)
    } else if chars_eq(w, &chars_of("true")) {
        Some(SimpleSelectorName::True)
    } else if chars_eq(w, &chars_of("none")) {
        Some(SimpleSelectorName::Nothing)
    } else if chars_eq(w, &chars_of("false")) {
        Some(SimpleSelectorName::False)
    } else {
        None
    }
}

fn field_word(w: &Vec<char>) -> (r: Option<CompoundSelectorName>) {
    if chars_eq(w, &chars_of("name")) {
        Some(CompoundSelectorName::Name)
    } else if chars_eq(w, &chars_of("package")) {
        Some(CompoundSelectorName::Package)
    } else if chars_eq(w, &chars_of("artifact")) {
        Some(CompoundSelectorName::ArtifactName)
    } else {
        None
    }
}

/// Build a matcher from an operator word and its argument; checks that a
/// regex or glob argument compiles.
fn build_matcher(op: &Vec<char>, arg: String, pos: usize) -> (r: Result<Matcher, ParseError>)
    ensures
        r matches Ok(m) ==> wf_matcher(m),
{
    if chars_eq(op, &chars_of("equals")) {
        Ok(Matcher::Equals(arg))
    } else if chars_eq(op, &chars_of("contains")) {
        Ok(Matcher::Contains(arg))
    } else if chars_eq(op, &chars_of("starts_with")) {
        Ok(Matcher::StartsWith(arg))
    } else if chars_eq(op, &chars_of("ends_with")) {
        Ok(Matcher::EndsWith(arg))
    } else if chars_eq(op, &chars_of("matches")) {
        if regex_compiles(arg.as_str()) {
            Ok(Matcher::Matches(arg))
        } else {
            Err(ParseError { pos })
        }
    } else if chars_eq(op, &chars_of("globs")) {
        if glob_compiles(arg.as_str()) {
            Ok(Matcher::Globs(arg))
        } else {
            Err(ParseError { pos })
        }
    } else {
        Err(ParseError { pos })
    }
}

fn parse_simple(s: &Vec<char>, i: usize) -> (r: Result<(SimpleExpression, usize), ParseError>)
    requires
        i <= s@.len(),
    ensures
        r matches Ok((e, j)) ==> i <= j <= s@.len() && wf_simple(e),
    decreases s@.len() - i, 0int,
{
    let i = skip_ws(s, i);
    if i < s.len() && s[i] == '(' {
        let (inner, j) = parse_or(s, i + 1)?;
        let j = skip_ws(s, j);
        if j < s.len() && s[j] == ')' {
            Ok((SimpleExpression::Or(Box::new(inner)), j + 1))
        } else {
            Err(ParseError { pos: j })
        }
    } else {
        let (word, j) = parse_ident(s, i)?;
        let j2 = skip_ws(s, j);
        if j2 < s.len() && s[j2] == '.' {
            let field = match field_word(&word) {
                Some(f) => f,
                None => {
                    return Err(ParseError { pos: i });
                },
            };
            let (op, k) = parse_ident(s, j2 + 1)?;
            if !(k < s.len() && s[k] == '(') {
                return Err(ParseError { pos: k });
            }
            let mut m = k + 1;
            let mut arg: Vec<char> = Vec::new();
            while m < s.len() && s[m] != ')'
                invariant
                    k + 1 <= m <= s@.len(),
                decreases s@.len() - m,
            {
                arg.push(s[m]);
                m = m + 1;
            }
            if m >= s.len() {
                return Err(ParseError { pos: m });
            }
            let matcher = build_matcher(&op, string_of(&arg), k)?;
            Ok(
                (
                    SimpleExpression::CompoundSelector(
                        CompoundSelector { name: field, matcher },
                    ),
                    m + 1,
                ),
            )
        } else {
            match selector_word(&word) {
                Some(name) => Ok(
                    (SimpleExpression::SimpleSelector(SimpleSelector { name }), j),
                ),
                None => Err(ParseError { pos: i }),
            }
        }
    }
}

fn parse_not(s: &Vec<char>, i: usize) -> (r: Result<(NotExpression, usize), ParseError>)
    requires
        i <= s@.len(),
    ensures
        r matches Ok((e, j)) ==> i <= j <= s@.len() && wf_not(e),
    decreases s@.len() - i, 1int,
{
    let i2 = skip_ws(s, i);
    if i2 < s.len() && s[i2] == '!' {
        let (inner, j) = parse_not(s, i2 + 1)?;
        Ok((NotExpression::Not(Box::new(inner)), j))
    } else {
        let (e, j) = parse_simple(s, i2)?;
        Ok((NotExpression::Simple(e), j))
    }
}

fn parse_and(s: &Vec<char>, i: usize) -> (r: Result<(AndExpression, usize), ParseError>)
    requires
        i <= s@.len(),
    ensures
        r matches Ok((e, j)) ==> i <= j <= s@.len() && wf_and(e),
    decreases s@.len() - i, 2int,
{
    let (n, j) = parse_not(s, i)?;
    let j2 = skip_ws(s, j);
    if j2 < s.len() && s[j2] == '&' && j2 + 1 < s.len() && s[j2 + 1] == '&' {
        let (rest, k) = parse_and(s, j2 + 2)?;
        Ok((AndExpression::And(n, Box::new(rest)), k))
    } else if j2 < s.len() && s[j2] == '-' {
        let (rest, k) = parse_and(s, j2 + 1)?;
        Ok((AndExpression::Diff(n, Box::new(rest)), k))
    } else {
        Ok((AndExpression::Not(n), j))
    }
}

fn parse_or(s: &Vec<char>, i: usize) -> (r: Result<(OrExpression, usize), ParseError>)
    requires
        i <= s@.len(),
    ensures
        r matches Ok((e, j)) ==> i <= j <= s@.len() && wf_or(e),
    decreases s@.len() - i, 3int,
{
    let (a, j) = parse_and(s, i)?;
    let j2 = skip_ws(s, j);
    if j2 < s.len() && s[j2] == '|' && j2 + 1 < s.len() && s[j2 + 1] == '|' {
        let (rest, k) = parse_or(s, j2 + 2)?;
        Ok((OrExpression::Or(a, Box::new(rest)), k))
    } else {
        Ok((OrExpression::And(a), j))
    }
}

/// Parse a filter pattern from text. The whole input must be consumed, up to
/// trailing whitespace; every regex and glob argument in the result
/// compiles.
pub fn parse_pattern(text: &str) -> (r: Result<Pattern, ParseError>)
    ensures
        r matches Ok(p) ==> wf_pattern(p),
{
    let s = chars_of(text);
    let (o, j) = parse_or(&s, 0)?;
    let j = skip_ws(&s, j);
    if j < s.len() {
        Err(ParseError { pos: j })
    } else {
        Ok(Pattern(o))
    }
}

} // verus!
