//! The tri-valued pattern language used by directive filters.
//!
//! A pattern evaluates to `Some(true)`, `Some(false)`, or `None`; `None`
//! means "undecidable for this context", for instance a case-name selector
//! evaluated while no case is bound.
use vstd::prelude::*;

use crate::outside::{glob_match_of, glob_ok, glob_is_match, regex_match_of, regex_ok,
    regex_is_match};
use crate::text::{chars_of, contains_chars, contains_seq, ends_with_chars, starts_with_chars};

verus! {

/// A test case bound in a context.
pub struct Case {
    pub name: String,
}

/// An artifact (one test binary) bound in a context.
pub struct Artifact {
    pub name: String,
}

/// The identifying triple a filter is evaluated against. `package` is always
/// bound; the artifact and the case may not be known yet.
pub struct Context {
    pub package: String,
    pub artifact: Option<Artifact>,
    pub case: Option<Case>,
}

impl Context {
    /// The bound case, if any.
    pub fn case(&self) -> (r: Option<&Case>)
        ensures
            r.is_some() == self.case.is_some(),
            r matches Some(c) ==> self.case matches Some(cc) && *c == cc,
    {
        match &self.case {
            Some(c) => Some(c),
            None => None,
        }
    }
}

/// A selector that ignores the context.
pub enum SimpleSelectorName {
    All,
    Any,
    True,
    Nothing,
    False,
}

/// The context field a compound selector reads.
pub enum CompoundSelectorName {
    Name,
    Package,
    ArtifactName,
}

/// How a compound selector compares the selected field with its argument.
pub enum Matcher {
    Equals(String),
    Contains(String),
    StartsWith(String),
    EndsWith(String),
    Matches(String),
    Globs(String),
}

/// A selector with no argument: `all`, `any`, `true`, `none`, `false`.
pub struct SimpleSelector {
    pub name: SimpleSelectorName,
}

/// A selector of the form `<field>.<op>(<arg>)`.
pub struct CompoundSelector {
    pub name: CompoundSelectorName,
    pub matcher: Matcher,
}

pub enum SimpleExpression {
    Or(Box<OrExpression>),
    SimpleSelector(SimpleSelector),
    CompoundSelector(CompoundSelector),
}

pub enum NotExpression {
    Not(Box<NotExpression>),
    Simple(SimpleExpression),
}

pub enum AndExpression {
    And(NotExpression, Box<AndExpression>),
    Diff(NotExpression, Box<AndExpression>),
    Not(NotExpression),
}

pub enum OrExpression {
    Or(AndExpression, Box<OrExpression>),
    And(AndExpression),
}

/// A whole filter pattern.
pub struct Pattern(pub OrExpression);

/// Tri-valued conjunction: false dominates, then unknown.
pub open spec fn and3(a: Option<bool>, b: Option<bool>) -> Option<bool> {
    if a == Some(false) || b == Some(false) {
        Some(false)
    } else if a == Some(true) && b == Some(true) {
        Some(true)
    } else {
        None
    }
}

/// Tri-valued disjunction: true dominates, then unknown.
pub open spec fn or3(a: Option<bool>, b: Option<bool>) -> Option<bool> {
    if a == Some(true) || b == Some(true) {
        Some(true)
    } else if a == Some(false) && b == Some(false) {
        Some(false)
    } else {
        None
    }
}

/// Tri-valued negation: unknown stays unknown.
pub open spec fn not3(a: Option<bool>) -> Option<bool> {
    match a {
        Some(b) => Some(!b),
        None => None,
    }
}

/// Tri-valued conjunction on `Option<bool>`.
pub fn maybe_and(a: Option<bool>, b: Option<bool>) -> (r: Option<bool>)
    ensures
        r == and3(a, b),
{
    match (a, b) {
        (Some(false), _) => Some(false),
        (_, Some(false)) => Some(false),
        (Some(true), Some(true)) => Some(true),
        _ => None,
    }
}

/// Tri-valued disjunction on `Option<bool>`.
pub fn maybe_or(a: Option<bool>, b: Option<bool>) -> (r: Option<bool>)
    ensures
        r == or3(a, b),
{
    match (a, b) {
        (Some(true), _) => Some(true),
        (_, Some(true)) => Some(true),
        (Some(false), Some(false)) => Some(false),
        _ => None,
    }
}

/// Tri-valued negation on `Option<bool>`.
pub fn maybe_not(a: Option<bool>) -> (r: Option<bool>)
    ensures
        r == not3(a),
{
    match a {
        Some(b) => Some(!b),
        None => None,
    }
}

/// What a matcher means: a predicate on the selected string.
pub open spec fn eval_matcher(m: Matcher, s: Seq<char>) -> bool {
    match m {
        Matcher::Equals(a) => s == a@,
        Matcher::Contains(a) => contains_seq(s, a@),
        Matcher::StartsWith(a) => a@.is_prefix_of(s),
        Matcher::EndsWith(a) => a@.is_suffix_of(s),
        Matcher::Matches(a) => regex_match_of(a@, s),
        Matcher::Globs(a) => glob_match_of(a@, s),
    }
}

/// What a simple selector means, independent of the context.
pub open spec fn eval_simple_selector(s: SimpleSelector) -> Option<bool> {
    match s.name {
        SimpleSelectorName::All => Some(true),
        SimpleSelectorName::Any => Some(true),
        SimpleSelectorName::True => Some(true),
        SimpleSelectorName::Nothing => Some(false),
        SimpleSelectorName::False => Some(false),
    }
}

/// What a compound selector means: unknown when the selected field is not
/// bound in the context.
pub open spec fn eval_compound_selector(s: CompoundSelector, c: Context) -> Option<bool> {
    match s.name {
        CompoundSelectorName::Name => match c.case {
            Some(case) => Some(eval_matcher(s.matcher, case.name@)),
            None => None,
        },
        CompoundSelectorName::Package => Some(eval_matcher(s.matcher, c.package@)),
        CompoundSelectorName::ArtifactName => match c.artifact {
            Some(a) => Some(eval_matcher(s.matcher, a.name@)),
            None => None,
        },
    }
}

pub open spec fn eval_simple_expression(s: SimpleExpression, c: Context) -> Option<bool>
    decreases s,
{
    match s {
        SimpleExpression::Or(o) => eval_or_expression(*o, c),
        SimpleExpression::SimpleSelector(ss) => eval_simple_selector(ss),
        SimpleExpression::CompoundSelector(cs) => eval_compound_selector(cs, c),
    }
}

pub open spec fn eval_not_expression(n: NotExpression, c: Context) -> Option<bool>
    decreases n,
{
    match n {
        NotExpression::Not(inner) => not3(eval_not_expression(*inner, c)),
        NotExpression::Simple(s) => eval_simple_expression(s, c),
    }
}

pub open spec fn eval_and_expression(a: AndExpression, c: Context) -> Option<bool>
    decreases a,
{
    match a {
        AndExpression::And(n, rest) => and3(
            eval_not_expression(n, c),
            eval_and_expression(*rest, c),
        ),
        AndExpression::Diff(n, rest) => and3(
            eval_not_expression(n, c),
            not3(eval_and_expression(*rest, c)),
        ),
        AndExpression::Not(n) => eval_not_expression(n, c),
    }
}

pub open spec fn eval_or_expression(o: OrExpression, c: Context) -> Option<bool>
    decreases o,
{
    match o {
        OrExpression::Or(a, rest) => or3(eval_and_expression(a, c), eval_or_expression(*rest, c)),
        OrExpression::And(a) => eval_and_expression(a, c),
    }
}

/// What a pattern means against a context.
pub open spec fn eval_pattern(p: Pattern, c: Context) -> Option<bool> {
    eval_or_expression(p.0, c)
}

/// Decide a matcher against a concrete string.
pub fn interpret_matcher(s: &String, matcher: &Matcher) -> (r: bool)
    ensures
        r == eval_matcher(*matcher, s@),
{
    match matcher {
        Matcher::Equals(a) => *s == *a,
        Matcher::Contains(a) => {
            let sc = chars_of(s.as_str());
            let ac = chars_of(a.as_str());
            contains_chars(&sc, &ac)
        },
        Matcher::StartsWith(a) => {
            let sc = chars_of(s.as_str());
            let ac = chars_of(a.as_str());
            starts_with_chars(&sc, &ac)
        },
        Matcher::EndsWith(a) => {
            let sc = chars_of(s.as_str());
            let ac = chars_of(a.as_str());
            ends_with_chars(&sc, &ac)
        },
        Matcher::Matches(a) => regex_is_match(a.as_str(), s.as_str()),
        Matcher::Globs(a) => glob_is_match(a.as_str(), s.as_str()),
    }
}

/// Decide a simple selector.
pub fn interpret_simple_selector(s: &SimpleSelector) -> (r: Option<bool>)
    ensures
        r == eval_simple_selector(*s),
{
    match s.name {
        SimpleSelectorName::All => Some(true),
        SimpleSelectorName::Any => Some(true),
        SimpleSelectorName::True => Some(true),
        SimpleSelectorName::Nothing => Some(false),
        SimpleSelectorName::False => Some(false),
    }
}

/// Decide a compound selector against a context.
pub fn interpret_compound_selector(s: &CompoundSelector, c: &Context) -> (r: Option<bool>)
    ensures
        r == eval_compound_selector(*s, *c),
{
    match s.name {
        CompoundSelectorName::Name => match &c.case {
            Some(case) => Some(interpret_matcher(&case.name, &s.matcher)),
            None => None,
        },
        CompoundSelectorName::Package => Some(interpret_matcher(&c.package, &s.matcher)),
        CompoundSelectorName::ArtifactName => match &c.artifact {
            Some(a) => Some(interpret_matcher(&a.name, &s.matcher)),
            None => None,
        },
    }
}

/// Decide a simple expression against a context.
pub fn interpret_simple_expression(s: &SimpleExpression, c: &Context) -> (r: Option<bool>)
    ensures
        r == eval_simple_expression(*s, *c),
    decreases *s,
{
    match s {
        SimpleExpression::Or(o) => interpret_or_expression(o, c),
        SimpleExpression::SimpleSelector(ss) => interpret_simple_selector(ss),
        SimpleExpression::CompoundSelector(cs) => interpret_compound_selector(cs, c),
    }
}

fn interpret_not_expression(n: &NotExpression, c: &Context) -> (r: Option<bool>)
    ensures
        r == eval_not_expression(*n, *c),
    decreases *n,
{
    match n {
        NotExpression::Not(inner) => maybe_not(interpret_not_expression(inner, c)),
        NotExpression::Simple(s) => interpret_simple_expression(s, c),
    }
}

fn interpret_and_expression(a: &AndExpression, c: &Context) -> (r: Option<bool>)
    ensures
        r == eval_and_expression(*a, *c),
    decreases *a,
{
    match a {
        AndExpression::And(n, rest) => maybe_and(
            interpret_not_expression(n, c),
            interpret_and_expression(rest, c),
        ),
        AndExpression::Diff(n, rest) => maybe_and(
            interpret_not_expression(n, c),
            maybe_not(interpret_and_expression(rest, c)),
        ),
        AndExpression::Not(n) => interpret_not_expression(n, c),
    }
}

fn interpret_or_expression(o: &OrExpression, c: &Context) -> (r: Option<bool>)
    ensures
        r == eval_or_expression(*o, *c),
    decreases *o,
{
    match o {
        OrExpression::Or(a, rest) => maybe_or(
            interpret_and_expression(a, c),
            interpret_or_expression(rest, c),
        ),
        OrExpression::And(a) => interpret_and_expression(a, c),
    }
}

/// Decide a whole pattern against a context.
pub fn interpret_pattern(s: &Pattern, c: &Context) -> (r: Option<bool>)
    ensures
        r == eval_pattern(*s, *c),
{
    interpret_or_expression(&s.0, c)
}

/// `wide` binds at least everything `narrow` binds, with the same values.
pub open spec fn context_extends(wide: Context, narrow: Context) -> bool {
    &&& wide.package@ == narrow.package@
    &&& match narrow.case {
        Some(c) => wide.case matches Some(wc) && wc.name@ == c.name@,
        None => true,
    }
    &&& match narrow.artifact {
        Some(a) => wide.artifact matches Some(wa) && wa.name@ == a.name@,
        None => true,
    }
}

/// The matcher is sound: a pattern that is decided in a context keeps its
/// value in every extension of that context. In particular, once a filter
/// yields `Some(true)`, binding more of the context cannot change that.
pub proof fn lemma_pattern_soundness(p: Pattern, narrow: Context, wide: Context)
    requires
        context_extends(wide, narrow),
    ensures
        eval_pattern(p, narrow) matches Some(b) ==> eval_pattern(p, wide) == Some(b),
{
    lemma_or_soundness(p.0, narrow, wide);
}

proof fn lemma_simple_soundness(s: SimpleExpression, narrow: Context, wide: Context)
    requires
        context_extends(wide, narrow),
    ensures
        eval_simple_expression(s, narrow) matches Some(b) ==> eval_simple_expression(s, wide)
            == Some(b),
    decreases s,
{
    match s {
        SimpleExpression::Or(o) => {
            lemma_or_soundness(*o, narrow, wide);
        },
        SimpleExpression::SimpleSelector(_) => {},
        SimpleExpression::CompoundSelector(_) => {},
    }
}

proof fn lemma_not_soundness(n: NotExpression, narrow: Context, wide: Context)
    requires
        context_extends(wide, narrow),
    ensures
        eval_not_expression(n, narrow) matches Some(b) ==> eval_not_expression(n, wide) == Some(
            b,
        ),
    decreases n,
{
    match n {
        NotExpression::Not(inner) => {
            lemma_not_soundness(*inner, narrow, wide);
        },
        NotExpression::Simple(s) => {
            lemma_simple_soundness(s, narrow, wide);
        },
    }
}

proof fn lemma_and_soundness(a: AndExpression, narrow: Context, wide: Context)
    requires
        context_extends(wide, narrow),
    ensures
        eval_and_expression(a, narrow) matches Some(b) ==> eval_and_expression(a, wide) == Some(
            b,
        ),
    decreases a,
{
    match a {
        AndExpression::And(n, rest) => {
            lemma_not_soundness(n, narrow, wide);
            lemma_and_soundness(*rest, narrow, wide);
        },
        AndExpression::Diff(n, rest) => {
            lemma_not_soundness(n, narrow, wide);
            lemma_and_soundness(*rest, narrow, wide);
        },
        AndExpression::Not(n) => {
            lemma_not_soundness(n, narrow, wide);
        },
    }
}

proof fn lemma_or_soundness(o: OrExpression, narrow: Context, wide: Context)
    requires
        context_extends(wide, narrow),
    ensures
        eval_or_expression(o, narrow) matches Some(b) ==> eval_or_expression(o, wide) == Some(b),
    decreases o,
{
    match o {
        OrExpression::Or(a, rest) => {
            lemma_and_soundness(a, narrow, wide);
            lemma_or_soundness(*rest, narrow, wide);
        },
        OrExpression::And(a) => {
            lemma_and_soundness(a, narrow, wide);
        },
    }
}

} // verus!
