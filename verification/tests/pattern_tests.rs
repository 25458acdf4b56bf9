use maelstrom_core::pattern::{interpret_pattern, interpret_simple_expression, Artifact, Case,
    Context, Pattern, SimpleExpression};
use maelstrom_core::pattern_parse::parse_pattern;

fn parse(s: &str) -> Pattern {
    parse_pattern(s).ok().unwrap()
}

fn parse_simple(s: &str) -> SimpleExpression {
    match parse_pattern(s).ok().unwrap() {
        Pattern(o) => SimpleExpression::Or(Box::new(o)),
    }
}

#[test]
fn simple_expression_simple_selector() {
    fn test_it(s: &str, case: Option<&str>, expected: Option<bool>) {
        let c = Context {
            package: "foo".into(),
            artifact: Some(Artifact { name: "baz".into() }),
            case: case.map(|c| Case { name: c.into() }),
        };
        let actual = interpret_simple_expression(&parse_simple(s), &c);
        assert_eq!(actual, expected);
    }

    // for all inputs, these expression evaluate as true
    for w in ["all", "any", "true"] {
        test_it(w, Some("foo"), Some(true));
        test_it(w, None, Some(true));
    }

    // for all inputs, these expression evaluate as false
    for w in ["none", "false"] {
        test_it(w, Some("foo"), Some(false));
        test_it(w, None, Some(false));
    }
}

fn test_compound_sel(s: &str, case: Option<&str>, expected: Option<bool>) {
    let c = Context {
        package: "foo".into(),
        artifact: Some(Artifact { name: "baz".into() }),
        case: case.map(|c| Case { name: c.into() }),
    };
    let actual = interpret_simple_expression(&parse_simple(s), &c);
    assert_eq!(actual, expected);
}

#[test]
fn simple_expression_compound_selector_starts_with() {
    let p = "name.starts_with(bar)";
    test_compound_sel(p, Some("barbaz"), Some(true));
    test_compound_sel(p, Some("bazbar"), Some(false));
    test_compound_sel(p, None, None);
}

#[test]
fn simple_expression_compound_selector_ends_with() {
    let p = "name.ends_with(bar)";
    test_compound_sel(p, Some("bazbar"), Some(true));
    test_compound_sel(p, Some("barbaz"), Some(false));
    test_compound_sel(p, None, None);
}

#[test]
fn simple_expression_compound_selector_equals() {
    let p = "name.equals(bar)";
    test_compound_sel(p, Some("bar"), Some(true));
    test_compound_sel(p, Some("baz"), Some(false));
    test_compound_sel(p, None, None);
}

#[test]
fn simple_expression_compound_selector_contains() {
    let p = "name.contains(bar)";
    test_compound_sel(p, Some("bazbarbin"), Some(true));
    test_compound_sel(p, Some("bazbin"), Some(false));
    test_compound_sel(p, None, None);
}

#[test]
fn simple_expression_compound_selector_matches() {
    let p = "name.matches(^[a-z]*$)";
    test_compound_sel(p, Some("bazbarbin"), Some(true));
    test_compound_sel(p, Some("baz-bin"), Some(false));
    test_compound_sel(p, None, None);
}

#[test]
fn simple_expression_compound_selector_globs() {
    let p = "name.globs(baz*)";
    test_compound_sel(p, Some("bazbarbin"), Some(true));
    test_compound_sel(p, Some("binbaz"), Some(false));
    test_compound_sel(p, None, None);
}

fn test_compound_sel_case(s: &str, package: &str, case: &str, expected: Option<bool>) {
    let c = Context {
        package: package.into(),
        artifact: None,
        case: Some(Case { name: case.into() }),
    };
    let actual = interpret_simple_expression(&parse_simple(s), &c);
    assert_eq!(actual, expected);
}

#[test]
fn simple_expression_compound_selector_packge() {
    let p = "package.matches(^[a-z]*$)";
    test_compound_sel_case(p, "bazbarbin", "TestIt", Some(true));
    test_compound_sel_case(p, "baz-bin", "TestIt", Some(false));
    test_compound_sel_case(p, "baz-bin", "TestIt", Some(false));
}

#[test]
fn simple_expression_compound_selector_name() {
    let p = "name.matches(^[a-zA-Z]*$)";
    test_compound_sel_case(p, "pkg", "TestBar", Some(true));
    test_compound_sel_case(p, "pkg", "Test-Baz", Some(false));
}

#[test]
fn and_or_not_diff_expressions() {
    fn test_it(s: &str, expected: bool) {
        let c = Context {
            package: "foo".into(),
            artifact: Some(Artifact { name: "baz".into() }),
            case: Some(Case { name: "foo_test".into() }),
        };
        let actual = interpret_pattern(&parse(s), &c);
        assert_eq!(actual, Some(expected));
    }

    test_it(
        "(package.equals(foo) || package.equals(bar)) && name.equals(foo_test)",
        true,
    );
    test_it("package.equals(foo) && name.equals(foo_test)", true);
    test_it("package.equals(foo) || name.equals(foo_test)", true);
    test_it("package.equals(foo) || name.equals(bar_test)", true);
    test_it("package.equals(foo) && !name.equals(bar_test)", true);
    test_it("package.equals(foo) - name.equals(bar_test)", true);

    test_it("package.equals(foo) && name.equals(bar_test)", false);
    test_it("package.equals(bar) || name.equals(bar_test)", false);
    test_it("package.equals(bar) || !name.equals(foo_test)", false);
    test_it("package.equals(foo) - name.equals(foo_test)", false);
}

#[test]
fn and_or_not_diff_maybe_expressions() {
    fn test_it(s: &str, expected: Option<bool>) {
        let c = Context {
            package: "foo".into(),
            artifact: Some(Artifact { name: "baz".into() }),
            case: None,
        };
        let actual = interpret_pattern(&parse(s), &c);
        assert_eq!(actual, expected);
    }

    test_it(
        "(package.equals(foo) || package.equals(bar)) && name.equals(foo_test)",
        None,
    );
    test_it("package.equals(foo) && name.equals(foo_test)", None);
    test_it("name.equals(foo_test) && name.equals(bar_test)", None);
    test_it("name.equals(foo_test) && package.equals(foo)", None);
    test_it("package.equals(foo) && name.equals(bar_test)", None);
    test_it("package.equals(foo) && !name.equals(bar_test)", None);

    test_it("name.equals(foo_test) && package.equals(bar)", Some(false));
    test_it("package.equals(bar) && name.equals(foo_test)", Some(false));

    test_it("name.equals(foo_test) || name.equals(bar_test)", None);
    test_it("name.equals(foo_test) || package.equals(bar)", None);
    test_it("package.equals(bar) || name.equals(bar_test)", None);
    test_it("package.equals(bar) || !name.equals(foo_test)", None);

    test_it("name.equals(foo_test) || package.equals(foo)", Some(true));
    test_it("package.equals(foo) || name.equals(foo_test)", Some(true));
    test_it("package.equals(foo) || name.equals(bar_test)", Some(true));

    test_it("package.equals(foo) - name.equals(bar_test)", None);
    test_it("package.equals(foo) - name.equals(foo_test)", None);
}

#[test]
fn tri_valued_filter_short_circuit() {
    // A name selector with no case bound is undecidable. A decidedly false
    // package selector still decides the conjunction; a decidedly true one
    // leaves it undecided, and such a directive is excluded.
    let p = parse("name.equals(foo_test) && package.equals(bar)");
    let mismatch = Context { package: "foo".into(), artifact: None, case: None };
    assert_eq!(interpret_pattern(&p, &mismatch), Some(false));
    let matching = Context { package: "bar".into(), artifact: None, case: None };
    assert_eq!(interpret_pattern(&p, &matching), None);
}
