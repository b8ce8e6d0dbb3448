use leuchtkraft::atom::{Atom, Predicate, Rule, SyntaxNode, Var};

fn fixed(name: &str) -> Var {
    Var::Fixed(name.to_string())
}

fn anon(name: &str) -> Var {
    Var::Anonymous(name.to_string())
}

fn pred(name: &str, args: Vec<Var>) -> Predicate {
    Predicate::new(name.to_string(), args)
}

fn leaf(text: &str) -> SyntaxNode {
    SyntaxNode { rule: Rule::Ident, text: text.to_string(), children: vec![] }
}

#[test]
fn match_args_success_with_capture() {
    let this = pred("P", vec![fixed("a"), anon("_x")]);
    let other = pred("P", vec![fixed("a"), fixed("b")]);
    assert_eq!(this.match_args(&other), Some(vec![1]));
}

#[test]
fn match_args_name_mismatch_fails() {
    let this = pred("P", vec![fixed("a"), anon("_x")]);
    let other = pred("Q", vec![fixed("a"), fixed("b")]);
    assert_eq!(this.match_args(&other), None);
}

#[test]
fn match_args_fixed_mismatch_fails() {
    let this = pred("P", vec![fixed("a")]);
    let other = pred("P", vec![fixed("b")]);
    assert_eq!(this.match_args(&other), None);
}

#[test]
fn match_args_all_anonymous_captures_all_positions() {
    let this = pred("P", vec![anon("_x"), anon("_y")]);
    let other = pred("P", vec![fixed("a"), fixed("b")]);
    assert_eq!(this.match_args(&other), Some(vec![0, 1]));
}

#[test]
fn match_args_no_arguments_matches_on_name_alone() {
    let this = pred("P", vec![]);
    let other = pred("P", vec![]);
    assert_eq!(this.match_args(&other), Some(vec![]));
}

#[test]
fn replace_absent_variable_is_a_no_op() {
    let mut p = pred("P", vec![fixed("a"), anon("_x")]);
    let before = p.clone();
    p.replace(&fixed("z"), &fixed("y"));
    assert_eq!(p, before);
}

#[test]
fn replace_overwrites_every_occurrence() {
    let mut p = pred("P", vec![fixed("x"), fixed("x")]);
    p.replace(&fixed("x"), &fixed("y"));
    assert_eq!(p, pred("P", vec![fixed("y"), fixed("y")]));
}

#[test]
fn replace_distinguishes_anonymous_identities() {
    // Anonymous variables carry an identity: replacing one wildcard leaves a
    // differently named wildcard untouched.
    let mut p = pred("P", vec![anon("_x"), anon("_y")]);
    p.replace(&anon("_x"), &fixed("a"));
    assert_eq!(p, pred("P", vec![fixed("a"), anon("_y")]));
}

#[test]
fn replace_matches_variables_by_kind_and_name() {
    // A fixed variable and a wildcard of the same name are distinct values.
    let mut p = pred("P", vec![anon("x")]);
    p.replace(&fixed("x"), &fixed("y"));
    assert_eq!(p, pred("P", vec![anon("x")]));
}

#[test]
fn substituted_leaves_the_original_untouched() {
    let p = pred("P", vec![fixed("x")]);
    let q = p.substituted(&fixed("x"), &fixed("y"));
    assert_eq!(p, pred("P", vec![fixed("x")]));
    assert_eq!(q, pred("P", vec![fixed("y")]));
}

#[test]
fn predicate_accessors_expose_name_and_args() {
    let p = pred("edge", vec![fixed("a"), fixed("b")]);
    assert_eq!(p.name().as_str(), "edge");
    assert_eq!(p.args().len(), 2);
    assert_eq!(p.args()[0], fixed("a"));
    assert_eq!(p.args()[1], fixed("b"));
}

#[test]
fn from_pair_builds_predicate_from_descendant_texts() {
    let node = SyntaxNode {
        rule: Rule::Atom,
        text: "p(a, b)".to_string(),
        children: vec![SyntaxNode {
            rule: Rule::Predicate,
            text: "p(a, b)".to_string(),
            children: vec![leaf("p"), leaf("a"), leaf("b")],
        }],
    };
    let atom = Atom::from_pair(&node);
    assert_eq!(atom, Atom::Predicate(pred("p", vec![fixed("a"), fixed("b")])));
}

#[test]
fn from_pair_builds_boolean_true() {
    let node = SyntaxNode {
        rule: Rule::Atom,
        text: "true".to_string(),
        children: vec![SyntaxNode {
            rule: Rule::Boolean,
            text: "true".to_string(),
            children: vec![],
        }],
    };
    assert_eq!(Atom::from_pair(&node), Atom::Boolean(true));
}

#[test]
fn from_pair_builds_boolean_false() {
    let node = SyntaxNode {
        rule: Rule::Atom,
        text: "false".to_string(),
        children: vec![SyntaxNode {
            rule: Rule::Boolean,
            text: "false".to_string(),
            children: vec![],
        }],
    };
    assert_eq!(Atom::from_pair(&node), Atom::Boolean(false));
}

#[test]
fn from_pair_wraps_bare_identifier_as_unknown() {
    let node = SyntaxNode {
        rule: Rule::Atom,
        text: "x".to_string(),
        children: vec![SyntaxNode {
            rule: Rule::Unknown,
            text: "x".to_string(),
            children: vec![],
        }],
    };
    assert_eq!(Atom::from_pair(&node), Atom::Unknown("x".to_string()));
}
