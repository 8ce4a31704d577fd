use pg_ripple::datalog::catalog::rule_catalog_rows;
use pg_ripple::datalog::{Atom, BodyLiteral, Rule, Term};

fn atom(s: &str, p: i64, o: &str) -> Atom<i64> {
    Atom { s: Term::Var(s.into()), p: Term::Const(p), o: Term::Var(o.into()), g: Term::DefaultGraph }
}

fn rule(head: Option<Atom<i64>>, body: Vec<BodyLiteral<i64>>, text: &str) -> Rule<i64> {
    Rule { head, body, rule_text: text.to_string(), weight: None }
}

#[test]
fn rows_follow_the_strata() {
    let rules = vec![
        rule(Some(atom("x", 20, "y")), vec![BodyLiteral::Positive(atom("x", 1, "y")), BodyLiteral::Negated(atom("x", 10, "y"))], "neg ."),
        rule(Some(atom("x", 10, "y")), vec![BodyLiteral::Positive(atom("x", 1, "y"))], "base ."),
        rule(None, vec![BodyLiteral::Positive(atom("x", 20, "y"))], "check ."),
    ];
    let rows = rule_catalog_rows(&rules);
    assert_eq!(rows.len(), 3);
    let base = rows.iter().find(|r| r.rule_text == "base .").unwrap();
    let neg = rows.iter().find(|r| r.rule_text == "neg .").unwrap();
    assert!(base.stratum < neg.stratum);
    assert_eq!(base.head_pred, Some(10));
    let check = rows.iter().find(|r| r.rule_text == "check .").unwrap();
    assert_eq!(check.head_pred, None);
}

#[test]
fn unstratifiable_rules_share_stratum_zero() {
    let rules = vec![
        rule(Some(atom("x", 10, "y")), vec![BodyLiteral::Positive(atom("x", 1, "y")), BodyLiteral::Negated(atom("x", 11, "y"))], "a ."),
        rule(Some(atom("x", 11, "y")), vec![BodyLiteral::Positive(atom("x", 1, "y")), BodyLiteral::Negated(atom("x", 10, "y"))], "b ."),
    ];
    let rows = rule_catalog_rows(&rules);
    assert_eq!(rows.len(), 2);
    assert!(rows.iter().all(|r| r.stratum == 0 && r.is_recursive));
    assert_eq!(rows[0].rule_text, "a .");
    assert!(rule_catalog_rows(&vec![]).is_empty());
}
