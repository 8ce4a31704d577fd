use pg_ripple::datalog::demand::{demand_predicates, find_relevant_predicates, plan_infer_demand, DemandSpec};
use pg_ripple::datalog::{Atom, BodyLiteral, Rule, Term};

fn atom(s: &str, p: i64, o: &str) -> Atom<i64> {
    Atom { s: Term::Var(s.into()), p: Term::Const(p), o: Term::Var(o.into()), g: Term::DefaultGraph }
}

fn rule(head: i64, body: Vec<BodyLiteral<i64>>) -> Rule<i64> {
    Rule { head: Some(atom("x", head, "y")), body, rule_text: format!("rule {head}"), weight: None }
}

fn rules() -> Vec<Rule<i64>> {
    vec![
        rule(1, vec![BodyLiteral::Positive(atom("x", 2, "y"))]),
        rule(2, vec![BodyLiteral::Positive(atom("x", 3, "y")), BodyLiteral::Negated(atom("x", 4, "y"))]),
        rule(5, vec![BodyLiteral::Positive(atom("x", 6, "y"))]),
    ]
}

#[test]
fn demanded_predicates_each_once() {
    let ds = vec![
        DemandSpec { s: None, p: Some(1), o: None },
        DemandSpec { s: Some(9), p: None, o: None },
        DemandSpec { s: None, p: Some(1), o: Some(3) },
        DemandSpec { s: None, p: Some(5), o: None },
    ];
    assert_eq!(demand_predicates(&ds), vec![1, 5]);
}

#[test]
fn relevant_predicates_follow_positive_bodies() {
    let mut r = find_relevant_predicates(&rules(), &vec![1]);
    r.sort();
    assert_eq!(r, vec![1, 2, 3]);
    let mut r = find_relevant_predicates(&rules(), &vec![5, 2]);
    r.sort();
    assert_eq!(r, vec![2, 3, 5, 6]);
}

#[test]
fn plan_keeps_rules_for_demanded_heads() {
    let ds = vec![DemandSpec { s: None, p: Some(1), o: None }];
    let plan = plan_infer_demand(rules(), &ds);
    assert_eq!(plan.demand_preds, vec![1]);
    let texts: Vec<&str> = plan.rules.iter().map(|r| r.rule_text.as_str()).collect();
    assert_eq!(texts, vec!["rule 1", "rule 2"]);
}

#[test]
fn plan_without_predicate_demands_runs_all_rules() {
    let ds = vec![DemandSpec { s: Some(1), p: None, o: None }];
    let plan = plan_infer_demand(rules(), &ds);
    assert!(plan.demand_preds.is_empty());
    assert_eq!(plan.rules.len(), 3);
    assert!(plan.relevant_preds.is_empty());
}

use pg_ripple::datalog::demand::{demand_value, is_free_demand, DemandValue};

#[test]
fn demand_positions() {
    assert!(is_free_demand(""));
    assert!(is_free_demand("?x"));
    assert!(!is_free_demand("ex:p"));
    assert!(matches!(demand_value("<<http://ex.org/a>>"), DemandValue::Iri(i) if i == "http://ex.org/a"));
    assert!(matches!(demand_value("\"lit\""), DemandValue::Literal(l) if l == "\"lit\""));
    assert!(matches!(demand_value("http://ex.org/b"), DemandValue::Iri(i) if i == "http://ex.org/b"));
}

use pg_ripple::datalog::demand::{demand_texts, DemandTerm};

fn term_text(t: &DemandTerm) -> Option<&str> {
    match t {
        DemandTerm::Free => None,
        DemandTerm::Text(s) => Some(s.as_str()),
    }
}

#[test]
fn demand_texts_reads_objects_of_an_array() {
    let ds = demand_texts(r#"[{"s": "?x", "p": "ex:knows", "o": "<http://a>"}, 5, {"p": ""}, {"s": 3, "o": "\"lit\""}]"#);
    assert_eq!(ds.len(), 3);
    assert_eq!(term_text(&ds[0].s), None);
    assert_eq!(term_text(&ds[0].p), Some("ex:knows"));
    assert_eq!(term_text(&ds[0].o), Some("<http://a>"));
    assert_eq!(term_text(&ds[1].p), None);
    assert_eq!(term_text(&ds[2].s), None);
    assert_eq!(term_text(&ds[2].o), Some("\"lit\""));
}

#[test]
fn demand_texts_of_non_array_is_empty() {
    assert!(demand_texts("{\"s\": \"a\"}").is_empty());
    assert!(demand_texts("not json").is_empty());
}
