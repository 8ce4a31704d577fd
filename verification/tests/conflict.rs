use pg_ripple::datalog::conflict::{
    disjoint_violation_message, multiple_values_message, opposing_values_message, parse_head_object,
    rule_vs_shacl_conflicts, rule_vs_shacl_message, same_head_conflicts, undecoded_term, RuleHeadInfo, ShaclConstraint,
};
use pg_ripple::datalog::ConstText;

fn info(p: i64, o: Option<i64>) -> RuleHeadInfo {
    RuleHeadInfo { rule_text: format!("rule {p}"), head_pred: p, head_obj: o }
}

#[test]
fn head_object_constant_or_none() {
    let c = parse_head_object("?x <http://ex.org/eligible> \"true\" :- ?x <http://ex.org/age> ?a .");
    assert!(matches!(c, Some(ConstText::Plain(v)) if v == "true"));
    assert!(parse_head_object("?x <http://ex.org/knows> ?y :- ?y <http://ex.org/knows> ?x .").is_none());
    assert!(parse_head_object("not a rule").is_none());
}

#[test]
fn opposing_values_pairs() {
    let rules = vec![info(1, Some(5)), info(1, Some(6)), info(2, Some(5)), info(1, None), info(1, Some(5)), info(1, Some(7))];
    assert_eq!(same_head_conflicts(&rules), vec![(0, 1), (0, 5), (1, 4), (1, 5), (4, 5)]);
    assert!(same_head_conflicts(&vec![info(1, Some(5)), info(1, Some(5))]).is_empty());
}

#[test]
fn shacl_constraints_hit_rules_by_path() {
    let iris = vec!["http://a".to_string(), "http://b".to_string(), "http://a".to_string()];
    let cs = vec![
        ShaclConstraint { shape_iri: "s1".into(), path_iri: "http://a".into(), constraint_type: "sh:not".into() },
        ShaclConstraint { shape_iri: "s2".into(), path_iri: "http://c".into(), constraint_type: "sh:in".into() },
        ShaclConstraint { shape_iri: "s3".into(), path_iri: "http://b".into(), constraint_type: "sh:disjoint".into() },
    ];
    assert_eq!(rule_vs_shacl_conflicts(&iris, &cs), vec![(0, 0), (0, 2), (2, 1)]);
}

#[test]
fn conflict_messages() {
    assert_eq!(undecoded_term(42), "<dict:42>");
    assert_eq!(opposing_values_message("\"true\"", "\"false\""), "rule_a derives '\"true\"', rule_b derives '\"false\"' for the same head predicate");
    assert_eq!(
        rule_vs_shacl_message("http://a", "http://s", "sh:not"),
        "rule derives triples for 'http://a' but SHACL constraint 'http://s' (type: sh:not) may forbid them"
    );
    assert_eq!(multiple_values_message("p"), "two distinct inferred values for predicate 'p' on the same subject");
    assert_eq!(disjoint_violation_message("a", "b"), "sh:disjoint violated: same subject has inferred values for both 'a' and 'b'");
}
