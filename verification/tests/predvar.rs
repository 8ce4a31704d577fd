use pg_ripple::datalog::compiler::{CompileEnv, PredStats};
use pg_ripple::datalog::predvar::{
    apply_pred_binding, binding_product, collect_pred_vars, copy_rule, pred_var_pair_query, pred_var_value_queries,
    substitute_pred_var,
};
use pg_ripple::datalog::{Atom, BodyLiteral, CompareOp, Rule, Term};

fn v(n: &str) -> Term<i64> {
    Term::Var(n.to_string())
}

fn c(id: i64) -> Term<i64> {
    Term::Const(id)
}

fn atom(s: Term<i64>, p: Term<i64>, o: Term<i64>) -> Atom<i64> {
    Atom { s, p, o, g: Term::DefaultGraph }
}

fn env(stats: Vec<PredStats>) -> CompileEnv {
    CompileEnv {
        stats,
        cost_reorder: false,
        bound_so_divisor: 1000,
        bound_s_divisor: 100,
        antijoin_threshold: 0,
        default_graph_only: false,
        max_depth: 0,
    }
}

fn var_pred_rule() -> Rule<i64> {
    Rule {
        head: Some(atom(v("x"), v("p"), v("y"))),
        body: vec![
            BodyLiteral::Positive(atom(v("p"), c(7), v("q"))),
            BodyLiteral::Positive(atom(v("x"), v("p"), v("y"))),
            BodyLiteral::Negated(atom(v("x"), v("q"), v("y"))),
            BodyLiteral::Compare(v("x"), CompareOp::Neq, v("p")),
        ],
        rule_text: "?x ?p ?y :- ?p <7> ?q, ?x ?p ?y, NOT ?x ?q ?y, ?x != ?p .".to_string(),
        weight: None,
    }
}

#[test]
fn predicate_variables_in_order_of_appearance() {
    assert_eq!(collect_pred_vars(&var_pred_rule()), vec!["p".to_string(), "q".to_string()]);
}

#[test]
fn rule_without_predicate_variables() {
    let r = Rule {
        head: Some(atom(v("x"), c(1), v("y"))),
        body: vec![BodyLiteral::Positive(atom(v("x"), c(2), v("y")))],
        rule_text: "r".to_string(),
        weight: None,
    };
    assert!(collect_pred_vars(&r).is_empty());
}

#[test]
fn substitution_replaces_the_variable_in_triple_patterns_only() {
    let r = substitute_pred_var(&var_pred_rule(), &"p".to_string(), 42);
    let h = r.head.as_ref().unwrap();
    assert!(matches!(h.p, Term::Const(42)));
    assert!(matches!(&r.body[0], BodyLiteral::Positive(a) if matches!(a.s, Term::Const(42))));
    assert!(matches!(&r.body[3], BodyLiteral::Compare(_, _, Term::Var(n)) if n == "p"));
    assert_eq!(r.rule_text, "/* p=42 */ ?x ?p ?y :- ?p <7> ?q, ?x ?p ?y, NOT ?x ?q ?y, ?x != ?p .");
    assert_eq!(collect_pred_vars(&r), vec!["q".to_string()]);
}

#[test]
fn binding_applies_every_pair() {
    let b = vec![("p".to_string(), 5), ("q".to_string(), -3)];
    let r = apply_pred_binding(&var_pred_rule(), &b);
    assert!(collect_pred_vars(&r).is_empty());
    assert!(r.rule_text.starts_with("/* q=-3 */ /* p=5 */ "));
    let same = apply_pred_binding(&var_pred_rule(), &vec![]);
    assert_eq!(same.rule_text, copy_rule(&var_pred_rule()).rule_text);
}

#[test]
fn product_of_candidate_values() {
    let per_var = vec![("p".to_string(), vec![1, 2]), ("q".to_string(), vec![7, 8, 9])];
    let all = binding_product(&per_var);
    assert_eq!(all.len(), 6);
    assert_eq!(all[0], vec![("p".to_string(), 1), ("q".to_string(), 7)]);
    assert_eq!(all[5], vec![("p".to_string(), 2), ("q".to_string(), 9)]);
    assert_eq!(binding_product(&vec![]), vec![Vec::<(String, i64)>::new()]);
    assert!(binding_product(&vec![("p".to_string(), vec![1]), ("q".to_string(), vec![])]).is_empty());
}

#[test]
fn value_queries_follow_the_variable() {
    let r = var_pred_rule();
    let qs = pred_var_value_queries(&r, &"p".to_string(), &env(vec![]));
    assert_eq!(qs, vec!["SELECT DISTINCT s FROM (SELECT s, o, g FROM _pg_ripple.vp_rare WHERE p = 7)".to_string()]);
    let r2 = Rule {
        head: None,
        body: vec![BodyLiteral::Positive(atom(c(3), c(9), v("p")))],
        rule_text: String::new(),
        weight: None,
    };
    let stats = vec![PredStats { id: 9, triple_count: 10, has_dedicated: true }];
    assert_eq!(
        pred_var_value_queries(&r2, &"p".to_string(), &env(stats)),
        vec![
            "SELECT DISTINCT o FROM (SELECT s, o, g FROM _pg_ripple.vp_9 UNION ALL SELECT s, o, g FROM _pg_ripple.vp_rare WHERE p = 9) WHERE s = 3"
                .to_string()
        ]
    );
}

#[test]
fn joint_pair_query_when_both_ends_are_predicate_variables() {
    let r = var_pred_rule();
    let vars = vec!["p".to_string(), "q".to_string()];
    let q = pred_var_pair_query(&r, &vars, &env(vec![])).unwrap();
    assert_eq!(q.0, "SELECT DISTINCT s, o FROM (SELECT s, o, g FROM _pg_ripple.vp_rare WHERE p = 7)");
    assert_eq!((q.1.as_str(), q.2.as_str()), ("p", "q"));
    assert!(pred_var_pair_query(&r, &vec!["p".to_string()], &env(vec![])).is_none());
}
