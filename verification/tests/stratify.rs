use pg_ripple::datalog::stratify::{
    build_dependency_graph, can_reach_positive, check_aggregation_stratification,
    check_subsumption, collect_predicates, compute_sccs, is_multiset_subset, stratify,
    topo_sort_sccs, Edge,
};
use pg_ripple::datalog::{AggFunc, AggregateLiteral, Atom, BodyLiteral, Rule, Term};

fn atom(p: i64) -> Atom<i64> {
    Atom {
        s: Term::Var("x".to_owned()),
        p: Term::Const(p),
        o: Term::Var("y".to_owned()),
        g: Term::DefaultGraph,
    }
}

fn make_rule(head_p: i64, body_p: i64, negated: bool) -> Rule<i64> {
    Rule {
        head: Some(atom(head_p)),
        body: vec![if negated {
            BodyLiteral::Negated(atom(body_p))
        } else {
            BodyLiteral::Positive(atom(body_p))
        }],
        rule_text: String::new(),
        weight: None,
    }
}

fn rule_with(head_p: i64, body: Vec<BodyLiteral<i64>>, text: &str) -> Rule<i64> {
    Rule { head: Some(atom(head_p)), body, rule_text: text.to_owned(), weight: None }
}

fn agg(p: i64) -> BodyLiteral<i64> {
    BodyLiteral::Aggregate(AggregateLiteral {
        func: AggFunc::Count,
        agg_var: "y".to_owned(),
        atom: atom(p),
        result_var: "n".to_owned(),
    })
}

fn stratum_of(strata: &[pg_ripple::datalog::stratify::Stratum], head: i64) -> usize {
    strata
        .iter()
        .position(|s| s.derived_predicates.contains(&head))
        .expect("head predicate present")
}

#[test]
fn test_stratify_simple() {
    let rules = vec![make_rule(10, 20, false), make_rule(30, 10, false)];
    let result = stratify(rules).unwrap();
    assert!(!result.strata.is_empty());
}

#[test]
fn test_stratify_negation_ok() {
    let rules = vec![make_rule(10, 20, true)];
    let result = stratify(rules).unwrap();
    assert!(!result.strata.is_empty());
}

#[test]
fn test_stratify_negation_cycle_error() {
    let rules = vec![make_rule(10, 10, true)];
    let result = stratify(rules);
    assert!(result.is_err(), "expected unstratifiable error");
}

#[test]
fn test_stratify_recursive() {
    let rules = vec![make_rule(10, 10, false)];
    let result = stratify(rules).unwrap();
    let has_recursive = result.strata.iter().any(|s| s.is_recursive);
    assert!(has_recursive);
}

#[test]
fn stratify_empty_gives_no_strata() {
    assert!(stratify(vec![]).unwrap().strata.is_empty());
}

#[test]
fn stratify_orders_bodies_before_heads() {
    // 30 reads 10, 10 reads 20: 10 must not come after 30.
    let rules = vec![make_rule(30, 10, false), make_rule(10, 20, false)];
    let p = stratify(rules).unwrap();
    assert!(stratum_of(&p.strata, 10) <= stratum_of(&p.strata, 30));
    let total: usize = p.strata.iter().map(|s| s.rules.len()).sum();
    assert_eq!(total, 2);
}

#[test]
fn stratify_negation_goes_strictly_later() {
    let rules = vec![make_rule(10, 11, true), make_rule(11, 12, false)];
    let p = stratify(rules).unwrap();
    assert!(stratum_of(&p.strata, 11) < stratum_of(&p.strata, 10));
    assert!(p.strata.iter().all(|s| !s.is_recursive));
}

#[test]
fn stratify_mutual_recursion_is_recursive() {
    let rules = vec![make_rule(1, 2, false), make_rule(2, 1, false)];
    let p = stratify(rules).unwrap();
    assert_eq!(p.strata.len(), 1);
    assert!(p.strata[0].is_recursive);
    let mut d = p.strata[0].derived_predicates.clone();
    d.sort();
    assert_eq!(d, vec![1, 2]);
}

#[test]
fn stratify_negation_cycle_message() {
    let e = match stratify(vec![make_rule(10, 10, true)]) {
        Err(e) => e,
        Ok(_) => panic!("expected an error"),
    };
    assert_eq!(e, "datalog: unstratifiable negation cycle: pred_10 → ¬pred_10 → pred_10");
    let e = match stratify(vec![make_rule(1, 2, true), make_rule(2, 1, false)]) {
        Err(e) => e,
        Ok(_) => panic!("expected an error"),
    };
    assert_eq!(e, "datalog: unstratifiable negation cycle: pred_1 → ¬pred_2 → pred_1");
}

#[test]
fn stratify_recursive_aggregation_is_rejected() {
    let r = rule_with(5, vec![BodyLiteral::Positive(atom(5)), agg(6)], "r");
    let e = match stratify(vec![r]) {
        Err(e) => e,
        Ok(_) => panic!("expected an error"),
    };
    assert!(e.starts_with("PT511: aggregation in recursive rule head is not supported; rule predicate 5 appears"));
    let r = rule_with(7, vec![agg(7)], "r");
    let e = match stratify(vec![r]) {
        Err(e) => e,
        Ok(_) => panic!("expected an error"),
    };
    assert!(e.starts_with("PT511: DL-AGG-01: aggregation in recursive rule head is not supported; the aggregate body atom references the head predicate 7;"));
}

#[test]
fn dependency_graph_and_sccs() {
    let rules = vec![make_rule(1, 2, false), make_rule(2, 1, true), make_rule(3, 4, false)];
    let edges = build_dependency_graph(&rules);
    assert_eq!(
        edges,
        vec![
            Edge { from: 1, to: 2, negative: false },
            Edge { from: 2, to: 1, negative: true },
            Edge { from: 3, to: 4, negative: false },
        ]
    );
    let nodes = collect_predicates(&rules);
    assert_eq!(nodes, vec![1, 2, 3, 4]);
    let sccs = compute_sccs(&nodes, &edges);
    assert_eq!(sccs, vec![vec![1, 2], vec![3], vec![4]]);
    assert!(topo_sort_sccs(&sccs, &edges).is_err());
}

#[test]
fn topo_sort_places_dependencies_first() {
    let edges = vec![Edge { from: 3, to: 4, negative: true }];
    let sccs = vec![vec![3], vec![4]];
    let rank = topo_sort_sccs(&sccs, &edges).unwrap();
    assert!(rank[1] < rank[0]);
}

#[test]
fn multiset_subset_counts() {
    assert!(is_multiset_subset(&[1, 2], &[2, 1, 3]));
    assert!(!is_multiset_subset(&[1, 1], &[1, 2]));
    assert!(is_multiset_subset(&[], &[]));
}

#[test]
fn subsumption_eliminates_more_specific_rules() {
    let general = rule_with(1, vec![BodyLiteral::Positive(atom(2))], "general");
    let specific = rule_with(1, vec![BodyLiteral::Positive(atom(2)), BodyLiteral::Positive(atom(3))], "specific");
    let dup = rule_with(1, vec![BodyLiteral::Positive(atom(2))], "dup");
    let other = rule_with(9, vec![BodyLiteral::Positive(atom(2))], "other");
    let out = check_subsumption(&[general, specific, dup, other]);
    assert_eq!(out, vec!["specific".to_string(), "dup".to_string()]);
}

#[test]
fn aggregation_stratification() {
    let ok = vec![rule_with(1, vec![agg(2)], "a")];
    assert!(check_aggregation_stratification(&ok).is_ok());
    let bad = vec![rule_with(1, vec![agg(2)], "a"), rule_with(2, vec![BodyLiteral::Positive(atom(1))], "b")];
    let e = check_aggregation_stratification(&bad).unwrap_err();
    assert!(e.starts_with("PT510: aggregation-stratification violation"));
}

#[test]
fn positive_reachability() {
    let deps = vec![Edge { from: 1, to: 2, negative: false }, Edge { from: 2, to: 3, negative: false }];
    assert!(can_reach_positive(1, 3, &deps));
    assert!(can_reach_positive(4, 4, &deps));
    assert!(!can_reach_positive(3, 1, &deps));
}

fn triple(s: &str, p: i64, o: &str) -> Atom<i64> {
    Atom { s: Term::Var(s.to_owned()), p: Term::Const(p), o: Term::Var(o.to_owned()), g: Term::DefaultGraph }
}

#[test]
fn subsumption_keeps_a_rule_that_derives_more() {
    let r1 = Rule {
        head: Some(triple("x", 10, "y")),
        body: vec![BodyLiteral::Positive(triple("x", 20, "y"))],
        rule_text: "r1".to_owned(),
        weight: None,
    };
    let r2 = Rule {
        head: Some(triple("x", 10, "y")),
        body: vec![BodyLiteral::Positive(triple("x", 20, "z")), BodyLiteral::Positive(triple("z", 30, "y"))],
        rule_text: "r2".to_owned(),
        weight: None,
    };
    assert_eq!(check_subsumption(&[r1, r2]), Vec::<String>::new());
}

#[test]
fn subsumption_sees_through_variable_renaming() {
    let r1 = Rule {
        head: Some(triple("a", 10, "b")),
        body: vec![BodyLiteral::Positive(triple("a", 20, "b"))],
        rule_text: "r1".to_owned(),
        weight: None,
    };
    let r2 = Rule {
        head: Some(triple("x", 10, "y")),
        body: vec![BodyLiteral::Positive(triple("x", 20, "y")), BodyLiteral::Positive(triple("y", 40, "x"))],
        rule_text: "r2".to_owned(),
        weight: None,
    };
    assert_eq!(check_subsumption(&[r1, r2]), vec!["r2".to_string()]);
}
