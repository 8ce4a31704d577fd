use std::collections::HashMap;

use pg_ripple::datalog::rewrite::{apply_sameas_to_rules, canonicalize_id, sameas_map_from_pairs, UnionFind};
use pg_ripple::datalog::{Atom, BodyLiteral, CompareOp, Rule, StringBuiltin, Term};

#[test]
fn canonicalize_uses_map_or_identity() {
    let mut m = HashMap::new();
    m.insert(7i64, 3i64);
    assert_eq!(canonicalize_id(7, &m), 3);
    assert_eq!(canonicalize_id(5, &m), 5);
}

#[test]
fn union_find_lowest_id_wins() {
    let mut uf = UnionFind::new();
    uf.union(10, 4);
    uf.union(4, 7);
    assert_eq!(uf.find(10), 4);
    assert_eq!(uf.find(7), 4);
    assert_eq!(uf.find(4), 4);
    uf.union(20, 2);
    uf.union(20, 10);
    assert_eq!(uf.find(7), 2);
    assert_eq!(uf.find(99), 99);
}

#[test]
fn sameas_map_maps_non_canonical_ids() {
    let (m, w) = sameas_map_from_pairs(&vec![(5, 3), (3, 9), (11, 12)], 0);
    assert!(w.is_none());
    assert_eq!(m.len(), 3);
    assert_eq!(m.get(&5), Some(&3));
    assert_eq!(m.get(&9), Some(&3));
    assert_eq!(m.get(&12), Some(&11));
    assert_eq!(m.get(&3), None);
}

#[test]
fn sameas_cluster_limit() {
    let (m, w) = sameas_map_from_pairs(&vec![(1, 2), (2, 3), (3, 4)], 3);
    assert!(m.is_empty());
    assert_eq!(
        w.unwrap(),
        "PT550: owl:sameAs equivalence class of 4 members exceeds pg_ripple.sameas_max_cluster_size (3); canonicalization skipped — check for data quality issues"
    );
    let (m, w) = sameas_map_from_pairs(&vec![(1, 2), (2, 3), (3, 4)], 4);
    assert!(w.is_none());
    assert_eq!(m.len(), 3);
}

#[test]
fn rules_are_rewritten_to_canonical_ids() {
    let atom = |s: i64, p: i64| Atom { s: Term::Const(s), p: Term::Const(p), o: Term::Var("o".to_owned()), g: Term::DefaultGraph };
    let rule = Rule {
        head: Some(atom(9, 1)),
        body: vec![BodyLiteral::Positive(atom(5, 2)), BodyLiteral::Negated(atom(6, 9))],
        rule_text: "r".to_owned(),
        weight: None,
    };
    let mut m = HashMap::new();
    m.insert(9i64, 3i64);
    m.insert(5i64, 4i64);
    let out = apply_sameas_to_rules(vec![rule], &m);
    let r = &out[0];
    assert!(matches!(r.head.as_ref().unwrap().s, Term::Const(3)));
    match &r.body[0] {
        BodyLiteral::Positive(a) => assert!(matches!(a.s, Term::Const(4))),
        _ => panic!("positive literal expected"),
    }
    match &r.body[1] {
        BodyLiteral::Negated(a) => {
            assert!(matches!(a.s, Term::Const(6)));
            assert!(matches!(a.p, Term::Const(3)));
        }
        _ => panic!("negated literal expected"),
    }
    assert_eq!(r.rule_text, "r");
}

#[test]
fn string_builtin_operands_are_rewritten_too() {
    let rule = Rule {
        head: None,
        body: vec![BodyLiteral::StringBuiltin(StringBuiltin::Strlen(Term::Const(5), CompareOp::Eq, Term::Const(7)))],
        rule_text: "s".to_owned(),
        weight: None,
    };
    let mut m = HashMap::new();
    m.insert(5i64, 2i64);
    let out = apply_sameas_to_rules(vec![rule], &m);
    match &out[0].body[0] {
        BodyLiteral::StringBuiltin(StringBuiltin::Strlen(a, _, b)) => {
            assert!(matches!(a, Term::Const(2)));
            assert!(matches!(b, Term::Const(7)));
        }
        _ => panic!("string built-in expected"),
    }
}

#[test]
fn union_find_gives_the_least_member_whatever_the_order() {
    let mut uf = UnionFind::new();
    uf.union(9, 7);
    uf.union(5, 8);
    uf.union(7, 8);
    for z in [5, 7, 8, 9] {
        assert_eq!(uf.find(z), 5);
    }
    assert_eq!(uf.find(6), 6);
}
