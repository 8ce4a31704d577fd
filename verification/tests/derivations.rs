use pg_ripple::datalog::derivations::{
    compile_antecedent_insert, compile_antecedent_insert_via_delta, record_recursive_rule_stub,
    record_recursive_rule_stub_via_delta,
};
use pg_ripple::datalog::{Atom, BodyLiteral, Rule, Term};

fn v(n: &str) -> Term<i64> {
    Term::Var(n.to_string())
}

fn atom(s: Term<i64>, p: i64, o: Term<i64>) -> Atom<i64> {
    Atom { s, p: Term::Const(p), o, g: Term::DefaultGraph }
}

fn chain_rule() -> Rule<i64> {
    Rule {
        head: Some(atom(v("x"), 10, v("z"))),
        body: vec![BodyLiteral::Positive(atom(v("x"), 1, v("y"))), BodyLiteral::Positive(atom(v("y"), 2, v("z")))],
        rule_text: "a's rule".to_string(),
        weight: None,
    }
}

const HEAD: &str = "INSERT INTO _pg_ripple.derivations (derived_sid, rule_name, rule_set, antecedent_sids) SELECT ";
const SCAN: &str = "FROM (SELECT s, o, g, i FROM _pg_ripple.vp_rare WHERE p = 1) AS b0\n  JOIN (SELECT s, o, g, i FROM _pg_ripple.vp_rare WHERE p = 2) AS b1 ON b1.s = b0.o";

#[test]
fn antecedents_of_inferred_rows() {
    assert_eq!(
        compile_antecedent_insert(&chain_rule(), "s'1").unwrap(),
        format!(
            "{HEAD}vr_head.i, 'a''s rule'::text, 's''1'::text, ARRAY[b0.i, b1.i]::BIGINT[] {SCAN} \
             JOIN (SELECT i, s, o, g FROM _pg_ripple.vp_rare WHERE p = 10 AND source = 1) vr_head \
             ON vr_head.s = b0.s AND vr_head.o = b1.o AND vr_head.g = 0 ON CONFLICT (derived_sid, rule_name) DO NOTHING"
        )
    );
}

#[test]
fn antecedents_of_delta_rows() {
    assert_eq!(
        compile_antecedent_insert_via_delta(&chain_rule(), "rs", &vec![10], "_dl_delta_").unwrap(),
        format!(
            "{HEAD}vr_head.i, 'a''s rule'::text, 'rs'::text, ARRAY[b0.i, b1.i]::BIGINT[] {SCAN} \
             JOIN (SELECT vr.i, vr.s, vr.o, vr.g FROM _dl_delta_10 dt JOIN _pg_ripple.vp_rare vr ON vr.p = 10 \
             AND vr.s = dt.s AND vr.o = dt.o AND vr.g = dt.g ) vr_head \
             ON vr_head.s = b0.s AND vr_head.o = b1.o AND vr_head.g = 0 ON CONFLICT (derived_sid, rule_name) DO NOTHING"
        )
    );
    assert_eq!(compile_antecedent_insert_via_delta(&chain_rule(), "rs", &vec![1, 2], "_dl_delta_"), None);
}

#[test]
fn unrelated_atoms_cross_join() {
    let r = Rule {
        head: Some(atom(v("x"), 10, v("z"))),
        body: vec![BodyLiteral::Positive(atom(v("x"), 1, v("y"))), BodyLiteral::Positive(atom(v("w"), 2, v("z")))],
        rule_text: "r".to_string(),
        weight: None,
    };
    let sql = compile_antecedent_insert(&r, "s").unwrap();
    assert!(sql.contains("AS b0\n  CROSS JOIN (SELECT s, o, g, i FROM _pg_ripple.vp_rare WHERE p = 2) AS b1 JOIN"));
}

#[test]
fn recursive_rules_get_stubs() {
    let r = Rule {
        head: Some(atom(v("x"), 10, v("z"))),
        body: vec![BodyLiteral::Positive(atom(v("x"), 10, v("y"))), BodyLiteral::Positive(atom(v("y"), 10, v("z")))],
        rule_text: "r".to_string(),
        weight: None,
    };
    let stub = format!(
        "{HEAD}vr.i, 'r'::text, 's'::text, ARRAY[]::BIGINT[] FROM _dl_delta_10 dt JOIN _pg_ripple.vp_rare vr ON vr.p = 10 \
         AND vr.s = dt.s AND vr.o = dt.o AND vr.g = dt.g ON CONFLICT (derived_sid, rule_name) DO NOTHING"
    );
    assert_eq!(compile_antecedent_insert_via_delta(&r, "s", &vec![10], "_dl_delta_").unwrap(), stub);
    assert_eq!(record_recursive_rule_stub_via_delta(&r, "s", "_dl_delta_10").unwrap(), stub);
    assert_eq!(
        record_recursive_rule_stub(&r, "s").unwrap(),
        format!(
            "{HEAD}vr.i, 'r'::text, 's'::text, ARRAY[]::BIGINT[] FROM _pg_ripple.vp_rare vr WHERE vr.p = 10 AND vr.source = 1 \
             ON CONFLICT (derived_sid, rule_name) DO NOTHING"
        )
    );
}

#[test]
fn rules_without_antecedents_record_nothing() {
    let no_body = Rule { head: Some(atom(v("x"), 10, v("z"))), body: vec![], rule_text: "r".to_string(), weight: None };
    assert_eq!(compile_antecedent_insert(&no_body, "s"), None);
    let unbound = Rule {
        head: Some(atom(v("x"), 10, v("q"))),
        body: vec![BodyLiteral::Positive(atom(v("x"), 1, v("y")))],
        rule_text: "r".to_string(),
        weight: None,
    };
    assert_eq!(compile_antecedent_insert(&unbound, "s"), None);
    let constraint = Rule { head: None, body: vec![], rule_text: "r".to_string(), weight: None };
    assert_eq!(compile_antecedent_insert(&constraint, "s"), None);
}
