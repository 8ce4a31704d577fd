use pg_ripple::datalog::compiler::{CompileEnv, PredStats};
use pg_ripple::datalog::seminaive::{
    active_rules, aggregate_statements, cleanup_sql, count_new_rows_sql, delta_count_sql, delta_graphs_sql,
    delta_index_sql, delta_new_setup_sql, delta_setup_sql, iteration_limit_message, materialize_sql, merge_round_sql,
    needs_delta_index, round_statements, seed_statements, split_aggregate_rules, SeminaiveLoop,
    SEMINAIVE_MAX_ITERATIONS,
};
use pg_ripple::datalog::stratify::derived_pred_ids;
use pg_ripple::datalog::{AggFunc, AggregateLiteral, Atom, BodyLiteral, Rule, Term};

fn v(n: &str) -> Term<i64> {
    Term::Var(n.to_string())
}

fn c(id: i64) -> Term<i64> {
    Term::Const(id)
}

fn atom(s: Term<i64>, p: Term<i64>, o: Term<i64>) -> Atom<i64> {
    Atom { s, p, o, g: Term::DefaultGraph }
}

fn rule(head: Option<Atom<i64>>, body: Vec<BodyLiteral<i64>>, text: &str) -> Rule<i64> {
    Rule { head, body, rule_text: text.to_string(), weight: None }
}

fn env() -> CompileEnv {
    CompileEnv {
        stats: Vec::<PredStats>::new(),
        cost_reorder: false,
        bound_so_divisor: 1000,
        bound_s_divisor: 100,
        antijoin_threshold: 0,
        default_graph_only: false,
        max_depth: 0,
    }
}

fn transitive() -> Vec<Rule<i64>> {
    vec![
        rule(Some(atom(v("x"), c(10), v("y"))), vec![BodyLiteral::Positive(atom(v("x"), c(1), v("y")))], "base ."),
        rule(
            Some(atom(v("x"), c(10), v("z"))),
            vec![BodyLiteral::Positive(atom(v("x"), c(10), v("y"))), BodyLiteral::Positive(atom(v("y"), c(1), v("z")))],
            "step .",
        ),
        rule(None, vec![BodyLiteral::Positive(atom(v("x"), c(10), v("x")))], "no loops ."),
    ]
}

#[test]
fn delta_table_statements() {
    assert_eq!(
        delta_setup_sql(7),
        vec![
            "DROP TABLE IF EXISTS _dl_delta_7".to_string(),
            "CREATE TEMP TABLE _dl_delta_7 (s BIGINT NOT NULL, o BIGINT NOT NULL, g BIGINT NOT NULL DEFAULT 0, UNIQUE (s, o, g))".to_string(),
        ]
    );
    assert_eq!(delta_new_setup_sql(-3)[0], "DROP TABLE IF EXISTS _dl_delta_new_-3");
    assert_eq!(delta_count_sql(7), "SELECT count(*) FROM _dl_delta_7");
    assert_eq!(
        delta_index_sql(7),
        vec!["DROP INDEX IF EXISTS _dl_delta_7_so_idx".to_string(), "CREATE INDEX _dl_delta_7_so_idx ON _dl_delta_7 (s, o)".to_string()]
    );
    assert_eq!(
        count_new_rows_sql(7),
        "SELECT count(*) FROM _dl_delta_new_7 n WHERE NOT EXISTS ( SELECT 1 FROM _dl_delta_7 d WHERE d.s = n.s AND d.o = n.o AND d.g = n.g )"
    );
    assert_eq!(
        merge_round_sql(7),
        vec![
            "INSERT INTO _dl_delta_7 (s, o, g) SELECT s, o, g FROM _dl_delta_new_7 ON CONFLICT DO NOTHING".to_string(),
            "DROP TABLE IF EXISTS _dl_delta_new_7".to_string(),
        ]
    );
    assert_eq!(
        materialize_sql(7),
        "WITH ins AS ( INSERT INTO _pg_ripple.vp_rare (p, s, o, g) SELECT 7::bigint, s, o, g FROM _dl_delta_7 ON CONFLICT DO NOTHING RETURNING 1 ) SELECT COUNT(*)::bigint FROM ins"
    );
    assert_eq!(delta_graphs_sql(7), "SELECT DISTINCT g FROM _dl_delta_7");
    assert_eq!(cleanup_sql(7)[1], "DROP TABLE IF EXISTS _dl_delta_new_7");
}

#[test]
fn delta_index_threshold() {
    assert!(needs_delta_index(500, 500));
    assert!(!needs_delta_index(499, 500));
    assert!(!needs_delta_index(10_000, 0));
}

#[test]
fn derived_predicates_and_active_rules() {
    let rules = transitive();
    assert_eq!(derived_pred_ids(&rules), vec![10]);
    let act = active_rules(&rules, &vec!["step .".to_string()]);
    let texts: Vec<&str> = act.iter().map(|r| r.rule_text.as_str()).collect();
    assert_eq!(texts, vec!["base .", "no loops ."]);
    assert_eq!(active_rules(&rules, &vec![]).len(), 3);
}

#[test]
fn seed_and_round_statements() {
    let rules = transitive();
    let derived = vec![10];
    let seed = seed_statements(&rules, &derived, &env());
    assert_eq!(seed.statements.len(), 2);
    assert!(seed.statements[0].starts_with("INSERT INTO _dl_delta_10 (s, o, g)"));
    assert!(seed.errors.is_empty());
    let round = round_statements(&rules, &derived, &env());
    assert_eq!(round.statements.len(), 1);
    assert!(round.statements[0].starts_with("INSERT INTO _dl_delta_new_10 (s, o, g)"));
    assert!(round.statements[0].contains("_dl_delta_10"));
    assert!(round_statements(&rules, &vec![], &env()).statements.is_empty());
}

#[test]
fn round_limit() {
    let mut l = SeminaiveLoop::new();
    assert_eq!(l.iterations, 1);
    let mut started = 0;
    while l.begin_round() {
        started += 1;
    }
    assert_eq!(started, SEMINAIVE_MAX_ITERATIONS - 1);
    assert_eq!(l.iterations, SEMINAIVE_MAX_ITERATIONS);
    assert!(!SeminaiveLoop::continues_after(0));
    assert!(SeminaiveLoop::continues_after(3));
    assert_eq!(
        iteration_limit_message("rs"),
        "semi-naive inference: reached max iteration limit (10000); possible infinite derivation chain in rule set 'rs'"
    );
}

#[test]
fn aggregate_rules_apart() {
    let agg = rule(
        Some(atom(v("x"), c(20), v("n"))),
        vec![BodyLiteral::Aggregate(AggregateLiteral {
            func: AggFunc::Count,
            agg_var: "y".to_string(),
            atom: atom(v("x"), c(1), v("y")),
            result_var: "n".to_string(),
        })],
        "count .",
    );
    let mut rules = transitive();
    rules.insert(1, agg);
    let (a, p) = split_aggregate_rules(&rules);
    assert_eq!(a.len(), 1);
    assert_eq!(p.len(), 3);
    assert_eq!(p[1].rule_text, "step .");
    let out = aggregate_statements(&a, &env());
    assert_eq!(out.statements.len(), 1);
    assert!(out.statements[0].starts_with("INSERT INTO _pg_ripple.vp_20_delta"));
}
