use pg_ripple::datalog::compiler::nonrec::{atom_cost_of, compile_nonrecursive_rule, cost_order_atoms, rule_head_text};
use pg_ripple::datalog::compiler::recursive::compile_recursive_rule;
use pg_ripple::datalog::compiler::{
    build_join_cond, compile_guard_sql, compile_rule_set, compile_single_rule, compile_single_rule_to,
    has_variable_pred, is_recursive_rule, vp_table, CompileEnv, PredStats, VarMap,
};
use pg_ripple::datalog::{ArithOp, Atom, BodyLiteral, CompareOp, Rule, StringBuiltin, Term};

fn v(n: &str) -> Term<i64> {
    Term::Var(n.to_string())
}

fn c(id: i64) -> Term<i64> {
    Term::Const(id)
}

fn atom(s: Term<i64>, p: Term<i64>, o: Term<i64>) -> Atom<i64> {
    Atom { s, p, o, g: Term::DefaultGraph }
}

fn rule(head: Option<Atom<i64>>, body: Vec<BodyLiteral<i64>>, text: &str) -> Rule<i64> {
    Rule { head, body, rule_text: text.to_string(), weight: None }
}

fn env(stats: Vec<PredStats>) -> CompileEnv {
    CompileEnv {
        stats,
        cost_reorder: false,
        bound_so_divisor: 1000,
        bound_s_divisor: 100,
        antijoin_threshold: 0,
        default_graph_only: false,
        max_depth: 0,
    }
}

const RARE1: &str = "(SELECT s, o, g FROM _pg_ripple.vp_rare WHERE p = 1)";
const RARE2: &str = "(SELECT s, o, g FROM _pg_ripple.vp_rare WHERE p = 2)";

#[test]
fn two_atom_join() {
    let r = rule(
        Some(atom(v("x"), c(10), v("z"))),
        vec![BodyLiteral::Positive(atom(v("x"), c(1), v("y"))), BodyLiteral::Positive(atom(v("y"), c(2), v("z")))],
        "?x <10> ?z :- ?x <1> ?y, ?y <2> ?z .",
    );
    let sql = compile_single_rule_to(&r, "tgt", &env(vec![])).unwrap();
    assert_eq!(
        sql,
        format!(
            "INSERT INTO tgt (s, o, g)\nSELECT t0.s, t1.o, 0\nFROM {RARE1} t0\nJOIN {RARE2} t1 ON t1.s = t0.o AND t1.o = t1.o\n\nON CONFLICT DO NOTHING"
        )
    );
}

#[test]
fn constants_guards_pushdown_and_not_exists() {
    let r = rule(
        Some(atom(v("x"), c(10), v("x"))),
        vec![
            BodyLiteral::Positive(atom(v("x"), c(1), c(5))),
            BodyLiteral::Compare(v("n"), CompareOp::Gt, c(7)),
            BodyLiteral::Positive(atom(v("x"), c(3), v("n"))),
            BodyLiteral::Negated(atom(v("x"), c(4), Term::Wildcard)),
        ],
        "r",
    );
    let e = env(vec![PredStats { id: 3, triple_count: 10, has_dedicated: true }]);
    let sql = compile_nonrecursive_rule(&r, "0", "tgt", &e).unwrap();
    assert_eq!(
        sql,
        format!(
            "INSERT INTO tgt (s, o, g)\nSELECT t0.s, t0.s, 0\nFROM {RARE1} t0\n\
             JOIN (SELECT s, o, g FROM _pg_ripple.vp_3 UNION ALL SELECT s, o, g FROM _pg_ripple.vp_rare WHERE p = 3) t1 \
             ON t1.s = t0.s AND t1.o = t1.o AND t1.o > 7\n\
             WHERE t0.o = 5\n  AND NOT EXISTS (SELECT 1 FROM (SELECT s, o, g FROM _pg_ripple.vp_rare WHERE p = 4) WHERE s = t0.s)\n\
             ON CONFLICT DO NOTHING"
        )
    );
}

#[test]
fn large_negated_tables_become_antijoins() {
    let r = rule(
        Some(atom(v("x"), c(10), v("y"))),
        vec![BodyLiteral::Positive(atom(v("x"), c(1), v("y"))), BodyLiteral::Negated(atom(v("x"), c(4), v("y")))],
        "r",
    );
    let mut e = env(vec![PredStats { id: 4, triple_count: 9, has_dedicated: false }]);
    e.antijoin_threshold = 5;
    let sql = compile_nonrecursive_rule(&r, "0", "tgt", &e).unwrap();
    assert_eq!(
        sql,
        format!(
            "INSERT INTO tgt (s, o, g)\nSELECT t0.s, t0.o, 0\nFROM {RARE1} t0\n\
             LEFT JOIN (SELECT s, o, g FROM _pg_ripple.vp_rare WHERE p = 4) aj0 ON aj0.s = t0.s AND aj0.o = t0.o\n\
             WHERE aj0.s IS NULL\nON CONFLICT DO NOTHING"
        )
    );
    e.antijoin_threshold = 10;
    let sql = compile_nonrecursive_rule(&r, "0", "tgt", &e).unwrap();
    assert!(sql.contains("NOT EXISTS (SELECT 1 FROM (SELECT s, o, g FROM _pg_ripple.vp_rare WHERE p = 4) WHERE s = t0.s AND o = t0.o)"));
}

#[test]
fn assignments_bind_computed_columns() {
    let r = rule(
        Some(atom(v("x"), c(10), v("z"))),
        vec![
            BodyLiteral::Positive(atom(v("x"), c(1), v("y"))),
            BodyLiteral::Assign("z".to_string(), v("y"), ArithOp::Div, c(2)),
        ],
        "r",
    );
    let sql = compile_nonrecursive_rule(&r, "0", "tgt", &env(vec![])).unwrap();
    assert_eq!(
        sql,
        format!("INSERT INTO tgt (s, o, g)\nSELECT t0.s, (t0.o / NULLIF(2, 0)), 0\nFROM {RARE1} t0\n\nON CONFLICT DO NOTHING")
    );
}

#[test]
fn default_graph_scope_adds_graph_filter() {
    let r = rule(
        Some(atom(v("x"), c(10), v("y"))),
        vec![BodyLiteral::Positive(atom(v("x"), c(1), v("y")))],
        "r",
    );
    let mut e = env(vec![]);
    e.default_graph_only = true;
    let sql = compile_nonrecursive_rule(&r, "0", "tgt", &e).unwrap();
    assert_eq!(sql, format!("INSERT INTO tgt (s, o, g)\nSELECT t0.s, t0.o, 0\nFROM {RARE1} t0\nWHERE t0.g = 0\nON CONFLICT DO NOTHING"));
}

#[test]
fn compile_errors() {
    let e = env(vec![]);
    let var_body = rule(Some(atom(v("x"), c(10), v("y"))), vec![BodyLiteral::Positive(atom(v("x"), v("p"), v("y")))], "r");
    assert_eq!(compile_nonrecursive_rule(&var_body, "0", "t", &e), Err("variable predicate in rule body not supported".to_string()));
    let var_head = rule(Some(atom(v("x"), v("p"), v("y"))), vec![], "r");
    assert_eq!(compile_single_rule_to(&var_head, "t", &e), Err("variable predicate in rule head is not supported".to_string()));
    let constraint = rule(None, vec![BodyLiteral::Positive(atom(v("x"), c(1), v("y")))], "r");
    assert_eq!(compile_single_rule_to(&constraint, "t", &e), Err("cannot compile constraint rule as INSERT".to_string()));
    let unbound = rule(
        Some(atom(v("x"), c(10), v("y"))),
        vec![BodyLiteral::Positive(atom(v("x"), c(1), v("y"))), BodyLiteral::Compare(v("z"), CompareOp::Gt, c(3))],
        "  ?x <10> ?y :- ?x <1> ?y, ?z > 3 .\nsecond line",
    );
    assert_eq!(
        compile_nonrecursive_rule(&unbound, "0", "t", &e),
        Err("unbound variable ?z in comparison in rule '?x <10> ?y :- ?x <1> ?y, ?z > 3 .': every variable in a comparison must be bound by a positive body literal".to_string())
    );
    let head_unbound = rule(Some(atom(v("x"), c(10), v("w"))), vec![BodyLiteral::Positive(atom(v("x"), c(1), v("y")))], "r");
    assert_eq!(compile_nonrecursive_rule(&head_unbound, "0", "t", &e), Err("unbound variable ?w in head".to_string()));
    let neg_var = rule(
        Some(atom(v("x"), c(10), v("y"))),
        vec![BodyLiteral::Positive(atom(v("x"), c(1), v("y"))), BodyLiteral::Negated(atom(v("x"), v("q"), v("y")))],
        "r",
    );
    assert_eq!(compile_nonrecursive_rule(&neg_var, "0", "t", &e), Err("variable predicate in NOT atom not supported".to_string()));
}

#[test]
fn head_text_is_first_trimmed_line() {
    assert_eq!(rule_head_text("  a :- b .\r\nmore"), "a :- b .");
    assert_eq!(rule_head_text(""), "");
}

#[test]
fn cost_order_prefers_small_and_bound_atoms() {
    let body = vec![
        BodyLiteral::Positive(atom(v("x"), c(1), v("y"))),
        BodyLiteral::Compare(v("y"), CompareOp::Lt, c(3)),
        BodyLiteral::Positive(atom(v("y"), c(2), v("z"))),
        BodyLiteral::Positive(atom(c(9), c(1), v("x"))),
    ];
    let mut e = env(vec![
        PredStats { id: 1, triple_count: 1000, has_dedicated: false },
        PredStats { id: 2, triple_count: 50, has_dedicated: false },
    ]);
    assert_eq!(cost_order_atoms(&body, &e), vec![0, 2, 3]);
    e.cost_reorder = true;
    assert_eq!(cost_order_atoms(&body, &e), vec![3, 2, 0]);
    let bound = atom(c(9), c(1), v("x"));
    assert_eq!(atom_cost_of(&bound, &e), 10);
    assert_eq!(atom_cost_of(&atom(v("a"), v("p"), v("b")), &e), i64::MAX);
}

#[test]
fn recursive_rule_cte() {
    let r = rule(
        Some(atom(v("x"), c(10), v("z"))),
        vec![BodyLiteral::Positive(atom(v("x"), c(1), v("y"))), BodyLiteral::Positive(atom(v("y"), c(10), v("z")))],
        "r",
    );
    assert!(is_recursive_rule(&r, 10));
    assert!(!is_recursive_rule(&r, 11));
    let base = format!("SELECT s, o, g FROM {RARE1} ");
    let step = format!("SELECT base.s, r.o, base.g\nFROM {RARE1} base\nJOIN derived_10 r ON r.s = base.o ");
    let tail = "\n)\nCYCLE s, o SET is_cycle USING cycle_path\nINSERT INTO tgt (s, o, g)\nSELECT derived_10.s, derived_10.o, derived_10.g\nFROM derived_10\nWHERE NOT is_cycle\nON CONFLICT DO NOTHING";
    let mut e = env(vec![]);
    assert_eq!(
        compile_single_rule_to(&r, "tgt", &e).unwrap(),
        format!("WITH RECURSIVE derived_10(s, o, g) AS (\n{base}\nUNION\n{step}{tail}")
    );
    e.max_depth = 5;
    let base_d = "SELECT s, o, g, 0 AS depth FROM (SELECT s, o, g, 0 AS depth FROM _pg_ripple.vp_rare WHERE p = 1) ";
    let step_d = format!(
        "SELECT base.s, r.o, base.g, r.depth + 1 AS depth\nFROM {RARE1} base\nJOIN derived_10 r ON r.s = base.o \nWHERE r.depth < 5"
    );
    assert_eq!(
        compile_recursive_rule(&r, 10, "tgt", &e).unwrap(),
        format!("WITH RECURSIVE derived_10(s, o, g, depth) AS (\n{base_d}\nUNION\n{step_d}{tail}")
    );
}

#[test]
fn rule_set_skips_constraints_and_targets_delta_tables() {
    let rules = vec![
        rule(None, vec![BodyLiteral::Positive(atom(v("x"), c(1), v("y")))], "c"),
        rule(Some(atom(v("x"), c(10), v("y"))), vec![BodyLiteral::Positive(atom(v("x"), c(1), v("y")))], "r"),
    ];
    let e = env(vec![]);
    let sqls = compile_rule_set(&rules, &e).unwrap();
    assert_eq!(sqls.len(), 1);
    assert!(sqls[0].starts_with("INSERT INTO _pg_ripple.vp_10_delta (s, o, g)\n"));
    assert_eq!(sqls[0], compile_single_rule(&rules[1], &e).unwrap());
    assert_eq!(vp_table(10), "_pg_ripple.vp_10");
}

#[test]
fn variable_predicates_detected() {
    let r = rule(Some(atom(v("x"), c(10), v("y"))), vec![BodyLiteral::Negated(atom(v("x"), v("p"), v("y")))], "r");
    assert!(has_variable_pred(&r));
    let r = rule(Some(atom(v("x"), c(10), v("y"))), vec![BodyLiteral::Positive(atom(v("x"), c(1), v("y")))], "r");
    assert!(!has_variable_pred(&r));
}

#[test]
fn guard_sql_forms() {
    let mut vm = VarMap::new();
    vm.bind("s", "t0", "o");
    let regex = BodyLiteral::StringBuiltin(StringBuiltin::Regex(v("s"), "it's".to_string()));
    assert_eq!(compile_guard_sql(&regex, &vm), Some("t0.o::text ~ 'it''s'".to_string()));
    let strlen = BodyLiteral::StringBuiltin(StringBuiltin::Strlen(v("s"), CompareOp::Gte, c(3)));
    assert_eq!(compile_guard_sql(&strlen, &vm), Some("LENGTH(t0.o::text) >= 3".to_string()));
    let cmp = BodyLiteral::Compare(v("q"), CompareOp::Neq, Term::Wildcard);
    assert_eq!(compile_guard_sql(&cmp, &vm), Some("NULL /* unbound ?q */ <> NULL".to_string()));
    assert_eq!(build_join_cond("t1", &atom(v("s"), c(1), c(4)), &vm, true), "t1.s = t0.o AND t1.o = 4 AND t1.g = 0");
    assert_eq!(vm.col_ref("s"), Some("t0.o".to_string()));
    vm.bind("s", "t9", "s");
    assert_eq!(vm.col_ref("s"), Some("t0.o".to_string()));
}

use pg_ripple::datalog::compiler::aggregate::compile_aggregate_rule;
use pg_ripple::datalog::compiler::constraint::compile_constraint_check;
use pg_ripple::datalog::compiler::cte::{compile_on_demand_cte, compile_recursive_cte_fragment, compile_select_arm};
use pg_ripple::datalog::compiler::delta::{
    compile_rule_delta_variants, compile_rule_delta_variants_to, compile_rule_with_one_delta_atom,
};
use pg_ripple::datalog::{AggFunc, AggregateLiteral};

#[test]
fn constraint_checks() {
    let e = env(vec![]);
    let r = rule(
        None,
        vec![BodyLiteral::Positive(atom(v("x"), c(1), c(5))), BodyLiteral::Positive(atom(v("x"), c(2), v("y"))), BodyLiteral::Compare(v("y"), CompareOp::Lt, c(0))],
        "r",
    );
    assert_eq!(
        compile_constraint_check(&r, &e).unwrap(),
        format!("SELECT EXISTS (\nSELECT 1 FROM {RARE1} t0\nJOIN {RARE2} t1 ON t1.s = t0.s AND t1.o = t1.o\nWHERE t0.o = 5 AND t1.o < 0\n) AS violated")
    );
    let empty = rule(None, vec![BodyLiteral::Compare(c(1), CompareOp::Eq, c(1))], "r");
    assert_eq!(compile_constraint_check(&empty, &e).unwrap(), "SELECT FALSE AS violated");
    let headed = rule(Some(atom(v("x"), c(3), v("y"))), vec![], "r");
    assert_eq!(compile_constraint_check(&headed, &e), Err("not a constraint rule".to_string()));
    let var_pred = rule(None, vec![BodyLiteral::Positive(atom(v("x"), v("p"), v("y")))], "r");
    assert_eq!(compile_constraint_check(&var_pred, &e), Err("variable predicate in constraint body".to_string()));
}

#[test]
fn delta_variants_one_per_derived_atom() {
    let r = rule(
        Some(atom(v("x"), c(10), v("z"))),
        vec![
            BodyLiteral::Positive(atom(v("x"), c(1), v("y"))),
            BodyLiteral::Compare(v("y"), CompareOp::Gt, c(2)),
            BodyLiteral::Positive(atom(v("y"), c(10), v("z"))),
        ],
        "r",
    );
    let e = env(vec![]);
    let vs = compile_rule_delta_variants_to(&r, &vec![10], "_dl_delta_", Some("_dl_delta_new_"), &e).unwrap();
    assert_eq!(
        vs,
        vec![format!(
            "INSERT INTO _dl_delta_new_10 (s, o, g)\nSELECT t0.s, t1.o, 0\nFROM {RARE1} t0\nJOIN _dl_delta_10 t1 ON t1.s = t0.o AND t1.o = t1.o\nWHERE t0.o > 2\nON CONFLICT DO NOTHING"
        )]
    );
    let both = compile_rule_delta_variants_to(&r, &vec![1, 10], "d_", None, &e).unwrap();
    assert_eq!(both.len(), 2);
    assert_eq!(compile_rule_delta_variants(&r, &vec![1, 10], "d_", &e).unwrap(), both);
    assert!(both[0].starts_with("INSERT INTO _pg_ripple.vp_10_delta (s, o, g)\nSELECT t0.s, t1.o, 0\nFROM d_1 t0\n"));
    assert_eq!(both[1], compile_rule_with_one_delta_atom(&r, "0", "_pg_ripple.vp_10_delta", 1, "d_", &e).unwrap());
    let constraint = rule(None, vec![], "r");
    assert!(compile_rule_delta_variants_to(&constraint, &vec![10], "d_", None, &e).unwrap().is_empty());
}

#[test]
fn aggregate_rule_group_by() {
    let g = AggregateLiteral {
        func: AggFunc::Count,
        agg_var: "y".to_string(),
        atom: atom(v("x"), c(1), v("y")),
        result_var: "n".to_string(),
    };
    let r = rule(Some(atom(v("x"), c(10), v("n"))), vec![BodyLiteral::Aggregate(g)], "r");
    let e = env(vec![]);
    assert_eq!(
        compile_aggregate_rule(&r, "tgt", &e).unwrap(),
        format!(
            "INSERT INTO tgt (s, o, g)\nSELECT t0.s, pg_ripple.encode_term(COUNT(t0.o)::text, 2::smallint), 0\nFROM {RARE1} t0\n\nGROUP BY t0.s\nON CONFLICT DO NOTHING"
        )
    );
    let g2 = AggregateLiteral {
        func: AggFunc::Sum,
        agg_var: "y".to_string(),
        atom: atom(v("y"), c(1), c(4)),
        result_var: "n".to_string(),
    };
    let r2 = rule(Some(atom(v("n"), c(10), v("k"))), vec![BodyLiteral::Aggregate(g2)], "r");
    let mut e2 = env(vec![]);
    e2.default_graph_only = true;
    assert_eq!(
        compile_aggregate_rule(&r2, "tgt", &e2).unwrap(),
        format!(
            "INSERT INTO tgt (s, o, g)\nSELECT pg_ripple.encode_term(SUM(t0.s)::text, 2::smallint), t0.o, 0\nFROM {RARE1} t0\nWHERE t0.g = 0 AND t0.o = 4\nGROUP BY t0.o\nON CONFLICT DO NOTHING"
        )
    );
    let bad = AggregateLiteral { func: AggFunc::Max, agg_var: "q".to_string(), atom: atom(v("x"), c(1), v("y")), result_var: "n".to_string() };
    let r3 = rule(Some(atom(v("x"), c(10), v("n"))), vec![BodyLiteral::Aggregate(bad)], "r");
    assert_eq!(compile_aggregate_rule(&r3, "t", &e), Err("agg_var 'q' not found in atom s or o positions".to_string()));
    let r4 = rule(Some(atom(v("x"), c(10), v("n"))), vec![], "r");
    assert_eq!(compile_aggregate_rule(&r4, "t", &e), Err("no aggregate literal found in rule body".to_string()));
}

#[test]
fn on_demand_ctes() {
    let e = env(vec![]);
    let r1 = rule(Some(atom(v("x"), c(10), v("y"))), vec![BodyLiteral::Positive(atom(v("x"), c(1), v("y")))], "r1");
    let r2 = rule(
        Some(atom(v("x"), c(10), v("z"))),
        vec![BodyLiteral::Positive(atom(v("x"), c(2), v("y"))), BodyLiteral::Positive(atom(v("y"), c(2), v("z")))],
        "r2",
    );
    let arm1 = compile_select_arm(&r1, r1.head.as_ref().unwrap(), &e).unwrap();
    assert_eq!(arm1, format!("SELECT t0.s AS s, t0.o AS o, 0 AS g\nFROM {RARE1} t0"));
    let cte = compile_on_demand_cte(&vec![r1, r2], 10, &e).unwrap();
    assert_eq!(
        cte,
        format!(
            "WITH derived_10(s, o, g) AS (\nSELECT t0.s AS s, t0.o AS o, 0 AS g\nFROM {RARE1} t0\nUNION ALL\nSELECT t0.s AS s, t1.o AS o, 0 AS g\nFROM {RARE2} t0\nJOIN {RARE2} t1 ON t1.s = t0.o AND t1.o = t1.o\n)"
        )
    );
    assert_eq!(compile_on_demand_cte(&vec![], 10, &e), Err("no rules found for predicate 10".to_string()));
    let rec = rule(
        Some(atom(v("x"), c(10), v("z"))),
        vec![BodyLiteral::Positive(atom(v("x"), c(1), v("y"))), BodyLiteral::Positive(atom(v("y"), c(10), v("z")))],
        "rec",
    );
    let frag = format!(
        "WITH RECURSIVE derived_10(s, o, g) AS (\nSELECT s, o, g FROM {RARE1}\nUNION\nSELECT base.s, r.o, base.g\nFROM {RARE1} base\nJOIN derived_10 r ON r.s = base.o \n)\nCYCLE s, o SET is_cycle USING cycle_path"
    );
    assert_eq!(compile_recursive_cte_fragment(&rec, 10, "derived_10", &e).unwrap(), frag);
    assert_eq!(compile_on_demand_cte(&vec![rec], 10, &e).unwrap(), frag);
}
