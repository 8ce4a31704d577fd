use pg_ripple::datalog::magic::{
    build_magic_filtered_seed_sql, goal_where_clause, parse_goal, prefix_form, run_infer_goal,
    split_typed_literal, strip_iri_brackets, tokenize_goal, GoalPattern, GoalPlan, GoalTerm, PrefixForm,
};

#[test]
fn goal_with_variables_and_iri() {
    let terms = parse_goal("?x <http://ex.org/p> ?y").unwrap();
    assert_eq!(terms.len(), 3);
    assert!(matches!(&terms[0], GoalTerm::Variable(v) if v == "?x"));
    assert!(matches!(&terms[1], GoalTerm::Iri(v) if v == "<http://ex.org/p>"));
    assert!(matches!(&terms[2], GoalTerm::Variable(v) if v == "?y"));
}

#[test]
fn goal_with_prefixed_name_and_literal() {
    let terms = parse_goal("  ex:a  foaf:name \"Alice Smith\"@en ").unwrap();
    assert!(matches!(&terms[0], GoalTerm::Iri(v) if v == "ex:a"));
    assert!(matches!(&terms[1], GoalTerm::Iri(v) if v == "foaf:name"));
    assert!(matches!(&terms[2], GoalTerm::Literal(v) if v == "\"Alice Smith\"@en"));
}

#[test]
fn goal_with_typed_literal() {
    let toks = tokenize_goal("?s ex:age \"42\"^^<http://www.w3.org/2001/XMLSchema#integer>").unwrap();
    assert_eq!(
        toks,
        vec![
            "?s".to_string(),
            "ex:age".to_string(),
            "\"42\"^^<http://www.w3.org/2001/XMLSchema#integer>".to_string()
        ]
    );
}

#[test]
fn goal_with_escaped_quote_in_literal() {
    let toks = tokenize_goal("?s ?p \"say \\\"hi\\\"\"").unwrap();
    assert_eq!(toks[2], "\"say \\\"hi\\\"\"");
}

#[test]
fn goal_arity_error_lists_tokens() {
    let e = parse_goal("?x ?y").unwrap_err();
    assert_eq!(e, "magic sets: goal must have exactly 3 terms (s p o), got 2: [\"?x\", \"?y\"]");
    let e = parse_goal("?a ?b ?c ?d").unwrap_err();
    assert!(e.starts_with("magic sets: goal must have exactly 3 terms (s p o), got 4: "));
}

#[test]
fn prefix_forms() {
    assert!(matches!(prefix_form("<http://x/y>"), PrefixForm::Full(v) if v == "http://x/y"));
    assert!(matches!(prefix_form("foaf:name"), PrefixForm::Prefixed(p, l) if p == "foaf" && l == "name"));
    assert!(matches!(prefix_form("plain"), PrefixForm::Plain));
}

#[test]
fn typed_literal_split() {
    let (v, d) = split_typed_literal("\"42\"^^<http://www.w3.org/2001/XMLSchema#integer>").unwrap();
    assert_eq!(v, "42");
    assert_eq!(d, "http://www.w3.org/2001/XMLSchema#integer");
    assert!(split_typed_literal("\"plain\"@en").is_none());
}

#[test]
fn iri_brackets_removed() {
    assert_eq!(strip_iri_brackets("<http://x/y>"), "http://x/y");
    assert_eq!(strip_iri_brackets("http://x/y"), "http://x/y");
}

#[test]
fn infer_goal_path_choice() {
    let bound = GoalPattern { s: None, p: Some(7), o: None };
    let free = GoalPattern { s: Some(1), p: None, o: None };
    assert_eq!(run_infer_goal(true, &bound), GoalPlan::Magic(7));
    assert_eq!(run_infer_goal(false, &bound), GoalPlan::Full);
    assert_eq!(run_infer_goal(true, &free), GoalPlan::Full);
    assert!(GoalPattern { s: None, p: None, o: None }.is_unconstrained());
    assert!(!bound.is_unconstrained());
}

#[test]
fn seed_filter_without_where() {
    let base = "INSERT INTO t (s, o, g)\nSELECT a, b, 0\nFROM x\n\nON CONFLICT DO NOTHING";
    let goal = GoalPattern { s: Some(5), p: Some(9), o: None };
    assert_eq!(
        build_magic_filtered_seed_sql(base, &goal),
        "INSERT INTO t (s, o, g)\nSELECT a, b, 0\nFROM x\nWHERE s = 5\nON CONFLICT DO NOTHING"
    );
}

#[test]
fn seed_filter_with_where_and_no_bindings() {
    let base = "INSERT INTO t (s, o, g)\nSELECT a, b, 0\nFROM x\nWHERE a.o = 3\nON CONFLICT DO NOTHING";
    let goal = GoalPattern { s: Some(5), p: None, o: Some(6) };
    assert_eq!(
        build_magic_filtered_seed_sql(base, &goal),
        "INSERT INTO t (s, o, g)\nSELECT a, b, 0\nFROM x\nWHERE a.o = 3\n  AND s = 5 AND o = 6\nON CONFLICT DO NOTHING"
    );
    let free = GoalPattern { s: None, p: Some(1), o: None };
    assert_eq!(build_magic_filtered_seed_sql(base, &free), base);
}

#[test]
fn goal_count_where_clause() {
    let goal = GoalPattern { s: Some(1), p: Some(2), o: Some(3) };
    assert_eq!(goal_where_clause(&goal, true), "WHERE p = 2 AND s = 1 AND o = 3");
    assert_eq!(goal_where_clause(&goal, false), "WHERE s = 1 AND o = 3");
    let free = GoalPattern { s: None, p: None, o: None };
    assert_eq!(goal_where_clause(&free, true), "");
}

use pg_ripple::datalog::magic::{goal_count_queries, goal_validation_mode, unknown_goal_message, GoalValidation};

#[test]
fn goal_count_queries_by_binding() {
    let g = GoalPattern { s: Some(3), p: Some(9), o: None };
    assert_eq!(
        goal_count_queries(&g, true),
        vec![
            "SELECT count(*) FROM _pg_ripple.vp_9 WHERE s = 3".to_string(),
            "SELECT count(*) FROM _pg_ripple.vp_rare WHERE p = 9 AND s = 3".to_string(),
        ]
    );
    assert_eq!(goal_count_queries(&g, false), vec!["SELECT count(*) FROM _pg_ripple.vp_rare WHERE p = 9 AND s = 3".to_string()]);
    let free = GoalPattern { s: None, p: None, o: None };
    assert_eq!(goal_count_queries(&free, true), vec!["SELECT count(*) FROM _pg_ripple.vp_rare ".to_string()]);
}

#[test]
fn goal_validation_modes() {
    assert_eq!(goal_validation_mode(Some("OFF")), GoalValidation::Off);
    assert_eq!(goal_validation_mode(Some("Error")), GoalValidation::Error);
    assert_eq!(goal_validation_mode(Some("loud")), GoalValidation::Warn);
    assert_eq!(goal_validation_mode(None), GoalValidation::Warn);
}

#[test]
fn unknown_goal_messages() {
    assert_eq!(
        unknown_goal_message("<http://ex.org/p>", Some("rs"), &vec!["<a>".to_string(), "<b>".to_string()]),
        "goal predicate <http://ex.org/p> is not derived by any rule in rule set 'rs' and does not exist as a base predicate — the result will always be empty; hint: derived predicates in rule set 'rs': <a>, <b>"
    );
    assert!(unknown_goal_message("<p>", Some("rs"), &vec![]).ends_with("hint: rule set 'rs' has no active derived predicates"));
    assert!(unknown_goal_message("<p>", None, &vec![])
        .contains("rule set '<none>' and does not exist as a base predicate — the result will always be empty; hint: no rule set specified; check the goal predicate spelling"));
}

use pg_ripple::datalog::compiler::CompileEnv;
use pg_ripple::datalog::magic::{goal_seed_statement, magic_table_name, magic_table_setup_sql};
use pg_ripple::datalog::seminaive::{goal_seed_statements, magic_limit_message};
use pg_ripple::datalog::{Atom, BodyLiteral, Rule, Term};

fn plain_env() -> CompileEnv {
    CompileEnv {
        stats: vec![],
        cost_reorder: false,
        bound_so_divisor: 1000,
        bound_s_divisor: 100,
        antijoin_threshold: 0,
        default_graph_only: false,
        max_depth: 0,
    }
}

fn copy_rule(head_p: i64, body_p: i64) -> Rule<i64> {
    Rule {
        head: Some(Atom { s: Term::Var("x".into()), p: Term::Const(head_p), o: Term::Var("y".into()), g: Term::DefaultGraph }),
        body: vec![BodyLiteral::Positive(Atom {
            s: Term::Var("x".into()),
            p: Term::Const(body_p),
            o: Term::Var("y".into()),
            g: Term::DefaultGraph,
        })],
        rule_text: format!("r{head_p}"),
        weight: None,
    }
}

#[test]
fn magic_table_names_are_sanitized() {
    assert_eq!(magic_table_name("my-rules v2", 42), "_magic_my_rules_v2_42");
    assert_eq!(magic_table_name("règles", -1), "_magic_règles__1");
}

#[test]
fn magic_table_statements() {
    let g = GoalPattern { s: Some(5), p: Some(9), o: None };
    assert_eq!(
        magic_table_setup_sql("_magic_rs_9", &g),
        vec![
            "DROP TABLE IF EXISTS _magic_rs_9".to_string(),
            "CREATE TEMP TABLE _magic_rs_9 (s BIGINT, o BIGINT, UNIQUE (s, o))".to_string(),
            "INSERT INTO _magic_rs_9 (s, o) VALUES (5, NULL) ON CONFLICT DO NOTHING".to_string(),
        ]
    );
    assert_eq!(magic_limit_message("rs"), "magic sets: reached max iteration limit (10000) for rule set 'rs'");
}

#[test]
fn goal_directed_seed() {
    let g = GoalPattern { s: Some(5), p: Some(10), o: None };
    let (sql, err) = goal_seed_statement(&copy_rule(10, 1), "_dl_delta_10", &g, &plain_env());
    assert!(err.is_none());
    assert!(sql.starts_with("INSERT INTO _dl_delta_10 (s, o, g)"));
    assert!(sql.contains("s = 5"));
    let rules = vec![copy_rule(10, 11), copy_rule(11, 1)];
    let out = goal_seed_statements(&rules, &vec![10, 11], 10, &g, &plain_env());
    assert_eq!(out.statements.len(), 2);
    assert!(out.statements[0].contains("s = 5"));
    assert!(!out.statements[1].contains("s = 5"));
    assert!(out.errors.is_empty());
}

#[test]
fn tokenize_goal_refuses_more_than_three_terms() {
    let e = tokenize_goal("?s <p> ?o <g>").unwrap_err();
    assert_eq!(e, "magic sets: goal must have exactly 3 terms (s p o), got 4: [\"?s\", \"<p>\", \"?o\", \"<g>\"]");
    assert_eq!(tokenize_goal("?s <p>").unwrap(), vec!["?s".to_string(), "<p>".to_string()]);
}
