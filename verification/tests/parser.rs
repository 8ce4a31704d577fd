use pg_ripple::datalog::parser::{
    extract_weight_annotation, find_neck, parse_body_literal, parse_rules, split_body, split_literal,
    tokenize_rules, tokenize_terms, try_parse_comparison, unescape_chars,
};
use pg_ripple::datalog::{BodyLiteral, CompareOp, ConstText, Term};

fn chars(s: &str) -> Vec<char> {
    s.chars().collect()
}

#[test]
fn test_tokenize_simple() {
    let text = "?x <p> ?y :- ?x <q> ?z . ?a <b> ?c :- ?d <e> ?f .";
    let rules = tokenize_rules(text);
    assert_eq!(rules.len(), 2);
}

#[test]
fn test_tokenize_with_literal() {
    let text = r#"?x <p> "hello.world" :- ?x <q> ?z ."#;
    let rules = tokenize_rules(text);
    assert_eq!(rules.len(), 1, "dot inside literal should not split");
}

#[test]
fn test_tokenize_comment() {
    let text = "# this is a comment\n?x <p> ?y :- ?x <q> ?z .";
    let rules = tokenize_rules(text);
    assert_eq!(rules.len(), 1);
}

#[test]
fn test_find_neck() {
    let rule = "?x <p> ?y :- ?x <q> ?z";
    let pos = find_neck(rule).unwrap();
    assert_eq!(&rule[pos..pos + 2], ":-");
}

#[test]
fn test_parse_comparison() {
    let lit = "?a > 18";
    let result = try_parse_comparison(&chars(lit));
    assert!(result.is_some());
    if let Some(BodyLiteral::Compare(_, op, _)) = result {
        assert_eq!(op, CompareOp::Gt);
    }
}

#[test]
fn test_split_body_simple() {
    let body = "?x <p> ?y, ?y <q> ?z";
    let parts = split_body(body);
    assert_eq!(parts.len(), 2);
}

#[test]
fn tokenize_rules_keeps_dot_inside_iri() {
    let rules = tokenize_rules("?x <http://a.b/p> ?y :- ?x <q> ?y .");
    assert_eq!(rules, vec!["?x <http://a.b/p> ?y :- ?x <q> ?y".to_string()]);
}

#[test]
fn find_neck_missing_is_an_error() {
    let e = find_neck("?x <p> ?y").unwrap_err();
    assert_eq!(e, "missing ':-' in rule: ?x <p> ?y");
}

#[test]
fn find_neck_skips_neck_inside_literal() {
    let rule = r#"?x <p> ":-" :- ?x <q> ?z"#;
    let pos = find_neck(rule).unwrap();
    assert_eq!(pos, 12);
}

#[test]
fn split_body_respects_brackets() {
    let parts = split_body("COUNT(?y WHERE ?x <p> ?y) = ?n, ?x <q> ?z");
    assert_eq!(parts, vec!["COUNT(?y WHERE ?x <p> ?y) = ?n".to_string(), "?x <q> ?z".to_string()]);
}

#[test]
fn parse_rules_simple_rule() {
    let rs = parse_rules("?x <p> ?y :- ?x <q> ?y .", "test").unwrap();
    assert_eq!(rs.name, "test");
    assert_eq!(rs.rules.len(), 1);
    let r = &rs.rules[0];
    assert_eq!(r.rule_text, "?x <p> ?y :- ?x <q> ?y .");
    assert!(r.weight.is_none());
    let head = r.head.as_ref().unwrap();
    assert!(matches!(&head.s, Term::Var(v) if v == "x"));
    assert!(matches!(&head.p, Term::Const(ConstText::Iri(i)) if i == "p"));
    assert_eq!(r.body.len(), 1);
    assert!(matches!(&r.body[0], BodyLiteral::Positive(_)));
}

#[test]
fn parse_rules_constraint_and_negation() {
    let rs = parse_rules(":- ?x <p> ?y, NOT ?y <q> ?x .", "c").unwrap();
    let r = &rs.rules[0];
    assert!(r.head.is_none());
    assert_eq!(r.body.len(), 2);
    assert!(matches!(&r.body[1], BodyLiteral::Negated(_)));
}

#[test]
fn parse_rules_reports_line_numbers() {
    let e = match parse_rules("?x <p> ?y :- ?x <q> ?y . ?x <p> ?y . ?a <b> ?c", "bad") {
        Err(e) => e,
        Ok(_) => panic!("expected an error"),
    };
    assert_eq!(
        e,
        "line 2: missing ':-' in rule: ?x <p> ?y; line 3: missing ':-' in rule: ?a <b> ?c"
    );
}

#[test]
fn parse_rules_weight_annotation_is_split_off() {
    let rs = parse_rules("?x <p> ?y :- ?x <q> ?y @weight( 1 ) .", "w").unwrap();
    let r = &rs.rules[0];
    assert_eq!(r.weight.as_deref(), Some("1"));
    assert_eq!(r.rule_text, "?x <p> ?y :- ?x <q> ?y .");
}

#[test]
fn extract_weight_with_fraction() {
    let (body, w) = extract_weight_annotation(&chars("?x <p> ?y :- ?x <q> ?y @weight(0.85)"));
    assert_eq!(body, chars("?x <p> ?y :- ?x <q> ?y "));
    assert_eq!(w, Some(chars("0.85")));
}

#[test]
fn extract_weight_without_annotation() {
    let (body, w) = extract_weight_annotation(&chars("?x <p> ?y :- ?x <q> ?y"));
    assert_eq!(body, chars("?x <p> ?y :- ?x <q> ?y"));
    assert!(w.is_none());
}

#[test]
fn body_literal_comparison_and_assign() {
    let l = parse_body_literal(&chars("?a <= 3")).unwrap();
    assert!(matches!(l, BodyLiteral::Compare(_, CompareOp::Lte, _)));
    let l = parse_body_literal(&chars("?z IS ?x + ?y")).unwrap();
    assert!(matches!(l, BodyLiteral::Assign(..)));
}

#[test]
fn body_literal_aggregate() {
    let l = parse_body_literal(&chars("COUNT(?y WHERE ?x <p> ?y) = ?n")).unwrap();
    match l {
        BodyLiteral::Aggregate(a) => {
            assert_eq!(a.agg_var, "y");
            assert_eq!(a.result_var, "n");
        }
        _ => panic!("expected an aggregate"),
    }
}

#[test]
fn body_literal_temporal_and_builtin() {
    let l = parse_body_literal(&chars("AFTER('2025-01-01'::timestamptz)")).unwrap();
    assert!(matches!(l, BodyLiteral::TemporalFilter(_)));
    let l = parse_body_literal(&chars("pg:levenshtein(?a, ?b) < 3")).unwrap();
    assert!(matches!(l, BodyLiteral::StringBuiltin(_)));
}

#[test]
fn find_neck_gives_a_byte_position() {
    let rule = "?é <p> ?y :- ?x <q> ?z";
    let pos = find_neck(rule).unwrap();
    assert_eq!(pos, 11);
    assert_eq!(&rule[pos..pos + 2], ":-");
}

#[test]
fn tokenize_terms_keeps_a_quoted_triple_whole() {
    let toks: Vec<String> = tokenize_terms(&chars("<< <a> <b> <c> >> <p> ?o"))
        .into_iter()
        .map(|t| t.into_iter().collect())
        .collect();
    assert_eq!(toks, vec!["<< <a> <b> <c> >>".to_string(), "<p>".to_string(), "?o".to_string()]);
}

#[test]
fn unescape_reads_escapes_left_to_right() {
    let out: String = unescape_chars(&chars(r"a\\n")).into_iter().collect();
    assert_eq!(out, r"a\n");
    let out: String = unescape_chars(&chars(r#"q\"x\ty\z"#)).into_iter().collect();
    assert_eq!(out, "q\"x\ty\\z");
}

#[test]
fn split_literal_round_trips_an_escaped_value() {
    let value = "a\\n \"b\"\n";
    let text = format!("\"{}\"@en", pg_ripple::dictionary::escape_literal(value));
    let (v, rest) = split_literal(&chars(&text)).unwrap();
    assert_eq!(v.into_iter().collect::<String>(), value);
    assert_eq!(rest.into_iter().collect::<String>(), "@en");
}
