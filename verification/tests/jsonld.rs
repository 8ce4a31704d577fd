use pg_ripple::export::jsonld::{nt_term_to_jsonld_value, triples_to_jsonld, JsonLdNode, JsonLdValue};

fn lit(v: &str, dt: Option<&str>, lang: Option<&str>) -> (String, Option<String>, Option<String>) {
    (v.to_string(), dt.map(|s| s.to_string()), lang.map(|s| s.to_string()))
}

fn as_lit(v: &JsonLdValue) -> (String, Option<String>, Option<String>) {
    match v {
        JsonLdValue::Literal { value, datatype, language } => (value.clone(), datatype.clone(), language.clone()),
        JsonLdValue::Id(i) => panic!("expected a literal, got @id {i}"),
    }
}

fn as_id(v: &JsonLdValue) -> String {
    match v {
        JsonLdValue::Id(i) => i.clone(),
        JsonLdValue::Literal { value, .. } => panic!("expected an @id, got {value}"),
    }
}

#[test]
fn iri_and_blank_node_values() {
    assert_eq!(as_id(&nt_term_to_jsonld_value("<http://ex.org/a>")), "http://ex.org/a");
    assert_eq!(as_id(&nt_term_to_jsonld_value("_:b0")), "_:b0");
}

#[test]
fn quoted_triple_value() {
    let nt = "<< <a> <b> <c> >>";
    assert_eq!(as_lit(&nt_term_to_jsonld_value(nt)), lit(nt, Some("rdf:Statement"), None));
}

#[test]
fn literal_values() {
    assert_eq!(as_lit(&nt_term_to_jsonld_value("\"plain\"")), lit("plain", None, None));
    assert_eq!(as_lit(&nt_term_to_jsonld_value("\"chat\"@fr")), lit("chat", None, Some("fr")));
    assert_eq!(
        as_lit(&nt_term_to_jsonld_value("\"42\"^^<http://www.w3.org/2001/XMLSchema#integer>")),
        lit("42", Some("http://www.w3.org/2001/XMLSchema#integer"), None)
    );
    assert_eq!(
        as_lit(&nt_term_to_jsonld_value("\"say \\\"hi\\\"\\nnow\\\\\"")),
        lit("say \"hi\"\nnow\\", None, None)
    );
    assert_eq!(as_lit(&nt_term_to_jsonld_value("\"open")), lit("open", None, None));
    assert_eq!(as_lit(&nt_term_to_jsonld_value("42")), lit("42", None, None));
}

fn t(s: &str, p: &str, o: &str) -> (String, String, String) {
    (s.to_string(), p.to_string(), o.to_string())
}

fn keys(n: &JsonLdNode) -> Vec<String> {
    n.properties.iter().map(|(k, _)| k.clone()).collect()
}

#[test]
fn grouped_by_subject_and_predicate() {
    let rows = vec![
        t("<http://ex.org/b>", "<http://ex.org/q>", "\"1\""),
        t("<http://ex.org/a>", "<http://ex.org/r>", "<http://ex.org/c>"),
        t("<http://ex.org/a>", "<http://ex.org/p>", "\"x\"@en"),
        t("<http://ex.org/a>", "<http://ex.org/r>", "_:n"),
        t("_:z", "<http://ex.org/p>", "\"y\""),
    ];
    let doc = triples_to_jsonld(&rows);
    assert_eq!(doc.len(), 3);
    assert_eq!(doc[0].id, "http://ex.org/a");
    assert_eq!(keys(&doc[0]), vec!["http://ex.org/p".to_string(), "http://ex.org/r".to_string()]);
    assert_eq!(as_lit(&doc[0].properties[0].1[0]), lit("x", None, Some("en")));
    let r_vals: Vec<String> = doc[0].properties[1].1.iter().map(as_id).collect();
    assert_eq!(r_vals, vec!["http://ex.org/c".to_string(), "_:n".to_string()]);
    assert_eq!(doc[1].id, "http://ex.org/b");
    assert_eq!(doc[2].id, "_:z");
    assert!(triples_to_jsonld(&[]).is_empty());
}

use pg_ripple::export::jsonld::has_value_object;

#[test]
fn literals_that_run_past_their_end() {
    assert!(has_value_object("\"ok\""));
    assert!(has_value_object("\"open"));
    assert!(has_value_object("<a>"));
    assert!(!has_value_object("\"bad\\"));
    assert!(has_value_object("\"fine\\\\\""));
}
