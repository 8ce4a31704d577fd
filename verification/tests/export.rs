use pg_ripple::export::turtle::{
    export_turtle, export_turtle_impl, export_turtle_with_confidence_impl, triples_to_turtle, KeyedTriple,
};
use pg_ripple::export::{
    emit_turtle_prefixes, export_nquads, export_ntriples, export_turtle_stream, graph_iri, nt_term_to_turtle,
    safe_nt_term, validate_bnode_label, QuadText, TripleText,
};
use pg_ripple::text::split_lines;

fn t(s: &str, p: &str, o: &str) -> TripleText {
    TripleText { s: s.to_string(), p: p.to_string(), o: o.to_string() }
}

fn k(s_id: i64, s: &str, p_id: i64, p: &str, o: &str) -> KeyedTriple {
    KeyedTriple { s_id, s: s.to_string(), p_id, p: p.to_string(), o: o.to_string() }
}

fn hashed(label: &str) -> String {
    format!("_:b{}", xxhash_rust::xxh3::xxh3_64(label.as_bytes()))
}

#[test]
fn encoder_bnode_labels_pass_unchanged() {
    assert_eq!(validate_bnode_label("_:b42"), "_:b42");
    assert_eq!(validate_bnode_label("_:a.b-c_1"), "_:a.b-c_1");
    assert_eq!(validate_bnode_label("_:_x"), "_:_x");
}

#[test]
fn nonconformant_bnode_labels_are_hashed() {
    assert_eq!(validate_bnode_label("_:bad label"), hashed("bad label"));
    assert_eq!(validate_bnode_label("_:.dot"), hashed(".dot"));
    assert_eq!(validate_bnode_label("_:h\u{e9}llo"), hashed("h\u{e9}llo"));
    assert_eq!(validate_bnode_label("_:"), hashed("_:"));
}

#[test]
fn hashed_labels_validate_unchanged() {
    let once = validate_bnode_label("_:bad label");
    assert_eq!(validate_bnode_label(&once), once);
}

#[test]
fn safe_terms_touch_only_blank_nodes() {
    assert_eq!(safe_nt_term("<http://ex.org/a>"), "<http://ex.org/a>");
    assert_eq!(safe_nt_term("\"x y\"@en"), "\"x y\"@en");
    assert_eq!(safe_nt_term("_:x y"), hashed("x y"));
    assert_eq!(nt_term_to_turtle("<< <a> <b> <c> >>"), "<< <a> <b> <c> >>");
}

#[test]
fn graph_argument_brackets() {
    assert_eq!(graph_iri("<http://g>"), "http://g");
    assert_eq!(graph_iri("http://g"), "http://g");
    assert_eq!(graph_iri("<"), "<");
    assert_eq!(graph_iri("<>"), "");
}

#[test]
fn ntriples_lines() {
    let rows = vec![t("<a>", "<p>", "\"x\""), t("_:b1", "<q>", "_:no good")];
    assert_eq!(
        export_ntriples(&rows),
        format!("<a> <p> \"x\" .\n_:b1 <q> {} .\n", hashed("no good"))
    );
    assert_eq!(export_ntriples(&vec![]), "");
}

#[test]
fn nquads_graph_only_for_named_graphs() {
    let rows = vec![
        QuadText { s: "<a>".into(), p: "<p>".into(), o: "<b>".into(), g_id: 0, g: "<ignored>".into() },
        QuadText { s: "<a>".into(), p: "<p>".into(), o: "<c>".into(), g_id: 5, g: "<http://g>".into() },
    ];
    assert_eq!(export_nquads(&rows), "<a> <p> <b> .\n<a> <p> <c> <http://g> .\n");
}

#[test]
fn turtle_prefix_block() {
    let prefixes = vec![
        ("ex".to_string(), "http://ex.org/".to_string()),
        ("foaf".to_string(), "http://xmlns.com/foaf/0.1/".to_string()),
    ];
    assert_eq!(
        emit_turtle_prefixes(&prefixes),
        "@prefix ex: <http://ex.org/> .\n@prefix foaf: <http://xmlns.com/foaf/0.1/> .\n\n"
    );
    assert_eq!(emit_turtle_prefixes(&vec![]), "");
}

#[test]
fn turtle_stream_lines() {
    let prefixes = vec![("ex".to_string(), "http://ex.org/".to_string())];
    let rows = vec![t("<a>", "<p>", "\"x\""), t("<b>", "<q>", "<c>")];
    assert_eq!(
        export_turtle_stream(&prefixes, &rows),
        vec!["@prefix ex: <http://ex.org/> .", "", "<a> <p> \"x\" .", "<b> <q> <c> ."]
    );
    assert_eq!(export_turtle_stream(&vec![], &rows), vec!["<a> <p> \"x\" .", "<b> <q> <c> ."]);
}

#[test]
fn lines_as_str_lines() {
    assert_eq!(split_lines("a\r\nb\n\nc\r"), vec!["a", "b", "", "c\r"]);
    assert_eq!(split_lines("x\n"), vec!["x"]);
    assert!(split_lines("").is_empty());
}

#[test]
fn turtle_groups_by_subject_and_predicate_keys() {
    let rows = vec![
        k(2, "<b>", 10, "<p>", "\"1\""),
        k(1, "<a>", 11, "<q>", "\"2\""),
        k(1, "<a>", 10, "<p>", "\"3\""),
        k(1, "<a>", 10, "<p>", "\"4\""),
    ];
    let expected = "<a>\n    <p> \"3\" ,\n        \"4\" ;\n    <q> \"2\" .\n\n<b>\n    <p> \"1\" .\n\n";
    assert_eq!(export_turtle(&vec![], &rows), expected);
    let prefixes = vec![("ex".to_string(), "http://ex.org/".to_string())];
    let with_prefix = format!("@prefix ex: <http://ex.org/> .\n\n{expected}");
    assert_eq!(export_turtle(&prefixes, &rows), with_prefix);
    assert_eq!(export_turtle_impl(&prefixes, &rows), with_prefix);
    assert_eq!(export_turtle_with_confidence_impl(&prefixes, &rows, &vec![None, None, None, None]), with_prefix);
}

#[test]
fn turtle_with_confidence_annotates_objects() {
    let rows = vec![k(1, "<a>", 10, "<p>", "\"3\""), k(1, "<a>", 10, "<p>", "\"4\"")];
    let out = export_turtle_with_confidence_impl(&vec![], &rows, &vec![Some("0.9".to_string()), None]);
    assert_eq!(
        out,
        "<a>\n    <p> \"3\" {| <http://pg-ripple.org/ns/confidence> \"0.9\"^^<http://www.w3.org/2001/XMLSchema#double> |} ,\n        \"4\" .\n\n"
    );
}

#[test]
fn turtle_orders_by_key_not_text() {
    let rows = vec![k(5, "<a>", 1, "<z>", "1"), k(3, "<z>", 2, "<a>", "2")];
    assert_eq!(export_turtle(&vec![], &rows), "<z>\n    <a> 2 .\n\n<a>\n    <z> 1 .\n\n");
    assert_eq!(export_turtle(&vec![], &vec![]), "");
}

#[test]
fn construct_rows_to_turtle() {
    let triples = vec![
        ("<b>".to_string(), "<p>".to_string(), "1".to_string()),
        ("<a>".to_string(), "<q>".to_string(), "2".to_string()),
        ("<a>".to_string(), "<p>".to_string(), "3".to_string()),
        ("<a>".to_string(), "<p>".to_string(), "4".to_string()),
    ];
    assert_eq!(
        triples_to_turtle(&triples),
        "<a>\n    <p> 3 ,\n        4 ;\n    <q> 2 .\n\n<b>\n    <p> 1 .\n\n"
    );
    assert_eq!(triples_to_turtle(&[]), "");
}

#[test]
fn construct_rows_text_order() {
    let triples = vec![
        ("<ab>".to_string(), "<p>".to_string(), "1".to_string()),
        ("<a>".to_string(), "<p>".to_string(), "2".to_string()),
        ("<B>".to_string(), "<p>".to_string(), "3".to_string()),
    ];
    assert_eq!(
        triples_to_turtle(&triples),
        "<B>\n    <p> 3 .\n\n<a>\n    <p> 2 .\n\n<ab>\n    <p> 1 .\n\n"
    );
}

#[test]
fn turtle_from_triples_ignores_interleaving() {
    let t = |s: &str, p: &str, o: &str| (s.to_string(), p.to_string(), o.to_string());
    let a = vec![t("<b>", "<p>", "1"), t("<a>", "<q>", "2"), t("<b>", "<p>", "3"), t("<a>", "<p>", "4")];
    let b = vec![t("<a>", "<p>", "4"), t("<b>", "<p>", "1"), t("<a>", "<q>", "2"), t("<b>", "<p>", "3")];
    assert_eq!(triples_to_turtle(&a), triples_to_turtle(&b));
    assert_eq!(triples_to_turtle(&a), "<a>\n    <p> 4 ;\n    <q> 2 .\n\n<b>\n    <p> 1 ,\n        3 .\n\n");
}
