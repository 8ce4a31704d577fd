use pg_ripple::builtins::{get_builtin_rules, standard_prefixes};

#[test]
fn test_rdfs_rules_not_empty() {
    let rules = get_builtin_rules("rdfs").unwrap();
    assert!(!rules.is_empty());
    assert!(rules.contains("rdfs:subClassOf"));
}

#[test]
fn test_owl_rl_rules_not_empty() {
    let rules = get_builtin_rules("owl-rl").unwrap();
    assert!(!rules.is_empty());
    assert!(rules.contains("owl:TransitiveProperty"));
}

#[test]
fn test_owl_el_rules_not_empty() {
    let rules = get_builtin_rules("owl-el").unwrap();
    assert!(!rules.is_empty());
    assert!(rules.contains("owl:someValuesFrom"));
    assert!(rules.contains("owl:intersectionOf"));
}

#[test]
fn test_owl_ql_rules_not_empty() {
    let rules = get_builtin_rules("owl-ql").unwrap();
    assert!(!rules.is_empty());
    assert!(rules.contains("owl:inverseOf"));
    assert!(rules.contains("owl:disjointWith"));
}

#[test]
fn test_unknown_rule_set() {
    let result = get_builtin_rules("nonexistent");
    assert!(result.is_err());
    assert!(result.unwrap_err().contains("unknown built-in rule set"));
}

#[test]
fn test_skos_rules_not_empty() {
    let rules = get_builtin_rules("skos").unwrap();
    assert!(!rules.is_empty());
    assert!(rules.contains("skos:broaderTransitive"));
    assert!(rules.contains("skos:related"));
    assert!(rules.contains("skos:exactMatch"));
}

#[test]
fn test_skos_transitive_rules() {
    let rules = get_builtin_rules("skos-transitive").unwrap();
    assert!(!rules.is_empty());
    assert!(rules.contains("skos:broaderTransitive"));
    assert!(rules.contains("skos:exactMatch"));
}

#[test]
fn test_skosxl_rules_not_empty() {
    let rules = get_builtin_rules("skosxl").unwrap();
    assert!(!rules.is_empty());
    assert!(rules.contains("skosxl:prefLabel"));
    assert!(rules.contains("skosxl:literalForm"));
}

#[test]
fn test_register_standard_prefixes_includes_skos() {
    // Just verify the static structures compile; SPI is not available in unit tests.
    // The actual DB-side registration is covered by pg_regress.
    let skos_rules = get_builtin_rules("skos").unwrap();
    assert!(skos_rules.contains("skos:"));
}

// v0.99.0: DCTERMS, Schema.org, FOAF rule sets

#[test]
fn test_dcterms_rules_not_empty() {
    let rules = get_builtin_rules("dcterms").unwrap();
    assert!(!rules.is_empty());
    assert!(rules.contains("dcterms:isPartOf"));
    assert!(rules.contains("dc11:creator"));
}

#[test]
fn test_dcterms_integrity_rules_not_empty() {
    let rules = get_builtin_rules("dcterms-integrity").unwrap();
    assert!(!rules.is_empty());
    assert!(rules.contains("DCTERMS-IC-01"));
}

#[test]
fn test_schema_rules_not_empty() {
    let rules = get_builtin_rules("schema").unwrap();
    assert!(!rules.is_empty());
    assert!(rules.contains("schema:Organization"));
    assert!(rules.contains("schema:hasPart"));
}

#[test]
fn test_schema_integrity_rules_not_empty() {
    let rules = get_builtin_rules("schema-integrity").unwrap();
    assert!(!rules.is_empty());
    assert!(rules.contains("SCHEMA-IC-01"));
}

#[test]
fn test_foaf_rules_not_empty() {
    let rules = get_builtin_rules("foaf").unwrap();
    assert!(!rules.is_empty());
    assert!(rules.contains("foaf:knows"));
    assert!(rules.contains("foaf:Agent"));
}

#[test]
fn test_foaf_integrity_rules_not_empty() {
    let rules = get_builtin_rules("foaf-integrity").unwrap();
    assert!(!rules.is_empty());
    assert!(rules.contains("FOAF-IC-01"));
}

#[test]
fn test_unknown_rule_set_updated_message() {
    let result = get_builtin_rules("nonexistent");
    assert!(result.is_err());
    let msg = result.unwrap_err();
    assert!(msg.contains("unknown built-in rule set"));
    assert!(msg.contains("dcterms"));
    assert!(msg.contains("foaf"));
}

#[test]
fn standard_prefixes_cover_builtin_vocabularies() {
    let prefixes = standard_prefixes();
    assert_eq!(prefixes.len(), 11);
    assert!(prefixes.contains(&("skos", "http://www.w3.org/2004/02/skos/core#")));
    assert!(prefixes.contains(&("foaf", "http://xmlns.com/foaf/0.1/")));
}

#[test]
fn unknown_rule_set_message_names_the_set() {
    let msg = get_builtin_rules("bogus").unwrap_err();
    assert!(msg.starts_with("unknown built-in rule set 'bogus'; valid values: rdfs"));
    assert!(msg.ends_with("foaf-integrity"));
}
