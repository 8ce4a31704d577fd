use pg_ripple::error::{
    DatalogAggError, DatalogOptError, DictionaryError, EmbeddingError, LatticeError, LlmError,
    NsrlEvaluationError, ShAFError, StorageError, WfsError,
};

#[test]
fn error_messages() {
    assert_eq!(DictionaryError::TermTooLong { len: 70000 }.message(), "term too long: 70000 bytes (max 65535)");
    assert_eq!(StorageError::PredicateNotFound { id: -5 }.message(), "predicate not found in catalog: id=-5");
    assert_eq!(
        EmbeddingError::DimensionMismatch { expected: 1536, got: 768 }.message(),
        "embedding dimension mismatch: expected 1536 dimensions (pg_ripple.embedding_dimensions), got 768"
    );
    assert_eq!(
        EmbeddingError::ApiRequestFailed { status: 503, detail: "busy".to_owned() }.message(),
        "embedding API request failed (HTTP 503): busy"
    );
    assert_eq!(
        DatalogOptError::MagicSetsCircularBinding { goal: "g".to_owned(), rule_set: "rs".to_owned() }.message(),
        "magic sets transformation failed for goal 'g': circular binding pattern detected in rule set 'rs'; falling back to full materialization (PT501)"
    );
    assert!(DatalogAggError::UnsupportedAggFunc { func: "MEDIAN".to_owned(), rule_text: "r".to_owned() }
        .message()
        .ends_with("supported functions are COUNT, SUM, MIN, MAX, AVG (PT511)"));
    assert_eq!(
        WfsError::FixpointNotConverged { rule_set: "rs".to_owned(), max_iter: 100 }.message(),
        "well-founded fixpoint did not converge within 100 iterations for rule set 'rs'; results may be incomplete (PT520)"
    );
    assert!(LlmError::NonSparqlResponse { raw: "hi".to_owned() }.message().ends_with("raw response: hi"));
    assert_eq!(
        ShAFError::ShAFRuleUnsupported { count: 2 }.message(),
        "SHACL-AF sh:rule detected but not compiled (PT480): 2 rule(s) found; set pg_ripple.inference_mode to 'on_demand' to enable compilation"
    );
    assert_eq!(NsrlEvaluationError::RuleNotFound { rule_id: 42 }.message(), "explain_rule: rule 42 not found (PT0462)");
    assert!(LatticeError::FixpointNotConverged { lattice: "min".to_owned() }.message().contains("lattice 'min'"));
}
