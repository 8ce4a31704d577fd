use pg_ripple::resolution::{
    confusion_counts, er_blocking_template, er_blocking_templates, rate_limit_message, resolution_step, ResolutionStep,
};

#[test]
fn blocking_templates() {
    let all = er_blocking_templates();
    let names: Vec<&str> = all.iter().map(|t| t.0.as_str()).collect();
    assert_eq!(names, vec!["email", "postal_name", "name_prefix"]);
    assert_eq!(
        er_blocking_template("email").unwrap(),
        "?x <http://www.w3.org/2002/07/owl#sameAs> ?y :- ?x <https://schema.org/email> ?e . ?y <https://schema.org/email> ?e . ?x != ?y ."
    );
    assert!(er_blocking_template("name_prefix").unwrap().ends_with("pg:levenshtein(?n1, ?n2) < 4 ."));
    assert_eq!(
        er_blocking_template("phone").unwrap_err(),
        "unknown ER blocking template 'phone'; valid names: email, postal_name, name_prefix"
    );
}

#[test]
fn resolution_gate() {
    assert_eq!(
        resolution_step(5, 3, 10, 100, true),
        ResolutionStep::Report { candidates: 8, symbolic: 5, neural: 3, would_assert: 0, blocked_by_shacl: 10 }
    );
    assert_eq!(resolution_step(50, 60, 5, 100, false), ResolutionStep::RateLimited { would_assert: 105 });
    assert_eq!(resolution_step(50, 50, 0, 100, false), ResolutionStep::Proceed);
    assert_eq!(
        rate_limit_message(105, 100),
        "entity resolution rate limit exceeded: 105 of 100 allowed sameAs assertions (PT0460)"
    );
}

#[test]
fn pairwise_counts() {
    assert_eq!(confusion_counts(10, 4), (4, 0, 6));
    assert_eq!(confusion_counts(3, 8), (3, 5, 0));
    assert_eq!(confusion_counts(0, 8), (0, 8, 0));
}
