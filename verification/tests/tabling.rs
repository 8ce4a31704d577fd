use pg_ripple::datalog::tabling::{compute_goal_hash, sparql_goal_hash_at};

#[test]
fn goal_hash_is_xxh3_as_signed() {
    let k = "goal:?x <p> <o>";
    assert_eq!(compute_goal_hash(k), xxhash_rust::xxh3::xxh3_64(k.as_bytes()) as i64);
    assert_ne!(compute_goal_hash("a"), compute_goal_hash("b"));
}

#[test]
fn sparql_hash_mixes_in_the_data_generation() {
    let q = "SELECT * WHERE { ?s ?p ?o }";
    assert_eq!(sparql_goal_hash_at(17, q), compute_goal_hash("sparql:17:SELECT * WHERE { ?s ?p ?o }"));
    assert_ne!(sparql_goal_hash_at(17, q), sparql_goal_hash_at(18, q));
}
