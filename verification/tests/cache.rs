use pg_ripple::datalog::cache::{
    invalidate, invalidate_all, lookup, lookup_agg, stats, store, store_agg, PlanCaches,
};

fn sqls(v: &[&str]) -> Vec<String> {
    v.iter().map(|s| s.to_string()).collect()
}

#[test]
fn lookup_returns_stored_sql_and_counts_hits() {
    let mut c = PlanCaches::new();
    assert_eq!(lookup(&mut c, true, "rs"), None);
    store(&mut c, true, 64, "rs", &sqls(&["SELECT 1", "SELECT 2"]));
    assert_eq!(lookup(&mut c, true, "rs"), Some(sqls(&["SELECT 1", "SELECT 2"])));
    assert_eq!(lookup(&mut c, true, "rs"), Some(sqls(&["SELECT 1", "SELECT 2"])));
    let st = stats(&c);
    assert_eq!(st.len(), 1);
    assert_eq!(st[0].rule_set, "rs");
    assert_eq!(st[0].hits, 2);
    assert_eq!(st[0].misses, 1);
    assert_eq!(st[0].entries, 1);
}

#[test]
fn disabled_cache_does_nothing() {
    let mut c = PlanCaches::new();
    store(&mut c, false, 64, "rs", &sqls(&["SELECT 1"]));
    assert_eq!(lookup(&mut c, false, "rs"), None);
    assert!(stats(&c).is_empty());
}

#[test]
fn eviction_removes_fewest_hits() {
    let mut c = PlanCaches::new();
    store(&mut c, true, 2, "a", &sqls(&["A"]));
    store(&mut c, true, 2, "b", &sqls(&["B"]));
    assert!(lookup(&mut c, true, "a").is_some());
    store(&mut c, true, 2, "c", &sqls(&["C"]));
    // "b" had no hits and leaves.
    assert_eq!(c.plans.entries.len(), 2);
    assert!(lookup(&mut c, true, "a").is_some());
    assert!(lookup(&mut c, true, "c").is_some());
    assert!(c.plans.entries.iter().all(|e| e.key != "b"));
}

#[test]
fn size_zero_still_keeps_one_entry() {
    let mut c = PlanCaches::new();
    store(&mut c, true, 0, "a", &sqls(&["A"]));
    store(&mut c, true, 0, "b", &sqls(&["B"]));
    assert_eq!(c.plans.entries.len(), 1);
    assert_eq!(lookup(&mut c, true, "b"), Some(sqls(&["B"])));
}

#[test]
fn invalidate_removes_from_both_tables() {
    let mut c = PlanCaches::new();
    store(&mut c, true, 64, "rs", &sqls(&["A"]));
    store_agg(&mut c, true, "rs", &sqls(&["G"]));
    assert_eq!(lookup_agg(&mut c, true, "rs"), Some(sqls(&["G"])));
    invalidate(&mut c, "rs");
    assert_eq!(lookup(&mut c, true, "rs"), None);
    assert_eq!(lookup_agg(&mut c, true, "rs"), None);
}

#[test]
fn invalidate_all_empties_everything() {
    let mut c = PlanCaches::new();
    store(&mut c, true, 64, "a", &sqls(&["A"]));
    store_agg(&mut c, true, "b", &sqls(&["B"]));
    invalidate_all(&mut c);
    assert!(stats(&c).is_empty());
}

#[test]
fn stats_merge_both_tables() {
    let mut c = PlanCaches::new();
    store(&mut c, true, 64, "a", &sqls(&["A"]));
    store_agg(&mut c, true, "a", &sqls(&["A2"]));
    store_agg(&mut c, true, "b", &sqls(&["B"]));
    lookup(&mut c, true, "a");
    lookup_agg(&mut c, true, "a");
    lookup_agg(&mut c, true, "b");
    lookup_agg(&mut c, true, "z");
    let st = stats(&c);
    assert_eq!(st.len(), 3);
    let a = st.iter().find(|s| s.rule_set == "a").unwrap();
    assert_eq!((a.hits, a.misses, a.entries), (2, 0, 3));
    let z = st.iter().find(|s| s.rule_set == "z").unwrap();
    assert_eq!((z.hits, z.misses), (0, 1));
}
