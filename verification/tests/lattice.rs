use pg_ripple::datalog::compiler::vp_read_expr_pub;
use pg_ripple::datalog::lattice::{
    compile_lattice_rule_to_sql, vp_read_expr, BuiltinLattice, LatticeFixpoint, LatticeStep, LatticeType,
};

#[test]
fn test_builtin_lattice_names() {
    assert_eq!(BuiltinLattice::Min.name(), "min");
    assert_eq!(BuiltinLattice::Max.name(), "max");
    assert_eq!(BuiltinLattice::SetUnion.name(), "set");
    assert_eq!(BuiltinLattice::Interval.name(), "interval");
}

#[test]
fn test_builtin_lattice_from_name() {
    assert_eq!(BuiltinLattice::from_name("min"), Some(BuiltinLattice::Min));
    assert_eq!(BuiltinLattice::from_name("max"), Some(BuiltinLattice::Max));
    assert_eq!(BuiltinLattice::from_name("set"), Some(BuiltinLattice::SetUnion));
    assert_eq!(BuiltinLattice::from_name("interval"), Some(BuiltinLattice::Interval));
    assert_eq!(BuiltinLattice::from_name("MinLattice"), Some(BuiltinLattice::Min));
    assert_eq!(BuiltinLattice::from_name("unknown"), None);
}

#[test]
fn lattice_names_round_trip() {
    for l in [BuiltinLattice::Min, BuiltinLattice::Max, BuiltinLattice::SetUnion, BuiltinLattice::Interval] {
        assert_eq!(BuiltinLattice::from_name(l.name()), Some(l));
    }
    assert_eq!(BuiltinLattice::from_name("INTERVALLATTICE"), Some(BuiltinLattice::Interval));
    assert_eq!(BuiltinLattice::from_name("mi"), None);
}

#[test]
fn lattice_sql_fragments() {
    assert_eq!(BuiltinLattice::Min.join_sql_expr(), "LEAST(%s, %s)");
    assert_eq!(BuiltinLattice::Interval.join_sql_expr(), "pg_ripple._lattice_interval_hull(%s, %s)");
    assert_eq!(BuiltinLattice::Min.bottom_sentinel(), "9223372036854775807");
    assert_eq!(BuiltinLattice::Max.bottom_sentinel(), "-9223372036854775808");
    assert_eq!(BuiltinLattice::SetUnion.bottom_sentinel(), "0");
}

#[test]
fn unknown_lattice_is_an_error() {
    let r = compile_lattice_rule_to_sql(999, "s", "nonexistent_lattice", None, "o", "SELECT 1 AS s, 1 AS o", 0, false);
    assert_eq!(r, Err("unknown lattice type: 'nonexistent_lattice'".to_string()));
}

#[test]
fn lattice_rule_sql_dedicated_and_rare() {
    let lat = LatticeType { name: "min".into(), join_fn: "min".into(), bottom: "0".into(), builtin: true };
    let dedicated = compile_lattice_rule_to_sql(7, "k.s", "min", Some(&lat), "v", "SELECT 1", 0, true).unwrap();
    assert_eq!(
        dedicated,
        "WITH _lat_new AS ( SELECT 1 ) INSERT INTO _pg_ripple.vp_7 (s, o, g, source) SELECT k.s, v, 0, 1 \
         FROM _lat_new ON CONFLICT (s, g) DO UPDATE SET o = min(EXCLUDED.o, _pg_ripple.vp_7.o) \
         WHERE _pg_ripple.vp_7.o IS DISTINCT FROM min(EXCLUDED.o, _pg_ripple.vp_7.o)"
    );
    let rare = compile_lattice_rule_to_sql(7, "k.s", "min", Some(&lat), "v", "SELECT 1", -2, false).unwrap();
    assert_eq!(
        rare,
        "WITH _lat_new AS ( SELECT 1 ) INSERT INTO _pg_ripple.vp_rare (p, s, o, g, source) SELECT 7, k.s, v, -2, 1 \
         FROM _lat_new ON CONFLICT (p, s, g) DO UPDATE SET o = min(EXCLUDED.o, _pg_ripple.vp_rare.o) \
         WHERE _pg_ripple.vp_rare.o IS DISTINCT FROM min(EXCLUDED.o, _pg_ripple.vp_rare.o)"
    );
}

#[test]
fn lattice_read_expressions() {
    assert_eq!(vp_read_expr(12, true), "_pg_ripple.vp_12");
    assert_eq!(vp_read_expr(12, false), "(SELECT s, o, g FROM _pg_ripple.vp_rare WHERE p = 12)");
}

#[test]
fn rule_read_expressions() {
    assert_eq!(
        vp_read_expr_pub(42, true),
        "(SELECT s, o, g FROM _pg_ripple.vp_42 UNION ALL SELECT s, o, g FROM _pg_ripple.vp_rare WHERE p = 42)"
    );
    assert_eq!(vp_read_expr_pub(-3, false), "(SELECT s, o, g FROM _pg_ripple.vp_rare WHERE p = -3)");
}

#[test]
fn fixpoint_stops_when_a_round_changes_nothing() {
    let mut fp = LatticeFixpoint::new(10);
    assert_eq!(fp.next_step(), LatticeStep::RunRound);
    fp.record_round(4);
    assert_eq!(fp.next_step(), LatticeStep::RunRound);
    fp.record_round(0);
    assert_eq!(fp.next_step(), LatticeStep::Converged);
    assert_eq!((fp.total_derived, fp.iterations), (4, 2));
}

#[test]
fn fixpoint_stops_at_the_round_limit() {
    let mut fp = LatticeFixpoint::new(2);
    fp.record_round(1);
    fp.record_round(1);
    assert_eq!(fp.next_step(), LatticeStep::LimitReached);
    assert!(fp.limit_message().starts_with("PT540: lattice fixpoint did not converge after 2 iterations;"));
    assert_eq!(LatticeFixpoint::new(0).next_step(), LatticeStep::LimitReached);
}
