//! Semi-naive evaluation: the statements of each phase and the loop's
//! decisions.
//!
//! Every derived predicate `p` gets a delta table `_dl_delta_p`.  The seed
//! phase runs each rule once into the delta table of its head; each round
//! then runs the delta variants of the rules into `_dl_delta_new_p`, counts
//! the rows that are really new, and merges them in; a round without new rows
//! ends the loop, and so does the round limit.  Finally the delta tables are
//! materialised into `vp_rare`.  Running the statements is the caller's part.

use vstd::prelude::*;
use crate::datalog::compiler::{compile_single_rule_to, single_rule_sql, CompileEnv};
use crate::datalog::compiler::delta::{compile_rule_delta_variants_to, delta_variants_sql};
use crate::datalog::predvar::copy_rule;
use crate::datalog::stratify::{body_has_aggregate, has_aggregate, head_pred, head_pred_of};
use crate::datalog::compiler::aggregate::{aggregate_sql, compile_aggregate_rule};
use crate::datalog::magic::{goal_seed_spec, goal_seed_statement, GoalPattern};
use crate::datalog::{Rule, RuleV};
use crate::text::{i64_to_string, int_decimal, str_eq};

verus! {

/// The most rounds a semi-naive run counts, the seed included.
pub const SEMINAIVE_MAX_ITERATIONS: i32 = 10000;

/// The decimal text of a predicate ID.
pub open spec fn id_text(p: i64) -> Seq<char> {
    int_decimal(p as int)
}

/// `_dl_delta_<p>`.
pub open spec fn delta_name(p: i64) -> Seq<char> {
    "_dl_delta_"@ + id_text(p)
}

/// `_dl_delta_new_<p>`.
pub open spec fn delta_new_name(p: i64) -> Seq<char> {
    "_dl_delta_new_"@ + id_text(p)
}

/// The columns of a delta table.
pub open spec fn delta_columns() -> Seq<char> {
    " (s BIGINT NOT NULL, o BIGINT NOT NULL, g BIGINT NOT NULL DEFAULT 0, UNIQUE (s, o, g))"@
}

/// Drop and re-create the delta table of `p`.
pub open spec fn delta_setup_spec(p: i64) -> Seq<Seq<char>> {
    seq!["DROP TABLE IF EXISTS "@ + delta_name(p), "CREATE TEMP TABLE "@ + delta_name(p) + delta_columns()]
}

/// Drop and re-create the table of `p`'s rows of the current round.
pub open spec fn delta_new_setup_spec(p: i64) -> Seq<Seq<char>> {
    seq!["DROP TABLE IF EXISTS "@ + delta_new_name(p), "CREATE TEMP TABLE "@ + delta_new_name(p) + delta_columns()]
}

fn name_with(prefix: &str, p: i64) -> (r: String)
    ensures
        r@ == prefix@ + id_text(p),
{
    let mut s = String::new();
    s.append(prefix);
    s.append(i64_to_string(p).as_str());
    s
}

fn two(a: String, b: String) -> (r: Vec<String>)
    ensures
        r.deep_view() == seq![a@, b@],
{
    let mut v: Vec<String> = Vec::new();
    v.push(a);
    v.push(b);
    assert(v.deep_view() =~= seq![a@, b@]);
    v
}

/// The statements that (re)create the delta table of `pred_id`.
pub fn delta_setup_sql(pred_id: i64) -> (r: Vec<String>)
    ensures
        r.deep_view() == delta_setup_spec(pred_id),
{
    let t = name_with("_dl_delta_", pred_id);
    let mut drop = String::new();
    drop.append("DROP TABLE IF EXISTS ");
    drop.append(t.as_str());
    let mut create = String::new();
    create.append("CREATE TEMP TABLE ");
    create.append(t.as_str());
    create.append(" (s BIGINT NOT NULL, o BIGINT NOT NULL, g BIGINT NOT NULL DEFAULT 0, UNIQUE (s, o, g))");
    two(drop, create)
}

/// The statements that (re)create the round table of `pred_id`.
pub fn delta_new_setup_sql(pred_id: i64) -> (r: Vec<String>)
    ensures
        r.deep_view() == delta_new_setup_spec(pred_id),
{
    let t = name_with("_dl_delta_new_", pred_id);
    let mut drop = String::new();
    drop.append("DROP TABLE IF EXISTS ");
    drop.append(t.as_str());
    let mut create = String::new();
    create.append("CREATE TEMP TABLE ");
    create.append(t.as_str());
    create.append(" (s BIGINT NOT NULL, o BIGINT NOT NULL, g BIGINT NOT NULL DEFAULT 0, UNIQUE (s, o, g))");
    two(drop, create)
}

/// Counts the rows of `pred_id`'s delta table.
pub fn delta_count_sql(pred_id: i64) -> (r: String)
    ensures
        r@ == "SELECT count(*) FROM "@ + delta_name(pred_id),
{
    let mut s = String::new();
    s.append("SELECT count(*) FROM ");
    s.append(name_with("_dl_delta_", pred_id).as_str());
    s
}

/// Whether a delta table of `row_count` rows gets an `(s, o)` index: when the
/// threshold is positive and reached.
pub fn needs_delta_index(row_count: i64, threshold: i64) -> (b: bool)
    ensures
        b == (threshold > 0 && row_count >= threshold),
{
    threshold > 0 && row_count >= threshold
}

/// Drops and creates the `(s, o)` index of `pred_id`'s delta table.
pub fn delta_index_sql(pred_id: i64) -> (r: Vec<String>)
    ensures
        r.deep_view() == seq![
            "DROP INDEX IF EXISTS "@ + delta_name(pred_id) + "_so_idx"@,
            "CREATE INDEX "@ + delta_name(pred_id) + "_so_idx"@ + " ON "@ + delta_name(pred_id) + " (s, o)"@,
        ],
{
    let t = name_with("_dl_delta_", pred_id);
    let mut drop = String::new();
    drop.append("DROP INDEX IF EXISTS ");
    drop.append(t.as_str());
    drop.append("_so_idx");
    let mut create = String::new();
    create.append("CREATE INDEX ");
    create.append(t.as_str());
    create.append("_so_idx");
    create.append(" ON ");
    create.append(t.as_str());
    create.append(" (s, o)");
    two(drop, create)
}

/// Counts the rows of the round table of `pred_id` that its delta table
/// does not hold yet.
pub fn count_new_rows_sql(pred_id: i64) -> (r: String)
    ensures
        r@ == "SELECT count(*) FROM "@ + delta_new_name(pred_id)
            + " n WHERE NOT EXISTS ( SELECT 1 FROM "@ + delta_name(pred_id)
            + " d WHERE d.s = n.s AND d.o = n.o AND d.g = n.g )"@,
{
    let mut s = String::new();
    s.append("SELECT count(*) FROM ");
    s.append(name_with("_dl_delta_new_", pred_id).as_str());
    s.append(" n WHERE NOT EXISTS ( SELECT 1 FROM ");
    s.append(name_with("_dl_delta_", pred_id).as_str());
    s.append(" d WHERE d.s = n.s AND d.o = n.o AND d.g = n.g )");
    s
}

/// Merges the round table of `pred_id` into its delta table, then drops it.
pub fn merge_round_sql(pred_id: i64) -> (r: Vec<String>)
    ensures
        r.deep_view() == seq![
            "INSERT INTO "@ + delta_name(pred_id) + " (s, o, g) SELECT s, o, g FROM "@ + delta_new_name(pred_id)
                + " ON CONFLICT DO NOTHING"@,
            "DROP TABLE IF EXISTS "@ + delta_new_name(pred_id),
        ],
{
    let d = name_with("_dl_delta_", pred_id);
    let n = name_with("_dl_delta_new_", pred_id);
    let mut ins = String::new();
    ins.append("INSERT INTO ");
    ins.append(d.as_str());
    ins.append(" (s, o, g) SELECT s, o, g FROM ");
    ins.append(n.as_str());
    ins.append(" ON CONFLICT DO NOTHING");
    let mut drop = String::new();
    drop.append("DROP TABLE IF EXISTS ");
    drop.append(n.as_str());
    two(ins, drop)
}

/// Copies `pred_id`'s delta table into `vp_rare` and counts the rows added.
pub fn materialize_sql(pred_id: i64) -> (r: String)
    ensures
        r@ == "WITH ins AS ( INSERT INTO _pg_ripple.vp_rare (p, s, o, g) SELECT "@ + id_text(pred_id)
            + "::bigint, s, o, g FROM "@ + delta_name(pred_id)
            + " ON CONFLICT DO NOTHING RETURNING 1 ) SELECT COUNT(*)::bigint FROM ins"@,
{
    let mut s = String::new();
    s.append("WITH ins AS ( INSERT INTO _pg_ripple.vp_rare (p, s, o, g) SELECT ");
    s.append(i64_to_string(pred_id).as_str());
    s.append("::bigint, s, o, g FROM ");
    s.append(name_with("_dl_delta_", pred_id).as_str());
    s.append(" ON CONFLICT DO NOTHING RETURNING 1 ) SELECT COUNT(*)::bigint FROM ins");
    s
}

/// The graphs that `pred_id`'s delta table writes to.
pub fn delta_graphs_sql(pred_id: i64) -> (r: String)
    ensures
        r@ == "SELECT DISTINCT g FROM "@ + delta_name(pred_id),
{
    let mut s = String::new();
    s.append("SELECT DISTINCT g FROM ");
    s.append(name_with("_dl_delta_", pred_id).as_str());
    s
}

/// Drops both tables of `pred_id`.
pub fn cleanup_sql(pred_id: i64) -> (r: Vec<String>)
    ensures
        r.deep_view() == seq!["DROP TABLE IF EXISTS "@ + delta_name(pred_id), "DROP TABLE IF EXISTS "@ + delta_new_name(pred_id)],
{
    let mut a = String::new();
    a.append("DROP TABLE IF EXISTS ");
    a.append(name_with("_dl_delta_", pred_id).as_str());
    let mut b = String::new();
    b.append("DROP TABLE IF EXISTS ");
    b.append(name_with("_dl_delta_new_", pred_id).as_str());
    two(a, b)
}

// ─── Which rules run ─────────────────────────────────────────────────────────

/// The rules whose text is not among `eliminated`, in order.
pub open spec fn active_rules_spec(rs: Seq<RuleV<i64>>, eliminated: Seq<Seq<char>>) -> Seq<RuleV<i64>>
    decreases rs.len(),
{
    if rs.len() == 0 {
        Seq::empty()
    } else {
        active_rules_spec(rs.drop_last(), eliminated) + (if eliminated.contains(rs.last().rule_text) {
            Seq::empty()
        } else {
            seq![rs.last()]
        })
    }
}

fn is_eliminated(eliminated: &Vec<String>, text: &String) -> (b: bool)
    ensures
        b == eliminated.deep_view().contains(text@),
{
    let mut i: usize = 0;
    while i < eliminated.len()
        invariant
            i <= eliminated.len(),
            forall|k: int| 0 <= k < i ==> eliminated.deep_view()[k] != text@,
        decreases eliminated.len() - i,
    {
        if str_eq(eliminated[i].as_str(), text.as_str()) {
            assert(eliminated.deep_view()[i as int] == text@);
            return true;
        }
        i = i + 1;
    }
    false
}

/// The rules that take part in a run: all but those that subsumption
/// checking eliminated (named by their text), in order.
pub fn active_rules(rules: &Vec<Rule<i64>>, eliminated: &Vec<String>) -> (r: Vec<Rule<i64>>)
    ensures
        r.deep_view() == active_rules_spec(rules.deep_view(), eliminated.deep_view()),
{
    let ghost rv = rules.deep_view();
    let ghost ev = eliminated.deep_view();
    let mut out: Vec<Rule<i64>> = Vec::new();
    let mut i: usize = 0;
    assert(rv.subrange(0, 0) =~= Seq::<RuleV<i64>>::empty());
    while i < rules.len()
        invariant
            rv == rules.deep_view(),
            ev == eliminated.deep_view(),
            i <= rules.len(),
            out.deep_view() == active_rules_spec(rv.subrange(0, i as int), ev),
        decreases rules.len() - i,
    {
        let ghost sub = rv.subrange(0, i as int + 1);
        assert(sub.drop_last() =~= rv.subrange(0, i as int));
        assert(sub.last() == rv[i as int]);
        if !is_eliminated(eliminated, &rules[i].rule_text) {
            let c = copy_rule(&rules[i]);
            let ghost before = out.deep_view();
            out.push(c);
            assert(out.deep_view() =~= before.push(c.deep_view()));
        } else {
            assert(out.deep_view() + Seq::<RuleV<i64>>::empty() =~= out.deep_view());
        }
        i = i + 1;
    }
    assert(rv.subrange(0, rv.len() as int) =~= rv);
    out
}

// ─── The statements of the seed and of a round ───────────────────────────────

/// The statements and the error messages that compiling a sequence of rules
/// yields, in rule order.
pub struct Compiled {
    pub statements: Vec<String>,
    pub errors: Vec<String>,
}

/// The seed phase over `rs`: each rule with a constant head predicate among
/// `derived` compiled into that predicate's delta table.
pub open spec fn seed_spec(rs: Seq<RuleV<i64>>, derived: Seq<i64>, env: CompileEnv) -> (Seq<Seq<char>>, Seq<
    Seq<char>,
>)
    decreases rs.len(),
{
    if rs.len() == 0 {
        (Seq::empty(), Seq::empty())
    } else {
        let prev = seed_spec(rs.drop_last(), derived, env);
        let r = rs.last();
        match head_pred(r) {
            Some(p) => if derived.contains(p) {
                match single_rule_sql(r, delta_name(p), env) {
                    Ok(s) => (prev.0.push(s), prev.1),
                    Err(e) => (prev.0, prev.1.push(e)),
                }
            } else {
                prev
            },
            None => prev,
        }
    }
}

/// A round over `rs`: the delta variants of each rule with a constant head
/// predicate among `derived`, reading `_dl_delta_` tables and writing
/// `_dl_delta_new_` tables.
pub open spec fn round_spec(rs: Seq<RuleV<i64>>, derived: Seq<i64>, env: CompileEnv) -> (Seq<Seq<char>>, Seq<
    Seq<char>,
>)
    decreases rs.len(),
{
    if rs.len() == 0 {
        (Seq::empty(), Seq::empty())
    } else {
        let prev = round_spec(rs.drop_last(), derived, env);
        let r = rs.last();
        match head_pred(r) {
            Some(p) => if derived.contains(p) {
                match delta_variants_sql(r, derived, "_dl_delta_"@, Some("_dl_delta_new_"@), env) {
                    Ok(vs) => (prev.0 + vs, prev.1),
                    Err(e) => (prev.0, prev.1.push(e)),
                }
            } else {
                prev
            },
            None => prev,
        }
    }
}

fn contains_id(v: &Vec<i64>, x: i64) -> (b: bool)
    ensures
        b == v@.contains(x),
{
    let mut i: usize = 0;
    while i < v.len()
        invariant
            i <= v.len(),
            forall|k: int| 0 <= k < i ==> v@[k] != x,
        decreases v.len() - i,
    {
        if v[i] == x {
            assert(v@[i as int] == x);
            return true;
        }
        i = i + 1;
    }
    false
}

fn append_all(out: &mut Vec<String>, vs: Vec<String>)
    ensures
        final(out).deep_view() == old(out).deep_view() + vs.deep_view(),
{
    let ghost start = out.deep_view();
    let ghost vv = vs.deep_view();
    let mut rest = vs;
    let mut k: usize = 0;
    let n = rest.len();
    assert(vv.subrange(0, 0) =~= Seq::<Seq<char>>::empty());
    while rest.len() > 0
        invariant
            k + rest.len() == n,
            n == vv.len(),
            rest.deep_view() == vv.subrange(k as int, n as int),
            out.deep_view() == start + vv.subrange(0, k as int),
        decreases rest.len(),
    {
        let ghost old_rest = rest.deep_view();
        let s = rest.remove(0);
        assert(s@ == old_rest[0]);
        assert(rest.deep_view() =~= old_rest.drop_first());
        let ghost before = out.deep_view();
        out.push(s);
        assert(out.deep_view() =~= before.push(s@));
        assert(vv.subrange(0, k as int + 1) =~= vv.subrange(0, k as int).push(vv[k as int]));
        assert(old_rest[0] == vv[k as int]);
        k = k + 1;
    }
    assert(vv.subrange(0, n as int) =~= vv);
}

/// Compiles the seed phase: for each rule whose head predicate is a constant
/// among `derived`, the statement that runs it into that predicate's delta
/// table, or the compile error.
pub fn seed_statements(rules: &Vec<Rule<i64>>, derived: &Vec<i64>, env: &CompileEnv) -> (r: Compiled)
    ensures
        (r.statements.deep_view(), r.errors.deep_view()) == seed_spec(rules.deep_view(), derived@, *env),
{
    let ghost rv = rules.deep_view();
    let mut stmts: Vec<String> = Vec::new();
    let mut errs: Vec<String> = Vec::new();
    let mut i: usize = 0;
    assert(rv.subrange(0, 0) =~= Seq::<RuleV<i64>>::empty());
    assert(stmts.deep_view() =~= Seq::<Seq<char>>::empty());
    assert(errs.deep_view() =~= Seq::<Seq<char>>::empty());
    while i < rules.len()
        invariant
            rv == rules.deep_view(),
            i <= rules.len(),
            (stmts.deep_view(), errs.deep_view()) == seed_spec(rv.subrange(0, i as int), derived@, *env),
        decreases rules.len() - i,
    {
        let ghost sub = rv.subrange(0, i as int + 1);
        assert(sub.drop_last() =~= rv.subrange(0, i as int));
        assert(sub.last() == rv[i as int]);
        assert(rv[i as int] == rules@[i as int].deep_view());
        match head_pred_of(&rules[i]) {
            Some(p) => {
                if contains_id(derived, p) {
                    let target = name_with("_dl_delta_", p);
                    match compile_single_rule_to(&rules[i], target.as_str(), env) {
                        Ok(s) => {
                            let ghost before = stmts.deep_view();
                            stmts.push(s);
                            assert(stmts.deep_view() =~= before.push(s@));
                        },
                        Err(e) => {
                            let ghost before = errs.deep_view();
                            errs.push(e);
                            assert(errs.deep_view() =~= before.push(e@));
                        },
                    }
                }
            },
            None => {},
        }
        i = i + 1;
    }
    assert(rv.subrange(0, rv.len() as int) =~= rv);
    Compiled { statements: stmts, errors: errs }
}

/// Compiles one round: for each rule whose head predicate is a constant
/// among `derived`, its delta variants (reading `_dl_delta_` tables and
/// writing `_dl_delta_new_` tables), or the compile error.
pub fn round_statements(rules: &Vec<Rule<i64>>, derived: &Vec<i64>, env: &CompileEnv) -> (r: Compiled)
    ensures
        (r.statements.deep_view(), r.errors.deep_view()) == round_spec(rules.deep_view(), derived@, *env),
{
    let ghost rv = rules.deep_view();
    let mut stmts: Vec<String> = Vec::new();
    let mut errs: Vec<String> = Vec::new();
    let mut i: usize = 0;
    assert(rv.subrange(0, 0) =~= Seq::<RuleV<i64>>::empty());
    assert(stmts.deep_view() =~= Seq::<Seq<char>>::empty());
    assert(errs.deep_view() =~= Seq::<Seq<char>>::empty());
    proof {
        reveal_strlit("_dl_delta_");
        reveal_strlit("_dl_delta_new_");
    }
    while i < rules.len()
        invariant
            rv == rules.deep_view(),
            i <= rules.len(),
            (stmts.deep_view(), errs.deep_view()) == round_spec(rv.subrange(0, i as int), derived@, *env),
        decreases rules.len() - i,
    {
        let ghost sub = rv.subrange(0, i as int + 1);
        assert(sub.drop_last() =~= rv.subrange(0, i as int));
        assert(sub.last() == rv[i as int]);
        assert(rv[i as int] == rules@[i as int].deep_view());
        match head_pred_of(&rules[i]) {
            Some(p) => {
                if contains_id(derived, p) {
                    match compile_rule_delta_variants_to(&rules[i], derived, "_dl_delta_", Some("_dl_delta_new_"), env) {
                        Ok(vs) => {
                            append_all(&mut stmts, vs);
                        },
                        Err(e) => {
                            let ghost before = errs.deep_view();
                            errs.push(e);
                            assert(errs.deep_view() =~= before.push(e@));
                        },
                    }
                }
            },
            None => {},
        }
        i = i + 1;
    }
    assert(rv.subrange(0, rv.len() as int) =~= rv);
    Compiled { statements: stmts, errors: errs }
}

// ─── The loop ────────────────────────────────────────────────────────────────

/// The round count of a semi-naive run; the seed counts as the first round.
pub struct SeminaiveLoop {
    pub iterations: i32,
}

impl SeminaiveLoop {
    /// The count stays between one and the limit.
    pub open spec fn wf(&self) -> bool {
        1 <= self.iterations <= SEMINAIVE_MAX_ITERATIONS
    }

    /// A run that has done its seed.
    pub fn new() -> (r: SeminaiveLoop)
        ensures
            r.iterations == 1,
            r.wf(),
    {
        SeminaiveLoop { iterations: 1 }
    }

    /// Starts a round unless the limit is reached: `false` (and no change)
    /// at the limit, else `true` with the round counted.
    pub fn begin_round(&mut self) -> (started: bool)
        requires
            old(self).wf(),
        ensures
            final(self).wf(),
            started == (old(self).iterations < SEMINAIVE_MAX_ITERATIONS),
            started ==> final(self).iterations == old(self).iterations + 1,
            !started ==> final(self).iterations == old(self).iterations,
    {
        if self.iterations >= SEMINAIVE_MAX_ITERATIONS {
            false
        } else {
            self.iterations = self.iterations + 1;
            true
        }
    }

    /// Whether the run goes on after a round that found `new_rows` rows not
    /// seen before: only if there were some.
    pub fn continues_after(new_rows: i64) -> (b: bool)
        ensures
            b == (new_rows != 0),
    {
        new_rows != 0
    }
}

/// The warning when a run stops at the round limit.
pub open spec fn iteration_limit_message_spec(rule_set: Seq<char>) -> Seq<char> {
    "semi-naive inference: reached max iteration limit (10000); possible infinite derivation chain in rule set '"@
        + rule_set + "'"@
}

/// The warning for a run of `rule_set` stopped at the round limit.
pub fn iteration_limit_message(rule_set: &str) -> (r: String)
    ensures
        r@ == iteration_limit_message_spec(rule_set@),
{
    let mut s = String::new();
    s.append(
        "semi-naive inference: reached max iteration limit (10000); possible infinite derivation chain in rule set '",
    );
    s.append(rule_set);
    s.append("'");
    s
}

// ─── Rule sets with aggregates ───────────────────────────────────────────────

/// The rules of `rs` with (`agg`) or without an aggregate literal, in order.
pub open spec fn rules_by_aggregate(rs: Seq<RuleV<i64>>, agg: bool) -> Seq<RuleV<i64>>
    decreases rs.len(),
{
    if rs.len() == 0 {
        Seq::empty()
    } else {
        rules_by_aggregate(rs.drop_last(), agg) + (if has_aggregate(rs.last()) == agg {
            seq![rs.last()]
        } else {
            Seq::empty()
        })
    }
}

/// Splits rules into those with an aggregate literal and the others, each
/// part in the given order.
pub fn split_aggregate_rules(rules: &Vec<Rule<i64>>) -> (r: (Vec<Rule<i64>>, Vec<Rule<i64>>))
    ensures
        r.0.deep_view() == rules_by_aggregate(rules.deep_view(), true),
        r.1.deep_view() == rules_by_aggregate(rules.deep_view(), false),
{
    let ghost rv = rules.deep_view();
    let mut agg: Vec<Rule<i64>> = Vec::new();
    let mut plain: Vec<Rule<i64>> = Vec::new();
    let mut i: usize = 0;
    assert(rv.subrange(0, 0) =~= Seq::<RuleV<i64>>::empty());
    while i < rules.len()
        invariant
            rv == rules.deep_view(),
            i <= rules.len(),
            agg.deep_view() == rules_by_aggregate(rv.subrange(0, i as int), true),
            plain.deep_view() == rules_by_aggregate(rv.subrange(0, i as int), false),
        decreases rules.len() - i,
    {
        let ghost sub = rv.subrange(0, i as int + 1);
        assert(sub.drop_last() =~= rv.subrange(0, i as int));
        assert(sub.last() == rv[i as int]);
        assert(rv[i as int] == rules@[i as int].deep_view());
        let c = copy_rule(&rules[i]);
        if body_has_aggregate(&rules[i]) {
            let ghost before = agg.deep_view();
            agg.push(c);
            assert(agg.deep_view() =~= before.push(c.deep_view()));
            assert(plain.deep_view() + Seq::<RuleV<i64>>::empty() =~= plain.deep_view());
        } else {
            let ghost before = plain.deep_view();
            plain.push(c);
            assert(plain.deep_view() =~= before.push(c.deep_view()));
            assert(agg.deep_view() + Seq::<RuleV<i64>>::empty() =~= agg.deep_view());
        }
        i = i + 1;
    }
    assert(rv.subrange(0, rv.len() as int) =~= rv);
    (agg, plain)
}

/// `_pg_ripple.vp_<p>_delta`, where aggregate rules write.
pub open spec fn aggregate_target(p: i64) -> Seq<char> {
    "_pg_ripple.vp_"@ + id_text(p) + "_delta"@
}

/// The aggregate rules of `rs` with a constant head predicate, each compiled
/// into that predicate's delta table.
pub open spec fn aggregate_statements_spec(rs: Seq<RuleV<i64>>, env: CompileEnv) -> (Seq<Seq<char>>, Seq<Seq<char>>)
    decreases rs.len(),
{
    if rs.len() == 0 {
        (Seq::empty(), Seq::empty())
    } else {
        let prev = aggregate_statements_spec(rs.drop_last(), env);
        match head_pred(rs.last()) {
            Some(p) => match aggregate_sql(rs.last(), aggregate_target(p), env) {
                Ok(s) => (prev.0.push(s), prev.1),
                Err(e) => (prev.0, prev.1.push(e)),
            },
            None => prev,
        }
    }
}

/// Compiles aggregate rules: each with a constant head predicate into that
/// predicate's delta table, or the compile error.
pub fn aggregate_statements(rules: &Vec<Rule<i64>>, env: &CompileEnv) -> (r: Compiled)
    ensures
        (r.statements.deep_view(), r.errors.deep_view()) == aggregate_statements_spec(rules.deep_view(), *env),
{
    let ghost rv = rules.deep_view();
    let mut stmts: Vec<String> = Vec::new();
    let mut errs: Vec<String> = Vec::new();
    let mut i: usize = 0;
    assert(rv.subrange(0, 0) =~= Seq::<RuleV<i64>>::empty());
    assert(stmts.deep_view() =~= Seq::<Seq<char>>::empty());
    assert(errs.deep_view() =~= Seq::<Seq<char>>::empty());
    while i < rules.len()
        invariant
            rv == rules.deep_view(),
            i <= rules.len(),
            (stmts.deep_view(), errs.deep_view()) == aggregate_statements_spec(rv.subrange(0, i as int), *env),
        decreases rules.len() - i,
    {
        let ghost sub = rv.subrange(0, i as int + 1);
        assert(sub.drop_last() =~= rv.subrange(0, i as int));
        assert(sub.last() == rv[i as int]);
        assert(rv[i as int] == rules@[i as int].deep_view());
        match head_pred_of(&rules[i]) {
            Some(p) => {
                let mut target = name_with("_pg_ripple.vp_", p);
                target.append("_delta");
                match compile_aggregate_rule(&rules[i], target.as_str(), env) {
                    Ok(s) => {
                        let ghost before = stmts.deep_view();
                        stmts.push(s);
                        assert(stmts.deep_view() =~= before.push(s@));
                    },
                    Err(e) => {
                        let ghost before = errs.deep_view();
                        errs.push(e);
                        assert(errs.deep_view() =~= before.push(e@));
                    },
                }
            },
            None => {},
        }
        i = i + 1;
    }
    assert(rv.subrange(0, rv.len() as int) =~= rv);
    Compiled { statements: stmts, errors: errs }
}

// ─── Goal-directed seeding ───────────────────────────────────────────────────

/// The seed phase of a goal-directed run: like [`seed_spec`], but the rules
/// deriving the goal predicate seed only rows matching the goal's bound
/// subject and object.
pub open spec fn goal_seed_rules_spec(
    rs: Seq<RuleV<i64>>,
    derived: Seq<i64>,
    goal_pred: i64,
    goal: GoalPattern,
    env: CompileEnv,
) -> (Seq<Seq<char>>, Seq<Seq<char>>)
    decreases rs.len(),
{
    if rs.len() == 0 {
        (Seq::empty(), Seq::empty())
    } else {
        let prev = goal_seed_rules_spec(rs.drop_last(), derived, goal_pred, goal, env);
        let r = rs.last();
        match head_pred(r) {
            Some(p) => if !derived.contains(p) {
                prev
            } else if p == goal_pred {
                let g = goal_seed_spec(r, delta_name(p), goal, env);
                (
                    prev.0.push(g.0),
                    match g.1 {
                        Some(e) => prev.1.push(e),
                        None => prev.1,
                    },
                )
            } else {
                match single_rule_sql(r, delta_name(p), env) {
                    Ok(s) => (prev.0.push(s), prev.1),
                    Err(e) => (prev.0, prev.1.push(e)),
                }
            },
            None => prev,
        }
    }
}

/// Compiles the seed phase of a goal-directed run over `rules`, whose goal
/// has the predicate `goal_pred`.
pub fn goal_seed_statements(
    rules: &Vec<Rule<i64>>,
    derived: &Vec<i64>,
    goal_pred: i64,
    goal: &GoalPattern,
    env: &CompileEnv,
) -> (r: Compiled)
    ensures
        (r.statements.deep_view(), r.errors.deep_view()) == goal_seed_rules_spec(
            rules.deep_view(),
            derived@,
            goal_pred,
            *goal,
            *env,
        ),
{
    let ghost rv = rules.deep_view();
    let mut stmts: Vec<String> = Vec::new();
    let mut errs: Vec<String> = Vec::new();
    let mut i: usize = 0;
    assert(rv.subrange(0, 0) =~= Seq::<RuleV<i64>>::empty());
    assert(stmts.deep_view() =~= Seq::<Seq<char>>::empty());
    assert(errs.deep_view() =~= Seq::<Seq<char>>::empty());
    while i < rules.len()
        invariant
            rv == rules.deep_view(),
            i <= rules.len(),
            (stmts.deep_view(), errs.deep_view()) == goal_seed_rules_spec(
                rv.subrange(0, i as int),
                derived@,
                goal_pred,
                *goal,
                *env,
            ),
        decreases rules.len() - i,
    {
        let ghost sub = rv.subrange(0, i as int + 1);
        assert(sub.drop_last() =~= rv.subrange(0, i as int));
        assert(sub.last() == rv[i as int]);
        assert(rv[i as int] == rules@[i as int].deep_view());
        match head_pred_of(&rules[i]) {
            Some(p) => {
                if contains_id(derived, p) {
                    let target = name_with("_dl_delta_", p);
                    if p == goal_pred {
                        let (s, e) = goal_seed_statement(&rules[i], target.as_str(), goal, env);
                        let ghost before = stmts.deep_view();
                        stmts.push(s);
                        assert(stmts.deep_view() =~= before.push(s@));
                        match e {
                            Some(m) => {
                                let ghost eb = errs.deep_view();
                                errs.push(m);
                                assert(errs.deep_view() =~= eb.push(m@));
                            },
                            None => {},
                        }
                    } else {
                        match compile_single_rule_to(&rules[i], target.as_str(), env) {
                            Ok(s) => {
                                let ghost before = stmts.deep_view();
                                stmts.push(s);
                                assert(stmts.deep_view() =~= before.push(s@));
                            },
                            Err(e) => {
                                let ghost before = errs.deep_view();
                                errs.push(e);
                                assert(errs.deep_view() =~= before.push(e@));
                            },
                        }
                    }
                }
            },
            None => {},
        }
        i = i + 1;
    }
    assert(rv.subrange(0, rv.len() as int) =~= rv);
    Compiled { statements: stmts, errors: errs }
}

/// The warning when a goal-directed run stops at the round limit.
pub open spec fn magic_limit_message_spec(rule_set: Seq<char>) -> Seq<char> {
    "magic sets: reached max iteration limit (10000) for rule set '"@ + rule_set + "'"@
}

/// The warning for a goal-directed run of `rule_set` stopped at the limit.
pub fn magic_limit_message(rule_set: &str) -> (r: String)
    ensures
        r@ == magic_limit_message_spec(rule_set@),
{
    let mut s = String::new();
    s.append("magic sets: reached max iteration limit (10000) for rule set '");
    s.append(rule_set);
    s.append("'");
    s
}

} // verus!
