//! Lattice-based Datalog: built-in lattices, the SQL of a lattice rule, and
//! the decisions of the lattice fixpoint.

use vstd::prelude::*;
use crate::text::{ci_prefix, ci_starts_with, int_decimal, push_i64_decimal, str_chars};

verus! {

// ─── Built-in lattices ───────────────────────────────────────────────────────

/// The lattices available without registration.
#[derive(Debug, Clone, Copy, PartialEq, Eq, Structural)]
pub enum BuiltinLattice {
    /// Join = MIN, bottom = +infinity.
    Min,
    /// Join = MAX, bottom = -infinity.
    Max,
    /// Join = union, bottom = the empty set.
    SetUnion,
    /// Join = interval hull, bottom = the empty interval.
    Interval,
}

/// The catalog name of a built-in lattice.
pub open spec fn lattice_name_spec(l: BuiltinLattice) -> Seq<char> {
    match l {
        BuiltinLattice::Min => "min"@,
        BuiltinLattice::Max => "max"@,
        BuiltinLattice::SetUnion => "set"@,
        BuiltinLattice::Interval => "interval"@,
    }
}

/// The SQL join expression of a built-in lattice; the first `%s` stands
/// for the stored value, the second for the new one.
pub open spec fn join_sql_spec(l: BuiltinLattice) -> Seq<char> {
    match l {
        BuiltinLattice::Min => "LEAST(%s, %s)"@,
        BuiltinLattice::Max => "GREATEST(%s, %s)"@,
        BuiltinLattice::SetUnion => "pg_ripple._lattice_set_union(%s, %s)"@,
        BuiltinLattice::Interval => "pg_ripple._lattice_interval_hull(%s, %s)"@,
    }
}

/// The bottom element of a built-in lattice, as SQL text.
pub open spec fn bottom_spec(l: BuiltinLattice) -> Seq<char> {
    match l {
        BuiltinLattice::Min => "9223372036854775807"@,
        BuiltinLattice::Max => "-9223372036854775808"@,
        BuiltinLattice::SetUnion => "0"@,
        BuiltinLattice::Interval => "0"@,
    }
}

/// `s` is `kw` up to ASCII case (`kw` written in upper case). No character
/// outside ASCII lower-cases into these keywords' letters, so this is the
/// comparison after `to_lowercase`.
pub open spec fn ci_equals(s: Seq<char>, kw: Seq<char>) -> bool {
    s.len() == kw.len() && ci_prefix(s, kw)
}

/// The built-in lattice named `name`, ignoring case; each also answers to
/// its name followed by `lattice`.
pub open spec fn from_name_spec(name: Seq<char>) -> Option<BuiltinLattice> {
    if ci_equals(name, "MIN"@) || ci_equals(name, "MINLATTICE"@) {
        Some(BuiltinLattice::Min)
    } else if ci_equals(name, "MAX"@) || ci_equals(name, "MAXLATTICE"@) {
        Some(BuiltinLattice::Max)
    } else if ci_equals(name, "SET"@) || ci_equals(name, "SETLATTICE"@) {
        Some(BuiltinLattice::SetUnion)
    } else if ci_equals(name, "INTERVAL"@) || ci_equals(name, "INTERVALLATTICE"@) {
        Some(BuiltinLattice::Interval)
    } else {
        None
    }
}

pub(crate) fn name_is(s: &Vec<char>, kw: &str) -> (b: bool)
    ensures
        b == ci_equals(s@, kw@),
{
    s.len() == kw.unicode_len() && ci_starts_with(s, kw)
}

impl BuiltinLattice {
    /// The name used in the lattice catalog.
    pub fn name(&self) -> (r: &'static str)
        ensures
            r@ == lattice_name_spec(*self),
    {
        match self {
            BuiltinLattice::Min => "min",
            BuiltinLattice::Max => "max",
            BuiltinLattice::SetUnion => "set",
            BuiltinLattice::Interval => "interval",
        }
    }

    /// The SQL join expression, with `%s` for the stored and the new value.
    pub fn join_sql_expr(&self) -> (r: &'static str)
        ensures
            r@ == join_sql_spec(*self),
    {
        match self {
            BuiltinLattice::Min => "LEAST(%s, %s)",
            BuiltinLattice::Max => "GREATEST(%s, %s)",
            BuiltinLattice::SetUnion => "pg_ripple._lattice_set_union(%s, %s)",
            BuiltinLattice::Interval => "pg_ripple._lattice_interval_hull(%s, %s)",
        }
    }

    /// The bottom element as SQL text (`i64::MAX` stands for +infinity,
    /// `i64::MIN` for -infinity).
    pub fn bottom_sentinel(&self) -> (r: &'static str)
        ensures
            r@ == bottom_spec(*self),
    {
        match self {
            BuiltinLattice::Min => "9223372036854775807",
            BuiltinLattice::Max => "-9223372036854775808",
            BuiltinLattice::SetUnion => "0",
            BuiltinLattice::Interval => "0",
        }
    }

    /// The built-in lattice named `name`, ignoring case.
    pub fn from_name(name: &str) -> (r: Option<BuiltinLattice>)
        ensures
            r == from_name_spec(name@),
    {
        let s = str_chars(name);
        if name_is(&s, "MIN") || name_is(&s, "MINLATTICE") {
            Some(BuiltinLattice::Min)
        } else if name_is(&s, "MAX") || name_is(&s, "MAXLATTICE") {
            Some(BuiltinLattice::Max)
        } else if name_is(&s, "SET") || name_is(&s, "SETLATTICE") {
            Some(BuiltinLattice::SetUnion)
        } else if name_is(&s, "INTERVAL") || name_is(&s, "INTERVALLATTICE") {
            Some(BuiltinLattice::Interval)
        } else {
            None
        }
    }
}

/// Each built-in lattice is found again by its catalog name.
pub proof fn law_lattice_name_roundtrip(l: BuiltinLattice)
    ensures
        from_name_spec(lattice_name_spec(l)) == Some(l),
{
    reveal_strlit("min");
    reveal_strlit("max");
    reveal_strlit("set");
    reveal_strlit("interval");
    reveal_strlit("MIN");
    reveal_strlit("MAX");
    reveal_strlit("SET");
    reveal_strlit("INTERVAL");
    reveal_strlit("MINLATTICE");
    reveal_strlit("MAXLATTICE");
    reveal_strlit("SETLATTICE");
    reveal_strlit("INTERVALLATTICE");
    assert(crate::text::ascii_upper('m') == 'M');
    assert(crate::text::ascii_upper('i') == 'I');
    assert(crate::text::ascii_upper('n') == 'N');
    assert(crate::text::ascii_upper('a') == 'A');
    assert(crate::text::ascii_upper('x') == 'X');
    assert(crate::text::ascii_upper('s') == 'S');
    assert(crate::text::ascii_upper('e') == 'E');
    assert(crate::text::ascii_upper('t') == 'T');
    assert(crate::text::ascii_upper('r') == 'R');
    assert(crate::text::ascii_upper('v') == 'V');
    assert(crate::text::ascii_upper('l') == 'L');
    let n = lattice_name_spec(l);
    match l {
        BuiltinLattice::Min => {
            assert(ci_equals(n, "MIN"@));
        },
        BuiltinLattice::Max => {
            assert(!ci_equals(n, "MIN"@)) by {
                assert(crate::text::ascii_upper(n[1]) != "MIN"@[1]);
            }
            assert(ci_equals(n, "MAX"@));
        },
        BuiltinLattice::SetUnion => {
            assert(!ci_equals(n, "MIN"@)) by {
                assert(crate::text::ascii_upper(n[0]) != "MIN"@[0]);
            }
            assert(!ci_equals(n, "MAX"@)) by {
                assert(crate::text::ascii_upper(n[0]) != "MAX"@[0]);
            }
            assert(ci_equals(n, "SET"@));
        },
        BuiltinLattice::Interval => {
            assert(ci_equals(n, "INTERVAL"@));
        },
    }
}

// ─── Lattice rules ───────────────────────────────────────────────────────────

/// A lattice as the catalog holds it.
#[derive(Debug)]
pub struct LatticeType {
    /// The lattice's name.
    pub name: String,
    /// The SQL function that joins two values.
    pub join_fn: String,
    /// The bottom element, as text.
    pub bottom: String,
    /// Whether the lattice is built in.
    pub builtin: bool,
}

/// The table a lattice rule for `head` writes to.
pub open spec fn lattice_target(head: i64, has_dedicated: bool) -> Seq<char> {
    if has_dedicated { "_pg_ripple.vp_"@ + int_decimal(head as int) } else { "_pg_ripple.vp_rare"@ }
}

/// The `INSERT … SELECT` head of a lattice rule, up to the subject column.
pub open spec fn lattice_insert_head(head: i64, has_dedicated: bool) -> Seq<char> {
    if has_dedicated {
        "INSERT INTO "@ + lattice_target(head, true) + " (s, o, g, source) SELECT "@
    } else {
        "INSERT INTO _pg_ripple.vp_rare (p, s, o, g, source) SELECT "@ + int_decimal(head as int) + ", "@
    }
}

/// The conflict target of a lattice rule's insert.
pub open spec fn lattice_conflict_cols(has_dedicated: bool) -> Seq<char> {
    if has_dedicated { "(s, g)"@ } else { "(p, s, g)"@ }
}

/// The lattice join of the new value with the stored one.
pub open spec fn lattice_join(join_fn: Seq<char>, target: Seq<char>) -> Seq<char> {
    join_fn + "(EXCLUDED.o, "@ + target + ".o)"@
}

/// The statement that derives lattice values for predicate `head`: the
/// rows of `body` are inserted, and a conflict with a stored value is
/// resolved by the lattice join, which updates the row only when it changes
/// the value. Predicates with a dedicated table write there, others into
/// `vp_rare`.
pub open spec fn lattice_rule_sql(
    head: i64,
    subject_col: Seq<char>,
    join_fn: Seq<char>,
    value_col: Seq<char>,
    body: Seq<char>,
    graph: i64,
    has_dedicated: bool,
) -> Seq<char> {
    "WITH _lat_new AS ( "@ + body + " ) "@ + lattice_insert_head(head, has_dedicated) + subject_col + ", "@
        + value_col + ", "@ + int_decimal(graph as int) + ", 1 FROM _lat_new ON CONFLICT "@
        + lattice_conflict_cols(has_dedicated) + " DO UPDATE SET o = "@ + lattice_join(
        join_fn,
        lattice_target(head, has_dedicated),
    ) + " WHERE "@ + lattice_target(head, has_dedicated) + ".o IS DISTINCT FROM "@ + lattice_join(
        join_fn,
        lattice_target(head, has_dedicated),
    )
}

/// The message when the named lattice is not registered.
pub open spec fn unknown_lattice_message(name: Seq<char>) -> Seq<char> {
    "unknown lattice type: '"@ + name + "'"@
}

fn lattice_target_of(head: i64, has_dedicated: bool) -> (r: String)
    ensures
        r@ == lattice_target(head, has_dedicated),
{
    if has_dedicated {
        let mut t = String::from_str("_pg_ripple.vp_");
        push_i64_decimal(&mut t, head);
        t
    } else {
        String::from_str("_pg_ripple.vp_rare")
    }
}

fn lattice_insert_head_of(head: i64, has_dedicated: bool) -> (r: String)
    ensures
        r@ == lattice_insert_head(head, has_dedicated),
{
    if has_dedicated {
        let mut t = String::from_str("INSERT INTO ");
        let target = lattice_target_of(head, true);
        t.append(target.as_str());
        t.append(" (s, o, g, source) SELECT ");
        t
    } else {
        let mut t = String::from_str("INSERT INTO _pg_ripple.vp_rare (p, s, o, g, source) SELECT ");
        push_i64_decimal(&mut t, head);
        t.append(", ");
        t
    }
}

fn lattice_join_of(join_fn: &str, target: &str) -> (r: String)
    ensures
        r@ == lattice_join(join_fn@, target@),
{
    let mut out = String::from_str(join_fn);
    out.append("(EXCLUDED.o, ");
    out.append(target);
    out.append(".o)");
    out
}

/// Compiles a lattice rule to SQL. `lattice` is the catalog entry found for
/// `lattice_name`, and `has_dedicated` whether `head_pred_id` has a
/// dedicated table.
pub fn compile_lattice_rule_to_sql(
    head_pred_id: i64,
    subject_col: &str,
    lattice_name: &str,
    lattice: Option<&LatticeType>,
    value_col: &str,
    body_sql: &str,
    graph_id: i64,
    has_dedicated: bool,
) -> (r: Result<String, String>)
    ensures
        lattice is None ==> (r matches Err(m) && m@ == unknown_lattice_message(lattice_name@)),
        lattice matches Some(l) ==> (r matches Ok(sql) && sql@ == lattice_rule_sql(
            head_pred_id,
            subject_col@,
            l.join_fn@,
            value_col@,
            body_sql@,
            graph_id,
            has_dedicated,
        )),
{
    let l = match lattice {
        Some(l) => l,
        None => {
            let mut m = String::from_str("unknown lattice type: '");
            m.append(lattice_name);
            m.append("'");
            return Err(m);
        },
    };
    let target = lattice_target_of(head_pred_id, has_dedicated);
    let joined = lattice_join_of(l.join_fn.as_str(), target.as_str());
    let head = lattice_insert_head_of(head_pred_id, has_dedicated);
    let mut out = String::from_str("WITH _lat_new AS ( ");
    out.append(body_sql);
    out.append(" ) ");
    out.append(head.as_str());
    out.append(subject_col);
    out.append(", ");
    out.append(value_col);
    out.append(", ");
    push_i64_decimal(&mut out, graph_id);
    out.append(", 1 FROM _lat_new ON CONFLICT ");
    if has_dedicated {
        out.append("(s, g)");
    } else {
        out.append("(p, s, g)");
    }
    out.append(" DO UPDATE SET o = ");
    out.append(joined.as_str());
    out.append(" WHERE ");
    out.append(target.as_str());
    out.append(".o IS DISTINCT FROM ");
    out.append(joined.as_str());
    Ok(out)
}

/// The table expression a lattice rule reads predicate `pred_id` from: its
/// dedicated table, or its rows of `vp_rare`.
pub open spec fn lattice_read_spec(pred_id: i64, has_dedicated: bool) -> Seq<char> {
    if has_dedicated {
        "_pg_ripple.vp_"@ + int_decimal(pred_id as int)
    } else {
        "(SELECT s, o, g FROM _pg_ripple.vp_rare WHERE p = "@ + int_decimal(pred_id as int) + ")"@
    }
}

/// The table expression for reading `pred_id` in a lattice rule.
pub fn vp_read_expr(pred_id: i64, has_dedicated: bool) -> (r: String)
    ensures
        r@ == lattice_read_spec(pred_id, has_dedicated),
{
    let mut out = String::new();
    if has_dedicated {
        out.append("_pg_ripple.vp_");
        push_i64_decimal(&mut out, pred_id);
    } else {
        out.append("(SELECT s, o, g FROM _pg_ripple.vp_rare WHERE p = ");
        push_i64_decimal(&mut out, pred_id);
        out.append(")");
    }
    out
}

// ─── The lattice fixpoint ────────────────────────────────────────────────────

/// The progress of a lattice fixpoint: rows changed so far and rounds run.
#[derive(Debug, Clone, Copy, PartialEq, Eq, Structural)]
pub struct LatticeFixpoint {
    pub max_iterations: i64,
    pub total_derived: i64,
    pub iterations: i64,
    /// The last round changed no row.
    pub converged: bool,
}

/// What the fixpoint driver does next.
#[derive(Debug, Clone, Copy, PartialEq, Eq, Structural)]
pub enum LatticeStep {
    /// Run every rule once more and report the rows they changed.
    RunRound,
    /// Stop: the last round changed nothing.
    Converged,
    /// Stop with the partial result: the round limit is reached (PT540).
    LimitReached,
}

/// The warning for a fixpoint stopped by the round limit.
pub open spec fn not_converged_message(max_iter: i64) -> Seq<char> {
    "PT540: lattice fixpoint did not converge after "@ + int_decimal(max_iter as int)
        + " iterations; returning partial results. Consider increasing pg_ripple.lattice_max_iterations or verifying that your lattice join function is monotone."@
}

impl LatticeFixpoint {
    /// A fixpoint that has run no round.
    pub fn new(max_iterations: i64) -> (r: LatticeFixpoint)
        ensures
            r == (LatticeFixpoint { max_iterations, total_derived: 0, iterations: 0, converged: false }),
    {
        LatticeFixpoint { max_iterations, total_derived: 0, iterations: 0, converged: false }
    }

    /// The next step: stop once a round changed nothing; else stop at the
    /// round limit; else run a round.
    pub fn next_step(&self) -> (r: LatticeStep)
        ensures
            self.converged ==> r == LatticeStep::Converged,
            !self.converged && self.iterations >= self.max_iterations ==> r == LatticeStep::LimitReached,
            !self.converged && self.iterations < self.max_iterations ==> r == LatticeStep::RunRound,
    {
        if self.converged {
            LatticeStep::Converged
        } else if self.iterations >= self.max_iterations {
            LatticeStep::LimitReached
        } else {
            LatticeStep::RunRound
        }
    }

    /// Records a round that changed `changes` rows.
    pub fn record_round(&mut self, changes: i64)
        requires
            old(self).iterations < old(self).max_iterations,
            0 <= changes,
            old(self).total_derived + changes <= i64::MAX,
        ensures
            final(self).max_iterations == old(self).max_iterations,
            final(self).total_derived == old(self).total_derived + changes,
            final(self).iterations == old(self).iterations + 1,
            final(self).converged == (changes == 0),
    {
        self.total_derived = self.total_derived + changes;
        self.iterations = self.iterations + 1;
        self.converged = changes == 0;
    }

    /// The PT540 warning text.
    pub fn limit_message(&self) -> (r: String)
        ensures
            r@ == not_converged_message(self.max_iterations),
    {
        let mut m = String::from_str("PT540: lattice fixpoint did not converge after ");
        push_i64_decimal(&mut m, self.max_iterations);
        m.append(
            " iterations; returning partial results. Consider increasing pg_ripple.lattice_max_iterations or verifying that your lattice join function is monotone.",
        );
        m
    }
}

// ─── Meaning of the lattice joins ────────────────────────────────────────────

/// What the PostgreSQL expression `t` (with `%s` for the stored and the new
/// value) gives for the integers `a` and `b`: `GREATEST` the larger, `LEAST`
/// the smaller; `None` for other text.
pub open spec fn sql_join_value(t: Seq<char>, a: int, b: int) -> Option<int> {
    if t == "GREATEST(%s, %s)"@ {
        Some(if a >= b { a } else { b })
    } else if t == "LEAST(%s, %s)"@ {
        Some(if a <= b { a } else { b })
    } else {
        None
    }
}

/// The join of the max lattice is the least upper bound under `<=`: one of
/// the two values, and at least both; the join of the min lattice is the
/// greatest lower bound: one of them, and at most both.  The two differ
/// whenever the values do.
pub proof fn law_lattice_join_is_bound(a: int, b: int)
    ensures
        sql_join_value(join_sql_spec(BuiltinLattice::Max), a, b) matches Some(v) && v >= a && v >= b && (v == a
            || v == b),
        sql_join_value(join_sql_spec(BuiltinLattice::Min), a, b) matches Some(v) && v <= a && v <= b && (v == a
            || v == b),
        a != b ==> sql_join_value(join_sql_spec(BuiltinLattice::Max), a, b) != sql_join_value(
            join_sql_spec(BuiltinLattice::Min),
            a,
            b,
        ),
{
    reveal_strlit("GREATEST(%s, %s)");
    reveal_strlit("LEAST(%s, %s)");
    assert("GREATEST(%s, %s)"@[0] != "LEAST(%s, %s)"@[0]);
}

} // verus!
