//! Non-recursive rules compile to `INSERT … SELECT … ON CONFLICT DO NOTHING`.
//!
//! Positive body atoms become the joined tables (ordered by estimated
//! cardinality when cost ordering is on); a guard whose variables are bound
//! after an atom is pushed into that atom's `JOIN … ON`; negated atoms
//! become `NOT EXISTS` filters, or anti-joins over large tables; the
//! remaining guards go to `WHERE`; assignments bind computed columns.

use vstd::prelude::*;
use crate::datalog::{ArithOp, Atom, AtomV, BodyLiteral, LiteralV, Rule, StringBuiltin, Term, TermV};
use crate::datalog::parser::{join_strings, join_with, trimmed};
use crate::text::{lines_spec, nat_digits, push_u64_digits, split_lines, str_chars, string_from_chars, trim};
use super::{
    antijoin_cond_spec, arith_op_sql, arith_op_text, bind_spec, build_antijoin_on_cond, build_join_cond,
    build_not_exists_conds, cmp_term_text, col_ref_spec, compile_guard_sql, const_sql, const_text,
    estimate_pred_cardinality, guard_bound_spec, guard_fully_bound, guard_sql_spec, join_cond_spec,
    not_exists_conds_spec, read_expr, render_comparison_term, triple_count_of, vp_read_expr, Binding,
    CompileEnv, VarMap,
};

verus! {

// ─── Atom order ──────────────────────────────────────────────────────────────

/// Integer division rounding toward zero, as Rust's `/` does.
pub open spec fn trunc_div(a: int, d: int) -> int {
    if a >= 0 { a / d } else { -((-a) / d) }
}

/// A position that narrows the atom: neither a variable nor a wildcard.
pub open spec fn narrows(t: TermV<i64>) -> bool {
    !(t is Var || t is Wildcard)
}

/// The estimated cost of reading atom `a`: its predicate's triple count
/// (the largest `i64` for a variable predicate), divided by the configured
/// divisor when subject or object narrow it (a divisor below 1 counts as 1).
pub open spec fn atom_cost(a: AtomV<i64>, env: CompileEnv) -> int {
    let base: int = match a.p {
        TermV::Const(id) => triple_count_of(env.stats@, id) as int,
        _ => i64::MAX as int,
    };
    let d: int = if narrows(a.s) && narrows(a.o) {
        env.bound_so_divisor as int
    } else if narrows(a.s) || narrows(a.o) {
        env.bound_s_divisor as int
    } else {
        1
    };
    trunc_div(base, if d >= 1 { d } else { 1 })
}

/// The atom of a positive or negated literal.
pub open spec fn literal_atom(l: LiteralV<i64>) -> AtomV<i64> {
    match l {
        LiteralV::Positive(a) => a,
        LiteralV::Negated(a) => a,
        _ => AtomV { s: TermV::Wildcard, p: TermV::Wildcard, o: TermV::Wildcard, g: TermV::Wildcard },
    }
}

/// The positions of the positive literals of `body`, in order.
pub open spec fn positive_positions(body: Seq<LiteralV<i64>>) -> Seq<int>
    decreases body.len(),
{
    if body.len() == 0 {
        Seq::empty()
    } else {
        positive_positions(body.drop_last()) + (if body.last() is Positive {
            seq![body.len() - 1]
        } else {
            Seq::empty()
        })
    }
}

/// `s` with `x` inserted after every element whose cost is not above its own.
pub open spec fn insert_by_cost(s: Seq<(int, int)>, x: (int, int)) -> Seq<(int, int)>
    decreases s.len(),
{
    if s.len() == 0 {
        seq![x]
    } else if x.0 < s[0].0 {
        seq![x] + s
    } else {
        seq![s[0]] + insert_by_cost(s.drop_first(), x)
    }
}

/// `items` sorted by cost, stably: equal costs keep their order.
pub open spec fn cost_sorted(items: Seq<(int, int)>) -> Seq<(int, int)>
    decreases items.len(),
{
    if items.len() == 0 {
        Seq::empty()
    } else {
        insert_by_cost(cost_sorted(items.drop_last()), items.last())
    }
}

/// The positive atoms of `body` at `ps` with their costs.
pub open spec fn cost_items(body: Seq<LiteralV<i64>>, env: CompileEnv, ps: Seq<int>) -> Seq<(int, int)> {
    Seq::new(ps.len(), |k: int| (atom_cost(literal_atom(body[ps[k]]), env), ps[k]))
}

/// The order in which the positive atoms are joined: by ascending cost,
/// stably, when cost ordering is on; else as written.
pub open spec fn atom_order(body: Seq<LiteralV<i64>>, env: CompileEnv) -> Seq<int> {
    let ps = positive_positions(body);
    if env.cost_reorder {
        let sorted = cost_sorted(cost_items(body, env, ps));
        Seq::new(sorted.len(), |k: int| sorted[k].1)
    } else {
        ps
    }
}

/// Positions as integers.
pub open spec fn positions_view(v: Seq<usize>) -> Seq<int> {
    Seq::new(v.len(), |i: int| v[i] as int)
}

/// The estimated cost of reading `atom`.
pub fn atom_cost_of(atom: &Atom<i64>, env: &CompileEnv) -> (r: i64)
    ensures
        r as int == atom_cost(atom.deep_view(), *env),
{
    let base: i64 = match &atom.p {
        Term::Const(id) => estimate_pred_cardinality(env, *id),
        _ => i64::MAX,
    };
    let bs = !(matches!(&atom.s, Term::Var(_)) || matches!(&atom.s, Term::Wildcard));
    let bo = !(matches!(&atom.o, Term::Var(_)) || matches!(&atom.o, Term::Wildcard));
    let d: i64 = if bs && bo {
        env.bound_so_divisor
    } else if bs || bo {
        env.bound_s_divisor
    } else {
        1
    };
    let d = if d >= 1 { d } else { 1 };
    base / d
}

pub(crate) fn positive_positions_of(body: &Vec<BodyLiteral<i64>>) -> (r: Vec<usize>)
    ensures
        positions_view(r@) == positive_positions(body.deep_view()),
        forall|k: int| 0 <= k < r@.len() ==> (#[trigger] r@[k]) < body@.len() && body.deep_view()[r@[k] as int] is Positive,
{
    let ghost bv = body.deep_view();
    let mut out: Vec<usize> = Vec::new();
    let mut i: usize = 0;
    while i < body.len()
        invariant
            i <= body@.len(),
            bv == body.deep_view(),
            positions_view(out@) == positive_positions(bv.take(i as int)),
            forall|k: int| 0 <= k < out@.len() ==> (#[trigger] out@[k]) < body@.len() && bv[out@[k] as int] is Positive,
        decreases body.len() - i,
    {
        proof {
            assert(bv.take(i + 1).drop_last() =~= bv.take(i as int));
            assert(bv.take(i + 1).last() == bv[i as int]);
        }
        let ghost before = out@;
        if matches!(&body[i], BodyLiteral::Positive(_)) {
            out.push(i);
            assert(positions_view(out@) =~= positions_view(before) + seq![i as int]);
        } else {
            assert(positions_view(out@) =~= positions_view(before) + Seq::<int>::empty());
        }
        i = i + 1;
    }
    assert(bv.take(body@.len() as int) =~= bv);
    out
}

proof fn lemma_insert_by_cost_at(s: Seq<(int, int)>, x: (int, int), i: int)
    requires
        0 <= i <= s.len(),
        forall|j: int| 0 <= j < i ==> !(x.0 < #[trigger] s[j].0),
        i < s.len() ==> x.0 < s[i].0,
    ensures
        insert_by_cost(s, x) == s.insert(i, x),
    decreases i,
{
    if i == 0 {
        if s.len() == 0 {
            assert(seq![x] =~= s.insert(0, x));
        } else {
            assert(seq![x] + s =~= s.insert(0, x));
        }
    } else {
        let t = s.drop_first();
        assert(!(x.0 < s[0].0));
        assert forall|j: int| 0 <= j < i - 1 implies !(x.0 < #[trigger] t[j].0) by {
            assert(t[j] == s[j + 1]);
        }
        if i < s.len() {
            assert(t[i - 1] == s[i]);
        }
        lemma_insert_by_cost_at(t, x, i - 1);
        assert(seq![s[0]] + t.insert(i - 1, x) =~= s.insert(i, x));
    }
}

/// The pairs as integers.
pub open spec fn cost_pairs_view(v: Seq<(i64, usize)>) -> Seq<(int, int)> {
    Seq::new(v.len(), |i: int| (v[i].0 as int, v[i].1 as int))
}

fn insert_cost_pair(items: &mut Vec<(i64, usize)>, x: (i64, usize))
    ensures
        cost_pairs_view(final(items)@) == insert_by_cost(cost_pairs_view(old(items)@), (x.0 as int, x.1 as int)),
        forall|y: (i64, usize)| #[trigger] final(items)@.contains(y) ==> old(items)@.contains(y) || y == x,
{
    let ghost s = cost_pairs_view(items@);
    let mut i: usize = 0;
    while i < items.len() && !(x.0 < items[i].0)
        invariant
            i <= items@.len(),
            s == cost_pairs_view(items@),
            forall|j: int| 0 <= j < i ==> !(x.0 < #[trigger] s[j].0),
        decreases items.len() - i,
    {
        i = i + 1;
    }
    proof {
        lemma_insert_by_cost_at(s, (x.0 as int, x.1 as int), i as int);
    }
    let ghost before = items@;
    items.insert(i, x);
    proof {
        assert(cost_pairs_view(items@) =~= s.insert(i as int, (x.0 as int, x.1 as int)));
        assert forall|y: (i64, usize)| #[trigger] items@.contains(y) implies before.contains(y) || y == x by {
            let j = choose|j: int| 0 <= j < items@.len() && items@[j] == y;
            if j < i {
                assert(before[j] == y);
            } else if j > i {
                assert(before[j - 1] == y);
            }
        }
    }
}

/// The positions of the positive atoms in the order they are joined.
pub fn cost_order_atoms(body: &Vec<BodyLiteral<i64>>, env: &CompileEnv) -> (r: Vec<usize>)
    ensures
        positions_view(r@) == atom_order(body.deep_view(), *env),
        forall|k: int| 0 <= k < r@.len() ==> (#[trigger] r@[k]) < body@.len() && body.deep_view()[r@[k] as int] is Positive,
{
    let ghost bv = body.deep_view();
    let ps = positive_positions_of(body);
    if !env.cost_reorder {
        return ps;
    }
    let ghost items_all = cost_items(bv, *env, positions_view(ps@));
    let mut items: Vec<(i64, usize)> = Vec::new();
    let mut k: usize = 0;
    while k < ps.len()
        invariant
            k <= ps@.len(),
            bv == body.deep_view(),
            items_all == cost_items(bv, *env, positions_view(ps@)),
            forall|q: int| 0 <= q < ps@.len() ==> (#[trigger] ps@[q]) < body@.len() && bv[ps@[q] as int] is Positive,
            cost_pairs_view(items@) == cost_sorted(items_all.take(k as int)),
            forall|y: (i64, usize)| #[trigger] items@.contains(y) ==> y.1 < body@.len() && bv[y.1 as int] is Positive,
        decreases ps.len() - k,
    {
        let p = ps[k];
        let c = match &body[p] {
            BodyLiteral::Positive(a) => atom_cost_of(a, env),
            _ => 0,
        };
        proof {
            assert(items_all.take(k + 1).drop_last() =~= items_all.take(k as int));
            assert(items_all.take(k + 1).last() == items_all[k as int]);
            assert(items_all[k as int] == (c as int, p as int));
        }
        insert_cost_pair(&mut items, (c, p));
        k = k + 1;
    }
    assert(items_all.take(ps@.len() as int) =~= items_all);
    let mut out: Vec<usize> = Vec::new();
    let mut j: usize = 0;
    while j < items.len()
        invariant
            j <= items@.len(),
            bv == body.deep_view(),
            out@.len() == j,
            forall|q: int| 0 <= q < j ==> out@[q] == items@[q].1,
            forall|y: (i64, usize)| #[trigger] items@.contains(y) ==> y.1 < body@.len() && bv[y.1 as int] is Positive,
        decreases items.len() - j,
    {
        proof {
            assert(items@.contains(items@[j as int]));
        }
        out.push(items[j].1);
        j = j + 1;
    }
    proof {
        let sorted = cost_sorted(items_all);
        assert(positions_view(out@) =~= Seq::new(sorted.len(), |q: int| sorted[q].1));
        assert forall|q: int| 0 <= q < out@.len() implies (#[trigger] out@[q]) < body@.len() && bv[out@[q] as int] is Positive by {
            assert(items@.contains(items@[q]));
        }
    }
    out
}

// ─── Positive atoms ──────────────────────────────────────────────────────────

/// The positions of the guards of `body` (comparisons and string
/// built-ins), in order.
pub open spec fn guard_positions(body: Seq<LiteralV<i64>>) -> Seq<int>
    decreases body.len(),
{
    if body.len() == 0 {
        Seq::empty()
    } else {
        guard_positions(body.drop_last()) + (if body.last() is Compare || body.last() is StringBuiltin {
            seq![body.len() - 1]
        } else {
            Seq::empty()
        })
    }
}

/// The SQL under construction: `FROM` entries, `WHERE` conditions, the
/// variable bindings, and which guards are already pushed into a join.
pub struct SqlParts {
    pub from: Seq<Seq<char>>,
    pub wh: Seq<Seq<char>>,
    pub vm: Seq<Binding>,
    pub pushed: Seq<bool>,
}

/// Reading position `col` of an atom as `alias`: a variable is bound to the
/// column, a constant becomes a `WHERE` condition.
pub open spec fn bind_position(vm: Seq<Binding>, wh: Seq<Seq<char>>, alias: Seq<char>, col: Seq<char>, t: TermV<i64>) -> (
    Seq<Binding>,
    Seq<Seq<char>>,
) {
    match t {
        TermV::Var(v) => (bind_spec(vm, v, alias, col), wh),
        TermV::Const(c) => (vm, wh.push(alias + "."@ + col + " = "@ + const_text(c))),
        _ => (vm, wh),
    }
}

/// Reading the graph of an atom as `alias`: as [`bind_position`], and an
/// atom without a graph reads the default graph only when so configured.
pub open spec fn bind_graph(vm: Seq<Binding>, wh: Seq<Seq<char>>, alias: Seq<char>, t: TermV<i64>, default_only: bool) -> (
    Seq<Binding>,
    Seq<Seq<char>>,
) {
    match t {
        TermV::Var(_) => bind_position(vm, wh, alias, "g"@, t),
        TermV::Const(_) => bind_position(vm, wh, alias, "g"@, t),
        _ => if default_only { (vm, wh.push(alias + ".g = 0"@)) } else { (vm, wh) },
    }
}

/// Guard `gi` can be pushed: not pushed yet, all its variables bound, and
/// it has SQL.
pub open spec fn can_push(body: Seq<LiteralV<i64>>, gp: Seq<int>, pushed: Seq<bool>, vm: Seq<Binding>, gi: int) -> bool {
    !pushed[gi] && guard_bound_spec(body[gp[gi]], vm) && guard_sql_spec(body[gp[gi]], vm) is Some
}

/// The SQL of the guards among the first `n` that can be pushed, in order.
pub open spec fn pushdown_conds(body: Seq<LiteralV<i64>>, gp: Seq<int>, pushed: Seq<bool>, vm: Seq<Binding>, n: int) -> Seq<
    Seq<char>,
>
    decreases n,
{
    if n <= 0 {
        Seq::empty()
    } else {
        pushdown_conds(body, gp, pushed, vm, n - 1) + (if can_push(body, gp, pushed, vm, n - 1) {
            seq![guard_sql_spec(body[gp[n - 1]], vm)->0]
        } else {
            Seq::empty()
        })
    }
}

/// The pushed marks after pushing what can be pushed.
pub open spec fn pushed_after(body: Seq<LiteralV<i64>>, gp: Seq<int>, pushed: Seq<bool>, vm: Seq<Binding>) -> Seq<bool> {
    Seq::new(pushed.len(), |gi: int| pushed[gi] || can_push(body, gp, pushed, vm, gi))
}

/// A join condition extended by the pushed guards.
pub open spec fn with_pushdown(jc: Seq<char>, push: Seq<Seq<char>>) -> Seq<char> {
    if push.len() == 0 {
        jc
    } else if jc.len() == 0 {
        join_with(push, " AND "@)
    } else {
        jc + " AND "@ + join_with(push, " AND "@)
    }
}

/// Reads the positive atom `a` as the `idx`-th table `t{idx}`: binds its
/// variables, pushes the guards it completes, and adds it to `FROM` (the
/// first table plainly, its pushed guards to `WHERE`; the others as joins).
pub open spec fn positive_step(st: SqlParts, body: Seq<LiteralV<i64>>, env: CompileEnv, idx: int, a: AtomV<i64>) -> Result<
    SqlParts,
    Seq<char>,
> {
    let alias = "t"@ + nat_digits(idx as nat);
    match a.p {
        TermV::Const(pred) => {
            let b1 = bind_position(st.vm, st.wh, alias, "s"@, a.s);
            let b2 = bind_position(b1.0, b1.1, alias, "o"@, a.o);
            let b3 = bind_graph(b2.0, b2.1, alias, a.g, env.default_graph_only);
            let gp = guard_positions(body);
            let push = pushdown_conds(body, gp, st.pushed, b3.0, gp.len() as int);
            let pushed = pushed_after(body, gp, st.pushed, b3.0);
            let read = read_expr(env.stats@, pred);
            if idx == 0 {
                Ok(SqlParts { from: st.from.push(read + " "@ + alias), wh: b3.1 + push, vm: b3.0, pushed })
            } else {
                let jc = with_pushdown(join_cond_spec(alias, a, b3.0, env.default_graph_only), push);
                let entry = if jc.len() == 0 {
                    read + " "@ + alias
                } else {
                    "JOIN "@ + read + " "@ + alias + " ON "@ + jc
                };
                Ok(SqlParts { from: st.from.push(entry), wh: b3.1, vm: b3.0, pushed })
            }
        },
        TermV::Var(_) => Err("variable predicate in rule body not supported"@),
        _ => Err("invalid predicate term in rule body"@),
    }
}

/// The SQL after reading the first `n` atoms of `order`, or the first error.
pub open spec fn positive_fold(body: Seq<LiteralV<i64>>, env: CompileEnv, order: Seq<int>, n: int) -> Result<SqlParts, Seq<char>>
    decreases n,
{
    if n <= 0 {
        Ok(SqlParts {
            from: Seq::empty(),
            wh: Seq::empty(),
            vm: Seq::empty(),
            pushed: Seq::new(guard_positions(body).len(), |i: int| false),
        })
    } else {
        match positive_fold(body, env, order, n - 1) {
            Err(e) => Err(e),
            Ok(st) => positive_step(st, body, env, n - 1, literal_atom(body[order[n - 1]])),
        }
    }
}

fn guard_positions_of(body: &Vec<BodyLiteral<i64>>) -> (r: Vec<usize>)
    ensures
        positions_view(r@) == guard_positions(body.deep_view()),
        forall|k: int| 0 <= k < r@.len() ==> (#[trigger] r@[k]) < body@.len(),
{
    let ghost bv = body.deep_view();
    let mut out: Vec<usize> = Vec::new();
    let mut i: usize = 0;
    while i < body.len()
        invariant
            i <= body@.len(),
            bv == body.deep_view(),
            positions_view(out@) == guard_positions(bv.take(i as int)),
            forall|k: int| 0 <= k < out@.len() ==> (#[trigger] out@[k]) < body@.len(),
        decreases body.len() - i,
    {
        proof {
            assert(bv.take(i + 1).drop_last() =~= bv.take(i as int));
            assert(bv.take(i + 1).last() == bv[i as int]);
        }
        let ghost before = out@;
        if matches!(&body[i], BodyLiteral::Compare(..)) || matches!(&body[i], BodyLiteral::StringBuiltin(_)) {
            out.push(i);
            assert(positions_view(out@) =~= positions_view(before) + seq![i as int]);
        } else {
            assert(positions_view(out@) =~= positions_view(before) + Seq::<int>::empty());
        }
        i = i + 1;
    }
    assert(bv.take(body@.len() as int) =~= bv);
    out
}

pub(crate) fn bind_position_of(vm: &mut VarMap, wh: &mut Vec<String>, alias: &str, col: &str, t: &Term<i64>)
    ensures
        (final(vm).view_bindings(), final(wh).deep_view()) == bind_position(
            old(vm).view_bindings(),
            old(wh).deep_view(),
            alias@,
            col@,
            t.deep_view(),
        ),
{
    match t {
        Term::Var(v) => vm.bind(v.as_str(), alias, col),
        Term::Const(c) => {
            let ghost before = wh.deep_view();
            let mut cond = String::from_str(alias);
            cond.append(".");
            cond.append(col);
            cond.append(" = ");
            cond.append(const_sql(*c).as_str());
            wh.push(cond);
            assert(wh.deep_view() =~= before.push(alias@ + "."@ + col@ + " = "@ + const_text(*c)));
        },
        _ => {},
    }
}

pub(crate) fn bind_graph_of(vm: &mut VarMap, wh: &mut Vec<String>, alias: &str, t: &Term<i64>, default_only: bool)
    ensures
        (final(vm).view_bindings(), final(wh).deep_view()) == bind_graph(
            old(vm).view_bindings(),
            old(wh).deep_view(),
            alias@,
            t.deep_view(),
            default_only,
        ),
{
    match t {
        Term::Var(_) => bind_position_of(vm, wh, alias, "g", t),
        Term::Const(_) => bind_position_of(vm, wh, alias, "g", t),
        _ => {
            if default_only {
                let ghost before = wh.deep_view();
                let mut cond = String::from_str(alias);
                cond.append(".g = 0");
                wh.push(cond);
                assert(wh.deep_view() =~= before.push(alias@ + ".g = 0"@));
            }
        },
    }
}

/// Pushes the guards that `vm` completes: returns their SQL and marks them.
fn push_guards(body: &Vec<BodyLiteral<i64>>, guards: &Vec<usize>, pushed: &mut Vec<bool>, vm: &VarMap) -> (r: Vec<String>)
    requires
        old(pushed)@.len() == guards@.len(),
        forall|k: int| 0 <= k < guards@.len() ==> (#[trigger] guards@[k]) < body@.len(),
    ensures
        r.deep_view() == pushdown_conds(
            body.deep_view(),
            positions_view(guards@),
            old(pushed)@,
            vm.view_bindings(),
            guards@.len() as int,
        ),
        final(pushed)@ == pushed_after(body.deep_view(), positions_view(guards@), old(pushed)@, vm.view_bindings()),
{
    let ghost bv = body.deep_view();
    let ghost gp = positions_view(guards@);
    let ghost p0 = pushed@;
    let ghost vmv = vm.view_bindings();
    let mut out: Vec<String> = Vec::new();
    let mut gi: usize = 0;
    assert(out.deep_view() =~= pushdown_conds(bv, gp, p0, vmv, 0));
    while gi < guards.len()
        invariant
            gi <= guards@.len(),
            bv == body.deep_view(),
            gp == positions_view(guards@),
            vmv == vm.view_bindings(),
            p0.len() == guards@.len(),
            pushed@.len() == guards@.len(),
            forall|k: int| 0 <= k < guards@.len() ==> (#[trigger] guards@[k]) < body@.len(),
            forall|k: int| 0 <= k < guards@.len() ==> #[trigger] pushed@[k] == (if k < gi {
                pushed_after(bv, gp, p0, vmv)[k]
            } else {
                p0[k]
            }),
            out.deep_view() == pushdown_conds(bv, gp, p0, vmv, gi as int),
        decreases guards.len() - gi,
    {
        let g = &body[guards[gi]];
        let ghost before = out.deep_view();
        if !pushed[gi] && guard_fully_bound(g, vm) {
            match compile_guard_sql(g, vm) {
                Some(c) => {
                    out.push(c);
                    pushed.set(gi, true);
                    assert(out.deep_view() =~= before + seq![c@]);
                },
                None => {
                    assert(out.deep_view() =~= before + Seq::<Seq<char>>::empty());
                },
            }
        } else {
            assert(out.deep_view() =~= before + Seq::<Seq<char>>::empty());
        }
        gi = gi + 1;
    }
    assert(pushed@ =~= pushed_after(bv, gp, p0, vmv));
    out
}

/// Reads the positive atom `atom` as table `t{idx}`; `Err` for an atom
/// whose predicate is not a constant.
fn add_positive_atom(
    from: &mut Vec<String>,
    wh: &mut Vec<String>,
    vm: &mut VarMap,
    pushed: &mut Vec<bool>,
    body: &Vec<BodyLiteral<i64>>,
    guards: &Vec<usize>,
    env: &CompileEnv,
    idx: usize,
    atom: &Atom<i64>,
) -> (r: Result<(), String>)
    requires
        positions_view(guards@) == guard_positions(body.deep_view()),
        forall|k: int| 0 <= k < guards@.len() ==> (#[trigger] guards@[k]) < body@.len(),
        old(pushed)@.len() == guards@.len(),
    ensures
        match positive_step(
            SqlParts { from: old(from).deep_view(), wh: old(wh).deep_view(), vm: old(vm).view_bindings(), pushed: old(pushed)@ },
            body.deep_view(),
            *env,
            idx as int,
            atom.deep_view(),
        ) {
            Ok(st) => r is Ok && st == (SqlParts {
                from: final(from).deep_view(),
                wh: final(wh).deep_view(),
                vm: final(vm).view_bindings(),
                pushed: final(pushed)@,
            }),
            Err(e) => r matches Err(m) && m@ == e,
        },
        final(pushed)@.len() == guards@.len(),
{
    let pred = match &atom.p {
        Term::Const(id) => *id,
        Term::Var(_) => {
            return Err(String::from_str("variable predicate in rule body not supported"));
        },
        _ => {
            return Err(String::from_str("invalid predicate term in rule body"));
        },
    };
    let mut alias = String::from_str("t");
    push_u64_digits(&mut alias, idx as u64);
    bind_position_of(vm, wh, alias.as_str(), "s", &atom.s);
    bind_position_of(vm, wh, alias.as_str(), "o", &atom.o);
    bind_graph_of(vm, wh, alias.as_str(), &atom.g, env.default_graph_only);
    let push = push_guards(body, guards, pushed, vm);
    let read = vp_read_expr(env, pred);
    let ghost from0 = from.deep_view();
    if idx == 0 {
        let mut entry = read;
        entry.append(" ");
        entry.append(alias.as_str());
        from.push(entry);
        let ghost wh0 = wh.deep_view();
        let mut k: usize = 0;
        while k < push.len()
            invariant
                k <= push@.len(),
                wh.deep_view() == wh0 + push.deep_view().take(k as int),
            decreases push.len() - k,
        {
            let ghost w = wh.deep_view();
            wh.push(String::from_str(push[k].as_str()));
            assert(wh.deep_view() =~= w.push(push.deep_view()[k as int]));
            assert(push.deep_view().take(k + 1) =~= push.deep_view().take(k as int).push(push.deep_view()[k as int]));
            k = k + 1;
        }
        assert(push.deep_view().take(push@.len() as int) =~= push.deep_view());
        assert(from.deep_view() =~= from0.push(read@ + " "@ + alias@));
    } else {
        let jc0 = build_join_cond(alias.as_str(), atom, vm, env.default_graph_only);
        let mut jc = jc0;
        if push.len() > 0 {
            let joined = join_strings(&push, " AND ");
            if jc.unicode_len() == 0 {
                jc = joined;
            } else {
                jc.append(" AND ");
                jc.append(joined.as_str());
            }
        }
        let entry = if jc.unicode_len() == 0 {
            let mut e = read;
            e.append(" ");
            e.append(alias.as_str());
            e
        } else {
            let mut e = String::from_str("JOIN ");
            e.append(read.as_str());
            e.append(" ");
            e.append(alias.as_str());
            e.append(" ON ");
            e.append(jc.as_str());
            e
        };
        from.push(entry);
        assert(from.deep_view() =~= from0.push(entry@));
    }
    Ok(())
}

// ─── Negated atoms, remaining guards, assignments ────────────────────────────

/// Adds the negated atom `a`: a `LEFT JOIN … IS NULL` anti-join (alias
/// `aj{k}`) when the anti-join threshold is positive and the predicate has
/// at least that many triples, else a `NOT EXISTS` filter.
pub open spec fn negated_step(
    from: Seq<Seq<char>>,
    wh: Seq<Seq<char>>,
    k: nat,
    a: AtomV<i64>,
    env: CompileEnv,
    vm: Seq<Binding>,
) -> Result<(Seq<Seq<char>>, Seq<Seq<char>>, nat), Seq<char>> {
    match a.p {
        TermV::Const(pred) => {
            let read = read_expr(env.stats@, pred);
            if env.antijoin_threshold > 0 && triple_count_of(env.stats@, pred) >= env.antijoin_threshold {
                let aj = "aj"@ + nat_digits(k);
                Ok((
                    from.push("LEFT JOIN "@ + read + " "@ + aj + " ON "@ + antijoin_cond_spec(aj, a, vm)),
                    wh.push(aj + ".s IS NULL"@),
                    k + 1,
                ))
            } else {
                let inner = not_exists_conds_spec(a, vm);
                let cond = if inner.len() == 0 { "TRUE"@ } else { join_with(inner, " AND "@) };
                Ok((from, wh.push("NOT EXISTS (SELECT 1 FROM "@ + read + " WHERE "@ + cond + ")"@), k))
            }
        },
        _ => Err("variable predicate in NOT atom not supported"@),
    }
}

/// The SQL after adding the negated atoms among the first `n` literals.
pub open spec fn negated_fold(
    body: Seq<LiteralV<i64>>,
    env: CompileEnv,
    vm: Seq<Binding>,
    from: Seq<Seq<char>>,
    wh: Seq<Seq<char>>,
    n: int,
) -> Result<(Seq<Seq<char>>, Seq<Seq<char>>, nat), Seq<char>>
    decreases n,
{
    if n <= 0 {
        Ok((from, wh, 0))
    } else {
        match negated_fold(body, env, vm, from, wh, n - 1) {
            Err(e) => Err(e),
            Ok(t) => match body[n - 1] {
                LiteralV::Negated(a) => negated_step(t.0, t.1, t.2, a, env, vm),
                _ => Ok(t),
            },
        }
    }
}

/// The SQL of the first `n` guards that were not pushed.
pub open spec fn remaining_conds(body: Seq<LiteralV<i64>>, gp: Seq<int>, pushed: Seq<bool>, vm: Seq<Binding>, n: int) -> Seq<
    Seq<char>,
>
    decreases n,
{
    if n <= 0 {
        Seq::empty()
    } else {
        remaining_conds(body, gp, pushed, vm, n - 1) + (if !pushed[n - 1] && guard_sql_spec(body[gp[n - 1]], vm) is Some {
            seq![guard_sql_spec(body[gp[n - 1]], vm)->0]
        } else {
            Seq::empty()
        })
    }
}

/// The SQL expression an assignment binds: `(l op r)`, the divisor guarded
/// by `NULLIF(…, 0)`.
pub open spec fn assign_expr(l: TermV<i64>, op: ArithOp, r: TermV<i64>, vm: Seq<Binding>) -> Seq<char> {
    let rr = if op == ArithOp::Div { "NULLIF("@ + cmp_term_text(r, vm) + ", 0)"@ } else { cmp_term_text(r, vm) };
    "("@ + cmp_term_text(l, vm) + " "@ + arith_op_text(op) + " "@ + rr + ")"@
}

/// The bindings after the assignments among the first `n` literals.
pub open spec fn assign_fold(body: Seq<LiteralV<i64>>, vm: Seq<Binding>, n: int) -> Seq<Binding>
    decreases n,
{
    if n <= 0 {
        vm
    } else {
        let v = assign_fold(body, vm, n - 1);
        match body[n - 1] {
            LiteralV::Assign(x, l, op, r) => bind_spec(v, x, assign_expr(l, op, r, v), Seq::empty()),
            _ => v,
        }
    }
}

/// The variable of a term.
pub open spec fn var_of(t: TermV<i64>) -> Option<Seq<char>> {
    match t {
        TermV::Var(v) => Some(v),
        _ => None,
    }
}

/// `t` is a variable without a column (and is not `except`).
pub open spec fn unbound_var(t: TermV<i64>, vm: Seq<Binding>, except: Option<Seq<char>>) -> bool {
    match t {
        TermV::Var(v) => col_ref_spec(vm, v) is None && except != Some(v),
        _ => false,
    }
}

/// The error for an unbound variable `?v` in a comparison.
pub open spec fn unbound_compare_message(v: Seq<char>, head: Seq<char>) -> Seq<char> {
    "unbound variable ?"@ + v + " in comparison in rule '"@ + head
        + "': every variable in a comparison must be bound by a positive body literal"@
}

/// The error for an unbound variable `?v` in an assignment.
pub open spec fn unbound_assign_message(v: Seq<char>, head: Seq<char>) -> Seq<char> {
    "unbound variable ?"@ + v + " in assignment in rule '"@ + head
        + "': every variable in an arithmetic expression must be bound by a positive body literal"@
}

/// The error a literal gives for an unbound variable: the left operand
/// first; an assignment's own target is allowed.
pub open spec fn literal_unbound_error(l: LiteralV<i64>, vm: Seq<Binding>, head: Seq<char>) -> Option<Seq<char>> {
    match l {
        LiteralV::Compare(a, _, b) => if unbound_var(a, vm, None) {
            Some(unbound_compare_message(var_of(a)->0, head))
        } else if unbound_var(b, vm, None) {
            Some(unbound_compare_message(var_of(b)->0, head))
        } else {
            None
        },
        LiteralV::Assign(x, a, _, b) => if unbound_var(a, vm, Some(x)) {
            Some(unbound_assign_message(var_of(a)->0, head))
        } else if unbound_var(b, vm, Some(x)) {
            Some(unbound_assign_message(var_of(b)->0, head))
        } else {
            None
        },
        _ => None,
    }
}

/// The first unbound-variable error among the first `n` literals.
pub open spec fn first_unbound_error(body: Seq<LiteralV<i64>>, vm: Seq<Binding>, head: Seq<char>, n: int) -> Option<Seq<char>>
    decreases n,
{
    if n <= 0 {
        None
    } else {
        match first_unbound_error(body, vm, head, n - 1) {
            Some(e) => Some(e),
            None => literal_unbound_error(body[n - 1], vm, head),
        }
    }
}

/// The rule as error messages quote it: its first line, trimmed.
pub open spec fn head_text(rule_text: Seq<char>) -> Seq<char> {
    let ls = lines_spec(rule_text);
    trim(if ls.len() > 0 { ls[0] } else { rule_text })
}

/// The column a head position selects.
pub open spec fn head_column(t: TermV<i64>, vm: Seq<Binding>) -> Result<Seq<char>, Seq<char>> {
    match t {
        TermV::Var(v) => match col_ref_spec(vm, v) {
            Some(c) => Ok(c),
            None => Err("unbound variable ?"@ + v + " in head"@),
        },
        TermV::Const(c) => Ok(const_text(c)),
        TermV::Wildcard => Err("wildcard in head not allowed"@),
        TermV::DefaultGraph => Ok("0"@),
    }
}

/// The statement: insert the selected head columns into `target`, from the
/// joined tables, under the `WHERE` conditions.
pub open spec fn insert_select_sql(
    target: Seq<char>,
    s: Seq<char>,
    o: Seq<char>,
    g: Seq<char>,
    from: Seq<Seq<char>>,
    wh: Seq<Seq<char>>,
) -> Seq<char> {
    "INSERT INTO "@ + target + " (s, o, g)\nSELECT "@ + s + ", "@ + o + ", "@ + g + "\nFROM "@ + join_with(from, "\n"@)
        + "\n"@ + (if wh.len() == 0 { Seq::empty() } else { "WHERE "@ + join_with(wh, "\n  AND "@) })
        + "\nON CONFLICT DO NOTHING"@
}

/// A string built-in that this compiler has no SQL for (the similarity
/// functions).
pub open spec fn unsupported_builtin(l: LiteralV<i64>) -> bool {
    match l {
        LiteralV::StringBuiltin(b) => !(b is Strlen || b is Regex),
        _ => false,
    }
}

/// The compiled statement of a non-recursive rule inserting into `target`,
/// with `head_g` as the graph column, or the error.
pub open spec fn nonrecursive_sql(rv: crate::datalog::RuleV<i64>, head_g: Seq<char>, target: Seq<char>, env: CompileEnv) -> Result<
    Seq<char>,
    Seq<char>,
> {
    match rv.head {
        None => Err("compile_nonrecursive_rule: rule has no head"@),
        Some(h) => if exists|i: int| 0 <= i < rv.body.len() && unsupported_builtin(#[trigger] rv.body[i]) {
            Err("string similarity built-ins in rule bodies are not supported by the SQL compiler"@)
        } else {
            let order = atom_order(rv.body, env);
            match positive_fold(rv.body, env, order, order.len() as int) {
                Err(e) => Err(e),
                Ok(st) => match negated_fold(rv.body, env, st.vm, st.from, st.wh, rv.body.len() as int) {
                    Err(e) => Err(e),
                    Ok(t) => {
                        let gp = guard_positions(rv.body);
                        let wh = t.1 + remaining_conds(rv.body, gp, st.pushed, st.vm, gp.len() as int);
                        let vm = assign_fold(rv.body, st.vm, rv.body.len() as int);
                        match first_unbound_error(rv.body, vm, head_text(rv.rule_text), rv.body.len() as int) {
                            Some(e) => Err(e),
                            None => match head_column(h.s, vm) {
                                Err(e) => Err(e),
                                Ok(s) => match head_column(h.o, vm) {
                                    Err(e) => Err(e),
                                    Ok(o) => Ok(insert_select_sql(target, s, o, head_g, t.0, wh)),
                                },
                            },
                        }
                    },
                },
            }
        },
    }
}

/// A compiled statement or error, as text.
pub open spec fn result_view(r: Result<String, String>) -> Result<Seq<char>, Seq<char>> {
    match r {
        Ok(s) => Ok(s@),
        Err(e) => Err(e@),
    }
}

fn add_negated_atoms(
    from: &mut Vec<String>,
    wh: &mut Vec<String>,
    vm: &VarMap,
    body: &Vec<BodyLiteral<i64>>,
    env: &CompileEnv,
) -> (r: Result<(), String>)
    ensures
        match negated_fold(body.deep_view(), *env, vm.view_bindings(), old(from).deep_view(), old(wh).deep_view(), body@.len() as int) {
            Ok(t) => r is Ok && t.0 == final(from).deep_view() && t.1 == final(wh).deep_view(),
            Err(e) => r matches Err(m) && m@ == e,
        },
{
    let ghost bv = body.deep_view();
    let ghost vmv = vm.view_bindings();
    let ghost f0 = old(from).deep_view();
    let ghost w0 = old(wh).deep_view();
    let mut k: u64 = 0;
    let mut i: usize = 0;
    while i < body.len()
        invariant
            i <= body@.len(),
            bv == body.deep_view(),
            vmv == vm.view_bindings(),
            f0 == old(from).deep_view(),
            w0 == old(wh).deep_view(),
            k <= i,
            negated_fold(bv, *env, vmv, f0, w0, i as int) == Ok::<(Seq<Seq<char>>, Seq<Seq<char>>, nat), Seq<char>>((
                from.deep_view(),
                wh.deep_view(),
                k as nat,
            )),
        decreases body.len() - i,
    {
        match &body[i] {
            BodyLiteral::Negated(a) => {
                let pred = match &a.p {
                    Term::Const(id) => *id,
                    _ => {
                        proof {
                            assert(bv[i as int] == LiteralV::Negated(a.deep_view()));
                            assert(negated_fold(bv, *env, vmv, f0, w0, i + 1) is Err);
                            lemma_negated_error_stays(bv, *env, vmv, f0, w0, i + 1, body@.len() as int);
                            assert(negated_fold(bv, *env, vmv, f0, w0, body@.len() as int) == Err::<
                                (Seq<Seq<char>>, Seq<Seq<char>>, nat),
                                Seq<char>,
                            >("variable predicate in NOT atom not supported"@));
                        }
                        let m = String::from_str("variable predicate in NOT atom not supported");
                        assert(m@ == "variable predicate in NOT atom not supported"@);
                        return Err(m);
                    },
                };
                let read = vp_read_expr(env, pred);
                let ghost fb = from.deep_view();
                let ghost wb = wh.deep_view();
                if env.antijoin_threshold > 0 && estimate_pred_cardinality(env, pred) >= env.antijoin_threshold {
                    let mut aj = String::from_str("aj");
                    push_u64_digits(&mut aj, k);
                    let on = build_antijoin_on_cond(aj.as_str(), a, vm);
                    let mut e = String::from_str("LEFT JOIN ");
                    e.append(read.as_str());
                    e.append(" ");
                    e.append(aj.as_str());
                    e.append(" ON ");
                    e.append(on.as_str());
                    from.push(e);
                    let mut c = String::from_str(aj.as_str());
                    c.append(".s IS NULL");
                    wh.push(c);
                    assert(from.deep_view() =~= fb.push(e@));
                    assert(wh.deep_view() =~= wb.push(c@));
                    k = k + 1;
                } else {
                    let inner = build_not_exists_conds(a, vm);
                    let mut c = String::from_str("NOT EXISTS (SELECT 1 FROM ");
                    c.append(read.as_str());
                    c.append(" WHERE ");
                    if inner.len() == 0 {
                        c.append("TRUE");
                    } else {
                        c.append(join_strings(&inner, " AND ").as_str());
                    }
                    c.append(")");
                    wh.push(c);
                    assert(wh.deep_view() =~= wb.push(c@));
                }
            },
            _ => {},
        }
        i = i + 1;
    }
    Ok(())
}

fn add_remaining_guards(wh: &mut Vec<String>, body: &Vec<BodyLiteral<i64>>, guards: &Vec<usize>, pushed: &Vec<bool>, vm: &VarMap)
    requires
        pushed@.len() == guards@.len(),
        forall|k: int| 0 <= k < guards@.len() ==> (#[trigger] guards@[k]) < body@.len(),
    ensures
        final(wh).deep_view() == old(wh).deep_view() + remaining_conds(
            body.deep_view(),
            positions_view(guards@),
            pushed@,
            vm.view_bindings(),
            guards@.len() as int,
        ),
{
    let ghost bv = body.deep_view();
    let ghost gp = positions_view(guards@);
    let ghost w0 = wh.deep_view();
    let mut gi: usize = 0;
    assert(w0 =~= w0 + remaining_conds(bv, gp, pushed@, vm.view_bindings(), 0));
    while gi < guards.len()
        invariant
            gi <= guards@.len(),
            bv == body.deep_view(),
            gp == positions_view(guards@),
            pushed@.len() == guards@.len(),
            forall|k: int| 0 <= k < guards@.len() ==> (#[trigger] guards@[k]) < body@.len(),
            wh.deep_view() == w0 + remaining_conds(bv, gp, pushed@, vm.view_bindings(), gi as int),
        decreases guards.len() - gi,
    {
        let ghost before = wh.deep_view();
        if !pushed[gi] {
            match compile_guard_sql(&body[guards[gi]], vm) {
                Some(c) => {
                    wh.push(c);
                    assert(wh.deep_view() =~= before + seq![c@]);
                },
                None => {
                    assert(wh.deep_view() =~= before + Seq::<Seq<char>>::empty());
                },
            }
        } else {
            assert(wh.deep_view() =~= before + Seq::<Seq<char>>::empty());
        }
        gi = gi + 1;
    }
}

fn apply_assigns(vm: &mut VarMap, body: &Vec<BodyLiteral<i64>>)
    ensures
        final(vm).view_bindings() == assign_fold(body.deep_view(), old(vm).view_bindings(), body@.len() as int),
{
    let ghost bv = body.deep_view();
    let ghost v0 = vm.view_bindings();
    let mut i: usize = 0;
    while i < body.len()
        invariant
            i <= body@.len(),
            bv == body.deep_view(),
            vm.view_bindings() == assign_fold(bv, v0, i as int),
        decreases body.len() - i,
    {
        match &body[i] {
            BodyLiteral::Assign(x, l, op, r) => {
                let lt = render_comparison_term(l, vm);
                let rt = render_comparison_term(r, vm);
                let mut e = String::from_str("(");
                e.append(lt.as_str());
                e.append(" ");
                e.append(arith_op_sql(op));
                e.append(" ");
                if matches!(op, ArithOp::Div) {
                    e.append("NULLIF(");
                    e.append(rt.as_str());
                    e.append(", 0)");
                } else {
                    e.append(rt.as_str());
                }
                e.append(")");
                proof {
                    reveal_strlit("");
                    assert(""@ =~= Seq::<char>::empty());
                    assert(e@ =~= assign_expr(l.deep_view(), *op, r.deep_view(), vm.view_bindings()));
                }
                vm.bind(x.as_str(), e.as_str(), "");
            },
            _ => {},
        }
        i = i + 1;
    }
}

fn unbound_in(t: &Term<i64>, vm: &VarMap, except: Option<&String>) -> (r: bool)
    ensures
        r == unbound_var(t.deep_view(), vm.view_bindings(), match except {
            Some(x) => Some(x@),
            None => None,
        }),
{
    match t {
        Term::Var(v) => {
            if vm.col_ref(v.as_str()).is_some() {
                return false;
            }
            match except {
                Some(x) => !crate::text::str_eq(x.as_str(), v.as_str()),
                None => true,
            }
        },
        _ => false,
    }
}

fn var_name(t: &Term<i64>) -> (r: String)
    requires
        t is Var,
    ensures
        Some(r@) == var_of(t.deep_view()),
{
    match t {
        Term::Var(v) => String::from_str(v.as_str()),
        _ => String::new(),
    }
}

fn compare_message(v: &str, head: &str) -> (r: String)
    ensures
        r@ == unbound_compare_message(v@, head@),
{
    let mut m = String::from_str("unbound variable ?");
    m.append(v);
    m.append(" in comparison in rule '");
    m.append(head);
    m.append("': every variable in a comparison must be bound by a positive body literal");
    m
}

fn assign_message(v: &str, head: &str) -> (r: String)
    ensures
        r@ == unbound_assign_message(v@, head@),
{
    let mut m = String::from_str("unbound variable ?");
    m.append(v);
    m.append(" in assignment in rule '");
    m.append(head);
    m.append("': every variable in an arithmetic expression must be bound by a positive body literal");
    m
}

proof fn lemma_unbound_error_stays(body: Seq<LiteralV<i64>>, vm: Seq<Binding>, head: Seq<char>, n: int, m: int)
    requires
        0 <= n <= m,
        first_unbound_error(body, vm, head, n) is Some,
    ensures
        first_unbound_error(body, vm, head, m) == first_unbound_error(body, vm, head, n),
    decreases m - n,
{
    if m > n {
        lemma_unbound_error_stays(body, vm, head, n, m - 1);
    }
}

proof fn lemma_negated_error_stays(
    body: Seq<LiteralV<i64>>,
    env: CompileEnv,
    vm: Seq<Binding>,
    f: Seq<Seq<char>>,
    w: Seq<Seq<char>>,
    n: int,
    m: int,
)
    requires
        0 <= n <= m,
        negated_fold(body, env, vm, f, w, n) is Err,
    ensures
        negated_fold(body, env, vm, f, w, m) == negated_fold(body, env, vm, f, w, n),
    decreases m - n,
{
    if m > n {
        lemma_negated_error_stays(body, env, vm, f, w, n, m - 1);
    }
}

proof fn lemma_positive_error_stays(body: Seq<LiteralV<i64>>, env: CompileEnv, order: Seq<int>, n: int, m: int)
    requires
        0 <= n <= m,
        positive_fold(body, env, order, n) is Err,
    ensures
        positive_fold(body, env, order, m) == positive_fold(body, env, order, n),
    decreases m - n,
{
    if m > n {
        lemma_positive_error_stays(body, env, order, n, m - 1);
    }
}

fn check_unbound(body: &Vec<BodyLiteral<i64>>, vm: &VarMap, head: &str) -> (r: Option<String>)
    ensures
        match first_unbound_error(body.deep_view(), vm.view_bindings(), head@, body@.len() as int) {
            Some(e) => r matches Some(m) && m@ == e,
            None => r is None,
        },
{
    let ghost bv = body.deep_view();
    let mut i: usize = 0;
    while i < body.len()
        invariant
            i <= body@.len(),
            bv == body.deep_view(),
            first_unbound_error(bv, vm.view_bindings(), head@, i as int) is None,
        decreases body.len() - i,
    {
        match &body[i] {
            BodyLiteral::Compare(a, _, b) => {
                if unbound_in(a, vm, None) {
                    let m = compare_message(var_name(a).as_str(), head);
                    proof {
                        lemma_unbound_error_stays(bv, vm.view_bindings(), head@, i + 1, body@.len() as int);
                    }
                    return Some(m);
                }
                if unbound_in(b, vm, None) {
                    let m = compare_message(var_name(b).as_str(), head);
                    proof {
                        lemma_unbound_error_stays(bv, vm.view_bindings(), head@, i + 1, body@.len() as int);
                    }
                    return Some(m);
                }
            },
            BodyLiteral::Assign(x, a, _, b) => {
                if unbound_in(a, vm, Some(x)) {
                    let m = assign_message(var_name(a).as_str(), head);
                    proof {
                        lemma_unbound_error_stays(bv, vm.view_bindings(), head@, i + 1, body@.len() as int);
                    }
                    return Some(m);
                }
                if unbound_in(b, vm, Some(x)) {
                    let m = assign_message(var_name(b).as_str(), head);
                    proof {
                        lemma_unbound_error_stays(bv, vm.view_bindings(), head@, i + 1, body@.len() as int);
                    }
                    return Some(m);
                }
            },
            _ => {},
        }
        i = i + 1;
    }
    None
}

pub(crate) fn head_column_of(t: &Term<i64>, vm: &VarMap) -> (r: Result<String, String>)
    ensures
        result_view(r) == head_column(t.deep_view(), vm.view_bindings()),
{
    match t {
        Term::Var(v) => match vm.col_ref(v.as_str()) {
            Some(c) => Ok(c),
            None => {
                let mut m = String::from_str("unbound variable ?");
                m.append(v.as_str());
                m.append(" in head");
                Err(m)
            },
        },
        Term::Const(id) => Ok(const_sql(*id)),
        Term::Wildcard => Err(String::from_str("wildcard in head not allowed")),
        Term::DefaultGraph => Ok(String::from_str("0")),
    }
}

/// The first line of a rule's text, trimmed.
pub fn rule_head_text(rule_text: &str) -> (r: String)
    ensures
        r@ == head_text(rule_text@),
{
    let lines = split_lines(rule_text);
    let first = if lines.len() > 0 {
        str_chars(lines[0].as_str())
    } else {
        str_chars(rule_text)
    };
    string_from_chars(&trimmed(&first))
}

fn has_unsupported_builtin(body: &Vec<BodyLiteral<i64>>) -> (r: bool)
    ensures
        r == exists|i: int| 0 <= i < body@.len() && unsupported_builtin(#[trigger] body.deep_view()[i]),
{
    let ghost bv = body.deep_view();
    let mut i: usize = 0;
    while i < body.len()
        invariant
            i <= body@.len(),
            bv == body.deep_view(),
            forall|j: int| 0 <= j < i ==> !unsupported_builtin(#[trigger] bv[j]),
        decreases body.len() - i,
    {
        match &body[i] {
            BodyLiteral::StringBuiltin(b) => {
                if !(matches!(b, StringBuiltin::Strlen(..)) || matches!(b, StringBuiltin::Regex(..))) {
                    assert(unsupported_builtin(bv[i as int]));
                    return true;
                }
            },
            _ => {},
        }
        i = i + 1;
    }
    false
}

/// Compiles a non-recursive rule to `INSERT INTO target … SELECT …
/// ON CONFLICT DO NOTHING`, `head_g_expr` giving the graph column.
pub fn compile_nonrecursive_rule(rule: &Rule<i64>, head_g_expr: &str, target: &str, env: &CompileEnv) -> (r: Result<
    String,
    String,
>)
    ensures
        result_view(r) == nonrecursive_sql(rule.deep_view(), head_g_expr@, target@, *env),
{
    let ghost rv = rule.deep_view();
    let head = match &rule.head {
        Some(h) => h,
        None => {
            return Err(String::from_str("compile_nonrecursive_rule: rule has no head"));
        },
    };
    if has_unsupported_builtin(&rule.body) {
        return Err(String::from_str("string similarity built-ins in rule bodies are not supported by the SQL compiler"));
    }
    let body = &rule.body;
    let ghost bv = body.deep_view();
    let order = cost_order_atoms(body, env);
    let guards = guard_positions_of(body);
    let mut from: Vec<String> = Vec::new();
    let mut wh: Vec<String> = Vec::new();
    let mut vm = VarMap::new();
    let mut pushed: Vec<bool> = Vec::new();
    let mut g: usize = 0;
    while g < guards.len()
        invariant
            g <= guards@.len(),
            pushed@.len() == g,
            forall|q: int| 0 <= q < g ==> pushed@[q] == false,
        decreases guards.len() - g,
    {
        pushed.push(false);
        g = g + 1;
    }
    proof {
        assert(from.deep_view() =~= Seq::<Seq<char>>::empty());
        assert(wh.deep_view() =~= Seq::<Seq<char>>::empty());
        assert(pushed@ =~= Seq::new(guard_positions(bv).len(), |i: int| false));
    }
    let ghost ov = positions_view(order@);
    let mut i: usize = 0;
    while i < order.len()
        invariant
            i <= order@.len(),
            rv == rule.deep_view(),
            rv.body == bv,
            rv.head == Some(head.deep_view()),
            !exists|q: int| 0 <= q < rv.body.len() && unsupported_builtin(#[trigger] rv.body[q]),
            bv == body.deep_view(),
            ov == positions_view(order@),
            ov == atom_order(bv, *env),
            positions_view(guards@) == guard_positions(bv),
            forall|k: int| 0 <= k < guards@.len() ==> (#[trigger] guards@[k]) < body@.len(),
            forall|k: int| 0 <= k < order@.len() ==> (#[trigger] order@[k]) < body@.len() && bv[order@[k] as int] is Positive,
            pushed@.len() == guards@.len(),
            positive_fold(bv, *env, ov, i as int) == Ok::<SqlParts, Seq<char>>(SqlParts {
                from: from.deep_view(),
                wh: wh.deep_view(),
                vm: vm.view_bindings(),
                pushed: pushed@,
            }),
        decreases order.len() - i,
    {
        let p = order[i];
        match &body[p] {
            BodyLiteral::Positive(a) => {
                proof {
                    assert(ov[i as int] == p as int);
                    assert(bv[p as int] == LiteralV::Positive(a.deep_view()));
                    assert(literal_atom(bv[ov[i as int]]) == a.deep_view());
                }
                let res = add_positive_atom(&mut from, &mut wh, &mut vm, &mut pushed, body, &guards, env, i, a);
                match res {
                    Ok(()) => {},
                    Err(e) => {
                        proof {
                            lemma_positive_error_stays(bv, *env, ov, i + 1, ov.len() as int);
                            assert(rv.body == bv);
                            assert(rv.head == Some(head.deep_view()));
                            assert(positive_fold(bv, *env, ov, ov.len() as int) == Err::<SqlParts, Seq<char>>(e@));
                        }
                        return Err(e);
                    },
                }
            },
            _ => {},
        }
        i = i + 1;
    }
    let ghost st = SqlParts { from: from.deep_view(), wh: wh.deep_view(), vm: vm.view_bindings(), pushed: pushed@ };
    assert(rv.body == bv);
    assert(rv.head == Some(head.deep_view()));
    assert(ov.len() == order@.len());
    assert(positive_fold(bv, *env, atom_order(bv, *env), atom_order(bv, *env).len() as int) == Ok::<SqlParts, Seq<char>>(st));
    match add_negated_atoms(&mut from, &mut wh, &vm, body, env) {
        Ok(()) => {},
        Err(e) => {
            return Err(e);
        },
    }
    let ghost wh1 = wh.deep_view();
    add_remaining_guards(&mut wh, body, &guards, &pushed, &vm);
    apply_assigns(&mut vm, body);
    let ht = rule_head_text(rule.rule_text.as_str());
    match check_unbound(body, &vm, ht.as_str()) {
        Some(e) => {
            return Err(e);
        },
        None => {},
    }
    let s = match head_column_of(&head.s, &vm) {
        Ok(c) => c,
        Err(e) => {
            return Err(e);
        },
    };
    let o = match head_column_of(&head.o, &vm) {
        Ok(c) => c,
        Err(e) => {
            return Err(e);
        },
    };
    let mut out = String::from_str("INSERT INTO ");
    out.append(target);
    out.append(" (s, o, g)\nSELECT ");
    out.append(s.as_str());
    out.append(", ");
    out.append(o.as_str());
    out.append(", ");
    out.append(head_g_expr);
    out.append("\nFROM ");
    out.append(join_strings(&from, "\n").as_str());
    out.append("\n");
    let ghost prefix = out@;
    if wh.len() > 0 {
        out.append("WHERE ");
        out.append(join_strings(&wh, "\n  AND ").as_str());
        assert(out@ =~= prefix + ("WHERE "@ + join_with(wh.deep_view(), "\n  AND "@)));
    } else {
        assert(out@ =~= prefix + Seq::<char>::empty());
    }
    out.append("\nON CONFLICT DO NOTHING");
    assert(out@ =~= insert_select_sql(target@, s@, o@, head_g_expr@, from.deep_view(), wh.deep_view()));
    Ok(out)
}

} // verus!
