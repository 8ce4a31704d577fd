//! SQL compilation of Datalog rules.
//!
//! Every constant is a dictionary ID, so the generated SQL compares integers
//! only. What the compiler reads from the catalog and the settings (triple
//! counts, which predicates have a dedicated table, the cost and anti-join
//! settings) comes in a [`CompileEnv`].

pub mod nonrec;
pub mod recursive;
pub mod constraint;
pub mod delta;
pub mod aggregate;
pub mod cte;

use vstd::prelude::*;
use crate::datalog::{ArithOp, Atom, AtomV, BodyLiteral, BuiltinV, CompareOp, LiteralV, StringBuiltin, Term, TermV};
use crate::text::{
    first_pos, int_decimal, lemma_first_pos, lemma_first_pos_absent, push_i64_decimal, replace_all,
    replace_chars, str_chars, str_eq, string_from_chars,
};

verus! {

// ─── Reading a predicate's triples ───────────────────────────────────────────

/// The table expression that reads the triples of predicate `pred_id`: the
/// dedicated view together with the rows not yet moved out of `vp_rare`
/// when the predicate has a dedicated table, else its rows of `vp_rare`.
pub open spec fn vp_read_expr_spec(pred_id: i64, has_dedicated: bool) -> Seq<char> {
    if has_dedicated {
        "(SELECT s, o, g FROM _pg_ripple.vp_"@ + int_decimal(pred_id as int)
            + " UNION ALL SELECT s, o, g FROM _pg_ripple.vp_rare WHERE p = "@ + int_decimal(pred_id as int) + ")"@
    } else {
        "(SELECT s, o, g FROM _pg_ripple.vp_rare WHERE p = "@ + int_decimal(pred_id as int) + ")"@
    }
}

/// The SQL table expression for reading the triples of `pred_id`;
/// `has_dedicated` tells whether the catalog lists a dedicated table for it.
pub fn vp_read_expr_pub(pred_id: i64, has_dedicated: bool) -> (r: String)
    ensures
        r@ == vp_read_expr_spec(pred_id, has_dedicated),
{
    let mut out = String::new();
    if has_dedicated {
        out.append("(SELECT s, o, g FROM _pg_ripple.vp_");
        push_i64_decimal(&mut out, pred_id);
        out.append(" UNION ALL SELECT s, o, g FROM _pg_ripple.vp_rare WHERE p = ");
    } else {
        out.append("(SELECT s, o, g FROM _pg_ripple.vp_rare WHERE p = ");
    }
    push_i64_decimal(&mut out, pred_id);
    out.append(")");
    out
}

/// The view a rule writes predicate `pred_id` to (main and delta tables).
pub open spec fn vp_table_spec(pred_id: i64) -> Seq<char> {
    "_pg_ripple.vp_"@ + int_decimal(pred_id as int)
}

/// The view a rule writes predicate `pred_id` to.
pub fn vp_table(pred_id: i64) -> (r: String)
    ensures
        r@ == vp_table_spec(pred_id),
{
    let mut out = String::from_str("_pg_ripple.vp_");
    push_i64_decimal(&mut out, pred_id);
    out
}

/// A constant as an SQL integer literal.
pub open spec fn const_text(id: i64) -> Seq<char> {
    int_decimal(id as int)
}

/// A constant as an SQL integer literal.
pub fn const_sql(id: i64) -> (r: String)
    ensures
        r@ == const_text(id),
{
    crate::text::i64_to_string(id)
}

// ─── The compile environment ─────────────────────────────────────────────────

/// Catalog facts about one predicate.
#[derive(Debug)]
pub struct PredStats {
    pub id: i64,
    /// The predicate's triple count as the catalog records it.
    pub triple_count: i64,
    /// The predicate has a dedicated table.
    pub has_dedicated: bool,
}

/// What the compiler reads from the catalog and the settings.
#[derive(Debug)]
pub struct CompileEnv {
    /// Catalog rows of predicates; a predicate without a row counts no
    /// triples and has no dedicated table.
    pub stats: Vec<PredStats>,
    /// Order positive body atoms by estimated cardinality.
    pub cost_reorder: bool,
    /// Divisor of the estimate when subject and object are both bound.
    pub bound_so_divisor: i64,
    /// Divisor of the estimate when one of them is bound.
    pub bound_s_divisor: i64,
    /// A negated atom over a predicate with at least this many triples
    /// becomes an anti-join (when the threshold is positive).
    pub antijoin_threshold: i64,
    /// Atoms without a graph read the default graph only.
    pub default_graph_only: bool,
    /// The depth bound of recursive rules (none when not positive).
    pub max_depth: i64,
}

/// The predicate IDs of the catalog rows, in order.
pub open spec fn stat_ids(stats: Seq<PredStats>) -> Seq<i64> {
    Seq::new(stats.len(), |i: int| stats[i].id)
}

/// The triple count of `id`: from its first catalog row, else 0.
pub open spec fn triple_count_of(stats: Seq<PredStats>, id: i64) -> i64 {
    let i = first_pos(stat_ids(stats), id);
    if i < stats.len() { stats[i].triple_count } else { 0 }
}

/// Whether `id` has a dedicated table: from its first catalog row, else no.
pub open spec fn dedicated_of(stats: Seq<PredStats>, id: i64) -> bool {
    let i = first_pos(stat_ids(stats), id);
    if i < stats.len() { stats[i].has_dedicated } else { false }
}

/// The table expression that reads `id` under the catalog rows `stats`.
pub open spec fn read_expr(stats: Seq<PredStats>, id: i64) -> Seq<char> {
    vp_read_expr_spec(id, dedicated_of(stats, id))
}

fn stat_position(stats: &Vec<PredStats>, id: i64) -> (r: usize)
    ensures
        r as int == first_pos(stat_ids(stats@), id),
        r <= stats@.len(),
{
    let ghost ids = stat_ids(stats@);
    let mut i: usize = 0;
    while i < stats.len() && stats[i].id != id
        invariant
            i <= stats@.len(),
            ids == stat_ids(stats@),
            forall|q: int| 0 <= q < i ==> ids[q] != id,
        decreases stats.len() - i,
    {
        i = i + 1;
    }
    proof {
        if i < stats.len() {
            lemma_first_pos(ids, id, i as int);
        } else {
            lemma_first_pos_absent(ids, id);
        }
    }
    i
}

/// The catalog's triple count of `pred_id` (0 when it has no row).
pub fn estimate_pred_cardinality(env: &CompileEnv, pred_id: i64) -> (r: i64)
    ensures
        r == triple_count_of(env.stats@, pred_id),
{
    let i = stat_position(&env.stats, pred_id);
    if i < env.stats.len() {
        env.stats[i].triple_count
    } else {
        0
    }
}

/// The table expression that reads `pred_id`, as the catalog decides it.
pub fn vp_read_expr(env: &CompileEnv, pred_id: i64) -> (r: String)
    ensures
        r@ == read_expr(env.stats@, pred_id),
{
    let i = stat_position(&env.stats, pred_id);
    let dedicated = i < env.stats.len() && env.stats[i].has_dedicated;
    vp_read_expr_pub(pred_id, dedicated)
}

// ─── Variable map ────────────────────────────────────────────────────────────

/// A variable bound to a column: `(variable, table alias, column)`; a
/// computed value has its SQL expression as alias and an empty column.
pub type Binding = (Seq<char>, Seq<char>, Seq<char>);

/// The variables of `vm`, in binding order.
pub open spec fn bound_names(vm: Seq<Binding>) -> Seq<Seq<char>> {
    Seq::new(vm.len(), |i: int| vm[i].0)
}

/// The SQL that a binding stands for: `alias.col`, or the alias alone.
pub open spec fn column_text(b: Binding) -> Seq<char> {
    if b.2.len() == 0 { b.1 } else { b.1 + "."@ + b.2 }
}

/// The column of variable `v`: from its first binding.
pub open spec fn col_ref_spec(vm: Seq<Binding>, v: Seq<char>) -> Option<Seq<char>> {
    let i = first_pos(bound_names(vm), v);
    if i < vm.len() { Some(column_text(vm[i])) } else { None }
}

/// `vm` with `v` bound to `alias.col`, unless `v` is bound already: later
/// occurrences become join conditions.
pub open spec fn bind_spec(vm: Seq<Binding>, v: Seq<char>, alias: Seq<char>, col: Seq<char>) -> Seq<Binding> {
    if first_pos(bound_names(vm), v) < vm.len() { vm } else { vm.push((v, alias, col)) }
}

/// The variable bindings made while the body atoms are read.
#[derive(Debug)]
pub struct VarMap {
    pub bindings: Vec<(String, String, String)>,
}

/// The bindings as text triples.
pub open spec fn binding_views(b: Seq<(String, String, String)>) -> Seq<Binding> {
    Seq::new(b.len(), |i: int| (b[i].0@, b[i].1@, b[i].2@))
}

impl VarMap {
    /// The bindings of the map.
    pub open spec fn view_bindings(&self) -> Seq<Binding> {
        binding_views(self.bindings@)
    }

    /// An empty map.
    pub fn new() -> (r: VarMap)
        ensures
            r.view_bindings() == Seq::<Binding>::empty(),
    {
        let r = VarMap { bindings: Vec::new() };
        assert(r.view_bindings() =~= Seq::<Binding>::empty());
        r
    }

    fn position(&self, var: &str) -> (r: usize)
        ensures
            r as int == first_pos(bound_names(self.view_bindings()), var@),
            r <= self.bindings@.len(),
    {
        let ghost names = bound_names(self.view_bindings());
        let mut i: usize = 0;
        while i < self.bindings.len() && !str_eq(self.bindings[i].0.as_str(), var)
            invariant
                i <= self.bindings@.len(),
                names == bound_names(self.view_bindings()),
                forall|q: int| 0 <= q < i ==> names[q] != var@,
            decreases self.bindings.len() - i,
        {
            i = i + 1;
        }
        proof {
            if i < self.bindings.len() {
                lemma_first_pos(names, var@, i as int);
            } else {
                lemma_first_pos_absent(names, var@);
            }
        }
        i
    }

    /// Binds `var` to `alias.col` unless it is bound already.
    pub fn bind(&mut self, var: &str, alias: &str, col: &str)
        ensures
            final(self).view_bindings() == bind_spec(old(self).view_bindings(), var@, alias@, col@),
    {
        let i = self.position(var);
        if i < self.bindings.len() {
            return;
        }
        let ghost before = self.view_bindings();
        self.bindings.push((String::from_str(var), String::from_str(alias), String::from_str(col)));
        assert(self.view_bindings() =~= before.push((var@, alias@, col@)));
    }

    /// The column of `var`: `alias.col`, or the alias alone for a computed value.
    pub fn col_ref(&self, var: &str) -> (r: Option<String>)
        ensures
            match r {
                Some(c) => col_ref_spec(self.view_bindings(), var@) == Some(c@),
                None => col_ref_spec(self.view_bindings(), var@) is None,
            },
    {
        let i = self.position(var);
        if i >= self.bindings.len() {
            return None;
        }
        let (_, a, c) = &self.bindings[i];
        let mut out = String::from_str(a.as_str());
        if c.unicode_len() > 0 {
            out.append(".");
            out.append(c.as_str());
        }
        Some(out)
    }
}

// ─── Conditions ──────────────────────────────────────────────────────────────

/// The condition that one position of an atom puts on column `prefix col`:
/// a bound variable equals its column, a constant its value.
pub open spec fn pos_conds(prefix: Seq<char>, col: Seq<char>, t: TermV<i64>, vm: Seq<Binding>) -> Seq<Seq<char>> {
    match t {
        TermV::Var(v) => match col_ref_spec(vm, v) {
            Some(r) => seq![prefix + col + " = "@ + r],
            None => Seq::empty(),
        },
        TermV::Const(c) => seq![prefix + col + " = "@ + const_text(c)],
        _ => Seq::empty(),
    }
}

/// The condition on the graph column: as [`pos_conds`] for a variable or a
/// constant, else the default graph when only that one is read.
pub open spec fn graph_conds(prefix: Seq<char>, t: TermV<i64>, vm: Seq<Binding>, default_only: bool) -> Seq<
    Seq<char>,
> {
    match t {
        TermV::Var(_) => pos_conds(prefix, "g"@, t, vm),
        TermV::Const(_) => pos_conds(prefix, "g"@, t, vm),
        _ => if default_only { seq![prefix + "g = 0"@] } else { Seq::empty() },
    }
}

/// The `JOIN … ON` condition of an atom read as `alias`.
pub open spec fn join_cond_spec(alias: Seq<char>, a: AtomV<i64>, vm: Seq<Binding>, default_only: bool) -> Seq<char> {
    let p = alias + "."@;
    crate::datalog::parser::join_with(
        pos_conds(p, "s"@, a.s, vm) + pos_conds(p, "o"@, a.o, vm) + graph_conds(p, a.g, vm, default_only),
        " AND "@,
    )
}

/// The conditions inside `NOT EXISTS` for a negated atom.
pub open spec fn not_exists_conds_spec(a: AtomV<i64>, vm: Seq<Binding>) -> Seq<Seq<char>> {
    pos_conds(Seq::empty(), "s"@, a.s, vm) + pos_conds(Seq::empty(), "o"@, a.o, vm)
}

/// The `LEFT JOIN … ON` condition of a negated atom read as `aj`.
pub open spec fn antijoin_cond_spec(aj: Seq<char>, a: AtomV<i64>, vm: Seq<Binding>) -> Seq<char> {
    let c = pos_conds(aj + "."@, "s"@, a.s, vm) + pos_conds(aj + "."@, "o"@, a.o, vm);
    if c.len() == 0 { "TRUE"@ } else { crate::datalog::parser::join_with(c, " AND "@) }
}

fn push_pos_cond(conds: &mut Vec<String>, prefix: &str, col: &str, t: &Term<i64>, vm: &VarMap)
    ensures
        final(conds).deep_view() == old(conds).deep_view() + pos_conds(prefix@, col@, t.deep_view(), vm.view_bindings()),
{
    let ghost before = conds.deep_view();
    match t {
        Term::Var(v) => {
            match vm.col_ref(v.as_str()) {
                Some(r) => {
                    let mut c = String::from_str(prefix);
                    c.append(col);
                    c.append(" = ");
                    c.append(r.as_str());
                    conds.push(c);
                    assert(conds.deep_view() =~= before + seq![prefix@ + col@ + " = "@ + r@]);
                },
                None => {
                    assert(conds.deep_view() =~= before + Seq::<Seq<char>>::empty());
                },
            }
        },
        Term::Const(id) => {
            let mut c = String::from_str(prefix);
            c.append(col);
            c.append(" = ");
            push_i64_decimal(&mut c, *id);
            conds.push(c);
            assert(conds.deep_view() =~= before + seq![prefix@ + col@ + " = "@ + const_text(*id)]);
        },
        _ => {
            assert(conds.deep_view() =~= before + Seq::<Seq<char>>::empty());
        },
    }
}

fn push_graph_cond(conds: &mut Vec<String>, prefix: &str, t: &Term<i64>, vm: &VarMap, default_only: bool)
    ensures
        final(conds).deep_view() == old(conds).deep_view() + graph_conds(prefix@, t.deep_view(), vm.view_bindings(), default_only),
{
    match t {
        Term::Var(_) => push_pos_cond(conds, prefix, "g", t, vm),
        Term::Const(_) => push_pos_cond(conds, prefix, "g", t, vm),
        _ => {
            let ghost before = conds.deep_view();
            if default_only {
                let mut c = String::from_str(prefix);
                c.append("g = 0");
                conds.push(c);
                assert(conds.deep_view() =~= before + seq![prefix@ + "g = 0"@]);
            } else {
                assert(conds.deep_view() =~= before + Seq::<Seq<char>>::empty());
            }
        },
    }
}

/// The `JOIN … ON` condition for `atom` read as `alias`.
pub fn build_join_cond(alias: &str, atom: &Atom<i64>, vm: &VarMap, default_only: bool) -> (r: String)
    ensures
        r@ == join_cond_spec(alias@, atom.deep_view(), vm.view_bindings(), default_only),
{
    let mut p = String::from_str(alias);
    p.append(".");
    let mut conds: Vec<String> = Vec::new();
    assert(conds.deep_view() =~= Seq::<Seq<char>>::empty());
    push_pos_cond(&mut conds, p.as_str(), "s", &atom.s, vm);
    push_pos_cond(&mut conds, p.as_str(), "o", &atom.o, vm);
    push_graph_cond(&mut conds, p.as_str(), &atom.g, vm, default_only);
    assert(conds.deep_view() =~= pos_conds(p@, "s"@, atom.s.deep_view(), vm.view_bindings()) + pos_conds(
        p@,
        "o"@,
        atom.o.deep_view(),
        vm.view_bindings(),
    ) + graph_conds(p@, atom.g.deep_view(), vm.view_bindings(), default_only));
    crate::datalog::parser::join_strings(&conds, " AND ")
}

/// The conditions inside `NOT EXISTS (…)` for a negated atom.
pub fn build_not_exists_conds(atom: &Atom<i64>, vm: &VarMap) -> (r: Vec<String>)
    ensures
        r.deep_view() == not_exists_conds_spec(atom.deep_view(), vm.view_bindings()),
{
    let mut conds: Vec<String> = Vec::new();
    assert(conds.deep_view() =~= Seq::<Seq<char>>::empty());
    push_pos_cond(&mut conds, "", "s", &atom.s, vm);
    push_pos_cond(&mut conds, "", "o", &atom.o, vm);
    proof {
        reveal_strlit("");
        assert(""@ =~= Seq::<char>::empty());
        assert(conds.deep_view() =~= not_exists_conds_spec(atom.deep_view(), vm.view_bindings()));
    }
    conds
}

/// The `LEFT JOIN … ON` condition of a negated atom read as `aj_alias`.
pub fn build_antijoin_on_cond(aj_alias: &str, atom: &Atom<i64>, vm: &VarMap) -> (r: String)
    ensures
        r@ == antijoin_cond_spec(aj_alias@, atom.deep_view(), vm.view_bindings()),
{
    let mut p = String::from_str(aj_alias);
    p.append(".");
    let mut conds: Vec<String> = Vec::new();
    assert(conds.deep_view() =~= Seq::<Seq<char>>::empty());
    push_pos_cond(&mut conds, p.as_str(), "s", &atom.s, vm);
    push_pos_cond(&mut conds, p.as_str(), "o", &atom.o, vm);
    if conds.len() == 0 {
        String::from_str("TRUE")
    } else {
        crate::datalog::parser::join_strings(&conds, " AND ")
    }
}

// ─── Guards ──────────────────────────────────────────────────────────────────

/// A comparison operand in SQL: a bound variable's column, a constant, or
/// `NULL` (with a comment naming an unbound variable).
pub open spec fn cmp_term_text(t: TermV<i64>, vm: Seq<Binding>) -> Seq<char> {
    match t {
        TermV::Var(v) => match col_ref_spec(vm, v) {
            Some(r) => r,
            None => "NULL /* unbound ?"@ + v + " */"@,
        },
        TermV::Const(c) => const_text(c),
        TermV::Wildcard => "NULL"@,
        TermV::DefaultGraph => "0"@,
    }
}

/// The SQL of a comparison operator.
pub open spec fn compare_op_text(op: CompareOp) -> Seq<char> {
    match op {
        CompareOp::Gt => ">"@,
        CompareOp::Gte => ">="@,
        CompareOp::Lt => "<"@,
        CompareOp::Lte => "<="@,
        CompareOp::Eq => "="@,
        CompareOp::Neq => "<>"@,
    }
}

/// The SQL of an arithmetic operator.
pub open spec fn arith_op_text(op: ArithOp) -> Seq<char> {
    match op {
        ArithOp::Add => "+"@,
        ArithOp::Sub => "-"@,
        ArithOp::Mul => "*"@,
        ArithOp::Div => "/"@,
    }
}

/// Renders a comparison operand.
pub fn render_comparison_term(term: &Term<i64>, vm: &VarMap) -> (r: String)
    ensures
        r@ == cmp_term_text(term.deep_view(), vm.view_bindings()),
{
    match term {
        Term::Var(v) => match vm.col_ref(v.as_str()) {
            Some(c) => c,
            None => {
                let mut m = String::from_str("NULL /* unbound ?");
                m.append(v.as_str());
                m.append(" */");
                m
            },
        },
        Term::Const(id) => const_sql(*id),
        Term::Wildcard => String::from_str("NULL"),
        Term::DefaultGraph => String::from_str("0"),
    }
}

/// The SQL of a comparison operator.
pub fn compare_op_sql(op: &CompareOp) -> (r: &'static str)
    ensures
        r@ == compare_op_text(*op),
{
    match op {
        CompareOp::Gt => ">",
        CompareOp::Gte => ">=",
        CompareOp::Lt => "<",
        CompareOp::Lte => "<=",
        CompareOp::Eq => "=",
        CompareOp::Neq => "<>",
    }
}

/// The SQL of an arithmetic operator (a divisor is guarded by the caller).
pub fn arith_op_sql(op: &ArithOp) -> (r: &'static str)
    ensures
        r@ == arith_op_text(*op),
{
    match op {
        ArithOp::Add => "+",
        ArithOp::Sub => "-",
        ArithOp::Mul => "*",
        ArithOp::Div => "/",
    }
}

/// A term is bound: a constant, or a variable with a column.
pub open spec fn term_bound(t: TermV<i64>, vm: Seq<Binding>) -> bool {
    match t {
        TermV::Var(v) => col_ref_spec(vm, v) is Some,
        _ => true,
    }
}

/// All the variables a guard reads are bound (an assignment's target need
/// not be). Only comparisons, assignments, `STRLEN` and `REGEX` are guards.
pub open spec fn guard_bound_spec(l: LiteralV<i64>, vm: Seq<Binding>) -> bool {
    match l {
        LiteralV::Compare(a, _, b) => term_bound(a, vm) && term_bound(b, vm),
        LiteralV::Assign(_, a, _, b) => term_bound(a, vm) && term_bound(b, vm),
        LiteralV::StringBuiltin(BuiltinV::Strlen(t, _, r)) => term_bound(t, vm) && term_bound(r, vm),
        LiteralV::StringBuiltin(BuiltinV::Regex(t, _)) => term_bound(t, vm),
        _ => false,
    }
}

/// The SQL condition of a comparison, `STRLEN` or `REGEX` guard.
pub open spec fn guard_sql_spec(l: LiteralV<i64>, vm: Seq<Binding>) -> Option<Seq<char>> {
    match l {
        LiteralV::Compare(a, op, b) => Some(
            cmp_term_text(a, vm) + " "@ + compare_op_text(op) + " "@ + cmp_term_text(b, vm),
        ),
        LiteralV::StringBuiltin(BuiltinV::Strlen(t, op, r)) => Some(
            "LENGTH("@ + cmp_term_text(t, vm) + "::text) "@ + compare_op_text(op) + " "@ + cmp_term_text(r, vm),
        ),
        LiteralV::StringBuiltin(BuiltinV::Regex(t, p)) => Some(
            cmp_term_text(t, vm) + "::text ~ '"@ + replace_all(p, seq!['\''], seq!['\'', '\'']) + "'"@,
        ),
        _ => None,
    }
}

/// Whether every variable that `guard` reads is bound in `vm`.
pub fn guard_fully_bound(guard: &BodyLiteral<i64>, vm: &VarMap) -> (r: bool)
    ensures
        r == guard_bound_spec(guard.deep_view(), vm.view_bindings()),
{
    match guard {
        BodyLiteral::Compare(a, _, b) => term_is_bound(a, vm) && term_is_bound(b, vm),
        BodyLiteral::Assign(_, a, _, b) => term_is_bound(a, vm) && term_is_bound(b, vm),
        BodyLiteral::StringBuiltin(StringBuiltin::Strlen(t, _, r)) => term_is_bound(t, vm) && term_is_bound(r, vm),
        BodyLiteral::StringBuiltin(StringBuiltin::Regex(t, _)) => term_is_bound(t, vm),
        _ => false,
    }
}

fn term_is_bound(t: &Term<i64>, vm: &VarMap) -> (r: bool)
    ensures
        r == term_bound(t.deep_view(), vm.view_bindings()),
{
    match t {
        Term::Var(v) => vm.col_ref(v.as_str()).is_some(),
        _ => true,
    }
}

/// The SQL condition of a guard, for comparisons, `STRLEN` and `REGEX`.
pub fn compile_guard_sql(guard: &BodyLiteral<i64>, vm: &VarMap) -> (r: Option<String>)
    ensures
        match r {
            Some(s) => guard_sql_spec(guard.deep_view(), vm.view_bindings()) == Some(s@),
            None => guard_sql_spec(guard.deep_view(), vm.view_bindings()) is None,
        },
{
    match guard {
        BodyLiteral::Compare(a, op, b) => {
            let mut out = render_comparison_term(a, vm);
            out.append(" ");
            out.append(compare_op_sql(op));
            out.append(" ");
            out.append(render_comparison_term(b, vm).as_str());
            Some(out)
        },
        BodyLiteral::StringBuiltin(StringBuiltin::Strlen(t, op, r)) => {
            let mut out = String::from_str("LENGTH(");
            out.append(render_comparison_term(t, vm).as_str());
            out.append("::text) ");
            out.append(compare_op_sql(op));
            out.append(" ");
            out.append(render_comparison_term(r, vm).as_str());
            Some(out)
        },
        BodyLiteral::StringBuiltin(StringBuiltin::Regex(t, p)) => {
            let mut out = render_comparison_term(t, vm);
            out.append("::text ~ '");
            let pat = vec!['\''];
            let rep = vec!['\'', '\''];
            assert(pat@ =~= seq!['\'']);
            assert(rep@ =~= seq!['\'', '\'']);
            let escaped = replace_chars(&str_chars(p.as_str()), &pat, &rep);
            out.append(string_from_chars(&escaped).as_str());
            out.append("'");
            Some(out)
        },
        _ => None,
    }
}

// ─── Compiling rules ─────────────────────────────────────────────────────────

/// The rule has a variable predicate, in its head or in a positive or
/// negated body atom.
pub open spec fn has_variable_pred_spec(rv: crate::datalog::RuleV<i64>) -> bool {
    (rv.head matches Some(h) && h.p is Var) || exists|i: int|
        0 <= i < rv.body.len() && (rv.body[i] is Positive || rv.body[i] is Negated)
            && (#[trigger] nonrec::literal_atom(rv.body[i])).p is Var
}

/// Whether the rule has a variable predicate (such rules are instantiated
/// at run time).
pub fn has_variable_pred(rule: &crate::datalog::Rule<i64>) -> (r: bool)
    ensures
        r == has_variable_pred_spec(rule.deep_view()),
{
    match &rule.head {
        Some(h) => {
            if matches!(&h.p, Term::Var(_)) {
                return true;
            }
        },
        None => {},
    }
    let ghost bv = rule.body.deep_view();
    let mut i: usize = 0;
    while i < rule.body.len()
        invariant
            i <= rule.body@.len(),
            bv == rule.body.deep_view(),
            bv == rule.deep_view().body,
            !(rule.deep_view().head matches Some(h) && h.p is Var),
            forall|j: int| 0 <= j < i ==> !((bv[j] is Positive || bv[j] is Negated) && (#[trigger] nonrec::literal_atom(bv[j])).p is Var),
        decreases rule.body.len() - i,
    {
        match &rule.body[i] {
            BodyLiteral::Positive(a) | BodyLiteral::Negated(a) => {
                if matches!(&a.p, Term::Var(_)) {
                    assert(nonrec::literal_atom(bv[i as int]) == a.deep_view());
                    return true;
                }
                assert(nonrec::literal_atom(bv[i as int]) == a.deep_view());
            },
            _ => {},
        }
        i = i + 1;
    }
    false
}

/// Whether a positive body atom is over `head_pred`.
pub fn is_recursive_rule(rule: &crate::datalog::Rule<i64>, head_pred: i64) -> (r: bool)
    ensures
        r == recursive::has_recursive_atom(rule.body.deep_view(), head_pred),
{
    let ghost bv = rule.body.deep_view();
    let mut i: usize = 0;
    while i < rule.body.len()
        invariant
            i <= rule.body@.len(),
            bv == rule.body.deep_view(),
            forall|j: int| 0 <= j < i ==> !(bv[j] is Positive && (#[trigger] nonrec::literal_atom(bv[j])).p == TermV::<i64>::Const(head_pred)),
        decreases rule.body.len() - i,
    {
        match &rule.body[i] {
            BodyLiteral::Positive(a) => {
                assert(nonrec::literal_atom(bv[i as int]) == a.deep_view());
                match &a.p {
                    Term::Const(p) => {
                        if *p == head_pred {
                            return true;
                        }
                    },
                    _ => {},
                }
            },
            _ => {},
        }
        i = i + 1;
    }
    false
}

/// The graph column of a rule head.
pub open spec fn head_graph_expr(t: TermV<i64>) -> Seq<char> {
    match t {
        TermV::Const(id) => const_text(id),
        TermV::Var(v) => "g_var_"@ + v,
        _ => "0"@,
    }
}

/// The head predicate of a rule to compile as an insert, or the error.
pub open spec fn insert_head_pred(rv: crate::datalog::RuleV<i64>) -> Result<i64, Seq<char>> {
    match rv.head {
        None => Err("cannot compile constraint rule as INSERT"@),
        Some(h) => match h.p {
            TermV::Const(id) => Ok(id),
            TermV::Var(_) => Err("variable predicate in rule head is not supported"@),
            _ => Err("invalid predicate term in rule head"@),
        },
    }
}

/// The statement of a rule inserting into `target`: recursive when a body
/// atom is over the head predicate, else non-recursive.
pub open spec fn single_rule_sql(rv: crate::datalog::RuleV<i64>, target: Seq<char>, env: CompileEnv) -> Result<Seq<char>, Seq<char>> {
    match insert_head_pred(rv) {
        Err(e) => Err(e),
        Ok(id) => if recursive::has_recursive_atom(rv.body, id) {
            recursive::recursive_sql(rv, id, target, env)
        } else {
            nonrec::nonrecursive_sql(rv, head_graph_expr(rv.head->0.g), target, env)
        },
    }
}

fn insert_head_pred_of(rule: &crate::datalog::Rule<i64>) -> (r: Result<i64, String>)
    ensures
        match insert_head_pred(rule.deep_view()) {
            Ok(id) => r == Ok::<i64, String>(id),
            Err(e) => r matches Err(m) && m@ == e,
        },
{
    match &rule.head {
        None => Err(String::from_str("cannot compile constraint rule as INSERT")),
        Some(h) => match &h.p {
            Term::Const(id) => Ok(*id),
            Term::Var(_) => Err(String::from_str("variable predicate in rule head is not supported")),
            _ => Err(String::from_str("invalid predicate term in rule head")),
        },
    }
}

pub(crate) fn head_graph_expr_of(t: &Term<i64>) -> (r: String)
    ensures
        r@ == head_graph_expr(t.deep_view()),
{
    match t {
        Term::Const(id) => const_sql(*id),
        Term::Var(v) => {
            let mut g = String::from_str("g_var_");
            g.append(v.as_str());
            g
        },
        _ => String::from_str("0"),
    }
}

/// Compiles one rule to a statement inserting into `target` (columns
/// `s, o, g`).
pub fn compile_single_rule_to(rule: &crate::datalog::Rule<i64>, target: &str, env: &CompileEnv) -> (r: Result<String, String>)
    ensures
        nonrec::result_view(r) == single_rule_sql(rule.deep_view(), target@, *env),
{
    let id = match insert_head_pred_of(rule) {
        Ok(id) => id,
        Err(e) => {
            return Err(e);
        },
    };
    let g = match &rule.head {
        Some(h) => head_graph_expr_of(&h.g),
        None => String::new(),
    };
    if is_recursive_rule(rule, id) {
        recursive::compile_recursive_rule(rule, id, target, env)
    } else {
        nonrec::compile_nonrecursive_rule(rule, g.as_str(), target, env)
    }
}

/// The delta table a rule for `pred_id` inserts into.
pub open spec fn delta_table(pred_id: i64) -> Seq<char> {
    vp_table_spec(pred_id) + "_delta"@
}

/// Compiles one derivation rule to a statement inserting into its head
/// predicate's delta table (the caller creates that table first when the
/// predicate has none).
pub fn compile_single_rule(rule: &crate::datalog::Rule<i64>, env: &CompileEnv) -> (r: Result<String, String>)
    ensures
        nonrec::result_view(r) == match insert_head_pred(rule.deep_view()) {
            Err(e) => Err(e),
            Ok(id) => single_rule_sql(rule.deep_view(), delta_table(id), *env),
        },
{
    let id = match insert_head_pred_of(rule) {
        Ok(id) => id,
        Err(e) => {
            return Err(e);
        },
    };
    let mut target = vp_table(id);
    target.append("_delta");
    compile_single_rule_to(rule, target.as_str(), env)
}

/// The statements of the derivation rules of `rvs` (constraint rules are
/// skipped), or the first error.
pub open spec fn rule_set_sql(rvs: Seq<crate::datalog::RuleV<i64>>, env: CompileEnv, n: int) -> Result<Seq<Seq<char>>, Seq<char>>
    decreases n,
{
    if n <= 0 {
        Ok(Seq::empty())
    } else {
        match rule_set_sql(rvs, env, n - 1) {
            Err(e) => Err(e),
            Ok(sqls) => if rvs[n - 1].head is None {
                Ok(sqls)
            } else {
                match insert_head_pred(rvs[n - 1]) {
                    Err(e) => Err(e),
                    Ok(id) => match single_rule_sql(rvs[n - 1], delta_table(id), env) {
                        Err(e) => Err(e),
                        Ok(s) => Ok(sqls.push(s)),
                    },
                }
            },
        }
    }
}

proof fn lemma_rule_set_error_stays(rvs: Seq<crate::datalog::RuleV<i64>>, env: CompileEnv, n: int, m: int)
    requires
        0 <= n <= m,
        rule_set_sql(rvs, env, n) is Err,
    ensures
        rule_set_sql(rvs, env, m) == rule_set_sql(rvs, env, n),
    decreases m - n,
{
    if m > n {
        lemma_rule_set_error_stays(rvs, env, n, m - 1);
    }
}

/// Compiles the derivation rules of one stratum to insert statements.
pub fn compile_rule_set(rules: &[crate::datalog::Rule<i64>], env: &CompileEnv) -> (r: Result<Vec<String>, String>)
    ensures
        match rule_set_sql(rules.deep_view(), *env, rules@.len() as int) {
            Ok(sqls) => r matches Ok(v) && v.deep_view() == sqls,
            Err(e) => r matches Err(m) && m@ == e,
        },
{
    let ghost rvs = rules.deep_view();
    let mut out: Vec<String> = Vec::new();
    let mut i: usize = 0;
    assert(out.deep_view() =~= Seq::<Seq<char>>::empty());
    while i < rules.len()
        invariant
            i <= rules@.len(),
            rvs == rules.deep_view(),
            rule_set_sql(rvs, *env, i as int) == Ok::<Seq<Seq<char>>, Seq<char>>(out.deep_view()),
        decreases rules.len() - i,
    {
        let rule = &rules[i];
        assert(rvs[i as int] == rule.deep_view());
        if rule.head.is_some() {
            match compile_single_rule(rule, env) {
                Ok(s) => {
                    let ghost before = out.deep_view();
                    out.push(s);
                    assert(out.deep_view() =~= before.push(s@));
                },
                Err(e) => {
                    proof {
                        lemma_rule_set_error_stays(rvs, *env, i + 1, rules@.len() as int);
                    }
                    return Err(e);
                },
            }
        }
        i = i + 1;
    }
    Ok(out)
}

// ─── Meaning of the emitted comparison operators ────────────────────────────

/// Whether the Datalog comparison `a op b` holds on integers.
pub open spec fn comparison_holds(op: CompareOp, a: int, b: int) -> bool {
    match op {
        CompareOp::Gt => a > b,
        CompareOp::Gte => a >= b,
        CompareOp::Lt => a < b,
        CompareOp::Lte => a <= b,
        CompareOp::Eq => a == b,
        CompareOp::Neq => a != b,
    }
}

/// What PostgreSQL's binary comparison operator written `t` gives for the
/// integers `a` and `b` (false for any other text).
pub open spec fn sql_comparison_holds(t: Seq<char>, a: int, b: int) -> bool {
    if t == seq!['>'] {
        a > b
    } else if t == seq!['>', '='] {
        a >= b
    } else if t == seq!['<'] {
        a < b
    } else if t == seq!['<', '='] {
        a <= b
    } else if t == seq!['='] {
        a == b
    } else if t == seq!['<', '>'] || t == seq!['!', '='] {
        a != b
    } else {
        false
    }
}

/// The SQL operator emitted for each comparison means the same comparison:
/// on any two integers, the SQL condition holds exactly when the Datalog
/// comparison does.
pub proof fn law_compare_sql_means_comparison(op: CompareOp, a: int, b: int)
    ensures
        sql_comparison_holds(compare_op_text(op), a, b) == comparison_holds(op, a, b),
{
    reveal_strlit(">");
    reveal_strlit(">=");
    reveal_strlit("<");
    reveal_strlit("<=");
    reveal_strlit("=");
    reveal_strlit("<>");
    assert(">"@ =~= seq!['>']);
    assert(">="@ =~= seq!['>', '=']);
    assert("<"@ =~= seq!['<']);
    assert("<="@ =~= seq!['<', '=']);
    assert("="@ =~= seq!['=']);
    assert("<>"@ =~= seq!['<', '>']);
    assert(seq!['<'][0] != seq!['>'][0]);
    assert(seq!['='][0] != seq!['>'][0]);
    assert(seq!['='][0] != seq!['<'][0]);
    assert(seq!['<', '>'][1] != seq!['<', '='][1]);
    assert(seq!['<', '='][0] != seq!['>', '='][0]);
    assert(seq!['<', '>'][0] != seq!['>', '='][0]);
    assert(seq!['<', '>'][0] != seq!['!', '='][0]);
    assert(seq!['<', '='][0] != seq!['!', '='][0]);
    assert(seq!['>', '='][0] != seq!['!', '='][0]);
}

} // verus!
