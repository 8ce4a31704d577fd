//! On-demand CTEs: a derived predicate's rules as a `WITH` fragment that a
//! SPARQL query can read instead of materialized triples.

use vstd::prelude::*;
use crate::datalog::{Atom, AtomV, BodyLiteral, LiteralV, Rule, RuleV, Term, TermV};
use crate::datalog::parser::{join_strings, join_with};
use crate::text::{int_decimal, nat_digits, push_i64_decimal, push_u64_digits};
use super::{
    bind_spec, build_join_cond, col_ref_spec, const_sql, const_text, is_recursive_rule, join_cond_spec, read_expr,
    vp_read_expr, Binding, CompileEnv, VarMap,
};
use super::nonrec::{result_view};
use super::recursive::{cte_name, has_recursive_atom};

verus! {

// ─── Recursive fragment ──────────────────────────────────────────────────────

/// The selects of the positive atoms of `body` over a constant predicate
/// other than `head`, in order.
pub open spec fn fragment_base_selects(body: Seq<LiteralV<i64>>, head: i64, env: CompileEnv) -> Seq<Seq<char>>
    decreases body.len(),
{
    if body.len() == 0 {
        Seq::empty()
    } else {
        fragment_base_selects(body.drop_last(), head, env) + match body.last() {
            LiteralV::Positive(a) => match a.p {
                TermV::Const(p) => if p != head {
                    seq!["SELECT s, o, g FROM "@ + read_expr(env.stats@, p)]
                } else {
                    Seq::empty()
                },
                _ => Seq::empty(),
            },
            _ => Seq::empty(),
        }
    }
}

/// The first constant predicate other than `head` of a positive atom.
pub open spec fn first_base_pred(body: Seq<LiteralV<i64>>, head: i64) -> Option<i64>
    decreases body.len(),
{
    if body.len() == 0 {
        None
    } else {
        match first_base_pred(body.drop_last(), head) {
            Some(p) => Some(p),
            None => match body.last() {
                LiteralV::Positive(a) => match a.p {
                    TermV::Const(p) => if p != head { Some(p) } else { None },
                    _ => None,
                },
                _ => None,
            },
        }
    }
}

/// The recursive CTE `cte` of a recursive rule for `head`.
pub open spec fn fragment_sql(rv: RuleV<i64>, head: i64, cte: Seq<char>, env: CompileEnv) -> Result<Seq<char>, Seq<char>> {
    match rv.head {
        None => Err("compile_recursive_cte_fragment: rule has no head"@),
        Some(h) => {
            let sels = fragment_base_selects(rv.body, head, env);
            let base = if sels.len() == 0 {
                "SELECT s, o, g FROM "@ + read_expr(env.stats@, head) + " _vp"@
            } else if sels.len() == 1 {
                sels[0]
            } else {
                "SELECT s, o, g FROM (\n  "@ + join_with(sels, "\n  UNION ALL\n  "@) + "\n) _base"@
            };
            let base_pred = match first_base_pred(rv.body, head) {
                Some(p) => p,
                None => head,
            };
            let graph_var = h.g is Var;
            Ok("WITH RECURSIVE "@ + cte + "(s, o, g) AS (\n"@ + base + "\nUNION\nSELECT base.s, r.o, base.g\nFROM "@
                + read_expr(env.stats@, base_pred) + " base\nJOIN "@ + cte + " r ON r.s = base.o "@ + (if graph_var {
                "AND r.g = base.g"@
            } else {
                Seq::empty()
            }) + "\n)\nCYCLE "@ + (if graph_var { "s, o, g"@ } else { "s, o"@ }) + " SET is_cycle USING cycle_path"@)
        },
    }
}

/// Compiles a recursive rule for `head_pred` to the CTE named `cte_name`.
pub fn compile_recursive_cte_fragment(rule: &Rule<i64>, head_pred: i64, cte: &str, env: &CompileEnv) -> (r: Result<String, String>)
    ensures
        result_view(r) == fragment_sql(rule.deep_view(), head_pred, cte@, *env),
{
    let head = match &rule.head {
        Some(h) => h,
        None => {
            return Err(String::from_str("compile_recursive_cte_fragment: rule has no head"));
        },
    };
    let ghost bv = rule.body.deep_view();
    let mut sels: Vec<String> = Vec::new();
    let mut base_pred: Option<i64> = None;
    let mut i: usize = 0;
    assert(sels.deep_view() =~= Seq::<Seq<char>>::empty());
    while i < rule.body.len()
        invariant
            i <= rule.body@.len(),
            bv == rule.body.deep_view(),
            sels.deep_view() == fragment_base_selects(bv.take(i as int), head_pred, *env),
            base_pred == first_base_pred(bv.take(i as int), head_pred),
        decreases rule.body.len() - i,
    {
        proof {
            assert(bv.take(i + 1).drop_last() =~= bv.take(i as int));
            assert(bv.take(i + 1).last() == bv[i as int]);
        }
        let ghost s0 = sels.deep_view();
        match &rule.body[i] {
            BodyLiteral::Positive(a) => match &a.p {
                Term::Const(p) => {
                    if *p != head_pred {
                        let mut x = String::from_str("SELECT s, o, g FROM ");
                        x.append(vp_read_expr(env, *p).as_str());
                        sels.push(x);
                        assert(sels.deep_view() =~= s0 + seq![x@]);
                        if base_pred.is_none() {
                            base_pred = Some(*p);
                        }
                    } else {
                        assert(sels.deep_view() =~= s0 + Seq::<Seq<char>>::empty());
                    }
                },
                _ => {
                    assert(sels.deep_view() =~= s0 + Seq::<Seq<char>>::empty());
                },
            },
            _ => {
                assert(sels.deep_view() =~= s0 + Seq::<Seq<char>>::empty());
            },
        }
        i = i + 1;
    }
    assert(bv.take(rule.body@.len() as int) =~= bv);
    let base = if sels.len() == 0 {
        let mut b = String::from_str("SELECT s, o, g FROM ");
        b.append(vp_read_expr(env, head_pred).as_str());
        b.append(" _vp");
        b
    } else if sels.len() == 1 {
        String::from_str(sels[0].as_str())
    } else {
        let mut b = String::from_str("SELECT s, o, g FROM (\n  ");
        b.append(join_strings(&sels, "\n  UNION ALL\n  ").as_str());
        b.append("\n) _base");
        b
    };
    let bp = match base_pred {
        Some(p) => p,
        None => head_pred,
    };
    let graph_var = matches!(&head.g, Term::Var(_));
    let mut out = String::from_str("WITH RECURSIVE ");
    out.append(cte);
    out.append("(s, o, g) AS (\n");
    out.append(base.as_str());
    out.append("\nUNION\nSELECT base.s, r.o, base.g\nFROM ");
    out.append(vp_read_expr(env, bp).as_str());
    out.append(" base\nJOIN ");
    out.append(cte);
    out.append(" r ON r.s = base.o ");
    if graph_var {
        out.append("AND r.g = base.g");
    }
    out.append("\n)\nCYCLE ");
    if graph_var {
        out.append("s, o, g");
    } else {
        out.append("s, o");
    }
    out.append(" SET is_cycle USING cycle_path");
    Ok(out)
}

// ─── Select arms ─────────────────────────────────────────────────────────────

/// The `FROM` entries, bindings and number of tables of a select arm.
pub struct ArmParts {
    pub from: Seq<Seq<char>>,
    pub vm: Seq<Binding>,
    pub tables: nat,
}

/// Binds a variable position; constants are not filtered in a select arm.
pub open spec fn bind_var(vm: Seq<Binding>, alias: Seq<char>, col: Seq<char>, t: TermV<i64>) -> Seq<Binding> {
    match t {
        TermV::Var(v) => bind_spec(vm, v, alias, col),
        _ => vm,
    }
}

/// Adds a literal to a select arm: a positive atom over a constant
/// predicate is joined as the next table; everything else is skipped.
pub open spec fn arm_step(st: ArmParts, l: LiteralV<i64>, env: CompileEnv) -> ArmParts {
    match l {
        LiteralV::Positive(a) => match a.p {
            TermV::Const(pred) => {
                let alias = "t"@ + nat_digits(st.tables);
                let vm = bind_var(bind_var(bind_var(st.vm, alias, "s"@, a.s), alias, "o"@, a.o), alias, "g"@, a.g);
                let read = read_expr(env.stats@, pred);
                let entry = if st.tables == 0 {
                    read + " "@ + alias
                } else {
                    let jc = join_cond_spec(alias, a, vm, env.default_graph_only);
                    if jc.len() == 0 { read + " "@ + alias } else { "JOIN "@ + read + " "@ + alias + " ON "@ + jc }
                };
                ArmParts { from: st.from.push(entry), vm, tables: st.tables + 1 }
            },
            _ => st,
        },
        _ => st,
    }
}

/// The select arm after the first `n` literals.
pub open spec fn arm_fold(body: Seq<LiteralV<i64>>, env: CompileEnv, n: int) -> ArmParts
    decreases n,
{
    if n <= 0 {
        ArmParts { from: Seq::empty(), vm: Seq::empty(), tables: 0 }
    } else {
        arm_step(arm_fold(body, env, n - 1), body[n - 1], env)
    }
}

/// A head subject or object column of a select arm.
pub open spec fn arm_column(t: TermV<i64>, vm: Seq<Binding>, which: Seq<char>) -> Result<Seq<char>, Seq<char>> {
    match t {
        TermV::Var(v) => match col_ref_spec(vm, v) {
            Some(c) => Ok(c),
            None => Err("unbound variable ?"@ + v + " in head"@),
        },
        TermV::Const(c) => Ok(const_text(c)),
        _ => Err("invalid head "@ + which + " term"@),
    }
}

/// The graph column of a select arm: a bound variable's column, a constant,
/// else the default graph.
pub open spec fn arm_graph(t: TermV<i64>, vm: Seq<Binding>) -> Seq<char> {
    match t {
        TermV::Var(v) => match col_ref_spec(vm, v) {
            Some(c) => c,
            None => "0"@,
        },
        TermV::Const(c) => const_text(c),
        _ => "0"@,
    }
}

/// The `SELECT … AS s, … AS o, … AS g` arm of a non-recursive rule.
pub open spec fn select_arm_sql(rv: RuleV<i64>, h: AtomV<i64>, env: CompileEnv) -> Result<Seq<char>, Seq<char>> {
    let st = arm_fold(rv.body, env, rv.body.len() as int);
    match arm_column(h.s, st.vm, "subject"@) {
        Err(e) => Err(e),
        Ok(s) => match arm_column(h.o, st.vm, "object"@) {
            Err(e) => Err(e),
            Ok(o) => Ok("SELECT "@ + s + " AS s, "@ + o + " AS o, "@ + arm_graph(h.g, st.vm) + " AS g\nFROM "@ + join_with(
                st.from,
                "\n"@,
            )),
        },
    }
}

fn bind_var_of(vm: &mut VarMap, alias: &str, col: &str, t: &Term<i64>)
    ensures
        final(vm).view_bindings() == bind_var(old(vm).view_bindings(), alias@, col@, t.deep_view()),
{
    match t {
        Term::Var(v) => vm.bind(v.as_str(), alias, col),
        _ => {},
    }
}

fn arm_column_of(t: &Term<i64>, vm: &VarMap, which: &str) -> (r: Result<String, String>)
    ensures
        result_view(r) == arm_column(t.deep_view(), vm.view_bindings(), which@),
{
    match t {
        Term::Var(v) => match vm.col_ref(v.as_str()) {
            Some(c) => Ok(c),
            None => {
                let mut m = String::from_str("unbound variable ?");
                m.append(v.as_str());
                m.append(" in head");
                Err(m)
            },
        },
        Term::Const(id) => Ok(const_sql(*id)),
        _ => {
            let mut m = String::from_str("invalid head ");
            m.append(which);
            m.append(" term");
            Err(m)
        },
    }
}

/// Compiles a non-recursive rule with head `head` to one select arm.
pub fn compile_select_arm(rule: &Rule<i64>, head: &Atom<i64>, env: &CompileEnv) -> (r: Result<String, String>)
    ensures
        result_view(r) == select_arm_sql(rule.deep_view(), head.deep_view(), *env),
{
    let ghost bv = rule.body.deep_view();
    let mut from: Vec<String> = Vec::new();
    let mut vm = VarMap::new();
    let mut tables: u64 = 0;
    let mut i: usize = 0;
    assert(from.deep_view() =~= Seq::<Seq<char>>::empty());
    while i < rule.body.len()
        invariant
            i <= rule.body@.len(),
            bv == rule.body.deep_view(),
            tables <= i,
            arm_fold(bv, *env, i as int) == (ArmParts { from: from.deep_view(), vm: vm.view_bindings(), tables: tables as nat }),
        decreases rule.body.len() - i,
    {
        match &rule.body[i] {
            BodyLiteral::Positive(a) => match &a.p {
                Term::Const(p) => {
                    let ghost f0 = from.deep_view();
                    let mut alias = String::from_str("t");
                    push_u64_digits(&mut alias, tables);
                    bind_var_of(&mut vm, alias.as_str(), "s", &a.s);
                    bind_var_of(&mut vm, alias.as_str(), "o", &a.o);
                    bind_var_of(&mut vm, alias.as_str(), "g", &a.g);
                    let read = vp_read_expr(env, *p);
                    let entry = if tables == 0 {
                        let mut e = read;
                        e.append(" ");
                        e.append(alias.as_str());
                        e
                    } else {
                        let jc = build_join_cond(alias.as_str(), a, &vm, env.default_graph_only);
                        if jc.unicode_len() == 0 {
                            let mut e = read;
                            e.append(" ");
                            e.append(alias.as_str());
                            e
                        } else {
                            let mut e = String::from_str("JOIN ");
                            e.append(read.as_str());
                            e.append(" ");
                            e.append(alias.as_str());
                            e.append(" ON ");
                            e.append(jc.as_str());
                            e
                        }
                    };
                    from.push(entry);
                    assert(from.deep_view() =~= f0.push(entry@));
                    tables = tables + 1;
                },
                _ => {},
            },
            _ => {},
        }
        i = i + 1;
    }
    let s = match arm_column_of(&head.s, &vm, "subject") {
        Ok(c) => c,
        Err(e) => {
            return Err(e);
        },
    };
    let o = match arm_column_of(&head.o, &vm, "object") {
        Ok(c) => c,
        Err(e) => {
            return Err(e);
        },
    };
    let g = match &head.g {
        Term::Var(v) => match vm.col_ref(v.as_str()) {
            Some(c) => c,
            None => String::from_str("0"),
        },
        Term::Const(id) => const_sql(*id),
        _ => String::from_str("0"),
    };
    let mut out = String::from_str("SELECT ");
    out.append(s.as_str());
    out.append(" AS s, ");
    out.append(o.as_str());
    out.append(" AS o, ");
    out.append(g.as_str());
    out.append(" AS g\nFROM ");
    out.append(join_strings(&from, "\n").as_str());
    Ok(out)
}

// ─── The on-demand CTE ───────────────────────────────────────────────────────

/// Scanning the first `n` rules for `pred`: `Ok(Ok(selects))` with the arms
/// of its non-recursive rules so far, `Ok(Err(fragment))` once a recursive
/// rule for it is met (its CTE is the answer), or an arm's error.
pub open spec fn on_demand_scan(rvs: Seq<RuleV<i64>>, pred: i64, env: CompileEnv, n: int) -> Result<
    Result<Seq<Seq<char>>, Seq<char>>,
    Seq<char>,
>
    decreases n,
{
    if n <= 0 {
        Ok(Ok(Seq::empty()))
    } else {
        match on_demand_scan(rvs, pred, env, n - 1) {
            Err(e) => Err(e),
            Ok(Err(frag)) => Ok(Err(frag)),
            Ok(Ok(sels)) => {
                let rv = rvs[n - 1];
                match rv.head {
                    Some(h) => if h.p == TermV::<i64>::Const(pred) {
                        if has_recursive_atom(rv.body, pred) {
                            match fragment_sql(rv, pred, cte_name(pred), env) {
                                Ok(f) => Ok(Err(f)),
                                Err(e) => Err(e),
                            }
                        } else {
                            match select_arm_sql(rv, h, env) {
                                Ok(s) => Ok(Ok(sels.push(s))),
                                Err(e) => Err(e),
                            }
                        }
                    } else {
                        Ok(Ok(sels))
                    },
                    None => Ok(Ok(sels)),
                }
            },
        }
    }
}

/// The on-demand CTE of `pred`: the recursive CTE of the first recursive
/// rule for it, else the union of the arms of its rules.
pub open spec fn on_demand_cte_sql(rvs: Seq<RuleV<i64>>, pred: i64, env: CompileEnv) -> Result<Seq<char>, Seq<char>> {
    match on_demand_scan(rvs, pred, env, rvs.len() as int) {
        Err(e) => Err(e),
        Ok(Err(frag)) => Ok(frag),
        Ok(Ok(sels)) => if sels.len() == 0 {
            Err("no rules found for predicate "@ + int_decimal(pred as int))
        } else {
            Ok("WITH "@ + cte_name(pred) + "(s, o, g) AS (\n"@ + join_with(sels, "\nUNION ALL\n"@) + "\n)"@)
        },
    }
}

proof fn lemma_scan_stops(rvs: Seq<RuleV<i64>>, pred: i64, env: CompileEnv, n: int, m: int)
    requires
        0 <= n <= m,
        !(on_demand_scan(rvs, pred, env, n) matches Ok(Ok(_))),
    ensures
        on_demand_scan(rvs, pred, env, m) == on_demand_scan(rvs, pred, env, n),
    decreases m - n,
{
    if m > n {
        lemma_scan_stops(rvs, pred, env, n, m - 1);
    }
}

/// Compiles the rules for `pred_id` to a CTE named `derived_{pred_id}`.
pub fn compile_on_demand_cte(rules: &[Rule<i64>], pred_id: i64, env: &CompileEnv) -> (r: Result<String, String>)
    ensures
        result_view(r) == on_demand_cte_sql(rules.deep_view(), pred_id, *env),
{
    let ghost rvs = rules.deep_view();
    let mut cte = String::from_str("derived_");
    push_i64_decimal(&mut cte, pred_id);
    let mut sels: Vec<String> = Vec::new();
    let mut i: usize = 0;
    assert(sels.deep_view() =~= Seq::<Seq<char>>::empty());
    while i < rules.len()
        invariant
            i <= rules@.len(),
            rvs == rules.deep_view(),
            cte@ == cte_name(pred_id),
            on_demand_scan(rvs, pred_id, *env, i as int) == Ok::<Result<Seq<Seq<char>>, Seq<char>>, Seq<char>>(
                Ok(sels.deep_view()),
            ),
        decreases rules.len() - i,
    {
        let rule = &rules[i];
        assert(rvs[i as int] == rule.deep_view());
        match &rule.head {
            Some(h) => match &h.p {
                Term::Const(hp) => {
                    if *hp == pred_id {
                        if is_recursive_rule(rule, pred_id) {
                            let frag = compile_recursive_cte_fragment(rule, pred_id, cte.as_str(), env);
                            proof {
                                lemma_scan_stops(rvs, pred_id, *env, i + 1, rvs.len() as int);
                            }
                            return frag;
                        }
                        match compile_select_arm(rule, h, env) {
                            Ok(s) => {
                                let ghost before = sels.deep_view();
                                sels.push(s);
                                assert(sels.deep_view() =~= before.push(s@));
                            },
                            Err(e) => {
                                proof {
                                    lemma_scan_stops(rvs, pred_id, *env, i + 1, rvs.len() as int);
                                }
                                return Err(e);
                            },
                        }
                    }
                },
                _ => {},
            },
            None => {},
        }
        i = i + 1;
    }
    if sels.len() == 0 {
        let mut m = String::from_str("no rules found for predicate ");
        push_i64_decimal(&mut m, pred_id);
        return Err(m);
    }
    let mut out = String::from_str("WITH ");
    out.append(cte.as_str());
    out.append("(s, o, g) AS (\n");
    out.append(join_strings(&sels, "\nUNION ALL\n").as_str());
    out.append("\n)");
    Ok(out)
}

} // verus!
