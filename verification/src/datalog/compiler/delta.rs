//! Semi-naive delta variants: for each body atom over a derived predicate,
//! one statement that reads that atom from the previous round's delta table
//! and every other atom from the full table.

use vstd::prelude::*;
use crate::datalog::{ArithOp, BodyLiteral, LiteralV, Rule, StringBuiltin, Term, TermV};
use crate::datalog::parser::{join_strings, join_with};
use crate::text::{int_decimal, nat_digits, push_i64_decimal, push_u64_digits};
use super::{
    arith_op_sql, bind_spec, build_join_cond, build_not_exists_conds, compile_guard_sql, const_sql, const_text,
    delta_table, guard_sql_spec, head_graph_expr, join_cond_spec, not_exists_conds_spec, read_expr,
    render_comparison_term, vp_read_expr, vp_table, Binding, CompileEnv, VarMap,
};
use super::nonrec::{
    assign_expr, bind_graph, bind_graph_of, bind_position, bind_position_of, insert_select_sql, literal_atom,
    positive_positions, positive_positions_of, positions_view, result_view, unsupported_builtin,
};

verus! {

/// A delta variant under construction: `FROM` entries, `WHERE` conditions,
/// bindings, tables read, positive atoms seen.
pub struct DeltaParts {
    pub from: Seq<Seq<char>>,
    pub wh: Seq<Seq<char>>,
    pub vm: Seq<Binding>,
    pub tables: nat,
    pub positives: nat,
}

/// The message for a string built-in without SQL.
pub open spec fn unsupported_builtin_message() -> Seq<char> {
    "string similarity built-ins in rule bodies are not supported by the SQL compiler"@
}

/// Adds one body literal, in body order: the `delta_pos`-th positive atom
/// reads table `delta_prefix{pred}`, the others their full tables; negated
/// atoms become `NOT EXISTS`, guards conditions, assignments bindings.
pub open spec fn delta_step(
    st: DeltaParts,
    l: LiteralV<i64>,
    env: CompileEnv,
    delta_pos: nat,
    delta_prefix: Seq<char>,
) -> Result<DeltaParts, Seq<char>> {
    match l {
        LiteralV::Positive(a) => match a.p {
            TermV::Const(pred) => {
                let alias = "t"@ + nat_digits(st.tables);
                let tbl = if st.positives == delta_pos {
                    delta_prefix + int_decimal(pred as int)
                } else {
                    read_expr(env.stats@, pred)
                };
                let b1 = bind_position(st.vm, st.wh, alias, "s"@, a.s);
                let b2 = bind_position(b1.0, b1.1, alias, "o"@, a.o);
                let b3 = bind_graph(b2.0, b2.1, alias, a.g, env.default_graph_only);
                let entry = if st.tables == 0 {
                    tbl + " "@ + alias
                } else {
                    let jc = join_cond_spec(alias, a, b3.0, env.default_graph_only);
                    if jc.len() == 0 { tbl + " "@ + alias } else { "JOIN "@ + tbl + " "@ + alias + " ON "@ + jc }
                };
                Ok(DeltaParts {
                    from: st.from.push(entry),
                    wh: b3.1,
                    vm: b3.0,
                    tables: st.tables + 1,
                    positives: st.positives + 1,
                })
            },
            _ => Err("variable predicate in body not supported"@),
        },
        LiteralV::Negated(a) => match a.p {
            TermV::Const(pred) => {
                let inner = not_exists_conds_spec(a, st.vm);
                let cond = if inner.len() == 0 { "TRUE"@ } else { join_with(inner, " AND "@) };
                Ok(DeltaParts {
                    wh: st.wh.push("NOT EXISTS (SELECT 1 FROM "@ + read_expr(env.stats@, pred) + " WHERE "@ + cond + ")"@),
                    ..st
                })
            },
            _ => Err("variable predicate in NOT atom not supported"@),
        },
        LiteralV::Compare(_, _, _) => Ok(DeltaParts { wh: st.wh.push(guard_sql_spec(l, st.vm)->0), ..st }),
        LiteralV::Assign(x, a, op, b) => Ok(DeltaParts { vm: bind_spec(st.vm, x, assign_expr(a, op, b, st.vm), Seq::empty()), ..st }),
        LiteralV::StringBuiltin(_) => if unsupported_builtin(l) {
            Err(unsupported_builtin_message())
        } else {
            Ok(DeltaParts { wh: st.wh.push(guard_sql_spec(l, st.vm)->0), ..st })
        },
        _ => Ok(st),
    }
}

/// The parts after the first `n` literals, or the first error.
pub open spec fn delta_fold(body: Seq<LiteralV<i64>>, env: CompileEnv, delta_pos: nat, delta_prefix: Seq<char>, n: int) -> Result<
    DeltaParts,
    Seq<char>,
>
    decreases n,
{
    if n <= 0 {
        Ok(DeltaParts { from: Seq::empty(), wh: Seq::empty(), vm: Seq::empty(), tables: 0, positives: 0 })
    } else {
        match delta_fold(body, env, delta_pos, delta_prefix, n - 1) {
            Err(e) => Err(e),
            Ok(st) => delta_step(st, body[n - 1], env, delta_pos, delta_prefix),
        }
    }
}

/// A head column of a delta variant.
pub open spec fn delta_head_column(t: TermV<i64>, vm: Seq<Binding>) -> Result<Seq<char>, Seq<char>> {
    match t {
        TermV::Var(v) => match super::col_ref_spec(vm, v) {
            Some(c) => Ok(c),
            None => Err("unbound variable ?"@ + v + " in head"@),
        },
        TermV::Const(c) => Ok(const_text(c)),
        _ => Err("wildcard/invalid in head not allowed"@),
    }
}

/// The variant of a rule whose `delta_pos`-th positive atom reads the delta.
pub open spec fn one_delta_sql(
    rv: crate::datalog::RuleV<i64>,
    head_g: Seq<char>,
    target: Seq<char>,
    delta_pos: nat,
    delta_prefix: Seq<char>,
    env: CompileEnv,
) -> Result<Seq<char>, Seq<char>> {
    match rv.head {
        None => Err("compile_rule_delta_variants_to: rule has no head"@),
        Some(h) => match delta_fold(rv.body, env, delta_pos, delta_prefix, rv.body.len() as int) {
            Err(e) => Err(e),
            Ok(st) => match delta_head_column(h.s, st.vm) {
                Err(e) => Err(e),
                Ok(s) => match delta_head_column(h.o, st.vm) {
                    Err(e) => Err(e),
                    Ok(o) => Ok(insert_select_sql(target, s, o, head_g, st.from, st.wh)),
                },
            },
        },
    }
}

/// The variants for the first `n` positive atoms, one per atom over a
/// predicate of `derived`, or the first error.
pub open spec fn delta_variants(
    rv: crate::datalog::RuleV<i64>,
    derived: Seq<i64>,
    delta_prefix: Seq<char>,
    target: Seq<char>,
    head_g: Seq<char>,
    env: CompileEnv,
    n: int,
) -> Result<Seq<Seq<char>>, Seq<char>>
    decreases n,
{
    if n <= 0 {
        Ok(Seq::empty())
    } else {
        match delta_variants(rv, derived, delta_prefix, target, head_g, env, n - 1) {
            Err(e) => Err(e),
            Ok(vs) => match literal_atom(rv.body[positive_positions(rv.body)[n - 1]]).p {
                TermV::Const(p) => if derived.contains(p) {
                    match one_delta_sql(rv, head_g, target, (n - 1) as nat, delta_prefix, env) {
                        Err(e) => Err(e),
                        Ok(s) => Ok(vs.push(s)),
                    }
                } else {
                    Ok(vs)
                },
                _ => Ok(vs),
            },
        }
    }
}

/// All delta variants of a rule: none for a constraint rule; each inserts
/// into `target_prefix{head}` when a prefix is given, else into the head's
/// delta table.
pub open spec fn delta_variants_sql(
    rv: crate::datalog::RuleV<i64>,
    derived: Seq<i64>,
    delta_prefix: Seq<char>,
    target_prefix: Option<Seq<char>>,
    env: CompileEnv,
) -> Result<Seq<Seq<char>>, Seq<char>> {
    match rv.head {
        None => Ok(Seq::empty()),
        Some(h) => match h.p {
            TermV::Const(id) => {
                let target = match target_prefix {
                    Some(p) => p + int_decimal(id as int),
                    None => delta_table(id),
                };
                delta_variants(rv, derived, delta_prefix, target, head_graph_expr(h.g), env, positive_positions(rv.body).len() as int)
            },
            _ => Err("variable predicate in rule head is not supported"@),
        },
    }
}

proof fn lemma_delta_error_stays(body: Seq<LiteralV<i64>>, env: CompileEnv, dp: nat, pre: Seq<char>, n: int, m: int)
    requires
        0 <= n <= m,
        delta_fold(body, env, dp, pre, n) is Err,
    ensures
        delta_fold(body, env, dp, pre, m) == delta_fold(body, env, dp, pre, n),
    decreases m - n,
{
    if m > n {
        lemma_delta_error_stays(body, env, dp, pre, n, m - 1);
    }
}

fn delta_head_column_of(t: &Term<i64>, vm: &VarMap) -> (r: Result<String, String>)
    ensures
        result_view(r) == delta_head_column(t.deep_view(), vm.view_bindings()),
{
    match t {
        Term::Var(v) => match vm.col_ref(v.as_str()) {
            Some(c) => Ok(c),
            None => {
                let mut m = String::from_str("unbound variable ?");
                m.append(v.as_str());
                m.append(" in head");
                Err(m)
            },
        },
        Term::Const(id) => Ok(const_sql(*id)),
        _ => Err(String::from_str("wildcard/invalid in head not allowed")),
    }
}

/// Compiles the variant of `rule` whose `delta_pos`-th positive atom reads
/// from `delta_prefix{pred}`, inserting into `target`.
pub fn compile_rule_with_one_delta_atom(
    rule: &Rule<i64>,
    head_g_expr: &str,
    target: &str,
    delta_pos: usize,
    delta_prefix: &str,
    env: &CompileEnv,
) -> (r: Result<String, String>)
    ensures
        result_view(r) == one_delta_sql(rule.deep_view(), head_g_expr@, target@, delta_pos as nat, delta_prefix@, *env),
{
    let head = match &rule.head {
        Some(h) => h,
        None => {
            return Err(String::from_str("compile_rule_delta_variants_to: rule has no head"));
        },
    };
    let body = &rule.body;
    let ghost bv = body.deep_view();
    let mut from: Vec<String> = Vec::new();
    let mut wh: Vec<String> = Vec::new();
    let mut vm = VarMap::new();
    let mut tables: u64 = 0;
    let mut positives: usize = 0;
    let mut i: usize = 0;
    assert(from.deep_view() =~= Seq::<Seq<char>>::empty());
    assert(wh.deep_view() =~= Seq::<Seq<char>>::empty());
    while i < body.len()
        invariant
            i <= body@.len(),
            bv == body.deep_view(),
            bv == rule.deep_view().body,
            rule.deep_view().head == Some(head.deep_view()),
            tables <= i,
            positives <= i,
            delta_fold(bv, *env, delta_pos as nat, delta_prefix@, i as int) == Ok::<DeltaParts, Seq<char>>(DeltaParts {
                from: from.deep_view(),
                wh: wh.deep_view(),
                vm: vm.view_bindings(),
                tables: tables as nat,
                positives: positives as nat,
            }),
        decreases body.len() - i,
    {
        let ghost f0 = from.deep_view();
        let ghost w0 = wh.deep_view();
        match &body[i] {
            BodyLiteral::Positive(a) => {
                let pred = match &a.p {
                    Term::Const(id) => *id,
                    _ => {
                        proof {
                            assert(delta_fold(bv, *env, delta_pos as nat, delta_prefix@, i + 1) is Err);
                            lemma_delta_error_stays(bv, *env, delta_pos as nat, delta_prefix@, i + 1, bv.len() as int);
                        }
                        return Err(String::from_str("variable predicate in body not supported"));
                    },
                };
                let mut alias = String::from_str("t");
                push_u64_digits(&mut alias, tables);
                let tbl = if positives == delta_pos {
                    let mut t = String::from_str(delta_prefix);
                    push_i64_decimal(&mut t, pred);
                    t
                } else {
                    vp_read_expr(env, pred)
                };
                bind_position_of(&mut vm, &mut wh, alias.as_str(), "s", &a.s);
                bind_position_of(&mut vm, &mut wh, alias.as_str(), "o", &a.o);
                bind_graph_of(&mut vm, &mut wh, alias.as_str(), &a.g, env.default_graph_only);
                let entry = if tables == 0 {
                    let mut e = tbl;
                    e.append(" ");
                    e.append(alias.as_str());
                    e
                } else {
                    let jc = build_join_cond(alias.as_str(), a, &vm, env.default_graph_only);
                    if jc.unicode_len() == 0 {
                        let mut e = tbl;
                        e.append(" ");
                        e.append(alias.as_str());
                        e
                    } else {
                        let mut e = String::from_str("JOIN ");
                        e.append(tbl.as_str());
                        e.append(" ");
                        e.append(alias.as_str());
                        e.append(" ON ");
                        e.append(jc.as_str());
                        e
                    }
                };
                from.push(entry);
                assert(from.deep_view() =~= f0.push(entry@));
                tables = tables + 1;
                positives = positives + 1;
            },
            BodyLiteral::Negated(a) => {
                let pred = match &a.p {
                    Term::Const(id) => *id,
                    _ => {
                        proof {
                            assert(delta_fold(bv, *env, delta_pos as nat, delta_prefix@, i + 1) is Err);
                            lemma_delta_error_stays(bv, *env, delta_pos as nat, delta_prefix@, i + 1, bv.len() as int);
                        }
                        return Err(String::from_str("variable predicate in NOT atom not supported"));
                    },
                };
                let inner = build_not_exists_conds(a, &vm);
                let mut c = String::from_str("NOT EXISTS (SELECT 1 FROM ");
                c.append(vp_read_expr(env, pred).as_str());
                c.append(" WHERE ");
                if inner.len() == 0 {
                    c.append("TRUE");
                } else {
                    c.append(join_strings(&inner, " AND ").as_str());
                }
                c.append(")");
                wh.push(c);
                assert(wh.deep_view() =~= w0.push(c@));
            },
            BodyLiteral::Compare(..) => {
                match compile_guard_sql(&body[i], &vm) {
                    Some(c) => {
                        wh.push(c);
                        assert(wh.deep_view() =~= w0.push(c@));
                    },
                    None => {},
                }
            },
            BodyLiteral::Assign(x, l, op, r) => {
                let lt = render_comparison_term(l, &vm);
                let rt = render_comparison_term(r, &vm);
                let mut e = String::from_str("(");
                e.append(lt.as_str());
                e.append(" ");
                e.append(arith_op_sql(op));
                e.append(" ");
                if matches!(op, ArithOp::Div) {
                    e.append("NULLIF(");
                    e.append(rt.as_str());
                    e.append(", 0)");
                } else {
                    e.append(rt.as_str());
                }
                e.append(")");
                proof {
                    reveal_strlit("");
                    assert(""@ =~= Seq::<char>::empty());
                    assert(e@ =~= assign_expr(l.deep_view(), *op, r.deep_view(), vm.view_bindings()));
                }
                vm.bind(x.as_str(), e.as_str(), "");
            },
            BodyLiteral::StringBuiltin(b) => {
                if !(matches!(b, StringBuiltin::Strlen(..)) || matches!(b, StringBuiltin::Regex(..))) {
                    proof {
                        assert(unsupported_builtin(bv[i as int]));
                        assert(delta_fold(bv, *env, delta_pos as nat, delta_prefix@, i + 1) is Err);
                        lemma_delta_error_stays(bv, *env, delta_pos as nat, delta_prefix@, i + 1, bv.len() as int);
                    }
                    return Err(String::from_str("string similarity built-ins in rule bodies are not supported by the SQL compiler"));
                }
                match compile_guard_sql(&body[i], &vm) {
                    Some(c) => {
                        wh.push(c);
                        assert(wh.deep_view() =~= w0.push(c@));
                    },
                    None => {},
                }
            },
            _ => {},
        }
        i = i + 1;
    }
    let s = match delta_head_column_of(&head.s, &vm) {
        Ok(c) => c,
        Err(e) => {
            return Err(e);
        },
    };
    let o = match delta_head_column_of(&head.o, &vm) {
        Ok(c) => c,
        Err(e) => {
            return Err(e);
        },
    };
    let mut out = String::from_str("INSERT INTO ");
    out.append(target);
    out.append(" (s, o, g)\nSELECT ");
    out.append(s.as_str());
    out.append(", ");
    out.append(o.as_str());
    out.append(", ");
    out.append(head_g_expr);
    out.append("\nFROM ");
    out.append(join_strings(&from, "\n").as_str());
    out.append("\n");
    let ghost prefix = out@;
    if wh.len() > 0 {
        out.append("WHERE ");
        out.append(join_strings(&wh, "\n  AND ").as_str());
        assert(out@ =~= prefix + ("WHERE "@ + join_with(wh.deep_view(), "\n  AND "@)));
    } else {
        assert(out@ =~= prefix + Seq::<char>::empty());
    }
    out.append("\nON CONFLICT DO NOTHING");
    assert(out@ =~= insert_select_sql(target@, s@, o@, head_g_expr@, from.deep_view(), wh.deep_view()));
    Ok(out)
}

proof fn lemma_variants_error_stays(
    rv: crate::datalog::RuleV<i64>,
    derived: Seq<i64>,
    pre: Seq<char>,
    target: Seq<char>,
    g: Seq<char>,
    env: CompileEnv,
    n: int,
    m: int,
)
    requires
        0 <= n <= m,
        delta_variants(rv, derived, pre, target, g, env, n) is Err,
    ensures
        delta_variants(rv, derived, pre, target, g, env, m) == delta_variants(rv, derived, pre, target, g, env, n),
    decreases m - n,
{
    if m > n {
        lemma_variants_error_stays(rv, derived, pre, target, g, env, n, m - 1);
    }
}

/// Compiles the semi-naive delta variants of `rule`: one per positive body
/// atom over a predicate of `derived_pred_ids`, that atom reading
/// `delta_prefix{pred}`. Each inserts into `target_prefix{head}` when a
/// prefix is given, else into the head predicate's delta table.
pub fn compile_rule_delta_variants_to(
    rule: &Rule<i64>,
    derived_pred_ids: &Vec<i64>,
    delta_prefix: &str,
    target_prefix: Option<&str>,
    env: &CompileEnv,
) -> (r: Result<Vec<String>, String>)
    ensures
        match delta_variants_sql(rule.deep_view(), derived_pred_ids@, delta_prefix@, match target_prefix {
            Some(p) => Some(p@),
            None => None,
        }, *env) {
            Ok(vs) => r matches Ok(v) && v.deep_view() == vs,
            Err(e) => r matches Err(m) && m@ == e,
        },
{
    let head = match &rule.head {
        Some(h) => h,
        None => {
            let v: Vec<String> = Vec::new();
            assert(v.deep_view() =~= Seq::<Seq<char>>::empty());
            return Ok(v);
        },
    };
    let id = match &head.p {
        Term::Const(id) => *id,
        _ => {
            return Err(String::from_str("variable predicate in rule head is not supported"));
        },
    };
    let g = super::head_graph_expr_of(&head.g);
    let target = match target_prefix {
        Some(p) => {
            let mut t = String::from_str(p);
            push_i64_decimal(&mut t, id);
            t
        },
        None => {
            let mut t = vp_table(id);
            t.append("_delta");
            t
        },
    };
    let ghost rv = rule.deep_view();
    let ps = positive_positions_of(&rule.body);
    let mut out: Vec<String> = Vec::new();
    let mut k: usize = 0;
    assert(out.deep_view() =~= Seq::<Seq<char>>::empty());
    while k < ps.len()
        invariant
            k <= ps@.len(),
            rv == rule.deep_view(),
            rv.head == Some(head.deep_view()),
            head.deep_view().p == TermV::<i64>::Const(id),
            g@ == head_graph_expr(head.deep_view().g),
            target@ == (match target_prefix {
                Some(p) => p@ + int_decimal(id as int),
                None => delta_table(id),
            }),
            positions_view(ps@) == positive_positions(rv.body),
            forall|q: int| 0 <= q < ps@.len() ==> (#[trigger] ps@[q]) < rule.body@.len() && rv.body[ps@[q] as int] is Positive,
            delta_variants(rv, derived_pred_ids@, delta_prefix@, target@, g@, *env, k as int) == Ok::<Seq<Seq<char>>, Seq<char>>(out.deep_view()),
        decreases ps.len() - k,
    {
        let p = ps[k];
        match &rule.body[p] {
            BodyLiteral::Positive(a) => {
                assert(literal_atom(rv.body[positive_positions(rv.body)[k as int]]) == a.deep_view());
                match &a.p {
                    Term::Const(pred) => {
                        if crate::datalog::stratify::vec_has(derived_pred_ids, *pred) {
                            match compile_rule_with_one_delta_atom(rule, g.as_str(), target.as_str(), k, delta_prefix, env) {
                                Ok(s) => {
                                    let ghost before = out.deep_view();
                                    out.push(s);
                                    assert(out.deep_view() =~= before.push(s@));
                                },
                                Err(e) => {
                                    proof {
                                        assert(positive_positions(rv.body)[k as int] == p as int);
                                        assert(derived_pred_ids@.contains(*pred));
                                        assert(one_delta_sql(rv, g@, target@, k as nat, delta_prefix@, *env) == Err::<Seq<char>, Seq<char>>(e@));
                                        assert(delta_variants(rv, derived_pred_ids@, delta_prefix@, target@, g@, *env, k + 1) == Err::<Seq<Seq<char>>, Seq<char>>(e@));
                                        lemma_variants_error_stays(rv, derived_pred_ids@, delta_prefix@, target@, g@, *env, k + 1, ps@.len() as int);
                                    }
                                    return Err(e);
                                },
                            }
                        }
                    },
                    _ => {},
                }
            },
            _ => {},
        }
        k = k + 1;
    }
    Ok(out)
}

/// Compiles the semi-naive delta variants of `rule` into the head
/// predicate's own delta table: [`compile_rule_delta_variants_to`] without a
/// target prefix.
pub fn compile_rule_delta_variants(
    rule: &Rule<i64>,
    derived_pred_ids: &Vec<i64>,
    delta_prefix: &str,
    env: &CompileEnv,
) -> (r: Result<Vec<String>, String>)
    ensures
        match delta_variants_sql(rule.deep_view(), derived_pred_ids@, delta_prefix@, None, *env) {
            Ok(vs) => r matches Ok(v) && v.deep_view() == vs,
            Err(e) => r matches Err(m) && m@ == e,
        },
{
    compile_rule_delta_variants_to(rule, derived_pred_ids, delta_prefix, None, env)
}

} // verus!
