//! Constraint rules (`:- body .`) compile to `SELECT EXISTS (…) AS violated`.

use vstd::prelude::*;
use crate::datalog::{BodyLiteral, LiteralV, Rule, Term, TermV};
use crate::datalog::parser::{join_strings, join_with};
use crate::text::{nat_digits, push_u64_digits};
use super::{build_join_cond, compile_guard_sql, guard_sql_spec, join_cond_spec, read_expr, vp_read_expr, Binding, CompileEnv, VarMap};
use super::nonrec::{bind_position, result_view};

verus! {

/// The SQL of a constraint body so far: `FROM` entries, `WHERE`
/// conditions, bindings, and the number of atoms read.
pub struct CheckParts {
    pub from: Seq<Seq<char>>,
    pub wh: Seq<Seq<char>>,
    pub vm: Seq<Binding>,
    pub atoms: nat,
}

/// Adds one literal of a constraint body: a positive atom is joined as the
/// next table `t{k}`, a comparison becomes a condition; other literals are
/// not part of the check.
pub open spec fn check_step(st: CheckParts, l: LiteralV<i64>, env: CompileEnv) -> Result<CheckParts, Seq<char>> {
    match l {
        LiteralV::Positive(a) => match a.p {
            TermV::Const(pred) => {
                let alias = "t"@ + nat_digits(st.atoms);
                let b1 = bind_position(st.vm, st.wh, alias, "s"@, a.s);
                let b2 = bind_position(b1.0, b1.1, alias, "o"@, a.o);
                let read = read_expr(env.stats@, pred);
                let entry = if st.atoms == 0 {
                    read + " "@ + alias
                } else {
                    let jc = join_cond_spec(alias, a, b2.0, env.default_graph_only);
                    if jc.len() == 0 { read + " "@ + alias } else { "JOIN "@ + read + " "@ + alias + " ON "@ + jc }
                };
                Ok(CheckParts { from: st.from.push(entry), wh: b2.1, vm: b2.0, atoms: st.atoms + 1 })
            },
            _ => Err("variable predicate in constraint body"@),
        },
        LiteralV::Compare(_, _, _) => Ok(CheckParts { wh: st.wh.push(guard_sql_spec(l, st.vm)->0), ..st }),
        _ => Ok(st),
    }
}

/// The parts after the first `n` literals of `body`, or the first error.
pub open spec fn check_fold(body: Seq<LiteralV<i64>>, env: CompileEnv, n: int) -> Result<CheckParts, Seq<char>>
    decreases n,
{
    if n <= 0 {
        Ok(CheckParts { from: Seq::empty(), wh: Seq::empty(), vm: Seq::empty(), atoms: 0 })
    } else {
        match check_fold(body, env, n - 1) {
            Err(e) => Err(e),
            Ok(st) => check_step(st, body[n - 1], env),
        }
    }
}

/// The check of a constraint rule: whether some binding satisfies its body
/// (never, without a positive atom).
pub open spec fn constraint_check_sql(rv: crate::datalog::RuleV<i64>, env: CompileEnv) -> Result<Seq<char>, Seq<char>> {
    if rv.head is Some {
        Err("not a constraint rule"@)
    } else {
        match check_fold(rv.body, env, rv.body.len() as int) {
            Err(e) => Err(e),
            Ok(st) => if st.from.len() == 0 {
                Ok("SELECT FALSE AS violated"@)
            } else {
                Ok("SELECT EXISTS (\nSELECT 1 FROM "@ + join_with(st.from, "\n"@) + "\n"@ + (if st.wh.len() == 0 {
                    Seq::empty()
                } else {
                    "WHERE "@ + join_with(st.wh, " AND "@)
                }) + "\n) AS violated"@)
            },
        }
    }
}

proof fn lemma_check_error_stays(body: Seq<LiteralV<i64>>, env: CompileEnv, n: int, m: int)
    requires
        0 <= n <= m,
        check_fold(body, env, n) is Err,
    ensures
        check_fold(body, env, m) == check_fold(body, env, n),
    decreases m - n,
{
    if m > n {
        lemma_check_error_stays(body, env, n, m - 1);
    }
}

fn bind_check_position(vm: &mut VarMap, wh: &mut Vec<String>, alias: &str, col: &str, t: &Term<i64>)
    ensures
        (final(vm).view_bindings(), final(wh).deep_view()) == bind_position(
            old(vm).view_bindings(),
            old(wh).deep_view(),
            alias@,
            col@,
            t.deep_view(),
        ),
{
    match t {
        Term::Var(v) => vm.bind(v.as_str(), alias, col),
        Term::Const(c) => {
            let ghost before = wh.deep_view();
            let mut cond = String::from_str(alias);
            cond.append(".");
            cond.append(col);
            cond.append(" = ");
            cond.append(super::const_sql(*c).as_str());
            wh.push(cond);
            assert(wh.deep_view() =~= before.push(alias@ + "."@ + col@ + " = "@ + super::const_text(*c)));
        },
        _ => {},
    }
}

/// Compiles a constraint rule to a query of one boolean column `violated`.
pub fn compile_constraint_check(rule: &Rule<i64>, env: &CompileEnv) -> (r: Result<String, String>)
    ensures
        result_view(r) == constraint_check_sql(rule.deep_view(), *env),
{
    if rule.head.is_some() {
        return Err(String::from_str("not a constraint rule"));
    }
    let body = &rule.body;
    let ghost bv = body.deep_view();
    let mut from: Vec<String> = Vec::new();
    let mut wh: Vec<String> = Vec::new();
    let mut vm = VarMap::new();
    let mut atoms: u64 = 0;
    let mut i: usize = 0;
    assert(from.deep_view() =~= Seq::<Seq<char>>::empty());
    assert(wh.deep_view() =~= Seq::<Seq<char>>::empty());
    while i < body.len()
        invariant
            i <= body@.len(),
            bv == body.deep_view(),
            bv == rule.deep_view().body,
            rule.deep_view().head is None,
            atoms <= i,
            check_fold(bv, *env, i as int) == Ok::<CheckParts, Seq<char>>(CheckParts {
                from: from.deep_view(),
                wh: wh.deep_view(),
                vm: vm.view_bindings(),
                atoms: atoms as nat,
            }),
        decreases body.len() - i,
    {
        let ghost f0 = from.deep_view();
        let ghost w0 = wh.deep_view();
        match &body[i] {
            BodyLiteral::Positive(a) => {
                let pred = match &a.p {
                    Term::Const(id) => *id,
                    _ => {
                        proof {
                            assert(check_fold(bv, *env, i + 1) is Err);
                            lemma_check_error_stays(bv, *env, i + 1, bv.len() as int);
                        }
                        return Err(String::from_str("variable predicate in constraint body"));
                    },
                };
                let mut alias = String::from_str("t");
                push_u64_digits(&mut alias, atoms);
                bind_check_position(&mut vm, &mut wh, alias.as_str(), "s", &a.s);
                bind_check_position(&mut vm, &mut wh, alias.as_str(), "o", &a.o);
                let read = vp_read_expr(env, pred);
                let entry = if atoms == 0 {
                    let mut e = read;
                    e.append(" ");
                    e.append(alias.as_str());
                    e
                } else {
                    let jc = build_join_cond(alias.as_str(), a, &vm, env.default_graph_only);
                    if jc.unicode_len() == 0 {
                        let mut e = read;
                        e.append(" ");
                        e.append(alias.as_str());
                        e
                    } else {
                        let mut e = String::from_str("JOIN ");
                        e.append(read.as_str());
                        e.append(" ");
                        e.append(alias.as_str());
                        e.append(" ON ");
                        e.append(jc.as_str());
                        e
                    }
                };
                from.push(entry);
                assert(from.deep_view() =~= f0.push(entry@));
                atoms = atoms + 1;
            },
            BodyLiteral::Compare(..) => {
                match compile_guard_sql(&body[i], &vm) {
                    Some(c) => {
                        wh.push(c);
                        assert(wh.deep_view() =~= w0.push(c@));
                    },
                    None => {},
                }
            },
            _ => {},
        }
        i = i + 1;
    }
    if from.len() == 0 {
        return Ok(String::from_str("SELECT FALSE AS violated"));
    }
    let mut out = String::from_str("SELECT EXISTS (\nSELECT 1 FROM ");
    out.append(join_strings(&from, "\n").as_str());
    out.append("\n");
    let ghost prefix = out@;
    if wh.len() > 0 {
        out.append("WHERE ");
        out.append(join_strings(&wh, " AND ").as_str());
        assert(out@ =~= prefix + ("WHERE "@ + join_with(wh.deep_view(), " AND "@)));
    } else {
        assert(out@ =~= prefix + Seq::<char>::empty());
    }
    out.append("\n) AS violated");
    Ok(out)
}

} // verus!
