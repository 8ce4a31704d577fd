//! Rules whose head predicate occurs in their body compile to a
//! `WITH RECURSIVE … CYCLE` statement (transitive-closure shape).

use vstd::prelude::*;
use crate::datalog::{AtomV, BodyLiteral, LiteralV, Rule, Term, TermV};
use crate::datalog::parser::{join_strings, join_with};
use crate::text::{int_decimal, push_i64_decimal, replace_all, replace_chars, replace_first, replace_first_chars, str_chars, string_from_chars};
use super::{const_sql, const_text, read_expr, vp_read_expr, CompileEnv};
use super::nonrec::literal_atom;

verus! {

/// The name of the recursive CTE of predicate `head`.
pub open spec fn cte_name(head: i64) -> Seq<char> {
    "derived_"@ + int_decimal(head as int)
}

/// A positive atom of `body` has a variable predicate.
pub open spec fn has_var_pred_atom(body: Seq<LiteralV<i64>>) -> bool {
    exists|i: int| 0 <= i < body.len() && body[i] is Positive && (#[trigger] literal_atom(body[i])).p is Var
}

/// The positive atoms of `body` not over `head`, in order.
pub open spec fn base_atoms(body: Seq<LiteralV<i64>>, head: i64) -> Seq<AtomV<i64>>
    decreases body.len(),
{
    if body.len() == 0 {
        Seq::empty()
    } else {
        base_atoms(body.drop_last(), head) + (if body.last() is Positive && literal_atom(body.last()).p != TermV::<i64>::Const(head) {
            seq![literal_atom(body.last())]
        } else {
            Seq::empty()
        })
    }
}

/// A positive atom of `body` is over `head`.
pub open spec fn has_recursive_atom(body: Seq<LiteralV<i64>>, head: i64) -> bool {
    exists|i: int| 0 <= i < body.len() && body[i] is Positive && (#[trigger] literal_atom(body[i])).p == TermV::<i64>::Const(head)
}

/// The base-case selects of the atoms `atoms` with a constant predicate.
pub open spec fn base_selects(atoms: Seq<AtomV<i64>>, env: CompileEnv) -> Seq<Seq<char>>
    decreases atoms.len(),
{
    if atoms.len() == 0 {
        Seq::empty()
    } else {
        base_selects(atoms.drop_last(), env) + match atoms.last().p {
            TermV::Const(p) => seq![
                "SELECT s, o, g FROM "@ + read_expr(env.stats@, p) + " "@ + (if env.default_graph_only { "WHERE g = 0"@ } else { Seq::empty() }),
            ],
            _ => Seq::empty(),
        }
    }
}

/// The base case: the head predicate's own triples when there is no base
/// select, the one select, or the union of several wrapped in a subquery.
pub open spec fn base_sql(selects: Seq<Seq<char>>, env: CompileEnv, head: i64) -> Seq<char> {
    if selects.len() == 0 {
        "SELECT s, o, g FROM "@ + read_expr(env.stats@, head) + " _vp"@
    } else if selects.len() == 1 {
        selects[0]
    } else {
        "SELECT s, o, g FROM (\n  "@ + join_with(selects, "\n  UNION ALL\n  "@) + "\n) _base"@
    }
}

/// The recursive step: a base triple extended by a derived one.
pub open spec fn rec_sql(body: Seq<LiteralV<i64>>, env: CompileEnv, head: i64, graph_var: bool) -> Seq<char> {
    let atoms = base_atoms(body, head);
    if has_recursive_atom(body, head) {
        let base_pred = if atoms.len() > 0 && atoms[0].p is Const { atoms[0].p->Const_0 } else { head };
        "SELECT base.s, r.o, base.g\nFROM "@ + read_expr(env.stats@, base_pred) + " base\nJOIN "@ + cte_name(head)
            + " r ON r.s = base.o "@ + (if graph_var { "AND r.g = base.g"@ } else { Seq::empty() })
    } else {
        "SELECT base.s, r.o, base.g\nFROM "@ + read_expr(env.stats@, head) + " base\nJOIN "@ + cte_name(head)
            + " r ON r.s = base.o"@
    }
}

/// The head column selected from the CTE.
pub open spec fn cte_column(t: TermV<i64>, head: i64, col: Seq<char>) -> Seq<char> {
    match t {
        TermV::Const(id) => const_text(id),
        _ => cte_name(head) + "."@ + col,
    }
}

/// The statement of a recursive rule for `head` inserting into `target`;
/// with a positive depth bound, a depth column stops the recursion.
pub open spec fn recursive_sql(rv: crate::datalog::RuleV<i64>, head: i64, target: Seq<char>, env: CompileEnv) -> Result<
    Seq<char>,
    Seq<char>,
> {
    match rv.head {
        None => Err("compile_linear_recursive_rule: rule has no head"@),
        Some(h) => if has_var_pred_atom(rv.body) {
            Err("variable predicate in recursive rule body not supported"@)
        } else {
            let graph_var = h.g is Var;
            let cte = cte_name(head);
            let base = base_sql(base_selects(base_atoms(rv.body, head), env), env, head);
            let step = rec_sql(rv.body, env, head, graph_var);
            let cycle = if graph_var { "s, o, g"@ } else { "s, o"@ };
            let tail = "\n)\nCYCLE "@ + cycle + " SET is_cycle USING cycle_path\nINSERT INTO "@ + target
                + " (s, o, g)\nSELECT "@ + cte_column(h.s, head, "s"@) + ", "@ + cte_column(h.o, head, "o"@) + ", "@
                + cte + ".g\nFROM "@ + cte + "\nWHERE NOT is_cycle\nON CONFLICT DO NOTHING"@;
            if env.max_depth > 0 {
                let base_d = replace_all(
                    replace_first(base, "SELECT s, o, g"@, "SELECT s, o, g, 0 AS depth"@),
                    "SELECT s, o, g FROM"@,
                    "SELECT s, o, g, 0 AS depth FROM"@,
                );
                let step_d = replace_first(step, "base.g"@, "base.g, r.depth + 1 AS depth"@) + "\nWHERE r.depth < "@
                    + int_decimal(env.max_depth as int);
                Ok("WITH RECURSIVE "@ + cte + "(s, o, g, depth) AS (\n"@ + base_d + "\nUNION\n"@ + step_d + tail)
            } else {
                Ok("WITH RECURSIVE "@ + cte + "(s, o, g) AS (\n"@ + base + "\nUNION\n"@ + step + tail)
            }
        },
    }
}

fn cte_name_of(head: i64) -> (r: String)
    ensures
        r@ == cte_name(head),
{
    let mut c = String::from_str("derived_");
    push_i64_decimal(&mut c, head);
    c
}

fn cte_column_of(t: &Term<i64>, cte: &str, col: &str) -> (r: String)
    ensures
        forall|head: i64| cte@ == cte_name(head) ==> r@ == cte_column(t.deep_view(), head, col@),
{
    match t {
        Term::Const(id) => const_sql(*id),
        _ => {
            let mut c = String::from_str(cte);
            c.append(".");
            c.append(col);
            c
        },
    }
}

fn replace_first_str(s: &str, pat: &str, rep: &str) -> (r: String)
    ensures
        r@ == replace_first(s@, pat@, rep@),
{
    let v = replace_first_chars(&str_chars(s), &str_chars(pat), &str_chars(rep));
    string_from_chars(&v)
}

fn replace_all_str(s: &str, pat: &str, rep: &str) -> (r: String)
    ensures
        r@ == replace_all(s@, pat@, rep@),
{
    let v = replace_chars(&str_chars(s), &str_chars(pat), &str_chars(rep));
    string_from_chars(&v)
}

/// Compiles a rule whose head predicate `head_pred` occurs in its body to
/// a recursive CTE that inserts into `target`.
pub fn compile_recursive_rule(rule: &Rule<i64>, head_pred: i64, target: &str, env: &CompileEnv) -> (r: Result<
    String,
    String,
>)
    ensures
        super::nonrec::result_view(r) == recursive_sql(rule.deep_view(), head_pred, target@, *env),
{
    let head = match &rule.head {
        Some(h) => h,
        None => {
            return Err(String::from_str("compile_linear_recursive_rule: rule has no head"));
        },
    };
    let body = &rule.body;
    let ghost bv = body.deep_view();
    let mut selects: Vec<String> = Vec::new();
    let mut first_base: Option<Option<i64>> = None;
    let mut has_rec = false;
    let mut i: usize = 0;
    assert(bv.take(0) =~= Seq::<LiteralV<i64>>::empty());
    assert(selects.deep_view() =~= Seq::<Seq<char>>::empty());
    while i < body.len()
        invariant
            i <= body@.len(),
            bv == body.deep_view(),
            rule.deep_view().body == bv,
            rule.deep_view().head == Some(head.deep_view()),
            selects.deep_view() == base_selects(base_atoms(bv.take(i as int), head_pred), *env),
            has_rec == has_recursive_atom(bv.take(i as int), head_pred),
            !has_var_pred_atom(bv.take(i as int)),
            (first_base is None) == (base_atoms(bv.take(i as int), head_pred).len() == 0),
            base_atoms(bv.take(i as int), head_pred).len() > 0 ==> first_base == Some(
                if base_atoms(bv.take(i as int), head_pred)[0].p is Const {
                    Some(base_atoms(bv.take(i as int), head_pred)[0].p->Const_0)
                } else {
                    None::<i64>
                },
            ),
        decreases body.len() - i,
    {
        let ghost pre = bv.take(i as int);
        let ghost cur = bv.take(i + 1);
        proof {
            assert(cur.drop_last() =~= pre);
            assert(cur.last() == bv[i as int]);
            assert forall|j: int| 0 <= j < cur.len() implies cur[j] == (if j < i { pre[j] } else { bv[i as int] }) by {}
        }
        let ghost atoms0 = base_atoms(pre, head_pred);
        match &body[i] {
            BodyLiteral::Positive(a) => {
                proof {
                    assert(bv[i as int] == LiteralV::Positive(a.deep_view()));
                }
                match &a.p {
                    Term::Var(_) => {
                        proof {
                            assert(literal_atom(bv[i as int]).p is Var);
                            assert(has_var_pred_atom(bv));
                        }
                        return Err(String::from_str("variable predicate in recursive rule body not supported"));
                    },
                    Term::Const(p) => {
                        if *p == head_pred {
                            has_rec = true;
                            proof {
                                assert(base_atoms(cur, head_pred) =~= atoms0);
                                assert(has_recursive_atom(cur, head_pred)) by {
                                    assert(literal_atom(cur[i as int]).p == TermV::<i64>::Const(head_pred));
                                }
                            }
                        } else {
                            let read = vp_read_expr(env, *p);
                            let mut sel = String::from_str("SELECT s, o, g FROM ");
                            sel.append(read.as_str());
                            sel.append(" ");
                            if env.default_graph_only {
                                sel.append("WHERE g = 0");
                            }
                            let ghost s0 = selects.deep_view();
                            selects.push(sel);
                            if first_base.is_none() {
                                first_base = Some(Some(*p));
                            }
                            proof {
                                let atoms1 = base_atoms(cur, head_pred);
                                assert(atoms1 =~= atoms0.push(a.deep_view()));
                                assert(atoms1.drop_last() =~= atoms0);
                                assert(selects.deep_view() =~= s0 + seq![sel@]);
                                if atoms0.len() > 0 {
                                    assert(atoms1[0] == atoms0[0]);
                                }
                                assert(has_recursive_atom(cur, head_pred) == has_recursive_atom(pre, head_pred)) by {
                                    if has_recursive_atom(cur, head_pred) {
                                        let j = choose|j: int| 0 <= j < cur.len() && cur[j] is Positive && (#[trigger] literal_atom(cur[j])).p == TermV::<i64>::Const(head_pred);
                                        if j < i {
                                            assert(pre[j] == cur[j]);
                                        }
                                    }
                                    if has_recursive_atom(pre, head_pred) {
                                        let j = choose|j: int| 0 <= j < pre.len() && pre[j] is Positive && (#[trigger] literal_atom(pre[j])).p == TermV::<i64>::Const(head_pred);
                                        assert(cur[j] == pre[j]);
                                    }
                                }
                            }
                        }
                    },
                    _ => {
                        if first_base.is_none() {
                            first_base = Some(None);
                        }
                        proof {
                            let atoms1 = base_atoms(cur, head_pred);
                            assert(atoms1 =~= atoms0.push(a.deep_view()));
                            assert(atoms1.drop_last() =~= atoms0);
                            if atoms0.len() > 0 {
                                assert(atoms1[0] == atoms0[0]);
                            }
                            assert(base_selects(atoms1, *env) =~= base_selects(atoms0, *env));
                            assert(has_recursive_atom(cur, head_pred) == has_recursive_atom(pre, head_pred)) by {
                                if has_recursive_atom(cur, head_pred) {
                                    let j = choose|j: int| 0 <= j < cur.len() && cur[j] is Positive && (#[trigger] literal_atom(cur[j])).p == TermV::<i64>::Const(head_pred);
                                    if j < i {
                                        assert(pre[j] == cur[j]);
                                    }
                                }
                                if has_recursive_atom(pre, head_pred) {
                                    let j = choose|j: int| 0 <= j < pre.len() && pre[j] is Positive && (#[trigger] literal_atom(pre[j])).p == TermV::<i64>::Const(head_pred);
                                    assert(cur[j] == pre[j]);
                                }
                            }
                        }
                    },
                }
            },
            _ => {
                proof {
                    assert(!(bv[i as int] is Positive));
                    assert(base_atoms(cur, head_pred) =~= atoms0);
                    assert(has_recursive_atom(cur, head_pred) == has_recursive_atom(pre, head_pred)) by {
                        if has_recursive_atom(cur, head_pred) {
                            let j = choose|j: int| 0 <= j < cur.len() && cur[j] is Positive && (#[trigger] literal_atom(cur[j])).p == TermV::<i64>::Const(head_pred);
                            if j < i {
                                assert(pre[j] == cur[j]);
                            }
                        }
                        if has_recursive_atom(pre, head_pred) {
                            let j = choose|j: int| 0 <= j < pre.len() && pre[j] is Positive && (#[trigger] literal_atom(pre[j])).p == TermV::<i64>::Const(head_pred);
                            assert(cur[j] == pre[j]);
                        }
                    }
                }
            },
        }
        proof {
            assert(!has_var_pred_atom(cur)) by {
                if has_var_pred_atom(cur) {
                    let j = choose|j: int| 0 <= j < cur.len() && cur[j] is Positive && (#[trigger] literal_atom(cur[j])).p is Var;
                    if j < i {
                        assert(pre[j] == cur[j]);
                    }
                }
            }
        }
        i = i + 1;
    }
    assert(bv.take(body@.len() as int) =~= bv);
    let cte = cte_name_of(head_pred);
    let base = if selects.len() == 0 {
        let mut b = String::from_str("SELECT s, o, g FROM ");
        b.append(vp_read_expr(env, head_pred).as_str());
        b.append(" _vp");
        b
    } else if selects.len() == 1 {
        String::from_str(selects[0].as_str())
    } else {
        let mut b = String::from_str("SELECT s, o, g FROM (\n  ");
        b.append(join_strings(&selects, "\n  UNION ALL\n  ").as_str());
        b.append("\n) _base");
        b
    };
    let graph_var = matches!(&head.g, Term::Var(_));
    let step = if has_rec {
        let base_pred = match first_base {
            Some(Some(p)) => p,
            _ => head_pred,
        };
        let mut r = String::from_str("SELECT base.s, r.o, base.g\nFROM ");
        r.append(vp_read_expr(env, base_pred).as_str());
        r.append(" base\nJOIN ");
        r.append(cte.as_str());
        r.append(" r ON r.s = base.o ");
        if graph_var {
            r.append("AND r.g = base.g");
        }
        r
    } else {
        let mut r = String::from_str("SELECT base.s, r.o, base.g\nFROM ");
        r.append(vp_read_expr(env, head_pred).as_str());
        r.append(" base\nJOIN ");
        r.append(cte.as_str());
        r.append(" r ON r.s = base.o");
        r
    };
    let mut tail = String::from_str("\n)\nCYCLE ");
    if graph_var {
        tail.append("s, o, g");
    } else {
        tail.append("s, o");
    }
    tail.append(" SET is_cycle USING cycle_path\nINSERT INTO ");
    tail.append(target);
    tail.append(" (s, o, g)\nSELECT ");
    tail.append(cte_column_of(&head.s, cte.as_str(), "s").as_str());
    tail.append(", ");
    tail.append(cte_column_of(&head.o, cte.as_str(), "o").as_str());
    tail.append(", ");
    tail.append(cte.as_str());
    tail.append(".g\nFROM ");
    tail.append(cte.as_str());
    tail.append("\nWHERE NOT is_cycle\nON CONFLICT DO NOTHING");
    let mut out = String::from_str("WITH RECURSIVE ");
    out.append(cte.as_str());
    if env.max_depth > 0 {
        let b1 = replace_first_str(base.as_str(), "SELECT s, o, g", "SELECT s, o, g, 0 AS depth");
        let b2 = replace_all_str(b1.as_str(), "SELECT s, o, g FROM", "SELECT s, o, g, 0 AS depth FROM");
        let mut st = replace_first_str(step.as_str(), "base.g", "base.g, r.depth + 1 AS depth");
        st.append("\nWHERE r.depth < ");
        push_i64_decimal(&mut st, env.max_depth);
        out.append("(s, o, g, depth) AS (\n");
        out.append(b2.as_str());
        out.append("\nUNION\n");
        out.append(st.as_str());
    } else {
        out.append("(s, o, g) AS (\n");
        out.append(base.as_str());
        out.append("\nUNION\n");
        out.append(step.as_str());
    }
    out.append(tail.as_str());
    Ok(out)
}

} // verus!
