//! Aggregate rules (`?x p ?n :- COUNT(?y WHERE ?x q ?y) = ?n .`) compile to
//! a `GROUP BY` insert.

use vstd::prelude::*;
use crate::datalog::{AggFunc, AggregateV, BodyLiteral, LiteralV, Rule, Term, TermV};
use crate::datalog::parser::{join_strings, join_with};
use crate::text::{str_eq};
use super::{const_sql, const_text, read_expr, vp_read_expr, CompileEnv};
use super::nonrec::result_view;

verus! {

/// The first aggregate literal of `body`.
pub open spec fn first_aggregate(body: Seq<LiteralV<i64>>) -> Option<AggregateV<i64>>
    decreases body.len(),
{
    if body.len() == 0 {
        None
    } else {
        match first_aggregate(body.drop_last()) {
            Some(a) => Some(a),
            None => match body.last() {
                LiteralV::Aggregate(a) => Some(a),
                _ => None,
            },
        }
    }
}

/// The SQL name of an aggregate function.
pub open spec fn agg_func_text(f: AggFunc) -> Seq<char> {
    match f {
        AggFunc::Count => "COUNT"@,
        AggFunc::Sum => "SUM"@,
        AggFunc::Min => "MIN"@,
        AggFunc::Max => "MAX"@,
        AggFunc::Avg => "AVG"@,
    }
}

/// Which column is aggregated and which grouped: the one holding the
/// aggregated variable is aggregated.
pub open spec fn agg_columns(g: AggregateV<i64>) -> Result<(Seq<char>, Seq<char>), Seq<char>> {
    match (g.atom.s, g.atom.o) {
        (TermV::Var(s), TermV::Var(o)) => if s == g.agg_var {
            Ok(("s"@, "o"@))
        } else if o == g.agg_var {
            Ok(("o"@, "s"@))
        } else {
            Err("agg_var '"@ + g.agg_var + "' not found in atom s or o positions"@)
        },
        (TermV::Const(_), TermV::Var(o)) => if o == g.agg_var {
            Ok(("o"@, "s"@))
        } else {
            Err("agg_var '"@ + g.agg_var + "' not in atom (s=const, o="@ + o + ")"@)
        },
        (TermV::Var(s), TermV::Const(_)) => if s == g.agg_var {
            Ok(("s"@, "o"@))
        } else {
            Err("agg_var '"@ + g.agg_var + "' not in atom (s="@ + s + ", o=const)"@)
        },
        _ => Err("aggregate atom must have at least one variable"@),
    }
}

/// A head position holds the aggregate's result variable.
pub open spec fn is_result_var(t: TermV<i64>, result: Seq<char>) -> bool {
    t matches TermV::Var(v) && v == result
}

/// The conditions of an aggregate rule's atom: the default graph when so
/// configured, and its constant subject and object.
pub open spec fn agg_conditions(g: AggregateV<i64>, default_only: bool) -> Seq<Seq<char>> {
    (if default_only { seq!["t0.g = 0"@] } else { Seq::empty() }) + (match g.atom.s {
        TermV::Const(c) => seq!["t0.s = "@ + const_text(c)],
        _ => Seq::empty(),
    }) + (match g.atom.o {
        TermV::Const(c) => seq!["t0.o = "@ + const_text(c)],
        _ => Seq::empty(),
    })
}

/// The statement of an aggregate rule inserting into `target`: the
/// aggregate of one column of the atom's triples, grouped by the other,
/// the result encoded as an `xsd:integer`-kind literal.
pub open spec fn aggregate_sql(rv: crate::datalog::RuleV<i64>, target: Seq<char>, env: CompileEnv) -> Result<Seq<char>, Seq<char>> {
    match rv.head {
        None => Err("aggregate rule must have a head"@),
        Some(h) => match first_aggregate(rv.body) {
            None => Err("no aggregate literal found in rule body"@),
            Some(g) => match g.atom.p {
                TermV::Const(pred) => match agg_columns(g) {
                    Err(e) => Err(e),
                    Ok(cols) => if !is_result_var(h.s, g.result_var) && !is_result_var(h.o, g.result_var) {
                        Err("result_var '"@ + g.result_var + "' not found in head subject or object"@)
                    } else {
                        let agg = "pg_ripple.encode_term("@ + agg_func_text(g.func) + "(t0."@ + cols.0 + ")::text, 2::smallint)"@;
                        let grp = "t0."@ + cols.1;
                        let (s, o) = if is_result_var(h.o, g.result_var) { (grp, agg) } else { (agg, grp) };
                        let conds = agg_conditions(g, env.default_graph_only);
                        Ok("INSERT INTO "@ + target + " (s, o, g)\nSELECT "@ + s + ", "@ + o + ", 0\nFROM "@
                            + read_expr(env.stats@, pred) + " t0\n"@ + (if conds.len() == 0 {
                            Seq::empty()
                        } else {
                            "WHERE "@ + join_with(conds, " AND "@)
                        }) + "\nGROUP BY t0."@ + cols.1 + "\nON CONFLICT DO NOTHING"@)
                    },
                },
                _ => Err("aggregate atom predicate must be a constant"@),
            },
        },
    }
}

fn agg_func_sql(f: AggFunc) -> (r: &'static str)
    ensures
        r@ == agg_func_text(f),
{
    match f {
        AggFunc::Count => "COUNT",
        AggFunc::Sum => "SUM",
        AggFunc::Min => "MIN",
        AggFunc::Max => "MAX",
        AggFunc::Avg => "AVG",
    }
}

fn agg_columns_of(g: &crate::datalog::AggregateLiteral<i64>) -> (r: Result<(&'static str, &'static str), String>)
    ensures
        match agg_columns(g.deep_view()) {
            Ok(c) => r matches Ok(x) && x.0@ == c.0 && x.1@ == c.1,
            Err(e) => r matches Err(m) && m@ == e,
        },
{
    match (&g.atom.s, &g.atom.o) {
        (Term::Var(s), Term::Var(o)) => {
            if str_eq(s.as_str(), g.agg_var.as_str()) {
                Ok(("s", "o"))
            } else if str_eq(o.as_str(), g.agg_var.as_str()) {
                Ok(("o", "s"))
            } else {
                let mut m = String::from_str("agg_var '");
                m.append(g.agg_var.as_str());
                m.append("' not found in atom s or o positions");
                Err(m)
            }
        },
        (Term::Const(_), Term::Var(o)) => {
            if str_eq(o.as_str(), g.agg_var.as_str()) {
                Ok(("o", "s"))
            } else {
                let mut m = String::from_str("agg_var '");
                m.append(g.agg_var.as_str());
                m.append("' not in atom (s=const, o=");
                m.append(o.as_str());
                m.append(")");
                Err(m)
            }
        },
        (Term::Var(s), Term::Const(_)) => {
            if str_eq(s.as_str(), g.agg_var.as_str()) {
                Ok(("s", "o"))
            } else {
                let mut m = String::from_str("agg_var '");
                m.append(g.agg_var.as_str());
                m.append("' not in atom (s=");
                m.append(s.as_str());
                m.append(", o=const)");
                Err(m)
            }
        },
        _ => Err(String::from_str("aggregate atom must have at least one variable")),
    }
}

fn is_result_var_of(t: &Term<i64>, result: &str) -> (r: bool)
    ensures
        r == is_result_var(t.deep_view(), result@),
{
    match t {
        Term::Var(v) => str_eq(v.as_str(), result),
        _ => false,
    }
}

/// Compiles an aggregate rule to an `INSERT … SELECT … GROUP BY` into `target`.
pub fn compile_aggregate_rule(rule: &Rule<i64>, target: &str, env: &CompileEnv) -> (r: Result<String, String>)
    ensures
        result_view(r) == aggregate_sql(rule.deep_view(), target@, *env),
{
    let head = match &rule.head {
        Some(h) => h,
        None => {
            return Err(String::from_str("aggregate rule must have a head"));
        },
    };
    let ghost bv = rule.body.deep_view();
    let mut found: Option<usize> = None;
    let mut i: usize = 0;
    while i < rule.body.len()
        invariant
            i <= rule.body@.len(),
            bv == rule.body.deep_view(),
            match found {
                Some(k) => k < i && first_aggregate(bv.take(i as int)) == Some(match bv[k as int] {
                    LiteralV::Aggregate(a) => a,
                    _ => arbitrary(),
                }) && bv[k as int] is Aggregate,
                None => first_aggregate(bv.take(i as int)) is None,
            },
        decreases rule.body.len() - i,
    {
        proof {
            assert(bv.take(i + 1).drop_last() =~= bv.take(i as int));
            assert(bv.take(i + 1).last() == bv[i as int]);
        }
        if found.is_none() && matches!(&rule.body[i], BodyLiteral::Aggregate(_)) {
            found = Some(i);
        }
        i = i + 1;
    }
    assert(bv.take(rule.body@.len() as int) =~= bv);
    let k = match found {
        Some(k) => k,
        None => {
            return Err(String::from_str("no aggregate literal found in rule body"));
        },
    };
    let g = match &rule.body[k] {
        BodyLiteral::Aggregate(g) => g,
        _ => {
            return Err(String::from_str("no aggregate literal found in rule body"));
        },
    };
    let pred = match &g.atom.p {
        Term::Const(id) => *id,
        _ => {
            return Err(String::from_str("aggregate atom predicate must be a constant"));
        },
    };
    let (agg_col, group_col) = match agg_columns_of(g) {
        Ok(c) => c,
        Err(e) => {
            return Err(e);
        },
    };
    let in_s = is_result_var_of(&head.s, g.result_var.as_str());
    let in_o = is_result_var_of(&head.o, g.result_var.as_str());
    if !in_s && !in_o {
        let mut m = String::from_str("result_var '");
        m.append(g.result_var.as_str());
        m.append("' not found in head subject or object");
        return Err(m);
    }
    let mut agg = String::from_str("pg_ripple.encode_term(");
    agg.append(agg_func_sql(g.func));
    agg.append("(t0.");
    agg.append(agg_col);
    agg.append(")::text, 2::smallint)");
    let mut grp = String::from_str("t0.");
    grp.append(group_col);
    let (s, o) = if in_o { (grp, agg) } else { (agg, grp) };
    let mut conds: Vec<String> = Vec::new();
    if env.default_graph_only {
        conds.push(String::from_str("t0.g = 0"));
    }
    match &g.atom.s {
        Term::Const(c) => {
            let mut x = String::from_str("t0.s = ");
            x.append(const_sql(*c).as_str());
            conds.push(x);
        },
        _ => {},
    }
    match &g.atom.o {
        Term::Const(c) => {
            let mut x = String::from_str("t0.o = ");
            x.append(const_sql(*c).as_str());
            conds.push(x);
        },
        _ => {},
    }
    assert(conds.deep_view() =~= agg_conditions(g.deep_view(), env.default_graph_only));
    let mut out = String::from_str("INSERT INTO ");
    out.append(target);
    out.append(" (s, o, g)\nSELECT ");
    out.append(s.as_str());
    out.append(", ");
    out.append(o.as_str());
    out.append(", 0\nFROM ");
    out.append(vp_read_expr(env, pred).as_str());
    out.append(" t0\n");
    let ghost prefix = out@;
    if conds.len() > 0 {
        out.append("WHERE ");
        out.append(join_strings(&conds, " AND ").as_str());
        assert(out@ =~= prefix + ("WHERE "@ + join_with(conds.deep_view(), " AND "@)));
    } else {
        assert(out@ =~= prefix + Seq::<char>::empty());
    }
    out.append("\nGROUP BY t0.");
    out.append(group_col);
    out.append("\nON CONFLICT DO NOTHING");
    Ok(out)
}

} // verus!
