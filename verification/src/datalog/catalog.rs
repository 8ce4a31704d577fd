//! The rows a rule set is stored as: each rule with its head predicate, its
//! stratum and whether that stratum is recursive.

use vstd::prelude::*;
use crate::datalog::predvar::copy_rule;
use crate::datalog::stratify::{head_pred, head_pred_of, outcome_view, stratify, stratify_outcome, StratumV};
use crate::datalog::{Rule, RuleV};

verus! {

/// One catalog row of a rule.
#[derive(Debug)]
pub struct RuleRow {
    pub rule_text: String,
    pub head_pred: Option<i64>,
    pub stratum: i32,
    pub is_recursive: bool,
}

/// A row as plain values.
pub open spec fn row_view(r: RuleRow) -> (Seq<char>, Option<i64>, i32, bool) {
    (r.rule_text@, r.head_pred, r.stratum, r.is_recursive)
}

/// The rows as plain values.
pub open spec fn rows_view(rs: Seq<RuleRow>) -> Seq<(Seq<char>, Option<i64>, i32, bool)> {
    Seq::new(rs.len(), |i: int| row_view(rs[i]))
}

/// The row of rule `r` in stratum `k`.
pub open spec fn row_of(r: RuleV<i64>, k: int, recursive: bool) -> (Seq<char>, Option<i64>, i32, bool) {
    (r.rule_text, head_pred(r), k as i32, recursive)
}

/// The rows of a stratified program: stratum by stratum, rules in order,
/// each stratum numbered by its position.
pub open spec fn program_rows(ps: Seq<StratumV>) -> Seq<(Seq<char>, Option<i64>, i32, bool)>
    decreases ps.len(),
{
    if ps.len() == 0 {
        Seq::empty()
    } else {
        let k = ps.len() - 1;
        program_rows(ps.drop_last()) + Seq::new(
            ps.last().rules.len(),
            |j: int| row_of(ps.last().rules[j], k, ps.last().is_recursive),
        )
    }
}

/// The rows of a rule set that does not stratify: every rule in stratum 0,
/// marked recursive (the well-founded evaluation re-stratifies it).
pub open spec fn fallback_rows(rv: Seq<RuleV<i64>>) -> Seq<(Seq<char>, Option<i64>, i32, bool)> {
    Seq::new(rv.len(), |j: int| row_of(rv[j], 0, true))
}

fn copy_rules(rules: &Vec<Rule<i64>>) -> (r: Vec<Rule<i64>>)
    ensures
        r.deep_view() == rules.deep_view(),
{
    let mut out: Vec<Rule<i64>> = Vec::new();
    let mut i: usize = 0;
    while i < rules.len()
        invariant
            i <= rules.len(),
            out.deep_view() == rules.deep_view().subrange(0, i as int),
        decreases rules.len() - i,
    {
        let c = copy_rule(&rules[i]);
        let ghost before = out.deep_view();
        out.push(c);
        assert(out.deep_view() =~= before.push(c.deep_view()));
        assert(rules.deep_view().subrange(0, i as int + 1) =~= rules.deep_view().subrange(0, i as int).push(
            rules.deep_view()[i as int],
        ));
        i = i + 1;
    }
    assert(rules.deep_view().subrange(0, rules.len() as int) =~= rules.deep_view());
    out
}

fn row(rule: &Rule<i64>, k: usize, recursive: bool) -> (r: RuleRow)
    ensures
        row_view(r) == row_of(rule.deep_view(), k as int, recursive),
{
    RuleRow { rule_text: rule.rule_text.clone(), head_pred: head_pred_of(rule), stratum: k as i32, is_recursive: recursive }
}

/// The catalog rows of a rule set: in the strata that stratification
/// yields, or, when it fails, all in stratum 0 and recursive.
pub fn rule_catalog_rows(rules: &Vec<Rule<i64>>) -> (r: Vec<RuleRow>)
    ensures
        exists|o: Result<Seq<StratumV>, Seq<char>>|
            #[trigger] stratify_outcome(rules.deep_view(), o) && rows_view(r@) == match o {
                Ok(ps) => program_rows(ps),
                Err(_) => fallback_rows(rules.deep_view()),
            },
{
    let ghost rv = rules.deep_view();
    let res = stratify(copy_rules(rules));
    let ghost o = outcome_view(res);
    let mut out: Vec<RuleRow> = Vec::new();
    match res {
        Ok(p) => {
            let ghost ps = p.view_program();
            let mut k: usize = 0;
            assert(ps.subrange(0, 0) =~= Seq::<StratumV>::empty());
            assert(rows_view(out@) =~= Seq::empty());
            while k < p.strata.len()
                invariant
                    ps == p.view_program(),
                    k <= p.strata@.len(),
                    rows_view(out@) == program_rows(ps.subrange(0, k as int)),
                decreases p.strata.len() - k,
            {
                let st = &p.strata[k];
                let ghost base = rows_view(out@);
                let mut j: usize = 0;
                assert(base + Seq::new(0, |q: int| row_of(ps[k as int].rules[q], k as int, ps[k as int].is_recursive))
                    =~= base);
                while j < st.rules.len()
                    invariant
                        ps == p.view_program(),
                        k < p.strata@.len(),
                        st == &p.strata@[k as int],
                        j <= st.rules@.len(),
                        rows_view(out@) == base + Seq::new(
                            j as nat,
                            |q: int| row_of(ps[k as int].rules[q], k as int, ps[k as int].is_recursive),
                        ),
                    decreases st.rules.len() - j,
                {
                    let rw = row(&st.rules[j], k, st.is_recursive);
                    let ghost before = rows_view(out@);
                    out.push(rw);
                    assert(st.rules.deep_view()[j as int] == st.rules@[j as int].deep_view());
                    assert(rows_view(out@) =~= before.push(row_view(rw)));
                    assert(base + Seq::new(
                        j as nat + 1,
                        |q: int| row_of(ps[k as int].rules[q], k as int, ps[k as int].is_recursive),
                    ) =~= before.push(row_view(rw)));
                    j = j + 1;
                }
                let ghost sub = ps.subrange(0, k as int + 1);
                assert(sub.drop_last() =~= ps.subrange(0, k as int));
                assert(sub.last() == ps[k as int]);
                k = k + 1;
            }
            assert(ps.subrange(0, ps.len() as int) =~= ps);
        },
        Err(_) => {
            let mut j: usize = 0;
            while j < rules.len()
                invariant
                    rv == rules.deep_view(),
                    j <= rules.len(),
                    rows_view(out@) == Seq::new(j as nat, |q: int| row_of(rv[q], 0, true)),
                decreases rules.len() - j,
            {
                let rw = row(&rules[j], 0, true);
                let ghost before = rows_view(out@);
                out.push(rw);
                assert(rv[j as int] == rules@[j as int].deep_view());
                assert(rows_view(out@) =~= before.push(row_view(rw)));
                assert(Seq::new(j as nat + 1, |q: int| row_of(rv[q], 0, true)) =~= before.push(row_view(rw)));
                j = j + 1;
            }
        },
    }
    assert(stratify_outcome(rv, o));
    out
}

} // verus!
