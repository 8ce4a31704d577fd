//! Derivation provenance: the SQL that records, for each fact a rule
//! derived, the rule and the statement IDs of the body triples it used.

use vstd::prelude::*;
use crate::datalog::{AtomV, BodyLiteral, LiteralV, Rule, RuleV, Term, TermV};
use crate::datalog::compiler::{bind_spec, col_ref_spec, const_sql, const_text, Binding, VarMap};
use crate::datalog::compiler::nonrec::{literal_atom, positions_view, positive_positions, positive_positions_of};
use crate::datalog::compiler::recursive::has_recursive_atom;
use crate::datalog::parser::{join_strings, join_with};
use crate::text::{int_decimal, push_i64_decimal, push_u64_digits, nat_digits, replace_all, replace_chars, str_chars, string_from_chars};

verus! {

/// Text quoted for an SQL string literal: each `'` doubled.
pub open spec fn sql_escape(s: Seq<char>) -> Seq<char> {
    replace_all(s, seq!['\''], seq!['\'', '\''])
}

fn sql_escape_of(s: &str) -> (r: String)
    ensures
        r@ == sql_escape(s@),
{
    let pat = vec!['\''];
    let rep = vec!['\'', '\''];
    assert(pat@ =~= seq!['\'']);
    assert(rep@ =~= seq!['\'', '\'']);
    string_from_chars(&replace_chars(&str_chars(s), &pat, &rep))
}

/// The joins of the body scan so far, the statement-ID columns of its
/// tables, and the variable bindings.
pub struct ScanParts {
    pub joins: Seq<Seq<char>>,
    pub sids: Seq<Seq<char>>,
    pub vm: Seq<Binding>,
}

/// One position of a body atom read as `alias`: a variable met before is
/// a join condition, a new one is bound; a constant is a condition.
pub open spec fn scan_position(vm: Seq<Binding>, conds: Seq<Seq<char>>, alias: Seq<char>, col: Seq<char>, t: TermV<i64>) -> (
    Seq<Binding>,
    Seq<Seq<char>>,
) {
    match t {
        TermV::Var(v) => match col_ref_spec(vm, v) {
            Some(e) => (vm, conds.push(alias + "."@ + col + " = "@ + e)),
            None => (bind_spec(vm, v, alias, col), conds),
        },
        TermV::Const(c) => (vm, conds.push(alias + "."@ + col + " = "@ + const_text(c))),
        _ => (vm, conds),
    }
}

/// Adds body atom `a` as table `b{idx}` (its `vp_rare` rows with their IDs).
pub open spec fn scan_step(st: ScanParts, idx: nat, a: AtomV<i64>, pred: i64) -> ScanParts {
    let alias = "b"@ + nat_digits(idx);
    let table = "(SELECT s, o, g, i FROM _pg_ripple.vp_rare WHERE p = "@ + int_decimal(pred as int) + ") AS "@ + alias;
    let c1 = scan_position(st.vm, Seq::empty(), alias, "s"@, a.s);
    let c2 = scan_position(c1.0, c1.1, alias, "o"@, a.o);
    let c3 = scan_position(c2.0, c2.1, alias, "g"@, a.g);
    let part = if idx == 0 {
        "FROM "@ + table
    } else if c3.1.len() == 0 {
        "CROSS JOIN "@ + table
    } else {
        "JOIN "@ + table + " ON "@ + join_with(c3.1, " AND "@)
    };
    ScanParts { joins: st.joins.push(part), sids: st.sids.push(alias + ".i"@), vm: c3.0 }
}

/// The scan of the first `n` positive atoms of `body` (all over constants).
pub open spec fn scan_fold(body: Seq<LiteralV<i64>>, n: int) -> ScanParts
    decreases n,
{
    if n <= 0 {
        ScanParts { joins: Seq::empty(), sids: Seq::empty(), vm: Seq::empty() }
    } else {
        let a = literal_atom(body[positive_positions(body)[n - 1]]);
        scan_step(scan_fold(body, n - 1), (n - 1) as nat, a, a.p->Const_0)
    }
}

/// A head subject or object as a scanned column or constant.
pub open spec fn scan_head_column(t: TermV<i64>, vm: Seq<Binding>) -> Option<Seq<char>> {
    match t {
        TermV::Var(v) => col_ref_spec(vm, v),
        TermV::Const(c) => Some(const_text(c)),
        _ => None,
    }
}

/// A head graph as a scanned column, a constant, or the default graph.
pub open spec fn scan_head_graph(t: TermV<i64>, vm: Seq<Binding>) -> Seq<char> {
    match t {
        TermV::Var(v) => match col_ref_spec(vm, v) {
            Some(e) => e,
            None => "0"@,
        },
        TermV::Const(c) => const_text(c),
        _ => "0"@,
    }
}

/// Where the derived facts come from: inferred rows of `vp_rare`, or the
/// rows of a delta table.
pub enum HeadRows {
    Inferred,
    Delta(Seq<char>),
}

/// The start of every derivation insert.
pub open spec fn derivation_insert_head() -> Seq<char> {
    "INSERT INTO _pg_ripple.derivations (derived_sid, rule_name, rule_set, antecedent_sids) SELECT "@
}

/// The end of every derivation insert.
pub open spec fn on_conflict_tail() -> Seq<char> {
    " ON CONFLICT (derived_sid, rule_name) DO NOTHING"@
}

/// The stub of a recursive rule: each derived fact recorded with no
/// antecedents.
pub open spec fn stub_sql(rule: Seq<char>, set: Seq<char>, head: i64, rows: HeadRows) -> Seq<char> {
    derivation_insert_head() + "vr.i, '"@ + sql_escape(rule) + "'::text, '"@ + sql_escape(set)
        + "'::text, ARRAY[]::BIGINT[] "@ + match rows {
        HeadRows::Delta(d) => "FROM "@ + d + " dt JOIN _pg_ripple.vp_rare vr ON vr.p = "@ + int_decimal(head as int)
            + " AND vr.s = dt.s AND vr.o = dt.o AND vr.g = dt.g"@,
        HeadRows::Inferred => "FROM _pg_ripple.vp_rare vr WHERE vr.p = "@ + int_decimal(head as int) + " AND vr.source = 1"@,
    } + on_conflict_tail()
}

/// The table of derived head rows, joined to the body scan.
pub open spec fn head_rows_sql(head: i64, rows: HeadRows) -> Seq<char> {
    match rows {
        HeadRows::Delta(d) => "JOIN (SELECT vr.i, vr.s, vr.o, vr.g FROM "@ + d
            + " dt JOIN _pg_ripple.vp_rare vr ON vr.p = "@ + int_decimal(head as int)
            + " AND vr.s = dt.s AND vr.o = dt.o AND vr.g = dt.g ) vr_head"@,
        HeadRows::Inferred => "JOIN (SELECT i, s, o, g FROM _pg_ripple.vp_rare WHERE p = "@ + int_decimal(head as int)
            + " AND source = 1) vr_head"@,
    }
}

/// The derivation insert of a rule: re-runs its body over `vp_rare`,
/// keeping the statement IDs of the body rows, joined with the derived head
/// rows. `None` for a rule without a constant head predicate, without
/// positive atoms, or with a variable body predicate or head position.
pub open spec fn antecedent_sql(rv: RuleV<i64>, set: Seq<char>, rows: HeadRows) -> Option<Seq<char>> {
    match rv.head {
        None => None,
        Some(h) => match h.p {
            TermV::Const(hp) => if has_recursive_atom(rv.body, hp) {
                Some(stub_sql(rv.rule_text, set, hp, rows))
            } else {
                let ps = positive_positions(rv.body);
                if ps.len() == 0 || exists|k: int| 0 <= k < ps.len() && !((#[trigger] literal_atom(rv.body[ps[k]])).p is Const) {
                    None
                } else {
                    let st = scan_fold(rv.body, ps.len() as int);
                    match (scan_head_column(h.s, st.vm), scan_head_column(h.o, st.vm)) {
                        (Some(s), Some(o)) => Some(derivation_insert_head() + "vr_head.i, '"@ + sql_escape(rv.rule_text)
                            + "'::text, '"@ + sql_escape(set) + "'::text, ARRAY["@ + join_with(st.sids, ", "@)
                            + "]::BIGINT[] "@ + join_with(st.joins, "\n  "@) + " "@ + head_rows_sql(hp, rows)
                            + " ON vr_head.s = "@ + s + " AND vr_head.o = "@ + o + " AND vr_head.g = "@
                            + scan_head_graph(h.g, st.vm) + on_conflict_tail()),
                        _ => None,
                    }
                }
            },
            _ => None,
        },
    }
}

/// The delta-table form: the head predicate's delta table is
/// `delta_prefix{head}` when the head predicate is one of `derived`, and
/// without it nothing is recorded.
pub open spec fn delta_antecedent_sql(rv: RuleV<i64>, set: Seq<char>, derived: Seq<i64>, prefix: Seq<char>) -> Option<Seq<char>> {
    match rv.head {
        Some(h) => match h.p {
            TermV::Const(hp) => if derived.contains(hp) {
                antecedent_sql(rv, set, HeadRows::Delta(prefix + int_decimal(hp as int)))
            } else {
                None
            },
            _ => None,
        },
        None => None,
    }
}

/// An optional statement as text.
pub open spec fn opt_view(r: Option<String>) -> Option<Seq<char>> {
    match r {
        Some(s) => Some(s@),
        None => None,
    }
}

fn stub_sql_of(rule_text: &str, set: &str, head: i64, delta: Option<&str>) -> (r: String)
    ensures
        r@ == stub_sql(rule_text@, set@, head, match delta {
            Some(d) => HeadRows::Delta(d@),
            None => HeadRows::Inferred,
        }),
{
    let mut out = String::from_str("INSERT INTO _pg_ripple.derivations (derived_sid, rule_name, rule_set, antecedent_sids) SELECT ");
    out.append("vr.i, '");
    out.append(sql_escape_of(rule_text).as_str());
    out.append("'::text, '");
    out.append(sql_escape_of(set).as_str());
    out.append("'::text, ARRAY[]::BIGINT[] ");
    let ghost pre = out@;
    let mut mid = String::new();
    match delta {
        Some(d) => {
            mid.append("FROM ");
            mid.append(d);
            mid.append(" dt JOIN _pg_ripple.vp_rare vr ON vr.p = ");
            push_i64_decimal(&mut mid, head);
            mid.append(" AND vr.s = dt.s AND vr.o = dt.o AND vr.g = dt.g");
        },
        None => {
            mid.append("FROM _pg_ripple.vp_rare vr WHERE vr.p = ");
            push_i64_decimal(&mut mid, head);
            mid.append(" AND vr.source = 1");
        },
    }
    out.append(mid.as_str());
    out.append(" ON CONFLICT (derived_sid, rule_name) DO NOTHING");
    out
}

/// The stub insert for a recursive rule: every inferred row of its head
/// predicate, recorded with no antecedents.
pub fn record_recursive_rule_stub(rule: &Rule<i64>, rule_set: &str) -> (r: Option<String>)
    ensures
        opt_view(r) == match rule.deep_view().head {
            Some(h) => match h.p {
                TermV::Const(hp) => Some(stub_sql(rule.rule_text@, rule_set@, hp, HeadRows::Inferred)),
                _ => None,
            },
            None => None,
        },
{
    match &rule.head {
        Some(h) => match &h.p {
            Term::Const(hp) => Some(stub_sql_of(rule.rule_text.as_str(), rule_set, *hp, None)),
            _ => None,
        },
        None => None,
    }
}

/// The stub insert for a recursive rule: the rows of `delta_table` (the
/// facts derived in this run), recorded with no antecedents.
pub fn record_recursive_rule_stub_via_delta(rule: &Rule<i64>, rule_set: &str, delta_table: &str) -> (r: Option<String>)
    ensures
        opt_view(r) == match rule.deep_view().head {
            Some(h) => match h.p {
                TermV::Const(hp) => Some(stub_sql(rule.rule_text@, rule_set@, hp, HeadRows::Delta(delta_table@))),
                _ => None,
            },
            None => None,
        },
{
    match &rule.head {
        Some(h) => match &h.p {
            Term::Const(hp) => Some(stub_sql_of(rule.rule_text.as_str(), rule_set, *hp, Some(delta_table))),
            _ => None,
        },
        None => None,
    }
}

fn scan_position_of(vm: &mut VarMap, conds: &mut Vec<String>, alias: &str, col: &str, t: &Term<i64>)
    ensures
        (final(vm).view_bindings(), final(conds).deep_view()) == scan_position(
            old(vm).view_bindings(),
            old(conds).deep_view(),
            alias@,
            col@,
            t.deep_view(),
        ),
{
    let ghost c0 = conds.deep_view();
    match t {
        Term::Var(v) => match vm.col_ref(v.as_str()) {
            Some(e) => {
                let mut c = String::from_str(alias);
                c.append(".");
                c.append(col);
                c.append(" = ");
                c.append(e.as_str());
                conds.push(c);
                assert(conds.deep_view() =~= c0.push(c@));
            },
            None => vm.bind(v.as_str(), alias, col),
        },
        Term::Const(id) => {
            let mut c = String::from_str(alias);
            c.append(".");
            c.append(col);
            c.append(" = ");
            c.append(const_sql(*id).as_str());
            conds.push(c);
            assert(conds.deep_view() =~= c0.push(c@));
        },
        _ => {},
    }
}

/// The derivation insert of `rule`, with `head_rows` the table of derived
/// head rows (`None`: the inferred rows of `vp_rare`).
fn antecedent_insert(rule: &Rule<i64>, rule_set: &str, delta: Option<&str>) -> (r: Option<String>)
    ensures
        opt_view(r) == antecedent_sql(rule.deep_view(), rule_set@, match delta {
            Some(d) => HeadRows::Delta(d@),
            None => HeadRows::Inferred,
        }),
{
    let ghost rv = rule.deep_view();
    let ghost rows = match delta {
        Some(d) => HeadRows::Delta(d@),
        None => HeadRows::Inferred,
    };
    let head = match &rule.head {
        Some(h) => h,
        None => {
            return None;
        },
    };
    let hp = match &head.p {
        Term::Const(id) => *id,
        _ => {
            return None;
        },
    };
    if crate::datalog::compiler::is_recursive_rule(rule, hp) {
        return Some(stub_sql_of(rule.rule_text.as_str(), rule_set, hp, delta));
    }
    let ps = positive_positions_of(&rule.body);
    if ps.len() == 0 {
        return None;
    }
    let ghost pv = positive_positions(rv.body);
    let mut k: usize = 0;
    while k < ps.len()
        invariant
            k <= ps@.len(),
            rv == rule.deep_view(),
            pv == positive_positions(rv.body),
            positions_view(ps@) == pv,
            forall|q: int| 0 <= q < ps@.len() ==> (#[trigger] ps@[q]) < rule.body@.len() && rv.body[ps@[q] as int] is Positive,
            forall|q: int| 0 <= q < k ==> (#[trigger] literal_atom(rv.body[pv[q]])).p is Const,
            rv.head == Some(head.deep_view()),
            head.deep_view().p == TermV::<i64>::Const(hp),
            !has_recursive_atom(rv.body, hp),
            pv.len() > 0,
        decreases ps.len() - k,
    {
        match &rule.body[ps[k]] {
            BodyLiteral::Positive(a) => {
                assert(literal_atom(rv.body[pv[k as int]]) == a.deep_view());
                if !matches!(&a.p, Term::Const(_)) {
                    assert(!(literal_atom(rv.body[pv[k as int]]).p is Const));
                    return None;
                }
            },
            _ => {},
        }
        k = k + 1;
    }
    let mut joins: Vec<String> = Vec::new();
    let mut sids: Vec<String> = Vec::new();
    let mut vm = VarMap::new();
    let mut idx: usize = 0;
    assert(joins.deep_view() =~= Seq::<Seq<char>>::empty());
    assert(sids.deep_view() =~= Seq::<Seq<char>>::empty());
    while idx < ps.len()
        invariant
            idx <= ps@.len(),
            rv == rule.deep_view(),
            pv == positive_positions(rv.body),
            positions_view(ps@) == pv,
            forall|q: int| 0 <= q < ps@.len() ==> (#[trigger] ps@[q]) < rule.body@.len() && rv.body[ps@[q] as int] is Positive,
            forall|q: int| 0 <= q < ps@.len() ==> (#[trigger] literal_atom(rv.body[pv[q]])).p is Const,
            scan_fold(rv.body, idx as int) == (ScanParts { joins: joins.deep_view(), sids: sids.deep_view(), vm: vm.view_bindings() }),
        decreases ps.len() - idx,
    {
        match &rule.body[ps[idx]] {
            BodyLiteral::Positive(a) => {
                assert(literal_atom(rv.body[pv[idx as int]]) == a.deep_view());
                let pred = match &a.p {
                    Term::Const(p) => *p,
                    _ => 0,
                };
                let mut alias = String::from_str("b");
                push_u64_digits(&mut alias, idx as u64);
                let mut table = String::from_str("(SELECT s, o, g, i FROM _pg_ripple.vp_rare WHERE p = ");
                push_i64_decimal(&mut table, pred);
                table.append(") AS ");
                table.append(alias.as_str());
                let mut conds: Vec<String> = Vec::new();
                assert(conds.deep_view() =~= Seq::<Seq<char>>::empty());
                scan_position_of(&mut vm, &mut conds, alias.as_str(), "s", &a.s);
                scan_position_of(&mut vm, &mut conds, alias.as_str(), "o", &a.o);
                scan_position_of(&mut vm, &mut conds, alias.as_str(), "g", &a.g);
                let part = if idx == 0 {
                    let mut x = String::from_str("FROM ");
                    x.append(table.as_str());
                    x
                } else if conds.len() == 0 {
                    let mut x = String::from_str("CROSS JOIN ");
                    x.append(table.as_str());
                    x
                } else {
                    let mut x = String::from_str("JOIN ");
                    x.append(table.as_str());
                    x.append(" ON ");
                    x.append(join_strings(&conds, " AND ").as_str());
                    x
                };
                let ghost j0 = joins.deep_view();
                let ghost s0 = sids.deep_view();
                joins.push(part);
                let mut sid = String::from_str(alias.as_str());
                sid.append(".i");
                sids.push(sid);
                assert(joins.deep_view() =~= j0.push(part@));
                assert(sids.deep_view() =~= s0.push(sid@));
            },
            _ => {},
        }
        idx = idx + 1;
    }
    let s = match &head.s {
        Term::Var(v) => match vm.col_ref(v.as_str()) {
            Some(e) => e,
            None => {
                return None;
            },
        },
        Term::Const(id) => const_sql(*id),
        _ => {
            return None;
        },
    };
    let o = match &head.o {
        Term::Var(v) => match vm.col_ref(v.as_str()) {
            Some(e) => e,
            None => {
                return None;
            },
        },
        Term::Const(id) => const_sql(*id),
        _ => {
            return None;
        },
    };
    let g = match &head.g {
        Term::Var(v) => match vm.col_ref(v.as_str()) {
            Some(e) => e,
            None => String::from_str("0"),
        },
        Term::Const(id) => const_sql(*id),
        _ => String::from_str("0"),
    };
    let mut hr = String::new();
    match delta {
        Some(d) => {
            hr.append("JOIN (SELECT vr.i, vr.s, vr.o, vr.g FROM ");
            hr.append(d);
            hr.append(" dt JOIN _pg_ripple.vp_rare vr ON vr.p = ");
            push_i64_decimal(&mut hr, hp);
            hr.append(" AND vr.s = dt.s AND vr.o = dt.o AND vr.g = dt.g ) vr_head");
        },
        None => {
            hr.append("JOIN (SELECT i, s, o, g FROM _pg_ripple.vp_rare WHERE p = ");
            push_i64_decimal(&mut hr, hp);
            hr.append(" AND source = 1) vr_head");
        },
    }
    assert(hr@ == head_rows_sql(hp, rows));
    let mut out = String::from_str("INSERT INTO _pg_ripple.derivations (derived_sid, rule_name, rule_set, antecedent_sids) SELECT ");
    out.append("vr_head.i, '");
    out.append(sql_escape_of(rule.rule_text.as_str()).as_str());
    out.append("'::text, '");
    out.append(sql_escape_of(rule_set).as_str());
    out.append("'::text, ARRAY[");
    out.append(join_strings(&sids, ", ").as_str());
    out.append("]::BIGINT[] ");
    out.append(join_strings(&joins, "\n  ").as_str());
    out.append(" ");
    out.append(hr.as_str());
    out.append(" ON vr_head.s = ");
    out.append(s.as_str());
    out.append(" AND vr_head.o = ");
    out.append(o.as_str());
    out.append(" AND vr_head.g = ");
    out.append(g.as_str());
    out.append(" ON CONFLICT (derived_sid, rule_name) DO NOTHING");
    Some(out)
}

/// The derivation insert of `rule` over the inferred rows of its head
/// predicate (a recursive rule gets a stub).
pub fn compile_antecedent_insert(rule: &Rule<i64>, rule_set: &str) -> (r: Option<String>)
    ensures
        opt_view(r) == antecedent_sql(rule.deep_view(), rule_set@, HeadRows::Inferred),
{
    antecedent_insert(rule, rule_set, None)
}

/// The derivation insert of `rule` over the facts derived in this run:
/// the rows of the head predicate's delta table `delta_prefix{head}`, which
/// exists for the predicates of `derived_pred_ids`.
pub fn compile_antecedent_insert_via_delta(
    rule: &Rule<i64>,
    rule_set: &str,
    derived_pred_ids: &Vec<i64>,
    delta_prefix: &str,
) -> (r: Option<String>)
    ensures
        opt_view(r) == delta_antecedent_sql(rule.deep_view(), rule_set@, derived_pred_ids@, delta_prefix@),
{
    let hp = match &rule.head {
        Some(h) => match &h.p {
            Term::Const(id) => *id,
            _ => {
                return None;
            },
        },
        None => {
            return None;
        },
    };
    if !crate::datalog::stratify::vec_has(derived_pred_ids, hp) {
        return None;
    }
    let mut d = String::from_str(delta_prefix);
    push_i64_decimal(&mut d, hp);
    antecedent_insert(rule, rule_set, Some(d.as_str()))
}

} // verus!
