//! Conflict detection between the rules of a rule set: pairs of rules that
//! derive distinct constant values for one predicate, and rules whose head
//! predicate an exclusion constraint of a SHACL shape restricts. Reading
//! the catalog and decoding IDs is the caller's part.

use vstd::prelude::*;
use crate::datalog::{ConstText, ConstV, TermV, Term};
use crate::datalog::parser::{parse_rules, parse_rules_spec};
use crate::text::{int_decimal, push_i64_decimal, str_eq};

verus! {

// ─── Head objects ────────────────────────────────────────────────────────────

/// The constant object of the head of the first rule in `text`, when the
/// text parses.
pub open spec fn head_object_spec(text: Seq<char>) -> Option<ConstV> {
    match parse_rules_spec(text, "_conflict_check"@) {
        Ok(rs) => if rs.rules.len() > 0 {
            match rs.rules[0].head {
                Some(h) => match h.o {
                    TermV::Const(c) => Some(c),
                    _ => None,
                },
                None => None,
            }
        } else {
            None
        },
        Err(_) => None,
    }
}

/// The constant object of the head of the first rule in `rule_text`.
pub fn parse_head_object(rule_text: &str) -> (r: Option<ConstText>)
    requires
        rule_text@.len() < 0x7FFF_FFFF_FFFF_FFFF,
    ensures
        match r {
            Some(c) => head_object_spec(rule_text@) == Some(c.deep_view()),
            None => head_object_spec(rule_text@) is None,
        },
{
    let rs = match parse_rules(rule_text, "_conflict_check") {
        Ok(rs) => rs,
        Err(_) => {
            return None;
        },
    };
    let ghost dv = rs.deep_view();
    let mut rules = rs.rules;
    if rules.len() == 0 {
        return None;
    }
    let ghost before = rules@;
    let first = rules.remove(0);
    assert(first == before[0]);
    assert(dv.rules[0] == first.deep_view());
    match first.head {
        Some(h) => match h.o {
            Term::Const(c) => Some(c),
            _ => None,
        },
        None => None,
    }
}

// ─── Static conflicts ────────────────────────────────────────────────────────

/// A rule of a rule set: its text, its head predicate and, when constant,
/// its head object (dictionary IDs).
#[derive(Debug)]
pub struct RuleHeadInfo {
    pub rule_text: String,
    pub head_pred: i64,
    pub head_obj: Option<i64>,
}

/// Rules `i` and `j` derive distinct constant values for one predicate.
pub open spec fn opposing(rules: Seq<RuleHeadInfo>, i: int, j: int) -> bool {
    &&& rules[i].head_pred == rules[j].head_pred
    &&& rules[i].head_obj is Some
    &&& rules[j].head_obj is Some
    &&& rules[i].head_obj != rules[j].head_obj
}

/// The pairs `(i, j)` with `i < j < m` of opposing rules, `j` ascending.
pub open spec fn opposing_row(rules: Seq<RuleHeadInfo>, i: int, m: int) -> Seq<(int, int)>
    decreases m - i,
{
    if m <= i + 1 {
        Seq::empty()
    } else {
        opposing_row(rules, i, m - 1) + (if opposing(rules, i, m - 1) { seq![(i, m - 1)] } else { Seq::empty() })
    }
}

/// The opposing pairs whose first rule is among the first `n`, in
/// lexicographic order.
pub open spec fn opposing_pairs(rules: Seq<RuleHeadInfo>, n: int) -> Seq<(int, int)>
    decreases n,
{
    if n <= 0 {
        Seq::empty()
    } else {
        opposing_pairs(rules, n - 1) + opposing_row(rules, n - 1, rules.len() as int)
    }
}

/// Index pairs as integers.
pub open spec fn pair_views(v: Seq<(usize, usize)>) -> Seq<(int, int)> {
    Seq::new(v.len(), |k: int| (v[k].0 as int, v[k].1 as int))
}

/// The pairs of rules that derive distinct constant values for the same
/// head predicate, each pair once (`i < j`), in rule order.
pub fn same_head_conflicts(rules: &Vec<RuleHeadInfo>) -> (r: Vec<(usize, usize)>)
    ensures
        pair_views(r@) == opposing_pairs(rules@, rules@.len() as int),
{
    let ghost rs = rules@;
    let mut out: Vec<(usize, usize)> = Vec::new();
    let mut i: usize = 0;
    assert(pair_views(out@) =~= Seq::<(int, int)>::empty());
    while i < rules.len()
        invariant
            i <= rs.len(),
            rs == rules@,
            pair_views(out@) == opposing_pairs(rs, i as int),
        decreases rules.len() - i,
    {
        let ghost base = pair_views(out@);
        let mut j: usize = i + 1;
        assert(opposing_row(rs, i as int, j as int) =~= Seq::<(int, int)>::empty());
        while j < rules.len()
            invariant
                i < rs.len(),
                i + 1 <= j <= rs.len(),
                rs == rules@,
                pair_views(out@) == base + opposing_row(rs, i as int, j as int),
            decreases rules.len() - j,
        {
            let a = &rules[i];
            let b = &rules[j];
            let ghost before = pair_views(out@);
            if a.head_pred == b.head_pred && a.head_obj.is_some() && b.head_obj.is_some() && a.head_obj != b.head_obj {
                out.push((i, j));
                assert(pair_views(out@) =~= before.push((i as int, j as int)));
            }
            proof {
                assert(base + opposing_row(rs, i as int, j + 1) =~= base + opposing_row(rs, i as int, j as int) + (
                if opposing(rs, i as int, j as int) {
                    seq![(i as int, j as int)]
                } else {
                    Seq::empty()
                }));
            }
            j = j + 1;
        }
        proof {
            if i + 1 > rs.len() {
                assert(opposing_row(rs, i as int, rs.len() as int) =~= Seq::<(int, int)>::empty());
            }
        }
        i = i + 1;
    }
    out
}

/// An exclusion constraint of a SHACL shape on a property.
#[derive(Debug)]
pub struct ShaclConstraint {
    pub shape_iri: String,
    pub path_iri: String,
    /// `sh:not`, `sh:disjoint` or `sh:in`.
    pub constraint_type: String,
}

/// The pairs `(c, i)` with constraint `c` among the first `n` and rule `i`
/// whose head predicate is the constraint's path, in lexicographic order;
/// `iris[i]` is the IRI of rule `i`'s head predicate.
pub open spec fn shacl_hits(iris: Seq<Seq<char>>, cs: Seq<ShaclConstraint>, n: int) -> Seq<(int, int)>
    decreases n,
{
    if n <= 0 {
        Seq::empty()
    } else {
        shacl_hits(iris, cs, n - 1) + shacl_row(iris, cs[n - 1].path_iri@, n - 1, iris.len() as int)
    }
}

/// The rules among the first `m` whose head predicate is `path`, paired
/// with constraint `c`.
pub open spec fn shacl_row(iris: Seq<Seq<char>>, path: Seq<char>, c: int, m: int) -> Seq<(int, int)>
    decreases m,
{
    if m <= 0 {
        Seq::empty()
    } else {
        shacl_row(iris, path, c, m - 1) + (if iris[m - 1] == path { seq![(c, m - 1)] } else { Seq::empty() })
    }
}

/// The rules each SHACL exclusion constraint may contradict: `(c, i)`
/// when rule `i` derives triples of constraint `c`'s path. `pred_iris[i]`
/// is the decoded head predicate of rule `i`.
pub fn rule_vs_shacl_conflicts(pred_iris: &Vec<String>, constraints: &Vec<ShaclConstraint>) -> (r: Vec<(usize, usize)>)
    ensures
        pair_views(r@) == shacl_hits(pred_iris.deep_view(), constraints@, constraints@.len() as int),
{
    let ghost iris = pred_iris.deep_view();
    let ghost cs = constraints@;
    let mut out: Vec<(usize, usize)> = Vec::new();
    let mut c: usize = 0;
    assert(pair_views(out@) =~= Seq::<(int, int)>::empty());
    while c < constraints.len()
        invariant
            c <= cs.len(),
            cs == constraints@,
            iris == pred_iris.deep_view(),
            pair_views(out@) == shacl_hits(iris, cs, c as int),
        decreases constraints.len() - c,
    {
        let ghost base = pair_views(out@);
        let mut i: usize = 0;
        while i < pred_iris.len()
            invariant
                c < cs.len(),
                i <= iris.len(),
                cs == constraints@,
                iris == pred_iris.deep_view(),
                pair_views(out@) == base + shacl_row(iris, cs[c as int].path_iri@, c as int, i as int),
            decreases pred_iris.len() - i,
        {
            let ghost before = pair_views(out@);
            if str_eq(pred_iris[i].as_str(), constraints[c].path_iri.as_str()) {
                out.push((c, i));
                assert(pair_views(out@) =~= before.push((c as int, i as int)));
            }
            proof {
                assert(iris[i as int] == pred_iris@[i as int]@);
                assert(base + shacl_row(iris, cs[c as int].path_iri@, c as int, i + 1) =~= base + shacl_row(
                    iris,
                    cs[c as int].path_iri@,
                    c as int,
                    i as int,
                ) + (if iris[i as int] == cs[c as int].path_iri@ {
                    seq![(c as int, i as int)]
                } else {
                    Seq::empty()
                }));
            }
            i = i + 1;
        }
        c = c + 1;
    }
    out
}

// ─── Messages ────────────────────────────────────────────────────────────────

/// The text standing for a dictionary ID that does not decode.
pub open spec fn undecoded_spec(id: i64) -> Seq<char> {
    "<dict:"@ + int_decimal(id as int) + ">"@
}

/// The text standing for a dictionary ID that does not decode.
pub fn undecoded_term(id: i64) -> (r: String)
    ensures
        r@ == undecoded_spec(id),
{
    let mut m = String::from_str("<dict:");
    push_i64_decimal(&mut m, id);
    m.append(">");
    m
}

/// The description of two rules deriving distinct values.
pub fn opposing_values_message(a: &str, b: &str) -> (r: String)
    ensures
        r@ == "rule_a derives '"@ + a@ + "', rule_b derives '"@ + b@ + "' for the same head predicate"@,
{
    let mut m = String::from_str("rule_a derives '");
    m.append(a);
    m.append("', rule_b derives '");
    m.append(b);
    m.append("' for the same head predicate");
    m
}

/// The description of a rule that a SHACL constraint may contradict.
pub fn rule_vs_shacl_message(pred: &str, shape: &str, kind: &str) -> (r: String)
    ensures
        r@ == "rule derives triples for '"@ + pred@ + "' but SHACL constraint '"@ + shape@ + "' (type: "@ + kind@
            + ") may forbid them"@,
{
    let mut m = String::from_str("rule derives triples for '");
    m.append(pred);
    m.append("' but SHACL constraint '");
    m.append(shape);
    m.append("' (type: ");
    m.append(kind);
    m.append(") may forbid them");
    m
}

/// The description of two inferred values of one predicate for one subject.
pub fn multiple_values_message(pred: &str) -> (r: String)
    ensures
        r@ == "two distinct inferred values for predicate '"@ + pred@ + "' on the same subject"@,
{
    let mut m = String::from_str("two distinct inferred values for predicate '");
    m.append(pred);
    m.append("' on the same subject");
    m
}

/// The description of a violated `sh:disjoint` between two properties.
pub fn disjoint_violation_message(a: &str, b: &str) -> (r: String)
    ensures
        r@ == "sh:disjoint violated: same subject has inferred values for both '"@ + a@ + "' and '"@ + b@ + "'"@,
{
    let mut m = String::from_str("sh:disjoint violated: same subject has inferred values for both '");
    m.append(a);
    m.append("' and '");
    m.append(b);
    m.append("'");
    m
}

} // verus!
