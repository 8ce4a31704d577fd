//! Demand-driven inference: of a rule set, only the rules that can
//! contribute to the demanded predicates are run.

use vstd::prelude::*;
use crate::datalog::Rule;
use crate::datalog::parser::{strip_leading, strip_leading_chars, strip_trailing, strip_trailing_chars};
use crate::text::{str_chars, string_from_chars};
use crate::datalog::magic::{relevant_rules_spec, select_relevant_rules};
use crate::datalog::stratify::{positive_dependencies, positive_edges, push_new, reachable_from, reaches};

verus! {

/// A demand pattern: each position bound to a dictionary ID, or free.
#[derive(Debug, Clone, Copy, PartialEq, Eq)]
pub struct DemandSpec {
    /// Bound subject, or `None` for a free variable.
    pub s: Option<i64>,
    /// Bound predicate, or `None` for a free variable.
    pub p: Option<i64>,
    /// Bound object, or `None` for a free variable.
    pub o: Option<i64>,
}

/// The predicates bound in `ds`, each once, in order of first occurrence.
pub open spec fn demand_preds_spec(ds: Seq<DemandSpec>) -> Seq<i64>
    decreases ds.len(),
{
    if ds.len() == 0 {
        Seq::empty()
    } else {
        let pre = demand_preds_spec(ds.drop_last());
        match ds.last().p {
            Some(p) => if pre.contains(p) { pre } else { pre.push(p) },
            None => pre,
        }
    }
}

/// The predicates that the demands bind, each once.
pub fn demand_predicates(demands: &Vec<DemandSpec>) -> (r: Vec<i64>)
    ensures
        r@ == demand_preds_spec(demands@),
{
    let mut out: Vec<i64> = Vec::new();
    let mut i: usize = 0;
    while i < demands.len()
        invariant
            i <= demands@.len(),
            out@ == demand_preds_spec(demands@.take(i as int)),
        decreases demands.len() - i,
    {
        proof {
            assert(demands@.take(i + 1).drop_last() =~= demands@.take(i as int));
        }
        match demands[i].p {
            Some(p) => {
                if !crate::datalog::stratify::vec_has(&out, p) {
                    out.push(p);
                }
            },
            None => {},
        }
        i = i + 1;
    }
    assert(demands@.take(demands@.len() as int) =~= demands@);
    out
}

/// `x` can be reached from one of `starts` along the positive dependencies
/// (head predicate to body predicate) of `rv`.
pub open spec fn relevant_to(rv: Seq<crate::datalog::RuleV<i64>>, starts: Seq<i64>, x: i64) -> bool {
    exists|d: i64| #[trigger] starts.contains(d) && reaches(positive_edges(rv), d, x)
}

/// The predicates that can contribute to deriving one of `demand_preds`:
/// those reached from them through positive body atoms.
pub fn find_relevant_predicates(rules: &[Rule<i64>], demand_preds: &Vec<i64>) -> (r: Vec<i64>)
    ensures
        r@.no_duplicates(),
        forall|x: i64| #[trigger] r@.contains(x) <==> relevant_to(rules.deep_view(), demand_preds@, x),
{
    let ghost rv = rules.deep_view();
    let deps = positive_dependencies(rules);
    let mut out: Vec<i64> = Vec::new();
    let mut i: usize = 0;
    while i < demand_preds.len()
        invariant
            i <= demand_preds@.len(),
            rv == rules.deep_view(),
            deps@ == positive_edges(rv),
            out@.no_duplicates(),
            forall|x: i64| #[trigger] out@.contains(x) <==> relevant_to(rv, demand_preds@.take(i as int), x),
        decreases demand_preds.len() - i,
    {
        let d = demand_preds[i];
        let reach = reachable_from(d, &deps);
        let ghost before = out@;
        let mut j: usize = 0;
        while j < reach.len()
            invariant
                j <= reach@.len(),
                out@.no_duplicates(),
                forall|x: i64| #[trigger] out@.contains(x) <==> (before.contains(x) || reach@.take(j as int).contains(x)),
            decreases reach.len() - j,
        {
            push_new(&mut out, reach[j]);
            proof {
                assert(reach@.take(j + 1) =~= reach@.take(j as int).push(reach@[j as int]));
                assert forall|x: i64| #[trigger] reach@.take(j + 1).contains(x) <==> (reach@.take(j as int).contains(x)
                    || x == reach@[j as int]) by {
                    vstd::seq_lib::lemma_seq_contains_after_push(reach@.take(j as int), reach@[j as int], x);
                }
            }
            j = j + 1;
        }
        proof {
            assert(reach@.take(reach@.len() as int) =~= reach@);
            let pre = demand_preds@.take(i as int);
            let cur = demand_preds@.take(i + 1);
            assert(cur =~= pre.push(d));
            assert forall|x: i64| #[trigger] out@.contains(x) <==> relevant_to(rv, cur, x) by {
                if out@.contains(x) {
                    if before.contains(x) {
                        let e = choose|e: i64| #[trigger] pre.contains(e) && reaches(positive_edges(rv), e, x);
                        vstd::seq_lib::lemma_seq_contains_after_push(pre, d, e);
                    } else {
                        vstd::seq_lib::lemma_seq_contains_after_push(pre, d, d);
                    }
                }
                if relevant_to(rv, cur, x) {
                    let e = choose|e: i64| #[trigger] cur.contains(e) && reaches(positive_edges(rv), e, x);
                    vstd::seq_lib::lemma_seq_contains_after_push(pre, d, e);
                    if e != d {
                        assert(relevant_to(rv, pre, x));
                    }
                }
            }
        }
        i = i + 1;
    }
    assert(demand_preds@.take(demand_preds@.len() as int) =~= demand_preds@);
    out
}

/// What demand-driven inference runs: the rules, and the demanded predicates
/// it reports.
#[derive(Debug)]
pub struct DemandPlan {
    /// The rules to run.
    pub rules: Vec<Rule<i64>>,
    /// The predicates reached from the demanded ones (empty when no
    /// predicate is demanded).
    pub relevant_preds: Vec<i64>,
    /// The demanded predicates, each once.
    pub demand_preds: Vec<i64>,
}

/// Chooses the rules that demand-driven inference runs: all of them when no
/// demand binds a predicate, else those whose constant head predicate is
/// reached from a demanded predicate.
pub fn plan_infer_demand(all_rules: Vec<Rule<i64>>, demands: &Vec<DemandSpec>) -> (r: DemandPlan)
    ensures
        r.demand_preds@ == demand_preds_spec(demands@),
        demand_preds_spec(demands@).len() == 0 ==> r.rules.deep_view() == all_rules.deep_view()
            && r.relevant_preds@.len() == 0,
        demand_preds_spec(demands@).len() > 0 ==> {
            &&& r.relevant_preds@.no_duplicates()
            &&& forall|x: i64| #[trigger] r.relevant_preds@.contains(x) <==> relevant_to(
                all_rules.deep_view(),
                demand_preds_spec(demands@),
                x,
            )
            &&& r.rules.deep_view() == relevant_rules_spec(all_rules.deep_view(), r.relevant_preds@)
        },
{
    let demand_preds = demand_predicates(demands);
    if demand_preds.len() == 0 {
        return DemandPlan { rules: all_rules, relevant_preds: Vec::new(), demand_preds };
    }
    let relevant_preds = find_relevant_predicates(all_rules.as_slice(), &demand_preds);
    let rules = select_relevant_rules(all_rules, &relevant_preds);
    DemandPlan { rules, relevant_preds, demand_preds }
}

// ─── Demand values ───────────────────────────────────────────────────────────

/// How a demanded position's text (after prefix expansion) is looked up.
#[derive(Debug)]
pub enum DemandValue {
    /// An IRI (the text without its angle brackets).
    Iri(String),
    /// A literal, stored under its whole text.
    Literal(String),
}

/// A position left free: empty, or a `?variable`.
pub open spec fn is_free_demand_spec(val: Seq<char>) -> bool {
    val.len() == 0 || val[0] == '?'
}

/// Whether a demanded position is free.
pub fn is_free_demand(val: &str) -> (b: bool)
    ensures
        b == is_free_demand_spec(val@),
{
    let v = str_chars(val);
    v.len() == 0 || v[0] == '?'
}

/// What a resolved demand text is: in angle brackets an IRI (all leading
/// `<` and trailing `>` dropped), in quotes a literal, else a bare IRI.
pub open spec fn demand_value_spec(resolved: Seq<char>) -> (bool, Seq<char>) {
    if resolved.len() > 0 && resolved[0] == '<' {
        (true, strip_trailing(strip_leading(resolved, '<'), '>'))
    } else if resolved.len() > 0 && resolved[0] == '"' {
        (false, resolved)
    } else {
        (true, resolved)
    }
}

/// The lookup of a resolved demand text.
pub fn demand_value(resolved: &str) -> (r: DemandValue)
    ensures
        demand_value_spec(resolved@).0 ==> (r matches DemandValue::Iri(i) && i@ == demand_value_spec(resolved@).1),
        !demand_value_spec(resolved@).0 ==> (r matches DemandValue::Literal(l) && l@ == demand_value_spec(
            resolved@,
        ).1),
{
    let v = str_chars(resolved);
    if v.len() > 0 && v[0] == '<' {
        let a = strip_leading_chars(&v, '<');
        let b = strip_trailing_chars(&a, '>');
        DemandValue::Iri(string_from_chars(&b))
    } else if v.len() > 0 && v[0] == '"' {
        DemandValue::Literal(string_from_chars(&v))
    } else {
        DemandValue::Iri(string_from_chars(&v))
    }
}

// ─── Demand documents ────────────────────────────────────────────────────────

/// The `s`, `p` and `o` strings of one demand object, each absent when the
/// key is missing or its value is not a JSON string.
pub type DemandFields = (Option<String>, Option<String>, Option<String>);

/// The view of [`DemandFields`].
pub type DemandFieldsV = (Option<Seq<char>>, Option<Seq<char>>, Option<Seq<char>>);

/// What `serde_json` reads from a demand document: `None` unless it parses
/// as a JSON array; else, for each element, the fields of an object, or
/// `None` for an element that is not an object.
pub uninterp spec fn demand_fields_of(json: Seq<char>) -> Option<Seq<Option<DemandFieldsV>>>;

/// The view of an optional string.
pub open spec fn opt_text(o: Option<String>) -> Option<Seq<char>> {
    match o {
        Some(t) => Some(t@),
        None => None,
    }
}

/// The view of the fields of the elements.
pub open spec fn fields_views(v: Seq<Option<DemandFields>>) -> Seq<Option<DemandFieldsV>> {
    Seq::new(v.len(), |i: int| match v[i] {
        Some(f) => Some((opt_text(f.0), opt_text(f.1), opt_text(f.2))),
        None => None,
    })
}

/// Parses `json` with `serde_json::from_str` and, when it is an array, reads
/// each element with `as_object` and the `s`, `p`, `o` values with
/// `as_str`; the contract names that result.
#[verifier::external_body]
fn demand_fields(json: &str) -> (r: Option<Vec<Option<DemandFields>>>)
    ensures
        match r {
            Some(v) => demand_fields_of(json@) == Some(fields_views(v@)),
            None => demand_fields_of(json@) is None,
        },
{
    let parsed: serde_json::Value = serde_json::from_str(json).ok()?;
    let arr = parsed.as_array()?;
    let text = |o: &serde_json::Map<String, serde_json::Value>, k: &str| {
        o.get(k).and_then(|x| x.as_str()).map(|x| x.to_string())
    };
    Some(arr.iter().map(|e| e.as_object().map(|o| (text(o, "s"), text(o, "p"), text(o, "o")))).collect())
}

/// One position of a demand, before its prefixes are expanded: free, or the
/// text to look up.
#[derive(Debug)]
pub enum DemandTerm {
    Free,
    Text(String),
}

/// A demand pattern as text.
#[derive(Debug)]
pub struct DemandText {
    pub s: DemandTerm,
    pub p: DemandTerm,
    pub o: DemandTerm,
}

impl DemandTerm {
    /// `None` when free, else the text.
    pub open spec fn view_term(&self) -> Option<Seq<char>> {
        match self {
            DemandTerm::Free => None,
            DemandTerm::Text(t) => Some(t@),
        }
    }
}

impl DemandText {
    /// The three positions.
    pub open spec fn view_text(&self) -> DemandFieldsV {
        (self.s.view_term(), self.p.view_term(), self.o.view_term())
    }
}

/// A position's text, or free when it is absent, empty or a `?variable`.
pub open spec fn demand_term_spec(f: Option<Seq<char>>) -> Option<Seq<char>> {
    match f {
        Some(t) => if is_free_demand_spec(t) { None } else { Some(t) },
        None => None,
    }
}

/// The demands of the elements: one per object element, in order.
pub open spec fn demand_texts_spec(es: Seq<Option<DemandFieldsV>>) -> Seq<DemandFieldsV>
    decreases es.len(),
{
    if es.len() == 0 {
        Seq::empty()
    } else {
        let pre = demand_texts_spec(es.drop_last());
        match es.last() {
            Some(f) => pre.push((demand_term_spec(f.0), demand_term_spec(f.1), demand_term_spec(f.2))),
            None => pre,
        }
    }
}

/// The demands of a demand document, as `serde_json` reads it: none when it
/// is not a JSON array.
pub open spec fn demand_document_spec(fields: Option<Seq<Option<DemandFieldsV>>>) -> Seq<DemandFieldsV> {
    match fields {
        Some(es) => demand_texts_spec(es),
        None => Seq::empty(),
    }
}

fn demand_term(f: &Option<String>) -> (r: DemandTerm)
    ensures
        r.view_term() == demand_term_spec(opt_text(*f)),
{
    match f {
        Some(t) => if is_free_demand(t.as_str()) {
            DemandTerm::Free
        } else {
            DemandTerm::Text(t.clone())
        },
        None => DemandTerm::Free,
    }
}

/// The demands of the elements of a demand document: one per element that
/// is an object, each position free when absent, empty or a `?variable`.
pub fn demand_texts_from_fields(fields: Option<Vec<Option<DemandFields>>>) -> (r: Vec<DemandText>)
    ensures
        Seq::new(r@.len(), |i: int| r@[i].view_text()) == demand_document_spec(
            match fields {
                Some(v) => Some(fields_views(v@)),
                None => None,
            },
        ),
{
    let v = match fields {
        Some(v) => v,
        None => {
            let r: Vec<DemandText> = Vec::new();
            assert(Seq::new(r@.len(), |i: int| r@[i].view_text()) =~= Seq::<DemandFieldsV>::empty());
            return r;
        },
    };
    let ghost fv = fields_views(v@);
    let mut r: Vec<DemandText> = Vec::new();
    let mut i: usize = 0;
    assert(fv.take(0) =~= Seq::<Option<DemandFieldsV>>::empty());
    assert(Seq::new(r@.len(), |k: int| r@[k].view_text()) =~= Seq::<DemandFieldsV>::empty());
    while i < v.len()
        invariant
            i <= v@.len(),
            fv == fields_views(v@),
            Seq::new(r@.len(), |k: int| r@[k].view_text()) == demand_texts_spec(fv.take(i as int)),
        decreases v.len() - i,
    {
        let ghost before = Seq::new(r@.len(), |k: int| r@[k].view_text());
        assert(fv.take(i + 1).drop_last() =~= fv.take(i as int));
        assert(fv.take(i + 1).last() == fv[i as int]);
        match &v[i] {
            Some(f) => {
                let t = DemandText { s: demand_term(&f.0), p: demand_term(&f.1), o: demand_term(&f.2) };
                r.push(t);
                assert(Seq::new(r@.len(), |k: int| r@[k].view_text()) =~= before.push(t.view_text()));
            },
            None => {},
        }
        i = i + 1;
    }
    assert(fv.take(v@.len() as int) =~= fv);
    r
}

/// The demands of the JSON demand document `json`: an array of objects with
/// optional `s`, `p`, `o` strings; anything else gives no demand.
pub fn demand_texts(json: &str) -> (r: Vec<DemandText>)
    ensures
        Seq::new(r@.len(), |i: int| r@[i].view_text()) == demand_document_spec(demand_fields_of(json@)),
{
    let fields = demand_fields(json);
    demand_texts_from_fields(fields)
}

} // verus!
