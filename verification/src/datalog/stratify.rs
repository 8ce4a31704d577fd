//! Stratification of Datalog rule sets.
//!
//! Stratification partitions rules into layers such that every negated
//! predicate is fully computed in a lower stratum before its negation is
//! evaluated.
//!
//! 1. Build the predicate dependency graph: an edge from each rule's head
//!    predicate to each predicate its body reads, negative for negated atoms
//!    and aggregates.
//! 2. Compute the strongly connected components of that graph.
//! 3. If a component contains a negative edge, the program is unstratifiable.
//! 4. Order the components so that every component comes after those it
//!    depends on; each gives one stratum.
//! 5. Mark strata containing cycles as recursive.

use vstd::prelude::*;
use crate::datalog::{Atom, AtomV, BodyLiteral, LiteralV, Rule, RuleV, Term, TermV};
use crate::text::{int_decimal, push_i64_decimal};

verus! {

// ─── The dependency graph ────────────────────────────────────────────────────

/// A dependency edge: the head predicate `from` reads the body predicate `to`.
#[derive(Clone, Copy, PartialEq, Eq, Structural, Debug)]
pub struct Edge {
    pub from: i64,
    pub to: i64,
    pub negative: bool,
}

/// Edge `k` of `es` goes from `a` to `b`.
pub open spec fn edge_at(es: Seq<Edge>, k: int, a: i64, b: i64) -> bool {
    0 <= k < es.len() && es[k].from == a && es[k].to == b
}

/// `es` has an edge from `a` to `b`.
pub open spec fn has_edge(es: Seq<Edge>, a: i64, b: i64) -> bool {
    exists|k: int| #[trigger] edge_at(es, k, a, b)
}

/// `p` is a path of `es` from `a` to `b` (one node is a path).
pub open spec fn is_path(es: Seq<Edge>, p: Seq<i64>, a: i64, b: i64) -> bool {
    &&& p.len() >= 1
    &&& p[0] == a
    &&& p.last() == b
    &&& forall|i: int| 0 <= i < p.len() - 1 ==> #[trigger] has_edge(es, p[i], p[i + 1])
}

/// `b` can be reached from `a` along edges of `es` (every node reaches itself).
pub open spec fn reaches(es: Seq<Edge>, a: i64, b: i64) -> bool {
    exists|p: Seq<i64>| #[trigger] is_path(es, p, a, b)
}

/// `a` and `b` reach each other: they are in one strongly connected component.
pub open spec fn same_scc(es: Seq<Edge>, a: i64, b: i64) -> bool {
    reaches(es, a, b) && reaches(es, b, a)
}

pub proof fn lemma_reaches_refl(es: Seq<Edge>, a: i64)
    ensures
        reaches(es, a, a),
{
    assert(is_path(es, seq![a], a, a));
}

pub proof fn lemma_reaches_step(es: Seq<Edge>, a: i64, b: i64, c: i64)
    requires
        reaches(es, a, b),
        has_edge(es, b, c),
    ensures
        reaches(es, a, c),
{
    let p = choose|p: Seq<i64>| #[trigger] is_path(es, p, a, b);
    let q = p.push(c);
    assert forall|i: int| 0 <= i < q.len() - 1 implies #[trigger] has_edge(es, q[i], q[i + 1]) by {
        if i < p.len() - 1 {
            assert(q[i] == p[i] && q[i + 1] == p[i + 1]);
            assert(has_edge(es, p[i], p[i + 1]));
        } else {
            assert(q[i] == b && q[i + 1] == c);
        }
    }
    assert(is_path(es, q, a, c));
}

pub proof fn lemma_reaches_edge(es: Seq<Edge>, a: i64, b: i64)
    requires
        has_edge(es, a, b),
    ensures
        reaches(es, a, b),
{
    lemma_reaches_refl(es, a);
    lemma_reaches_step(es, a, a, b);
}

pub proof fn lemma_reaches_trans(es: Seq<Edge>, a: i64, b: i64, c: i64)
    requires
        reaches(es, a, b),
        reaches(es, b, c),
    ensures
        reaches(es, a, c),
{
    let q = choose|q: Seq<i64>| #[trigger] is_path(es, q, b, c);
    lemma_reaches_along(es, a, q, q.len() as int);
}

proof fn lemma_reaches_along(es: Seq<Edge>, a: i64, q: Seq<i64>, n: int)
    requires
        1 <= n <= q.len(),
        reaches(es, a, q[0]),
        forall|i: int| 0 <= i < q.len() - 1 ==> #[trigger] has_edge(es, q[i], q[i + 1]),
    ensures
        reaches(es, a, q[n - 1]),
    decreases n,
{
    if n > 1 {
        lemma_reaches_along(es, a, q, n - 1);
        let i = n - 2;
        assert(has_edge(es, q[i], q[i + 1]));
        lemma_reaches_step(es, a, q[n - 2], q[n - 1]);
    }
}

/// Every edge leaving a node of `vis` ends in `vis`.
pub open spec fn closed_under(es: Seq<Edge>, vis: Seq<i64>) -> bool {
    forall|k: int| 0 <= k < es.len() && vis.contains(es[k].from) ==> vis.contains(#[trigger] es[k].to)
}

/// A set closed under the edges holds everything reachable from its members.
pub proof fn lemma_closed_holds_reachable(es: Seq<Edge>, vis: Seq<i64>, a: i64, b: i64)
    requires
        closed_under(es, vis),
        vis.contains(a),
        reaches(es, a, b),
    ensures
        vis.contains(b),
{
    let p = choose|p: Seq<i64>| #[trigger] is_path(es, p, a, b);
    lemma_closed_along(es, vis, p, p.len() as int);
}

proof fn lemma_closed_along(es: Seq<Edge>, vis: Seq<i64>, p: Seq<i64>, n: int)
    requires
        closed_under(es, vis),
        1 <= n <= p.len(),
        vis.contains(p[0]),
        forall|i: int| 0 <= i < p.len() - 1 ==> #[trigger] has_edge(es, p[i], p[i + 1]),
    ensures
        vis.contains(p[n - 1]),
    decreases n,
{
    if n > 1 {
        lemma_closed_along(es, vis, p, n - 1);
        let i = n - 2;
        assert(has_edge(es, p[i], p[i + 1]));
        let k = choose|k: int| #[trigger] edge_at(es, k, p[n - 2], p[n - 1]);
        assert(vis.contains(es[k].to));
    }
}

/// The targets of the edges of `es`.
pub open spec fn targets(es: Seq<Edge>) -> Seq<i64> {
    Seq::new(es.len(), |k: int| es[k].to)
}

/// A duplicate-free sequence whose elements all lie in `t` is no longer than `t`.
proof fn lemma_distinct_within(v: Seq<i64>, t: Seq<i64>)
    requires
        v.no_duplicates(),
        forall|i: int| 0 <= i < v.len() ==> t.contains(#[trigger] v[i]),
    ensures
        v.len() <= t.len(),
{
    v.unique_seq_to_set();
    t.lemma_cardinality_of_set();
    assert(v.to_set().subset_of(t.to_set())) by {
        assert forall|x: i64| v.to_set().contains(x) implies t.to_set().contains(x) by {
            let i = choose|i: int| 0 <= i < v.len() && v[i] == x;
            assert(t.contains(v[i]));
        }
    }
    vstd::set_lib::lemma_len_subset(v.to_set(), t.to_set());
}

/// Everything reachable from `start` along `edges`, each once, `start` first.
pub fn reachable_from(start: i64, edges: &Vec<Edge>) -> (r: Vec<i64>)
    ensures
        r@.len() >= 1,
        r@[0] == start,
        r@.no_duplicates(),
        forall|x: i64| r@.contains(x) <==> reaches(edges@, start, x),
{
    let ghost es = edges@;
    let mut vis: Vec<i64> = vec![start];
    let mut idx: usize = 0;
    proof {
        lemma_reaches_refl(es, start);
    }
    while idx < vis.len()
        invariant
            es == edges@,
            idx <= vis@.len(),
            vis@.len() >= 1,
            vis@[0] == start,
            vis@.no_duplicates(),
            vis@.len() <= es.len() + 1,
            forall|t: int| 1 <= t < vis@.len() ==> targets(es).contains(#[trigger] vis@[t]),
            forall|t: int| 0 <= t < vis@.len() ==> reaches(es, start, #[trigger] vis@[t]),
            forall|t: int, k: int| #![trigger vis@[t], es[k]] 0 <= t < idx && 0 <= k < es.len() && es[k].from == vis@[t]
                ==> vis@.contains(es[k].to),
        decreases es.len() + 1 - idx,
    {
        let cur = vis[idx];
        let mut k: usize = 0;
        while k < edges.len()
            invariant
                es == edges@,
                idx < vis@.len(),
                cur == vis@[idx as int],
                k <= es.len(),
                vis@.len() >= 1,
                vis@[0] == start,
                vis@.no_duplicates(),
                vis@.len() <= es.len() + 1,
                forall|t: int| 1 <= t < vis@.len() ==> targets(es).contains(#[trigger] vis@[t]),
                forall|t: int| 0 <= t < vis@.len() ==> reaches(es, start, #[trigger] vis@[t]),
                forall|t: int, j: int| #![trigger vis@[t], es[j]] 0 <= t < idx && 0 <= j < es.len() && es[j].from == vis@[t]
                    ==> vis@.contains(es[j].to),
                forall|j: int| 0 <= j < k && es[j].from == cur ==> vis@.contains(#[trigger] es[j].to),
            decreases edges.len() - k,
        {
            let e = edges[k];
            if e.from == cur && !vec_has(&vis, e.to) {
                proof {
                    assert(edge_at(es, k as int, cur, e.to));
                    lemma_reaches_step(es, start, cur, e.to);
                    assert(targets(es)[k as int] == e.to);
                    let nv = vis@.push(e.to);
                    assert forall|t: int| 0 <= t < nv.len() - 1 implies targets(es).contains(#[trigger] nv.drop_first()[t]) by {
                        assert(nv.drop_first()[t] == nv[t + 1]);
                    }
                    assert(nv.drop_first().no_duplicates()) by {
                        assert forall|a: int, b: int| 0 <= a < b < nv.len() - 1 implies nv.drop_first()[a] != nv.drop_first()[b] by {
                            assert(nv.drop_first()[a] == nv[a + 1] && nv.drop_first()[b] == nv[b + 1]);
                        }
                    }
                    lemma_distinct_within(nv.drop_first(), targets(es));
                }
                let ghost old_vis = vis@;
                vis.push(e.to);
                proof {
                    assert forall|y: i64| old_vis.contains(y) implies vis@.contains(y) by {
                        vstd::seq_lib::lemma_seq_contains_after_push(old_vis, e.to, y);
                    }
                    vstd::seq_lib::lemma_seq_contains_after_push(old_vis, e.to, e.to);
                }
            }
            k = k + 1;
        }
        idx = idx + 1;
    }
    proof {
        assert(closed_under(es, vis@)) by {
            assert forall|k: int| 0 <= k < es.len() && vis@.contains(es[k].from) implies vis@.contains(#[trigger] es[k].to) by {
                let t = choose|t: int| 0 <= t < vis@.len() && vis@[t] == es[k].from;
                assert(vis@[t] == es[k].from);
            }
        }
        assert forall|x: i64| vis@.contains(x) <==> reaches(es, start, x) by {
            if reaches(es, start, x) {
                assert(vis@.contains(start)) by {
                    assert(vis@[0] == start);
                }
                lemma_closed_holds_reachable(es, vis@, start, x);
            }
            if vis@.contains(x) {
                let t = choose|t: int| 0 <= t < vis@.len() && vis@[t] == x;
            }
        }
    }
    vis
}

/// Whether `v` holds `x`.
pub fn vec_has(v: &Vec<i64>, x: i64) -> (b: bool)
    ensures
        b == v@.contains(x),
{
    let mut i: usize = 0;
    while i < v.len()
        invariant
            i <= v@.len(),
            forall|j: int| 0 <= j < i ==> v@[j] != x,
        decreases v.len() - i,
    {
        if v[i] == x {
            return true;
        }
        i = i + 1;
    }
    false
}


// ─── Rules to graph ──────────────────────────────────────────────────────────

/// The constant predicate of an atom (`None` for a variable predicate).
pub open spec fn atom_pred(a: AtomV<i64>) -> Option<i64> {
    match a.p {
        TermV::Const(c) => Some(c),
        _ => None,
    }
}

/// The constant head predicate of a rule (`None` for constraints and
/// variable heads).
pub open spec fn head_pred(r: RuleV<i64>) -> Option<i64> {
    match r.head {
        Some(h) => atom_pred(h),
        None => None,
    }
}

/// The edge from head predicate `h` that literal `l` gives, if any:
/// positive for a positive atom, negative for a negated atom or an aggregate.
pub open spec fn literal_edge(h: i64, l: LiteralV<i64>) -> Option<Edge> {
    match l {
        LiteralV::Positive(a) => match atom_pred(a) {
            Some(p) => Some(Edge { from: h, to: p, negative: false }),
            None => None,
        },
        LiteralV::Negated(a) => match atom_pred(a) {
            Some(p) => Some(Edge { from: h, to: p, negative: true }),
            None => None,
        },
        LiteralV::Aggregate(g) => match atom_pred(g.atom) {
            Some(p) => Some(Edge { from: h, to: p, negative: true }),
            None => None,
        },
        _ => None,
    }
}

/// The edges that the literals `lits` give from head predicate `h`, in order.
pub open spec fn literal_edges(h: i64, lits: Seq<LiteralV<i64>>) -> Seq<Edge>
    decreases lits.len(),
{
    if lits.len() == 0 {
        Seq::empty()
    } else {
        let pre = literal_edges(h, lits.drop_last());
        match literal_edge(h, lits.last()) {
            Some(e) => pre.push(e),
            None => pre,
        }
    }
}

/// The edges of one rule (none without a constant head predicate).
pub open spec fn rule_edges(r: RuleV<i64>) -> Seq<Edge> {
    match head_pred(r) {
        Some(h) => literal_edges(h, r.body),
        None => Seq::empty(),
    }
}

/// The dependency edges of `rules`, rule by rule.
pub open spec fn dependency_edges(rules: Seq<RuleV<i64>>) -> Seq<Edge>
    decreases rules.len(),
{
    if rules.len() == 0 {
        Seq::empty()
    } else {
        dependency_edges(rules.drop_last()) + rule_edges(rules.last())
    }
}

/// The constant predicate of an atom.
pub fn atom_pred_of(a: &crate::datalog::Atom<i64>) -> (r: Option<i64>)
    ensures
        r == atom_pred(a.deep_view()),
{
    match &a.p {
        Term::Const(id) => Some(*id),
        _ => None,
    }
}

/// The constant head predicate of a rule.
pub fn head_pred_of(rule: &Rule<i64>) -> (r: Option<i64>)
    ensures
        r == head_pred(rule.deep_view()),
{
    match &rule.head {
        Some(h) => atom_pred_of(h),
        None => None,
    }
}

fn literal_edge_of(h: i64, l: &BodyLiteral<i64>) -> (r: Option<Edge>)
    ensures
        r == literal_edge(h, l.deep_view()),
{
    match l {
        BodyLiteral::Positive(a) => match atom_pred_of(a) {
            Some(p) => Some(Edge { from: h, to: p, negative: false }),
            None => None,
        },
        BodyLiteral::Negated(a) => match atom_pred_of(a) {
            Some(p) => Some(Edge { from: h, to: p, negative: true }),
            None => None,
        },
        BodyLiteral::Aggregate(g) => match atom_pred_of(&g.atom) {
            Some(p) => Some(Edge { from: h, to: p, negative: true }),
            None => None,
        },
        _ => None,
    }
}

/// Builds the predicate dependency graph: for each rule with a constant head
/// predicate, an edge to each predicate its body reads.
pub fn build_dependency_graph(rules: &[Rule<i64>]) -> (r: Vec<Edge>)
    ensures
        r@ == dependency_edges(rules.deep_view()),
{
    let ghost rv = rules.deep_view();
    let mut edges: Vec<Edge> = Vec::new();
    let mut i: usize = 0;
    assert(rv.subrange(0, 0) =~= Seq::<RuleV<i64>>::empty());
    while i < rules.len()
        invariant
            i <= rv.len(),
            rv == rules.deep_view(),
            edges@ == dependency_edges(rv.subrange(0, i as int)),
        decreases rules.len() - i,
    {
        let rule = &rules[i];
        assert(rv.subrange(0, i + 1).drop_last() =~= rv.subrange(0, i as int));
        assert(rv[i as int] == rule.deep_view());
        match head_pred_of(rule) {
            None => {
                assert(edges@ =~= dependency_edges(rv.subrange(0, i as int)) + rule_edges(rv[i as int]));
            },
            Some(h) => {
                let ghost bv = rule.body.deep_view();
                let ghost base = edges@;
                let mut j: usize = 0;
                assert(bv.subrange(0, 0) =~= Seq::<LiteralV<i64>>::empty());
                assert(base =~= base + literal_edges(h, bv.subrange(0, 0)));
                while j < rule.body.len()
                    invariant
                        j <= bv.len(),
                        bv == rule.body.deep_view(),
                        edges@ == base + literal_edges(h, bv.subrange(0, j as int)),
                    decreases rule.body.len() - j,
                {
                    assert(bv.subrange(0, j + 1).drop_last() =~= bv.subrange(0, j as int));
                    assert(bv[j as int] == rule.body@[j as int].deep_view());
                    match literal_edge_of(h, &rule.body[j]) {
                        Some(e) => {
                            edges.push(e);
                            assert(edges@ =~= base + literal_edges(h, bv.subrange(0, j + 1)));
                        },
                        None => {
                            assert(edges@ =~= base + literal_edges(h, bv.subrange(0, j + 1)));
                        },
                    }
                    j = j + 1;
                }
                assert(bv.subrange(0, bv.len() as int) =~= bv);
                assert(rv[i as int].body == bv);
            },
        }
        i = i + 1;
    }
    assert(rv.subrange(0, rv.len() as int) =~= rv);
    edges
}

/// Literal `l` reads predicate `p` through a positive or negated atom.
pub open spec fn literal_mentions(l: LiteralV<i64>, p: i64) -> bool {
    match l {
        LiteralV::Positive(a) => atom_pred(a) == Some(p),
        LiteralV::Negated(a) => atom_pred(a) == Some(p),
        _ => false,
    }
}

/// Rule `r` has `p` as its head predicate or reads it through an atom.
pub open spec fn rule_mentions(r: RuleV<i64>, p: i64) -> bool {
    head_pred(r) == Some(p) || exists|k: int| 0 <= k < r.body.len() && literal_mentions(#[trigger] r.body[k], p)
}

/// `p` is a predicate of `rules`.
pub open spec fn is_predicate_of(rules: Seq<RuleV<i64>>, p: i64) -> bool {
    exists|q: int| 0 <= q < rules.len() && rule_mentions(#[trigger] rules[q], p)
}

pub(crate) fn push_new(v: &mut Vec<i64>, x: i64)
    requires
        old(v)@.no_duplicates(),
    ensures
        final(v)@.no_duplicates(),
        forall|y: i64| final(v)@.contains(y) <==> (old(v)@.contains(y) || y == x),
{
    if !vec_has(v, x) {
        let ghost o = v@;
        v.push(x);
        proof {
            assert forall|y: i64| v@.contains(y) <==> (o.contains(y) || y == x) by {
                vstd::seq_lib::lemma_seq_contains_after_push(o, x, y);
            }
        }
    }
}

/// Some literal among the first `j` of `lits` reads `p`.
pub open spec fn mentioned_before(lits: Seq<LiteralV<i64>>, j: int, p: i64) -> bool {
    exists|k: int| 0 <= k < j && literal_mentions(#[trigger] lits[k], p)
}

proof fn lemma_mentioned_step(lits: Seq<LiteralV<i64>>, j: int, p: i64)
    requires
        0 <= j,
    ensures
        mentioned_before(lits, j + 1, p) <==> (mentioned_before(lits, j, p) || literal_mentions(lits[j], p)),
{
    if mentioned_before(lits, j + 1, p) {
        let k = choose|k: int| 0 <= k < j + 1 && literal_mentions(#[trigger] lits[k], p);
        if k < j {
            assert(mentioned_before(lits, j, p));
        }
    }
}

proof fn lemma_predicate_of_step(rv: Seq<RuleV<i64>>, i: int, p: i64)
    requires
        0 <= i < rv.len(),
    ensures
        is_predicate_of(rv.subrange(0, i + 1), p) <==> (is_predicate_of(rv.subrange(0, i), p) || rule_mentions(rv[i], p)),
{
    let sub = rv.subrange(0, i + 1);
    let pre = rv.subrange(0, i);
    if is_predicate_of(sub, p) {
        let q = choose|q: int| 0 <= q < i + 1 && rule_mentions(#[trigger] sub[q], p);
        if q < i {
            assert(pre[q] == sub[q]);
        }
    }
    if is_predicate_of(pre, p) {
        let q = choose|q: int| 0 <= q < i && rule_mentions(#[trigger] pre[q], p);
        assert(sub[q] == pre[q]);
    }
    if rule_mentions(rv[i], p) {
        assert(sub[i] == rv[i]);
    }
}

proof fn lemma_rule_mentions_body(r: RuleV<i64>, p: i64)
    ensures
        rule_mentions(r, p) <==> (head_pred(r) == Some(p) || mentioned_before(r.body, r.body.len() as int, p)),
{
}

/// The head predicates and the predicates of positive and negated body
/// atoms, each once.
pub fn collect_predicates(rules: &[Rule<i64>]) -> (r: Vec<i64>)
    ensures
        r@.no_duplicates(),
        forall|p: i64| r@.contains(p) <==> is_predicate_of(rules.deep_view(), p),
{
    let ghost rv = rules.deep_view();
    let mut preds: Vec<i64> = Vec::new();
    let mut i: usize = 0;
    while i < rules.len()
        invariant
            i <= rv.len(),
            rv == rules.deep_view(),
            preds@.no_duplicates(),
            forall|p: i64| preds@.contains(p) <==> is_predicate_of(rv.subrange(0, i as int), p),
        decreases rules.len() - i,
    {
        let rule = &rules[i];
        let ghost r = rv[i as int];
        assert(r == rule.deep_view());
        let ghost before = preds@;
        match head_pred_of(rule) {
            Some(h) => push_new(&mut preds, h),
            None => {},
        }
        let ghost bv = rule.body.deep_view();
        let mut j: usize = 0;
        while j < rule.body.len()
            invariant
                j <= bv.len(),
                bv == rule.body.deep_view(),
                r == rule.deep_view(),
                preds@.no_duplicates(),
                forall|p: i64| #[trigger] preds@.contains(p) <==> (before.contains(p) || head_pred(r) == Some(p)
                    || mentioned_before(bv, j as int, p)),
            decreases rule.body.len() - j,
        {
            let ghost pre = preds@;
            match &rule.body[j] {
                BodyLiteral::Positive(a) | BodyLiteral::Negated(a) => match atom_pred_of(a) {
                    Some(p) => push_new(&mut preds, p),
                    None => {},
                },
                _ => {},
            }
            proof {
                assert(bv[j as int] == rule.body@[j as int].deep_view());
                assert forall|p: i64| #[trigger] preds@.contains(p) <==> (before.contains(p) || head_pred(r) == Some(p)
                    || mentioned_before(bv, j + 1, p)) by {
                    lemma_mentioned_step(bv, j as int, p);
                    assert(pre.contains(p) <==> (before.contains(p) || head_pred(r) == Some(p)
                        || mentioned_before(bv, j as int, p)));
                }
            }
            j = j + 1;
        }
        proof {
            assert forall|p: i64| #[trigger] preds@.contains(p) <==> is_predicate_of(rv.subrange(0, i + 1), p) by {
                lemma_predicate_of_step(rv, i as int, p);
                lemma_rule_mentions_body(r, p);
                assert(r.body == bv);
                assert(before.contains(p) <==> is_predicate_of(rv.subrange(0, i as int), p));
            }
        }
        i = i + 1;
    }
    assert(rv.subrange(0, rv.len() as int) =~= rv);
    preds
}


// ─── Strongly connected components ───────────────────────────────────────────

/// Edge `k` of `es` starts or ends at `x`.
pub open spec fn endpoint_at(es: Seq<Edge>, k: int, x: i64) -> bool {
    0 <= k < es.len() && (es[k].from == x || es[k].to == x)
}

/// `x` is a node of the graph: one of `nodes` or an end of an edge.
pub open spec fn in_graph(nodes: Seq<i64>, es: Seq<Edge>, x: i64) -> bool {
    nodes.contains(x) || exists|k: int| #[trigger] endpoint_at(es, k, x)
}

/// Component `i` of `cs` holds `x`.
pub open spec fn in_scc(cs: Seq<Seq<i64>>, i: int, x: i64) -> bool {
    0 <= i < cs.len() && cs[i].contains(x)
}

/// `cs` is the partition of the nodes of the graph into its strongly
/// connected components.
pub open spec fn is_scc_partition(cs: Seq<Seq<i64>>, nodes: Seq<i64>, es: Seq<Edge>) -> bool {
    &&& forall|i: int| 0 <= i < cs.len() ==> #[trigger] cs[i].len() > 0 && cs[i].no_duplicates()
    &&& forall|i: int, j: int, x: i64, y: i64| #[trigger] in_scc(cs, i, x) && #[trigger] in_scc(cs, j, y)
        ==> (i == j <==> same_scc(es, x, y))
    &&& forall|x: i64| in_graph(nodes, es, x) <==> exists|i: int| #[trigger] in_scc(cs, i, x)
}

pub proof fn lemma_same_scc_symm(es: Seq<Edge>, a: i64, b: i64)
    ensures
        same_scc(es, a, b) <==> same_scc(es, b, a),
{
}

pub proof fn lemma_same_scc_trans(es: Seq<Edge>, a: i64, b: i64, c: i64)
    requires
        same_scc(es, a, b),
        same_scc(es, b, c),
    ensures
        same_scc(es, a, c),
{
    lemma_reaches_trans(es, a, b, c);
    lemma_reaches_trans(es, c, b, a);
}

/// The nodes of the graph, each once.
fn graph_nodes(nodes: &Vec<i64>, edges: &Vec<Edge>) -> (u: Vec<i64>)
    ensures
        u@.no_duplicates(),
        forall|x: i64| u@.contains(x) <==> in_graph(nodes@, edges@, x),
{
    let mut u: Vec<i64> = Vec::new();
    let mut i: usize = 0;
    while i < nodes.len()
        invariant
            i <= nodes@.len(),
            u@.no_duplicates(),
            forall|x: i64| u@.contains(x) <==> nodes@.subrange(0, i as int).contains(x),
        decreases nodes.len() - i,
    {
        let ghost old_u = u@;
        push_new(&mut u, nodes[i]);
        proof {
            assert forall|x: i64| u@.contains(x) <==> nodes@.subrange(0, i + 1).contains(x) by {
                assert(nodes@.subrange(0, i + 1) =~= nodes@.subrange(0, i as int).push(nodes@[i as int]));
                vstd::seq_lib::lemma_seq_contains_after_push(nodes@.subrange(0, i as int), nodes@[i as int], x);
                assert(old_u.contains(x) <==> nodes@.subrange(0, i as int).contains(x));
            }
        }
        i = i + 1;
    }
    assert(nodes@.subrange(0, nodes@.len() as int) =~= nodes@);
    let mut k: usize = 0;
    while k < edges.len()
        invariant
            k <= edges@.len(),
            u@.no_duplicates(),
            forall|x: i64| u@.contains(x) <==> (nodes@.contains(x) || exists|j: int| 0 <= j < k && #[trigger] endpoint_at(edges@, j, x)),
        decreases edges.len() - k,
    {
        let e = edges[k];
        push_new(&mut u, e.from);
        push_new(&mut u, e.to);
        proof {
            assert forall|x: i64| u@.contains(x) <==> (nodes@.contains(x) || exists|j: int| 0 <= j < k + 1 && #[trigger] endpoint_at(edges@, j, x)) by {
                if exists|j: int| 0 <= j < k + 1 && #[trigger] endpoint_at(edges@, j, x) {
                    let j = choose|j: int| 0 <= j < k + 1 && #[trigger] endpoint_at(edges@, j, x);
                    if j < k {
                        assert(exists|j2: int| 0 <= j2 < k && #[trigger] endpoint_at(edges@, j2, x));
                    }
                }
                if x == e.from || x == e.to {
                    assert(endpoint_at(edges@, k as int, x));
                }
            }
        }
        k = k + 1;
    }
    u
}

/// `r` is the first position of `u` whose node shares a component with `u[t]`.
pub open spec fn is_first_rep(es: Seq<Edge>, u: Seq<i64>, t: int, r: int) -> bool {
    &&& 0 <= r <= t < u.len()
    &&& same_scc(es, u[r], u[t])
    &&& forall|t2: int| 0 <= t2 < r ==> !same_scc(es, #[trigger] u[t2], u[t])
}

proof fn lemma_rep_eq(es: Seq<Edge>, u: Seq<i64>, t1: int, r1: int, t2: int, r2: int)
    requires
        is_first_rep(es, u, t1, r1),
        is_first_rep(es, u, t2, r2),
    ensures
        r1 == r2 <==> same_scc(es, u[t1], u[t2]),
{
    if same_scc(es, u[t1], u[t2]) {
        lemma_same_scc_trans(es, u[r1], u[t1], u[t2]);
        lemma_same_scc_symm(es, u[t1], u[t2]);
        lemma_same_scc_trans(es, u[r2], u[t2], u[t1]);
        if r1 < r2 {
            assert(!same_scc(es, u[r1], u[t2]));
        }
        if r2 < r1 {
            assert(!same_scc(es, u[r2], u[t1]));
        }
    }
    if r1 == r2 {
        lemma_same_scc_symm(es, u[r1], u[t1]);
        lemma_same_scc_trans(es, u[t1], u[r1], u[t2]);
    }
}

proof fn lemma_rep_is_own_rep(es: Seq<Edge>, u: Seq<i64>, t: int, r: int)
    requires
        is_first_rep(es, u, t, r),
    ensures
        is_first_rep(es, u, r, r),
{
    lemma_reaches_refl(es, u[r]);
    assert forall|t2: int| 0 <= t2 < r implies !same_scc(es, #[trigger] u[t2], u[r]) by {
        if same_scc(es, u[t2], u[r]) {
            lemma_same_scc_trans(es, u[t2], u[r], u[t]);
        }
    }
}

/// Computes the strongly connected components of the graph whose nodes are
/// `nodes` and the ends of `edges`.
pub fn compute_sccs(nodes: &Vec<i64>, edges: &Vec<Edge>) -> (r: Vec<Vec<i64>>)
    ensures
        is_scc_partition(r.deep_view(), nodes@, edges@),
{
    let ghost es = edges@;
    let u = graph_nodes(nodes, edges);
    let n = u.len();
    let mut fwd: Vec<Vec<i64>> = Vec::new();
    let mut t: usize = 0;
    while t < n
        invariant
            t <= n == u@.len(),
            es == edges@,
            fwd@.len() == t,
            forall|a: int, x: i64| 0 <= a < t ==> (#[trigger] fwd@[a]@.contains(x) <==> reaches(es, u@[a], x)),
        decreases n - t,
    {
        let f = reachable_from(u[t], edges);
        fwd.push(f);
        t = t + 1;
    }
    let mut rep: Vec<usize> = Vec::new();
    let mut t: usize = 0;
    while t < n
        invariant
            t <= n == u@.len(),
            fwd@.len() == n,
            es == edges@,
            forall|a: int, x: i64| 0 <= a < n ==> (#[trigger] fwd@[a]@.contains(x) <==> reaches(es, u@[a], x)),
            rep@.len() == t,
            forall|a: int| 0 <= a < t ==> is_first_rep(es, u@, a, #[trigger] rep@[a] as int),
        decreases n - t,
    {
        let mut r: usize = 0;
        while r < t && !(vec_has(&fwd[t], u[r]) && vec_has(&fwd[r], u[t]))
            invariant
                r <= t < n == u@.len(),
                fwd@.len() == n,
                forall|a: int, x: i64| 0 <= a < n ==> (#[trigger] fwd@[a]@.contains(x) <==> reaches(es, u@[a], x)),
                forall|t2: int| 0 <= t2 < r ==> !same_scc(es, #[trigger] u@[t2], u@[t as int]),
            decreases t - r,
        {
            proof {
                assert(fwd@[t as int]@.contains(u@[r as int]) <==> reaches(es, u@[t as int], u@[r as int]));
                assert(fwd@[r as int]@.contains(u@[t as int]) <==> reaches(es, u@[r as int], u@[t as int]));
            }
            r = r + 1;
        }
        proof {
            if r == t {
                lemma_reaches_refl(es, u@[t as int]);
            } else {
                assert(fwd@[t as int]@.contains(u@[r as int]) <==> reaches(es, u@[t as int], u@[r as int]));
                assert(fwd@[r as int]@.contains(u@[t as int]) <==> reaches(es, u@[r as int], u@[t as int]));
            }
            assert(is_first_rep(es, u@, t as int, r as int));
        }
        rep.push(r);
        t = t + 1;
    }
    let mut sccs: Vec<Vec<i64>> = Vec::new();
    let ghost mut reps: Seq<int> = Seq::empty();
    let mut t: usize = 0;
    while t < n
        invariant
            t <= n == u@.len(),
            es == edges@,
            u@.no_duplicates(),
            rep@.len() == n,
            forall|a: int| 0 <= a < n ==> is_first_rep(es, u@, a, #[trigger] rep@[a] as int),
            sccs@.len() == reps.len(),
            forall|i: int| 0 <= i < reps.len() ==> 0 <= #[trigger] reps[i] < t && rep@[reps[i]] == reps[i],
            forall|i: int, j: int| 0 <= i < j < reps.len() ==> reps[i] < reps[j],
            forall|a: int| 0 <= a < t && rep@[a] == a ==> exists|i: int| 0 <= i < reps.len() && #[trigger] reps[i] == a,
            forall|i: int| 0 <= i < sccs@.len() ==> #[trigger] sccs@[i]@.len() > 0 && sccs@[i]@.no_duplicates(),
            forall|i: int, x: i64| 0 <= i < sccs@.len() ==> (#[trigger] sccs@[i]@.contains(x) <==> exists|w: int| 0 <= w < n && u@[w] == x && #[trigger] rep@[w] == reps[i]),
        decreases n - t,
    {
        let ghost old_reps = reps;
        if rep[t] == t {
            let mut comp: Vec<i64> = Vec::new();
            let mut w: usize = 0;
            while w < n
                invariant
                    w <= n == u@.len(),
                    t < n,
                    u@.no_duplicates(),
                    rep@.len() == n,
                    rep@[t as int] == t,
                    comp@.no_duplicates(),
                    forall|x: i64| #[trigger] comp@.contains(x) <==> exists|w2: int| 0 <= w2 < w && u@[w2] == x && #[trigger] rep@[w2] == t,
                    w > t ==> comp@.len() > 0,
                decreases n - w,
            {
                if rep[w] == t {
                    let ghost old_c = comp@;
                    proof {
                        if old_c.contains(u@[w as int]) {
                            let w2 = choose|w2: int| 0 <= w2 < w && u@[w2] == u@[w as int] && #[trigger] rep@[w2] == t;
                        }
                    }
                    comp.push(u[w]);
                    proof {
                        assert forall|x: i64| #[trigger] comp@.contains(x) <==> exists|w2: int| 0 <= w2 < w + 1 && u@[w2] == x && #[trigger] rep@[w2] == t by {
                            vstd::seq_lib::lemma_seq_contains_after_push(old_c, u@[w as int], x);
                            if exists|w2: int| 0 <= w2 < w + 1 && u@[w2] == x && #[trigger] rep@[w2] == t {
                                let w2 = choose|w2: int| 0 <= w2 < w + 1 && u@[w2] == x && #[trigger] rep@[w2] == t;
                                if w2 < w {
                                    assert(old_c.contains(x));
                                }
                            }
                        }
                    }
                } else {
                    proof {
                        assert forall|x: i64| #[trigger] comp@.contains(x) <==> exists|w2: int| 0 <= w2 < w + 1 && u@[w2] == x && #[trigger] rep@[w2] == t by {
                            if exists|w2: int| 0 <= w2 < w + 1 && u@[w2] == x && #[trigger] rep@[w2] == t {
                                let w2 = choose|w2: int| 0 <= w2 < w + 1 && u@[w2] == x && #[trigger] rep@[w2] == t;
                                assert(w2 != w);
                            }
                        }
                    }
                }
                w = w + 1;
            }
            proof {
                reps = reps.push(t as int);
            }
            sccs.push(comp);
        }
        proof {
            assert forall|a: int| 0 <= a < t + 1 && rep@[a] == a implies exists|i: int| 0 <= i < reps.len() && #[trigger] reps[i] == a by {
                if a == t {
                    assert(reps[reps.len() - 1] == a);
                } else {
                    let i = choose|i: int| 0 <= i < old_reps.len() && #[trigger] old_reps[i] == a;
                    assert(reps[i] == old_reps[i]);
                }
            }
        }
        t = t + 1;
    }
    proof {
        let cs = sccs.deep_view();
        assert forall|i: int| 0 <= i < cs.len() implies cs[i] == sccs@[i]@ by {}
        assert forall|i: int, x: i64| #[trigger] in_scc(cs, i, x) <==> (0 <= i < reps.len() && exists|w: int| 0 <= w < n && u@[w] == x && #[trigger] rep@[w] == reps[i]) by {
            if 0 <= i < cs.len() {
                assert(cs[i] == sccs@[i]@);
            }
        }
        assert forall|i: int, j: int, x: i64, y: i64| #[trigger] in_scc(cs, i, x) && #[trigger] in_scc(cs, j, y)
            implies (i == j <==> same_scc(es, x, y)) by {
            let wx = choose|w: int| 0 <= w < n && u@[w] == x && #[trigger] rep@[w] == reps[i];
            let wy = choose|w: int| 0 <= w < n && u@[w] == y && #[trigger] rep@[w] == reps[j];
            assert(is_first_rep(es, u@, wx, rep@[wx] as int));
            assert(is_first_rep(es, u@, wy, rep@[wy] as int));
            lemma_rep_eq(es, u@, wx, rep@[wx] as int, wy, rep@[wy] as int);
            if i != j {
                if i < j {
                    assert(reps[i] < reps[j]);
                } else {
                    assert(reps[j] < reps[i]);
                }
            }
        }
        assert forall|x: i64| in_graph(nodes@, es, x) <==> exists|i: int| #[trigger] in_scc(cs, i, x) by {
            if in_graph(nodes@, es, x) {
                assert(u@.contains(x));
                let w = choose|w: int| 0 <= w < n && u@[w] == x;
                let r = rep@[w] as int;
                assert(is_first_rep(es, u@, w, r));
                lemma_rep_is_own_rep(es, u@, w, r);
                assert(is_first_rep(es, u@, r, rep@[r] as int));
                lemma_rep_eq(es, u@, r, r, r, rep@[r] as int);
                lemma_reaches_refl(es, u@[r]);
                assert(rep@[r] == r);
                let i = choose|i: int| 0 <= i < reps.len() && #[trigger] reps[i] == r;
                assert(in_scc(cs, i, x));
            }
            if exists|i: int| #[trigger] in_scc(cs, i, x) {
                let i = choose|i: int| #[trigger] in_scc(cs, i, x);
                let w = choose|w: int| 0 <= w < n && u@[w] == x && #[trigger] rep@[w] == reps[i];
                assert(u@.contains(x));
            }
        }
    }
    sccs
}


// ─── Negation-cycle reports ──────────────────────────────────────────────────

/// The positive edges of `es` that end in `set`, in order.
pub open spec fn pos_into(es: Seq<Edge>, set: Set<i64>) -> Seq<Edge>
    decreases es.len(),
{
    if es.len() == 0 {
        Seq::empty()
    } else {
        let pre = pos_into(es.drop_last(), set);
        if !es.last().negative && set.contains(es.last().to) { pre.push(es.last()) } else { pre }
    }
}

/// The positive edges of `edges` that end in a node of `scc`.
fn positive_edges_into(edges: &Vec<Edge>, scc: &Vec<i64>) -> (r: Vec<Edge>)
    ensures
        r@ == pos_into(edges@, scc@.to_set()),
{
    let mut r: Vec<Edge> = Vec::new();
    let mut k: usize = 0;
    assert(edges@.subrange(0, 0) =~= Seq::<Edge>::empty());
    while k < edges.len()
        invariant
            k <= edges@.len(),
            r@ == pos_into(edges@.subrange(0, k as int), scc@.to_set()),
        decreases edges.len() - k,
    {
        let e = edges[k];
        assert(edges@.subrange(0, k + 1).drop_last() =~= edges@.subrange(0, k as int));
        assert(edges@.subrange(0, k + 1).last() == e);
        let inside = vec_has(scc, e.to);
        assert(inside == scc@.to_set().contains(e.to));
        if !e.negative && inside {
            r.push(e);
        }
        k = k + 1;
    }
    assert(edges@.subrange(0, edges@.len() as int) =~= edges@);
    r
}

/// Finds a path of positive edges from `start` to `end` whose every step
/// ends inside the component `scc`, searching breadth-first; returns the
/// nodes strictly between `start` and `end`.
pub fn find_positive_path(start: i64, end: i64, edges: &Vec<Edge>, scc: &Vec<i64>) -> (r: Option<Vec<i64>>)
    ensures
        start == end ==> (r matches Some(c) && c@.len() == 0),
        start != end ==> match r {
            Some(c) => is_path(pos_into(edges@, scc@.to_set()), seq![start] + c@ + seq![end], start, end),
            None => !reaches(pos_into(edges@, scc@.to_set()), start, end),
        },
{
    if start == end {
        return Some(Vec::new());
    }
    let f = positive_edges_into(edges, scc);
    let ghost fs = f@;
    let mut qnodes: Vec<i64> = vec![start];
    let mut qpaths: Vec<Vec<i64>> = vec![Vec::new()];
    let mut idx: usize = 0;
    proof {
        assert(seq![start] + qpaths@[0]@ =~= seq![start]);
        assert(is_path(fs, seq![start], start, start));
    }
    while idx < qnodes.len()
        invariant
            fs == f@,
            fs == pos_into(edges@, scc@.to_set()),
            start != end,
            idx <= qnodes@.len(),
            qnodes@.len() == qpaths@.len(),
            qnodes@.len() >= 1,
            qnodes@[0] == start,
            qnodes@.no_duplicates(),
            !qnodes@.contains(end),
            qnodes@.len() <= fs.len() + 1,
            forall|t: int| 1 <= t < qnodes@.len() ==> targets(fs).contains(#[trigger] qnodes@[t]),
            forall|t: int| 0 <= t < qnodes@.len() ==> is_path(fs, seq![start] + #[trigger] qpaths@[t]@, start, qnodes@[t]),
            forall|t: int, k: int| #![trigger qnodes@[t], fs[k]] 0 <= t < idx && 0 <= k < fs.len() && fs[k].from == qnodes@[t]
                ==> qnodes@.contains(fs[k].to),
        decreases fs.len() + 1 - idx,
    {
        let cur = qnodes[idx];
        let mut k: usize = 0;
        while k < f.len()
            invariant
                fs == f@,
                fs == pos_into(edges@, scc@.to_set()),
                start != end,
                idx < qnodes@.len(),
                cur == qnodes@[idx as int],
                k <= fs.len(),
                qnodes@.len() == qpaths@.len(),
                qnodes@.len() >= 1,
                qnodes@[0] == start,
                qnodes@.no_duplicates(),
                !qnodes@.contains(end),
                qnodes@.len() <= fs.len() + 1,
                forall|t: int| 1 <= t < qnodes@.len() ==> targets(fs).contains(#[trigger] qnodes@[t]),
                forall|t: int| 0 <= t < qnodes@.len() ==> is_path(fs, seq![start] + #[trigger] qpaths@[t]@, start, qnodes@[t]),
                forall|t: int, j: int| #![trigger qnodes@[t], fs[j]] 0 <= t < idx && 0 <= j < fs.len() && fs[j].from == qnodes@[t]
                    ==> qnodes@.contains(fs[j].to),
                forall|j: int| 0 <= j < k && fs[j].from == cur ==> qnodes@.contains(#[trigger] fs[j].to),
            decreases f.len() - k,
        {
            let e = f[k];
            if e.from == cur {
                let path = copy_ids(&qpaths[idx]);
                if e.to == end {
                    proof {
                        let p0 = seq![start] + path@;
                        assert(is_path(fs, p0, start, cur));
                        assert(edge_at(fs, k as int, cur, end));
                        let p1 = seq![start] + path@ + seq![end];
                        assert(p1 =~= p0.push(end));
                        assert forall|i: int| 0 <= i < p1.len() - 1 implies #[trigger] has_edge(fs, p1[i], p1[i + 1]) by {
                            if i < p0.len() - 1 {
                                assert(p1[i] == p0[i] && p1[i + 1] == p0[i + 1]);
                                assert(has_edge(fs, p0[i], p0[i + 1]));
                            } else {
                                assert(p1[i] == cur && p1[i + 1] == end);
                            }
                        }
                    }
                    return Some(path);
                }
                if !vec_has(&qnodes, e.to) {
                    let mut np = path;
                    let ghost pp = np@;
                    np.push(e.to);
                    proof {
                        assert(edge_at(fs, k as int, cur, e.to));
                        let p0 = seq![start] + pp;
                        assert(is_path(fs, p0, start, cur));
                        let p1 = seq![start] + np@;
                        assert(p1 =~= p0.push(e.to));
                        assert forall|i: int| 0 <= i < p1.len() - 1 implies #[trigger] has_edge(fs, p1[i], p1[i + 1]) by {
                            if i < p0.len() - 1 {
                                assert(p1[i] == p0[i] && p1[i + 1] == p0[i + 1]);
                                assert(has_edge(fs, p0[i], p0[i + 1]));
                            } else {
                                assert(p1[i] == cur && p1[i + 1] == e.to);
                            }
                        }
                        assert(targets(fs)[k as int] == e.to);
                        let nv = qnodes@.push(e.to);
                        assert forall|t: int| 0 <= t < nv.len() - 1 implies targets(fs).contains(#[trigger] nv.drop_first()[t]) by {
                            assert(nv.drop_first()[t] == nv[t + 1]);
                        }
                        assert(nv.drop_first().no_duplicates()) by {
                            assert forall|a: int, b: int| 0 <= a < b < nv.len() - 1 implies nv.drop_first()[a] != nv.drop_first()[b] by {
                                assert(nv.drop_first()[a] == nv[a + 1] && nv.drop_first()[b] == nv[b + 1]);
                            }
                        }
                        lemma_distinct_within(nv.drop_first(), targets(fs));
                    }
                    let ghost old_q = qnodes@;
                    let ghost old_p = qpaths@;
                    qnodes.push(e.to);
                    qpaths.push(np);
                    proof {
                        assert forall|y: i64| old_q.contains(y) implies qnodes@.contains(y) by {
                            vstd::seq_lib::lemma_seq_contains_after_push(old_q, e.to, y);
                        }
                        vstd::seq_lib::lemma_seq_contains_after_push(old_q, e.to, e.to);
                        vstd::seq_lib::lemma_seq_contains_after_push(old_q, e.to, end);
                        assert forall|t: int| 0 <= t < qnodes@.len() implies is_path(fs, seq![start] + #[trigger] qpaths@[t]@, start, qnodes@[t]) by {
                            if t < old_q.len() {
                                assert(qpaths@[t] == old_p[t]);
                            }
                        }
                    }
                }
            }
            k = k + 1;
        }
        idx = idx + 1;
    }
    proof {
        assert(closed_under(fs, qnodes@)) by {
            assert forall|k: int| 0 <= k < fs.len() && qnodes@.contains(fs[k].from) implies qnodes@.contains(#[trigger] fs[k].to) by {
                let t = choose|t: int| 0 <= t < qnodes@.len() && qnodes@[t] == fs[k].from;
                assert(qnodes@[t] == fs[k].from);
            }
        }
        if reaches(fs, start, end) {
            assert(qnodes@[0] == start);
            lemma_closed_holds_reachable(fs, qnodes@, start, end);
        }
    }
    None
}

/// A copy of a vector of IDs.
fn copy_ids(v: &Vec<i64>) -> (r: Vec<i64>)
    ensures
        r@ == v@,
{
    let mut r: Vec<i64> = Vec::new();
    let mut i: usize = 0;
    while i < v.len()
        invariant
            i <= v@.len(),
            r@ == v@.subrange(0, i as int),
        decreases v.len() - i,
    {
        r.push(v[i]);
        assert(r@ =~= v@.subrange(0, i + 1));
        i = i + 1;
    }
    assert(v@.subrange(0, v@.len() as int) =~= v@);
    r
}


/// The display name of predicate `p`.
pub open spec fn pred_name(p: i64) -> Seq<char> {
    "pred_"@ + int_decimal(p as int)
}

/// ` → name` for each predicate of `chain`.
pub open spec fn names_after(chain: Seq<i64>) -> Seq<char>
    decreases chain.len(),
{
    if chain.len() == 0 {
        Seq::empty()
    } else {
        names_after(chain.drop_last()) + " → "@ + pred_name(chain.last())
    }
}

/// `A → ¬B → C₁ → … → A`: the cycle through the negative edge `A → B`
/// back along `chain`.
pub open spec fn cycle_text(from: i64, to: i64, chain: Seq<i64>) -> Seq<char> {
    pred_name(from) + " → ¬"@ + pred_name(to) + names_after(chain) + " → "@ + pred_name(from)
}

/// `A → ¬B → … → A`: the cycle when no positive path back was found.
pub open spec fn fallback_text(from: i64, to: i64) -> Seq<char> {
    pred_name(from) + " → ¬"@ + pred_name(to) + " → … → "@ + pred_name(from)
}

/// `[name, name, …]` for the predicates of `scc`.
pub open spec fn list_text(scc: Seq<i64>) -> Seq<char> {
    "["@ + joined_names(scc) + "]"@
}

/// The names of `scc` separated by `, `.
pub open spec fn joined_names(scc: Seq<i64>) -> Seq<char>
    decreases scc.len(),
{
    if scc.len() == 0 {
        Seq::empty()
    } else if scc.len() == 1 {
        pred_name(scc[0])
    } else {
        joined_names(scc.drop_last()) + ", "@ + pred_name(scc.last())
    }
}

/// Edge `k` is negative and has both ends in `set`.
pub open spec fn neg_in(es: Seq<Edge>, set: Set<i64>, k: int) -> bool {
    0 <= k < es.len() && es[k].negative && set.contains(es[k].from) && set.contains(es[k].to)
}

/// Edge `k` is the first negative edge with both ends in `set`.
pub open spec fn is_first_neg(es: Seq<Edge>, set: Set<i64>, k: int) -> bool {
    neg_in(es, set, k) && forall|k2: int| 0 <= k2 < k ==> !#[trigger] neg_in(es, set, k2)
}

/// `t` reports the cycle through the negative edge `k` inside `set`: with
/// a positive path back inside `set` when one exists, else the short form.
pub open spec fn is_cycle_report(t: Seq<char>, es: Seq<Edge>, set: Set<i64>, k: int) -> bool {
    let e = es[k];
    let f = pos_into(es, set);
    if e.to == e.from {
        t == cycle_text(e.from, e.to, Seq::empty())
    } else {
        ||| exists|chain: Seq<i64>| t == cycle_text(e.from, e.to, chain)
            && #[trigger] is_path(f, seq![e.to] + chain + seq![e.from], e.to, e.from)
        ||| !reaches(f, e.to, e.from) && t == fallback_text(e.from, e.to)
    }
}

fn push_name(m: &mut String, p: i64)
    ensures
        final(m)@ == old(m)@ + pred_name(p),
{
    m.append("pred_");
    push_i64_decimal(m, p);
    proof {
        assert(final(m)@ =~= old(m)@ + pred_name(p));
    }
}

/// Describes the negation cycle inside the component `scc` for an error
/// message: the first negative edge with both ends in `scc` and, when one
/// exists, a path of positive edges back; the list of the component's
/// predicates when there is no such edge.
pub fn trace_negation_cycle_in_scc(scc: &Vec<i64>, edges: &Vec<Edge>) -> (r: String)
    ensures
        (exists|k: int| #[trigger] neg_in(edges@, scc@.to_set(), k)) ==> exists|k: int|
            #[trigger] is_first_neg(edges@, scc@.to_set(), k) && is_cycle_report(r@, edges@, scc@.to_set(), k),
        !(exists|k: int| #[trigger] neg_in(edges@, scc@.to_set(), k)) ==> r@ == list_text(scc@),
{
    let ghost set = scc@.to_set();
    let mut k: usize = 0;
    while k < edges.len()
        invariant
            k <= edges@.len(),
            set == scc@.to_set(),
            forall|k2: int| 0 <= k2 < k ==> !#[trigger] neg_in(edges@, set, k2),
        decreases edges.len() - k,
    {
        let e = edges[k];
        if e.negative && vec_has(scc, e.from) && vec_has(scc, e.to) {
            proof {
                assert(neg_in(edges@, set, k as int));
                assert(is_first_neg(edges@, set, k as int));
            }
            let mut m = String::new();
            push_name(&mut m, e.from);
            m.append(" → ¬");
            push_name(&mut m, e.to);
            match find_positive_path(e.to, e.from, edges, scc) {
                Some(chain) => {
                    let mut i: usize = 0;
                    let ghost base = m@;
                    assert(chain@.subrange(0, 0) =~= Seq::<i64>::empty());
                    while i < chain.len()
                        invariant
                            i <= chain@.len(),
                            m@ == base + names_after(chain@.subrange(0, i as int)),
                        decreases chain.len() - i,
                    {
                        assert(chain@.subrange(0, i + 1).drop_last() =~= chain@.subrange(0, i as int));
                        m.append(" → ");
                        push_name(&mut m, chain[i]);
                        i = i + 1;
                    }
                    assert(chain@.subrange(0, chain@.len() as int) =~= chain@);
                    m.append(" → ");
                    push_name(&mut m, e.from);
                    proof {
                        assert(m@ =~= cycle_text(e.from, e.to, chain@));
                        if e.to == e.from {
                            assert(chain@ =~= Seq::<i64>::empty());
                        }
                    }
                },
                None => {
                    m.append(" → … → ");
                    push_name(&mut m, e.from);
                    proof {
                        assert(m@ =~= fallback_text(e.from, e.to));
                    }
                },
            }
            return m;
        }
        k = k + 1;
    }
    let mut m = String::from_str("[");
    let mut i: usize = 0;
    assert(scc@.subrange(0, 0) =~= Seq::<i64>::empty());
    while i < scc.len()
        invariant
            i <= scc@.len(),
            m@ == "["@ + joined_names(scc@.subrange(0, i as int)),
        decreases scc.len() - i,
    {
        assert(scc@.subrange(0, i + 1).drop_last() =~= scc@.subrange(0, i as int));
        if i > 0 {
            m.append(", ");
        }
        push_name(&mut m, scc[i]);
        proof {
            if i == 0 {
                assert(scc@.subrange(0, 1)[0] == scc@[0]);
            }
        }
        i = i + 1;
    }
    assert(scc@.subrange(0, scc@.len() as int) =~= scc@);
    m.append("]");
    m
}


// ─── Ordering the components ─────────────────────────────────────────────────

/// `cs` groups the nodes of `es` into its strongly connected components:
/// components are non-empty, two nodes share a component exactly when they
/// reach each other, and both ends of every edge lie in some component.
pub open spec fn scc_cover(cs: Seq<Seq<i64>>, es: Seq<Edge>) -> bool {
    &&& forall|i: int| 0 <= i < cs.len() ==> #[trigger] cs[i].len() > 0
    &&& forall|i: int, j: int, x: i64, y: i64| #[trigger] in_scc(cs, i, x) && #[trigger] in_scc(cs, j, y)
        ==> (i == j <==> same_scc(es, x, y))
    &&& forall|k: int| 0 <= k < es.len() ==> #[trigger] covered(cs, es[k].from)
    &&& forall|k: int| 0 <= k < es.len() ==> #[trigger] covered(cs, es[k].to)
}

/// Some component holds `x`.
pub open spec fn covered(cs: Seq<Seq<i64>>, x: i64) -> bool {
    exists|i: int| #[trigger] in_scc(cs, i, x)
}

pub proof fn lemma_partition_covers(cs: Seq<Seq<i64>>, nodes: Seq<i64>, es: Seq<Edge>)
    requires
        is_scc_partition(cs, nodes, es),
    ensures
        scc_cover(cs, es),
{
    assert forall|k: int| 0 <= k < es.len() implies #[trigger] covered(cs, es[k].from) by {
        assert(endpoint_at(es, k, es[k].from));
        assert(in_graph(nodes, es, es[k].from));
    }
    assert forall|k: int| 0 <= k < es.len() implies #[trigger] covered(cs, es[k].to) by {
        assert(endpoint_at(es, k, es[k].to));
        assert(in_graph(nodes, es, es[k].to));
    }
    assert forall|i: int| 0 <= i < cs.len() implies #[trigger] cs[i].len() > 0 by {
        assert(cs[i].len() > 0 && cs[i].no_duplicates());
    }
}

/// Edge `k` is negative and both its ends share a component.
pub open spec fn is_cycle_edge(es: Seq<Edge>, k: int) -> bool {
    0 <= k < es.len() && es[k].negative && same_scc(es, es[k].from, es[k].to)
}

/// Edge `k` is the first edge that closes a cycle through negation.
pub open spec fn is_first_cycle_edge(es: Seq<Edge>, k: int) -> bool {
    is_cycle_edge(es, k) && forall|k2: int| 0 <= k2 < k ==> !#[trigger] is_cycle_edge(es, k2)
}

/// The error text for a negation cycle described by `t`.
pub open spec fn cycle_error(t: Seq<char>) -> Seq<char> {
    "datalog: unstratifiable negation cycle: "@ + t
}

/// The position of the component holding `x`.
fn scc_index_of(sccs: &Vec<Vec<i64>>, x: i64) -> (r: usize)
    requires
        covered(sccs.deep_view(), x),
    ensures
        in_scc(sccs.deep_view(), r as int, x),
{
    let ghost cs = sccs.deep_view();
    let mut i: usize = 0;
    while i < sccs.len()
        invariant
            i <= cs.len(),
            cs == sccs.deep_view(),
            covered(cs, x),
            forall|i2: int| 0 <= i2 < i ==> !#[trigger] in_scc(cs, i2, x),
        decreases sccs.len() - i,
    {
        assert(cs[i as int] == sccs@[i as int]@);
        if vec_has(&sccs[i], x) {
            return i;
        }
        i = i + 1;
    }
    proof {
        let w = choose|i: int| #[trigger] in_scc(cs, i, x);
        assert(!in_scc(cs, w, x));
    }
    0
}

/// Whether component `from` reaches component `to` (a component does not
/// count as reaching itself).
pub fn scc_can_reach(from: usize, to: usize, sccs: &Vec<Vec<i64>>, edges: &Vec<Edge>) -> (r: bool)
    requires
        from < sccs@.len(),
        to < sccs@.len(),
        sccs@[from as int]@.len() > 0,
        sccs@[to as int]@.len() > 0,
    ensures
        r == (from != to && reaches(edges@, sccs@[from as int]@[0], sccs@[to as int]@[0])),
{
    if from == to {
        return false;
    }
    let reach = reachable_from(sccs[from][0], edges);
    vec_has(&reach, sccs[to][0])
}

/// `a` comes before `b` in the order of keys, ties broken by position.
pub open spec fn lex_less(key: Seq<int>, a: int, b: int) -> bool {
    key[a] < key[b] || (key[a] == key[b] && a < b)
}

/// How many of the first `m` positions come before `b`.
pub open spec fn count_below(key: Seq<int>, b: int, m: int) -> nat
    decreases m,
{
    if m <= 0 {
        0
    } else {
        count_below(key, b, m - 1) + (if lex_less(key, m - 1, b) { 1nat } else { 0nat })
    }
}

proof fn lemma_count_below_bound(key: Seq<int>, b: int, m: int)
    requires
        0 <= m,
    ensures
        count_below(key, b, m) + (if 0 <= b < m { 1int } else { 0int }) <= m,
    decreases m,
{
    if m > 0 {
        lemma_count_below_bound(key, b, m - 1);
    }
}

proof fn lemma_count_below_mono(key: Seq<int>, a: int, b: int, m: int)
    requires
        0 <= m,
        key[b] < key[a],
    ensures
        count_below(key, b, m) + (if 0 <= b < m { 1int } else { 0int }) <= count_below(key, a, m),
    decreases m,
{
    if m > 0 {
        lemma_count_below_mono(key, a, b, m - 1);
    }
}

/// A component reached along an edge out of another component reaches
/// strictly fewer nodes.
proof fn lemma_reach_shrinks(es: Seq<Edge>, cs: Seq<Seq<i64>>, i: int, j: int, k: int, fi: Seq<i64>, fj: Seq<i64>)
    requires
        scc_cover(cs, es),
        0 <= k < es.len(),
        in_scc(cs, i, es[k].from),
        in_scc(cs, j, es[k].to),
        i != j,
        fi.no_duplicates(),
        fj.no_duplicates(),
        forall|x: i64| fi.contains(x) <==> reaches(es, cs[i][0], x),
        forall|x: i64| fj.contains(x) <==> reaches(es, cs[j][0], x),
    ensures
        fj.len() < fi.len(),
{
    let a = cs[i][0];
    let b = cs[j][0];
    assert(in_scc(cs, i, a));
    assert(in_scc(cs, j, b));
    assert(same_scc(es, a, es[k].from));
    assert(same_scc(es, es[k].to, b));
    assert(edge_at(es, k, es[k].from, es[k].to));
    lemma_reaches_edge(es, es[k].from, es[k].to);
    lemma_reaches_trans(es, a, es[k].from, es[k].to);
    lemma_reaches_trans(es, a, es[k].to, b);
    lemma_reaches_refl(es, a);
    assert(fi.contains(a));
    assert(fj.to_set().subset_of(fi.to_set().remove(a))) by {
        assert forall|x: i64| fj.to_set().contains(x) implies fi.to_set().remove(a).contains(x) by {
            assert(fj.contains(x));
            lemma_reaches_trans(es, a, b, x);
            if x == a {
                assert(same_scc(es, a, b));
                assert(in_scc(cs, i, a) && in_scc(cs, j, b));
            }
        }
    }
    fj.unique_seq_to_set();
    fi.unique_seq_to_set();
    assert(fi.to_set().contains(a));
    vstd::set_lib::lemma_len_subset(fj.to_set(), fi.to_set().remove(a));
}

/// Orders the components: returns a stratum number for each, such that a
/// component comes after every other component its predicates depend on.
/// Fails with a description of the cycle when a negative edge joins two
/// predicates of one component.
pub fn topo_sort_sccs(sccs: &Vec<Vec<i64>>, edges: &Vec<Edge>) -> (r: Result<Vec<usize>, String>)
    requires
        scc_cover(sccs.deep_view(), edges@),
    ensures
        r is Ok <==> !exists|k: int| #[trigger] is_cycle_edge(edges@, k),
        match r {
            Ok(rank) => {
                &&& rank@.len() == sccs@.len()
                &&& forall|i: int| 0 <= i < rank@.len() ==> #[trigger] rank@[i] < sccs@.len()
                &&& forall|k: int, i: int, j: int| #[trigger] in_scc(sccs.deep_view(), i, edges@[k].from)
                    && #[trigger] in_scc(sccs.deep_view(), j, edges@[k].to) && 0 <= k < edges@.len()
                    ==> (i != j ==> rank@[j] < rank@[i]) && (i == j ==> !edges@[k].negative)
            },
            Err(m) => exists|k: int, i: int| #[trigger] is_first_cycle_edge(edges@, k)
                && #[trigger] in_scc(sccs.deep_view(), i, edges@[k].from)
                && exists|t: Seq<char>| m@ == cycle_error(t) && #[trigger] is_cycle_report(t, edges@, sccs.deep_view()[i].to_set(), k),
        },
{
    let ghost cs = sccs.deep_view();
    let ghost es = edges@;
    let n = sccs.len();
    let mut k: usize = 0;
    while k < edges.len()
        invariant
            k <= es.len(),
            cs == sccs.deep_view(),
            es == edges@,
            n == cs.len(),
            scc_cover(cs, es),
            forall|k2: int| 0 <= k2 < k ==> !#[trigger] is_cycle_edge(es, k2),
        decreases edges.len() - k,
    {
        let e = edges[k];
        let src = scc_index_of(sccs, e.from);
        let dst = scc_index_of(sccs, e.to);
        proof {
            assert(in_scc(cs, src as int, e.from) && in_scc(cs, dst as int, e.to));
            assert((src == dst) == same_scc(es, e.from, e.to));
        }
        if src == dst && e.negative {
            let t = trace_negation_cycle_in_scc(&sccs[src], edges);
            proof {
                let set = cs[src as int].to_set();
                assert(cs[src as int] == sccs@[src as int]@);
                assert(neg_in(es, set, k as int));
                let k1 = choose|k1: int| #[trigger] is_first_neg(es, set, k1) && is_cycle_report(t@, es, set, k1);
                if k1 < k {
                    assert(neg_in(es, set, k1));
                    assert(in_scc(cs, src as int, es[k1].from) && in_scc(cs, src as int, es[k1].to));
                    assert(is_cycle_edge(es, k1));
                }
                if k1 > k {
                    assert(!neg_in(es, set, k as int));
                }
                assert(is_first_cycle_edge(es, k as int));
            }
            let mut m = String::from_str("datalog: unstratifiable negation cycle: ");
            m.append(t.as_str());
            return Err(m);
        }
        proof {
            assert(!is_cycle_edge(es, k as int));
        }
        k = k + 1;
    }
    // A negative edge between components whose target reaches back to its
    // source would close a cycle through negation.
    let mut k: usize = 0;
    while k < edges.len()
        invariant
            k <= es.len(),
            cs == sccs.deep_view(),
            es == edges@,
            n == cs.len(),
            scc_cover(cs, es),
            forall|k2: int| 0 <= k2 < es.len() ==> !#[trigger] is_cycle_edge(es, k2),
        decreases edges.len() - k,
    {
        let e = edges[k];
        if e.negative {
            let src = scc_index_of(sccs, e.from);
            let dst = scc_index_of(sccs, e.to);
            proof {
                assert(cs[src as int] == sccs@[src as int]@ && cs[dst as int] == sccs@[dst as int]@);
                assert(cs[src as int].len() > 0 && cs[dst as int].len() > 0);
            }
            if scc_can_reach(dst, src, sccs, edges) {
                proof {
                    let a = cs[src as int][0];
                    let b = cs[dst as int][0];
                    assert(in_scc(cs, src as int, a) && in_scc(cs, dst as int, b));
                    assert(in_scc(cs, src as int, e.from) && in_scc(cs, dst as int, e.to));
                    assert(same_scc(es, e.to, b));
                    assert(same_scc(es, a, e.from));
                    lemma_reaches_trans(es, e.to, b, a);
                    lemma_reaches_trans(es, e.to, a, e.from);
                    assert(edge_at(es, k as int, e.from, e.to));
                    lemma_reaches_edge(es, e.from, e.to);
                    assert(is_cycle_edge(es, k as int));
                }
                return Err(cross_cycle_message(&sccs[src], &sccs[dst]));
            }
        }
        k = k + 1;
    }
    // Number of nodes each component reaches.
    let mut keys: Vec<usize> = Vec::new();
    let mut fwds: Ghost<Seq<Seq<i64>>> = Ghost(Seq::empty());
    let mut i: usize = 0;
    while i < n
        invariant
            i <= n == cs.len(),
            cs == sccs.deep_view(),
            es == edges@,
            scc_cover(cs, es),
            keys@.len() == i,
            fwds@.len() == i,
            forall|a: int| 0 <= a < i ==> #[trigger] fwds@[a].no_duplicates(),
            forall|a: int| 0 <= a < i ==> #[trigger] keys@[a] == fwds@[a].len(),
            forall|a: int, x: i64| 0 <= a < i ==> (#[trigger] fwds@[a].contains(x) <==> reaches(es, cs[a][0], x)),
        decreases n - i,
    {
        assert(cs[i as int] == sccs@[i as int]@);
        assert(cs[i as int].len() > 0);
        let f = reachable_from(sccs[i][0], edges);
        keys.push(f.len());
        proof {
            fwds@ = fwds@.push(f@);
        }
        i = i + 1;
    }
    let ghost key: Seq<int> = Seq::new(n as nat, |a: int| keys@[a] as int);
    let mut rank: Vec<usize> = Vec::new();
    let mut b: usize = 0;
    while b < n
        invariant
            b <= n == cs.len(),
            keys@.len() == n,
            key == Seq::new(n as nat, |a: int| keys@[a] as int),
            rank@.len() == b,
            forall|a: int| 0 <= a < b ==> #[trigger] rank@[a] as int == count_below(key, a, n as int),
            cs == sccs.deep_view(),
            es == edges@,
            scc_cover(cs, es),
            fwds@.len() == n,
            forall|a: int| 0 <= a < n ==> #[trigger] fwds@[a].no_duplicates(),
            forall|a: int| 0 <= a < n ==> #[trigger] keys@[a] == fwds@[a].len(),
            forall|a: int, x: i64| 0 <= a < n ==> (#[trigger] fwds@[a].contains(x) <==> reaches(es, cs[a][0], x)),
            forall|k2: int| 0 <= k2 < es.len() ==> !#[trigger] is_cycle_edge(es, k2),
        decreases n - b,
    {
        let mut c: usize = 0;
        let mut cnt: usize = 0;
        while c < n
            invariant
                c <= n,
                b < n,
                keys@.len() == n,
                key == Seq::new(n as nat, |a: int| keys@[a] as int),
                cnt as int == count_below(key, b as int, c as int),
            decreases n - c,
        {
            proof {
                lemma_count_below_bound(key, b as int, c as int);
            }
            if keys[c] < keys[b] || (keys[c] == keys[b] && c < b) {
                cnt = cnt + 1;
            }
            c = c + 1;
        }
        rank.push(cnt);
        b = b + 1;
    }
    proof {
        assert forall|a: int| 0 <= a < rank@.len() implies #[trigger] rank@[a] < n by {
            lemma_count_below_bound(key, a, n as int);
        }
        assert forall|k: int, i: int, j: int| #[trigger] in_scc(cs, i, es[k].from)
            && #[trigger] in_scc(cs, j, es[k].to) && 0 <= k < es.len()
            implies (i != j ==> rank@[j] < rank@[i]) && (i == j ==> !es[k].negative) by {
            if i != j {
                assert(fwds@[i].no_duplicates() && fwds@[j].no_duplicates());
                lemma_reach_shrinks(es, cs, i, j, k, fwds@[i], fwds@[j]);
                assert(key[j] < key[i]);
                lemma_count_below_mono(key, i, j, n as int);
            } else {
                assert(same_scc(es, es[k].from, es[k].to));
                assert(!is_cycle_edge(es, k));
            }
        }
    }
    Ok(rank)
}

/// The names of `scc` separated by `|`.
pub open spec fn bar_joined(scc: Seq<i64>) -> Seq<char>
    decreases scc.len(),
{
    if scc.len() == 0 {
        Seq::empty()
    } else if scc.len() == 1 {
        pred_name(scc[0])
    } else {
        bar_joined(scc.drop_last()) + "|"@ + pred_name(scc.last())
    }
}

/// `[name|name|…]` for the predicates of `scc`.
pub open spec fn bar_text(scc: Seq<i64>) -> Seq<char> {
    "["@ + bar_joined(scc) + "]"@
}

/// The report of a negation cycle through a negative edge from component
/// `src` into component `dst`, which reaches back to `src`.
pub open spec fn cross_cycle_text(src: Seq<i64>, dst: Seq<i64>) -> Seq<char> {
    "datalog: unstratifiable negation cycle: "@ + bar_text(src) + " → ¬"@ + bar_text(dst) + " → … → "@
        + bar_text(src)
}

/// `[name|name|…]` for the predicates of `scc`.
fn bar_names(scc: &Vec<i64>) -> (r: String)
    ensures
        r@ == bar_text(scc@),
{
    proof {
        reveal_strlit("[");
        reveal_strlit("|");
        reveal_strlit("]");
    }
    let mut m = String::from_str("[");
    let mut i: usize = 0;
    assert(scc@.subrange(0, 0) =~= Seq::<i64>::empty());
    while i < scc.len()
        invariant
            i <= scc@.len(),
            m@ == "["@ + bar_joined(scc@.subrange(0, i as int)),
        decreases scc.len() - i,
    {
        let ghost old_m = m@;
        let ghost pre = scc@.subrange(0, i as int);
        let ghost post = scc@.subrange(0, i + 1);
        assert(post.drop_last() =~= pre);
        assert(post.last() == scc@[i as int]);
        if i > 0 {
            m.append("|");
        }
        push_name(&mut m, scc[i]);
        proof {
            if i == 0 {
                assert(pre =~= Seq::<i64>::empty());
                assert(post.len() == 1 && post[0] == scc@[0]);
                assert(m@ =~= "["@ + bar_joined(post));
            } else {
                assert(m@ =~= "["@ + bar_joined(post));
            }
        }
        i = i + 1;
    }
    assert(scc@.subrange(0, scc@.len() as int) =~= scc@);
    m.append("]");
    proof {
        assert(m@ =~= bar_text(scc@));
    }
    m
}

/// The report of a negation cycle that runs between two components.
fn cross_cycle_message(src: &Vec<i64>, dst: &Vec<i64>) -> (r: String)
    ensures
        r@ == cross_cycle_text(src@, dst@),
{
    let s = bar_names(src);
    let d = bar_names(dst);
    let mut m = String::from_str("datalog: unstratifiable negation cycle: ");
    m.append(s.as_str());
    m.append(" → ¬");
    m.append(d.as_str());
    m.append(" → … → ");
    m.append(s.as_str());
    proof {
        assert(m@ =~= cross_cycle_text(src@, dst@));
    }
    m
}


// ─── Aggregation guard ───────────────────────────────────────────────────────

/// Some positive body atom of `r` reads predicate `h`.
pub open spec fn reads_positively(r: RuleV<i64>, h: i64) -> bool {
    exists|k: int| 0 <= k < r.body.len() && (#[trigger] r.body[k] matches LiteralV::Positive(a) && atom_pred(a) == Some(h))
}

/// `r` has an aggregate body literal.
pub open spec fn has_aggregate(r: RuleV<i64>) -> bool {
    exists|k: int| 0 <= k < r.body.len() && #[trigger] r.body[k] is Aggregate
}

/// Some aggregate body literal of `r` aggregates over predicate `h`.
pub open spec fn aggregates_over(r: RuleV<i64>, h: i64) -> bool {
    exists|k: int| 0 <= k < r.body.len() && (#[trigger] r.body[k] matches LiteralV::Aggregate(g) && atom_pred(g.atom) == Some(h))
}

/// The error for a rule that reads its own head predicate and aggregates.
pub open spec fn accumulative_agg_message(h: i64) -> Seq<char> {
    "PT511: aggregation in recursive rule head is not supported; rule predicate "@ + int_decimal(h as int)
        + " appears in both the head and a body aggregate literal; use a two-step rule: first derive the base facts, then aggregate in a non-recursive rule"@
}

/// The error for a rule that aggregates over its own head predicate.
pub open spec fn recursive_agg_message(h: i64) -> Seq<char> {
    "PT511: DL-AGG-01: aggregation in recursive rule head is not supported; the aggregate body atom references the head predicate "@
        + int_decimal(h as int) + "; this creates a recursive aggregation cycle that produces incorrect results"@
}

/// The aggregation error of one rule, if any.
pub open spec fn agg_violation(r: RuleV<i64>) -> Option<Seq<char>> {
    match head_pred(r) {
        None => None,
        Some(h) => if reads_positively(r, h) && has_aggregate(r) {
            Some(accumulative_agg_message(h))
        } else if aggregates_over(r, h) {
            Some(recursive_agg_message(h))
        } else {
            None
        },
    }
}

/// The aggregation error of the first rule that has one.
pub open spec fn first_agg_violation(rules: Seq<RuleV<i64>>) -> Option<Seq<char>>
    decreases rules.len(),
{
    if rules.len() == 0 {
        None
    } else {
        match first_agg_violation(rules.drop_last()) {
            Some(m) => Some(m),
            None => agg_violation(rules.last()),
        }
    }
}

fn body_reads_positively(rule: &Rule<i64>, h: i64) -> (b: bool)
    ensures
        b == reads_positively(rule.deep_view(), h),
{
    let ghost bv = rule.body.deep_view();
    let mut j: usize = 0;
    while j < rule.body.len()
        invariant
            j <= bv.len(),
            bv == rule.body.deep_view(),
            forall|k: int| 0 <= k < j ==> !(#[trigger] bv[k] matches LiteralV::Positive(a) && atom_pred(a) == Some(h)),
        decreases rule.body.len() - j,
    {
        assert(bv[j as int] == rule.body@[j as int].deep_view());
        if let BodyLiteral::Positive(a) = &rule.body[j] {
            if atom_pred_of(a) == Some(h) {
                return true;
            }
        }
        j = j + 1;
    }
    false
}

pub fn body_has_aggregate(rule: &Rule<i64>) -> (b: bool)
    ensures
        b == has_aggregate(rule.deep_view()),
{
    let ghost bv = rule.body.deep_view();
    let mut j: usize = 0;
    while j < rule.body.len()
        invariant
            j <= bv.len(),
            bv == rule.body.deep_view(),
            forall|k: int| 0 <= k < j ==> !(#[trigger] bv[k] is Aggregate),
        decreases rule.body.len() - j,
    {
        assert(bv[j as int] == rule.body@[j as int].deep_view());
        if let BodyLiteral::Aggregate(_) = &rule.body[j] {
            return true;
        }
        j = j + 1;
    }
    false
}

fn body_aggregates_over(rule: &Rule<i64>, h: i64) -> (b: bool)
    ensures
        b == aggregates_over(rule.deep_view(), h),
{
    let ghost bv = rule.body.deep_view();
    let mut j: usize = 0;
    while j < rule.body.len()
        invariant
            j <= bv.len(),
            bv == rule.body.deep_view(),
            forall|k: int| 0 <= k < j ==> !(#[trigger] bv[k] matches LiteralV::Aggregate(g) && atom_pred(g.atom) == Some(h)),
        decreases rule.body.len() - j,
    {
        assert(bv[j as int] == rule.body@[j as int].deep_view());
        if let BodyLiteral::Aggregate(g) = &rule.body[j] {
            if atom_pred_of(&g.atom) == Some(h) {
                return true;
            }
        }
        j = j + 1;
    }
    false
}

/// The first aggregation error among `rules`.
fn check_recursive_aggregation(rules: &[Rule<i64>]) -> (r: Option<String>)
    ensures
        match r {
            Some(m) => first_agg_violation(rules.deep_view()) == Some(m@),
            None => first_agg_violation(rules.deep_view()) is None,
        },
{
    let ghost rv = rules.deep_view();
    let mut q: usize = 0;
    assert(rv.subrange(0, 0) =~= Seq::<RuleV<i64>>::empty());
    while q < rules.len()
        invariant
            q <= rv.len(),
            rv == rules.deep_view(),
            first_agg_violation(rv.subrange(0, q as int)) is None,
        decreases rules.len() - q,
    {
        let rule = &rules[q];
        assert(rv.subrange(0, q + 1).drop_last() =~= rv.subrange(0, q as int));
        assert(rv.subrange(0, q + 1).last() == rule.deep_view());
        if let Some(h) = head_pred_of(rule) {
            if body_reads_positively(rule, h) && body_has_aggregate(rule) {
                let mut m = String::from_str("PT511: aggregation in recursive rule head is not supported; rule predicate ");
                push_i64_decimal(&mut m, h);
                m.append(" appears in both the head and a body aggregate literal; use a two-step rule: first derive the base facts, then aggregate in a non-recursive rule");
                proof {
                    lemma_first_violation_prefix(rv, q as int + 1);
                }
                return Some(m);
            }
            if body_aggregates_over(rule, h) {
                let mut m = String::from_str("PT511: DL-AGG-01: aggregation in recursive rule head is not supported; the aggregate body atom references the head predicate ");
                push_i64_decimal(&mut m, h);
                m.append("; this creates a recursive aggregation cycle that produces incorrect results");
                proof {
                    lemma_first_violation_prefix(rv, q as int + 1);
                }
                return Some(m);
            }
        }
        q = q + 1;
    }
    assert(rv.subrange(0, rv.len() as int) =~= rv);
    None
}

/// A violation among the first `n` rules is the first violation of all.
proof fn lemma_first_violation_prefix(rv: Seq<RuleV<i64>>, n: int)
    requires
        0 <= n <= rv.len(),
        first_agg_violation(rv.subrange(0, n)) is Some,
    ensures
        first_agg_violation(rv) == first_agg_violation(rv.subrange(0, n)),
    decreases rv.len() - n,
{
    if n < rv.len() {
        assert(rv.subrange(0, n + 1).drop_last() =~= rv.subrange(0, n));
        lemma_first_violation_prefix(rv, n + 1);
    } else {
        assert(rv.subrange(0, n) =~= rv);
    }
}

// ─── Strata ──────────────────────────────────────────────────────────────────

/// A single stratum of the stratified program.
#[derive(Debug)]
pub struct Stratum {
    pub rules: Vec<Rule<i64>>,
    pub is_recursive: bool,
    /// The head predicates of the stratum's rules, each once.
    pub derived_predicates: Vec<i64>,
}

/// The stratified program: strata in execution order, stratum 0 first.
#[derive(Debug)]
pub struct StratifiedProgram {
    pub strata: Vec<Stratum>,
}

/// View of a [`Stratum`].
pub struct StratumV {
    pub rules: Seq<RuleV<i64>>,
    pub is_recursive: bool,
    pub derived_predicates: Seq<i64>,
}

impl Stratum {
    pub open spec fn view_stratum(&self) -> StratumV {
        StratumV {
            rules: self.rules.deep_view(),
            is_recursive: self.is_recursive,
            derived_predicates: self.derived_predicates@,
        }
    }
}

impl StratifiedProgram {
    pub open spec fn view_program(&self) -> Seq<StratumV> {
        Seq::new(self.strata@.len(), |i: int| self.strata@[i].view_stratum())
    }
}

/// The rules of `groups`, one group after another.
pub open spec fn flatten_groups(groups: Seq<Seq<RuleV<i64>>>) -> Seq<RuleV<i64>>
    decreases groups.len(),
{
    if groups.len() == 0 {
        Seq::empty()
    } else {
        flatten_groups(groups.drop_last()) + groups.last()
    }
}

/// The rules of the strata `ps`, stratum after stratum.
pub open spec fn program_rules(ps: Seq<StratumV>) -> Seq<RuleV<i64>> {
    flatten_groups(Seq::new(ps.len(), |i: int| ps[i].rules))
}

/// Some body literal of `r1` reads the head predicate of `r2`.
pub open spec fn depends_on(r1: RuleV<i64>, r2: RuleV<i64>) -> bool {
    exists|k: int| 0 <= k < rule_edges(r1).len() && head_pred(r2) == Some(#[trigger] rule_edges(r1)[k].to)
}

/// Some negated or aggregate body literal of `r1` reads the head predicate of `r2`.
pub open spec fn depends_negatively(r1: RuleV<i64>, r2: RuleV<i64>) -> bool {
    exists|k: int| 0 <= k < rule_edges(r1).len() && head_pred(r2) == Some(#[trigger] rule_edges(r1)[k].to)
        && rule_edges(r1)[k].negative
}

/// Every rule comes no earlier than the rules it reads, and strictly later
/// than the rules it reads through negation or aggregation.
pub open spec fn strata_ordered(ps: Seq<StratumV>) -> bool {
    &&& forall|i: int, j: int, t: int, u: int|
        0 <= i < ps.len() && 0 <= j < ps.len() && 0 <= t < ps[i].rules.len() && 0 <= u < ps[j].rules.len()
        && #[trigger] depends_on(ps[i].rules[t], ps[j].rules[u]) ==> j <= i
    &&& forall|i: int, j: int, t: int, u: int|
        0 <= i < ps.len() && 0 <= j < ps.len() && 0 <= t < ps[i].rules.len() && 0 <= u < ps[j].rules.len()
        && #[trigger] depends_negatively(ps[i].rules[t], ps[j].rules[u]) ==> j < i
}

/// `es` has a positive edge from `p` to itself.
pub open spec fn has_pos_self_loop(es: Seq<Edge>, p: i64) -> bool {
    exists|k: int| 0 <= k < es.len() && #[trigger] es[k] == (Edge { from: p, to: p, negative: false })
}

/// `p` is recursive: it reads itself positively or shares its component
/// with another predicate.
pub open spec fn recursive_pred(es: Seq<Edge>, p: i64) -> bool {
    has_pos_self_loop(es, p) || exists|q: i64| q != p && #[trigger] same_scc(es, p, q)
}

/// A stratum is non-empty, lists its head predicates once each, and is
/// recursive exactly when one of them is.
pub open spec fn stratum_ok(s: StratumV, es: Seq<Edge>) -> bool {
    &&& s.rules.len() > 0
    &&& s.derived_predicates.no_duplicates()
    &&& forall|p: i64| #[trigger] s.derived_predicates.contains(p)
        <==> exists|t: int| 0 <= t < s.rules.len() && head_pred(#[trigger] s.rules[t]) == Some(p)
    &&& s.is_recursive == exists|p: i64| #[trigger] s.derived_predicates.contains(p) && recursive_pred(es, p)
}

/// The nodes sharing a component with `x`.
pub open spec fn scc_set(es: Seq<Edge>, x: i64) -> Set<i64> {
    Set::new(|y: i64| same_scc(es, y, x))
}


proof fn lemma_flatten_push(gs: Seq<Seq<RuleV<i64>>>, b: int, x: RuleV<i64>)
    requires
        0 <= b < gs.len(),
    ensures
        flatten_groups(gs.update(b, gs[b].push(x))).to_multiset() =~= flatten_groups(gs).to_multiset().insert(x),
    decreases gs.len(),
{
    let gs2 = gs.update(b, gs[b].push(x));
    assert(gs2.last() == (if b == gs.len() - 1 { gs[b].push(x) } else { gs.last() }));
    if b == gs.len() - 1 {
        assert(gs2.drop_last() =~= gs.drop_last());
        assert(flatten_groups(gs2) =~= flatten_groups(gs).push(x));
        flatten_groups(gs).to_multiset_ensures();
    } else {
        assert(gs2.drop_last() =~= gs.drop_last().update(b, gs[b].push(x)));
        lemma_flatten_push(gs.drop_last(), b, x);
        vstd::seq_lib::lemma_multiset_commutative(flatten_groups(gs2.drop_last()), gs.last());
        vstd::seq_lib::lemma_multiset_commutative(flatten_groups(gs.drop_last()), gs.last());
        assert(flatten_groups(gs.drop_last()).to_multiset().insert(x).add(gs.last().to_multiset())
            =~= flatten_groups(gs.drop_last()).to_multiset().add(gs.last().to_multiset()).insert(x));
    }
}

proof fn lemma_flatten_empty_groups(n: int)
    requires
        0 <= n,
    ensures
        flatten_groups(Seq::new(n as nat, |i: int| Seq::<RuleV<i64>>::empty())) =~= Seq::<RuleV<i64>>::empty(),
    decreases n,
{
    if n > 0 {
        assert(Seq::new(n as nat, |i: int| Seq::<RuleV<i64>>::empty()).drop_last()
            =~= Seq::new((n - 1) as nat, |i: int| Seq::<RuleV<i64>>::empty()));
        lemma_flatten_empty_groups(n - 1);
    }
}

/// `x` is one of the first `n` rules of `rv`, and that rule has bucket `b`.
pub open spec fn came_from_before(x: RuleV<i64>, rv: Seq<RuleV<i64>>, bucket: Seq<usize>, b: int, n: int) -> bool {
    exists|q: int| 0 <= q < n && q < rv.len() && #[trigger] rv[q] == x && bucket[q] == b
}

/// `x` is one of the rules `rv` with bucket `b`.
pub open spec fn came_from(x: RuleV<i64>, rv: Seq<RuleV<i64>>, bucket: Seq<usize>, b: int) -> bool {
    came_from_before(x, rv, bucket, b, rv.len() as int)
}

/// Every rule of group `b` of `gs` is one of `rv` with bucket `b`.
pub open spec fn grouped_from(gs: Seq<Seq<RuleV<i64>>>, rv: Seq<RuleV<i64>>, bucket: Seq<usize>) -> bool {
    forall|b: int, t: int| 0 <= b < gs.len() && 0 <= t < gs[b].len() ==> #[trigger] came_from(gs[b][t], rv, bucket, b)
}

/// Moves the rules into `nb` groups, rule `q` into group `bucket[q]`, keeping
/// their order within each group.
fn group_rules(rules: Vec<Rule<i64>>, bucket: &Vec<usize>, nb: usize) -> (g: Vec<Vec<Rule<i64>>>)
    requires
        bucket@.len() == rules@.len(),
        forall|q: int| 0 <= q < bucket@.len() ==> #[trigger] bucket@[q] < nb,
    ensures
        g@.len() == nb,
        flatten_groups(g.deep_view()).to_multiset() == rules.deep_view().to_multiset(),
        grouped_from(g.deep_view(), rules.deep_view(), bucket@),
{
    let ghost rv = rules.deep_view();
    let ghost n = rv.len();
    let mut groups: Vec<Vec<Rule<i64>>> = Vec::new();
    let mut b: usize = 0;
    while b < nb
        invariant
            b <= nb,
            groups@.len() == b,
            forall|c: int| 0 <= c < b ==> #[trigger] groups@[c]@.len() == 0,
        decreases nb - b,
    {
        groups.push(Vec::new());
        b = b + 1;
    }
    proof {
        assert forall|c: int| 0 <= c < nb implies #[trigger] groups.deep_view()[c] =~= Seq::<RuleV<i64>>::empty() by {
            assert(groups.deep_view()[c] == groups@[c].deep_view());
        }
        assert(groups.deep_view() =~= Seq::new(nb as nat, |i: int| Seq::<RuleV<i64>>::empty()));
        lemma_flatten_empty_groups(nb as int);
        assert(rv.subrange(0, 0) =~= Seq::<RuleV<i64>>::empty());
        assert(flatten_groups(groups.deep_view()) == rv.subrange(0, 0));
    }
    let mut rest = rules;
    let mut q: usize = 0;
    assert(rest.deep_view() =~= rv.subrange(0, n as int));
    while q < bucket.len()
        invariant
            q <= n == bucket@.len(),
            n == rv.len(),
            rest.deep_view() == rv.subrange(q as int, n as int),
            groups@.len() == nb,
            forall|c: int| 0 <= c < bucket@.len() ==> #[trigger] bucket@[c] < nb,
            flatten_groups(groups.deep_view()).to_multiset() == rv.subrange(0, q as int).to_multiset(),
            forall|c: int, t: int| 0 <= c < nb && 0 <= t < groups.deep_view()[c].len()
                ==> #[trigger] came_from_before(groups.deep_view()[c][t], rv, bucket@, c, q as int),
        decreases bucket.len() - q,
    {
        let ghost old_rest = rest.deep_view();
        let ghost old_g = groups.deep_view();
        assert(rest@.len() == old_rest.len());
        let r = rest.remove(0);
        proof {
            assert(old_rest[0] == rv[q as int]);
            assert(rest.deep_view() =~= old_rest.drop_first());
        }
        let c = bucket[q];
        let ghost old_gv = groups@;
        groups[c].push(r);
        proof {
            assert forall|c2: int| 0 <= c2 < nb implies #[trigger] groups.deep_view()[c2]
                == old_g.update(c as int, old_g[c as int].push(r.deep_view()))[c2] by {
                assert(groups.deep_view()[c2] == groups@[c2].deep_view());
                assert(old_g[c2] == old_gv[c2].deep_view());
                if c2 == c as int {
                    assert(groups@[c2]@ == old_gv[c2]@.push(r));
                    assert(groups@[c2].deep_view() =~= old_gv[c2].deep_view().push(r.deep_view()));
                } else {
                    assert(groups@[c2] == old_gv[c2]);
                }
            }
            assert(groups.deep_view() =~= old_g.update(c as int, old_g[c as int].push(r.deep_view())));
            lemma_flatten_push(old_g, c as int, r.deep_view());
            assert(rv.subrange(0, q + 1) =~= rv.subrange(0, q as int).push(rv[q as int]));
            rv.subrange(0, q as int).to_multiset_ensures();
            assert forall|c2: int, t: int| 0 <= c2 < nb && 0 <= t < groups.deep_view()[c2].len()
                implies #[trigger] came_from_before(groups.deep_view()[c2][t], rv, bucket@, c2, q + 1) by {
                if c2 == c && t == old_g[c2].len() {
                    assert(rv[q as int] == groups.deep_view()[c2][t]);
                } else {
                    assert(groups.deep_view()[c2][t] == old_g[c2][t]);
                    assert(came_from_before(old_g[c2][t], rv, bucket@, c2, q as int));
                    let q2 = choose|q2: int| 0 <= q2 < q && q2 < rv.len() && #[trigger] rv[q2] == old_g[c2][t] && bucket@[q2] == c2;
                    assert(rv[q2] == groups.deep_view()[c2][t]);
                }
            }
        }
        q = q + 1;
    }
    assert(rv.subrange(0, n as int) =~= rv);
    proof {
        assert forall|b: int, t: int| 0 <= b < groups.deep_view().len() && 0 <= t < groups.deep_view()[b].len() implies
            #[trigger] came_from(groups.deep_view()[b][t], rv, bucket@, b) by {
            assert(came_from_before(groups.deep_view()[b][t], rv, bucket@, b, q as int));
        }
    }
    groups
}


proof fn lemma_reach_other_has_out_edge(es: Seq<Edge>, a: i64, b: i64)
    requires
        reaches(es, a, b),
        a != b,
    ensures
        exists|k: int| 0 <= k < es.len() && #[trigger] es[k].from == a,
{
    let p = choose|p: Seq<i64>| #[trigger] is_path(es, p, a, b);
    assert(p.len() >= 2);
    let i = 0int;
    assert(has_edge(es, p[i], p[i + 1]));
    let k = choose|k: int| #[trigger] edge_at(es, k, p[0], p[1]);
    assert(es[k].from == a);
}

/// Whether `p` is recursive: it reads itself positively, or its component
/// holds another predicate.
fn pred_is_recursive(p: i64, sccs: &Vec<Vec<i64>>, edges: &Vec<Edge>, Ghost(nodes): Ghost<Seq<i64>>) -> (r: bool)
    requires
        is_scc_partition(sccs.deep_view(), nodes, edges@),
        covered(sccs.deep_view(), p),
    ensures
        r == recursive_pred(edges@, p),
{
    let ghost cs = sccs.deep_view();
    let ghost es = edges@;
    let mut k: usize = 0;
    while k < edges.len()
        invariant
            k <= es.len(),
            es == edges@,
            forall|k2: int| 0 <= k2 < k ==> #[trigger] es[k2] != (Edge { from: p, to: p, negative: false }),
        decreases edges.len() - k,
    {
        let e = edges[k];
        if e.from == p && e.to == p && !e.negative {
            proof {
                assert(es[k as int] == (Edge { from: p, to: p, negative: false }));
            }
            return true;
        }
        k = k + 1;
    }
    let i = scc_index_of(sccs, p);
    let big = sccs[i].len() > 1;
    proof {
        lemma_partition_covers(cs, nodes, es);
        assert(cs[i as int] == sccs@[i as int]@);
        assert(cs[i as int].no_duplicates());
        if big {
            let c = cs[i as int];
            let q = if c[0] != p { c[0] } else { c[1] };
            assert(c[0] != c[1]);
            assert(in_scc(cs, i as int, q));
            assert(in_scc(cs, i as int, p));
            assert(same_scc(es, p, q));
        } else {
            assert forall|q: i64| q != p implies !#[trigger] same_scc(es, p, q) by {
                if same_scc(es, p, q) {
                    lemma_reach_other_has_out_edge(es, q, p);
                    let k = choose|k: int| 0 <= k < es.len() && #[trigger] es[k].from == q;
                    assert(covered(cs, es[k].from));
                    let j = choose|j: int| #[trigger] in_scc(cs, j, q);
                    assert(in_scc(cs, i as int, p));
                    lemma_same_scc_symm(es, p, q);
                    assert(j == i as int);
                    let c = cs[i as int];
                    assert(c.len() == 1);
                    let a = choose|a: int| 0 <= a < c.len() && c[a] == q;
                    let b = choose|b: int| 0 <= b < c.len() && c[b] == p;
                }
            }
        }
    }
    big
}

/// The predicates that `rules` derive (their constant head predicates), each
/// once.
pub fn derived_pred_ids(rules: &Vec<Rule<i64>>) -> (d: Vec<i64>)
    ensures
        d@.no_duplicates(),
        forall|p: i64| #[trigger] d@.contains(p) <==> exists|t: int| 0 <= t < rules.deep_view().len()
            && head_pred(#[trigger] rules.deep_view()[t]) == Some(p),
{
    let ghost rv = rules.deep_view();
    let mut d: Vec<i64> = Vec::new();
    let mut t: usize = 0;
    while t < rules.len()
        invariant
            t <= rv.len(),
            rv == rules.deep_view(),
            d@.no_duplicates(),
            forall|p: i64| #[trigger] d@.contains(p) <==> exists|t2: int| 0 <= t2 < t && head_pred(#[trigger] rv[t2]) == Some(p),
        decreases rules.len() - t,
    {
        assert(rv[t as int] == rules@[t as int].deep_view());
        let ghost old_d = d@;
        match head_pred_of(&rules[t]) {
            Some(h) => push_new(&mut d, h),
            None => {},
        }
        proof {
            assert forall|p: i64| #[trigger] d@.contains(p) <==> exists|t2: int| 0 <= t2 < t + 1 && head_pred(#[trigger] rv[t2]) == Some(p) by {
                if exists|t2: int| 0 <= t2 < t + 1 && head_pred(#[trigger] rv[t2]) == Some(p) {
                    let t2 = choose|t2: int| 0 <= t2 < t + 1 && head_pred(#[trigger] rv[t2]) == Some(p);
                    if t2 < t {
                        assert(old_d.contains(p));
                    }
                }
                if old_d.contains(p) {
                    let t2 = choose|t2: int| 0 <= t2 < t && head_pred(#[trigger] rv[t2]) == Some(p);
                    assert(0 <= t2 < t + 1);
                }
            }
        }
        t = t + 1;
    }
    d
}

/// Builds the strata from the non-empty groups, in group order.
#[verifier::spinoff_prover]
fn build_strata(groups: Vec<Vec<Rule<i64>>>, sccs: &Vec<Vec<i64>>, edges: &Vec<Edge>, Ghost(nodes): Ghost<Seq<i64>>)
    -> (r: (Vec<Stratum>, Ghost<Seq<int>>))
    requires
        is_scc_partition(sccs.deep_view(), nodes, edges@),
        forall|b: int, t: int| 0 <= b < groups.deep_view().len() && 0 <= t < groups.deep_view()[b].len()
            ==> (#[trigger] head_pred(groups.deep_view()[b][t]) matches Some(p) ==> covered(sccs.deep_view(), p)),
    ensures
        r.1@.len() == r.0@.len(),
        forall|i: int| 0 <= i < r.1@.len() ==> 0 <= #[trigger] r.1@[i] < groups.deep_view().len(),
        forall|i: int, j: int| 0 <= i < j < r.1@.len() ==> r.1@[i] < r.1@[j],
        forall|i: int| 0 <= i < r.0@.len() ==> #[trigger] r.0@[i].rules.deep_view() == groups.deep_view()[r.1@[i]],
        forall|i: int| 0 <= i < r.0@.len() ==> stratum_ok(#[trigger] r.0@[i].view_stratum(), edges@),
        program_rules(Seq::new(r.0@.len(), |i: int| r.0@[i].view_stratum())) == flatten_groups(groups.deep_view()),
{
    let ghost gv = groups.deep_view();
    let ghost n = gv.len();
    let mut rest = groups;
    let total = rest.len();
    let mut out: Vec<Stratum> = Vec::new();
    let ghost mut bo: Seq<int> = Seq::empty();
    let mut b: usize = 0;
    assert(rest.deep_view() =~= gv.subrange(0, n as int));
    proof {
        assert(Seq::new(0, |i: int| out@[i].view_stratum()) =~= Seq::<StratumV>::empty());
        assert(Seq::new(0nat, |i: int| Seq::new(0, |i: int| out@[i].view_stratum())[i].rules) =~= Seq::<Seq<RuleV<i64>>>::empty());
        assert(gv.subrange(0, 0) =~= Seq::<Seq<RuleV<i64>>>::empty());
    }
    while rest.len() > 0
        invariant
            b as int + rest.deep_view().len() == n,
            n == gv.len(),
            n == total,
            rest.deep_view() == gv.subrange(b as int, n as int),
            is_scc_partition(sccs.deep_view(), nodes, edges@),
            forall|b2: int, t: int| 0 <= b2 < gv.len() && 0 <= t < gv[b2].len()
                ==> (#[trigger] head_pred(gv[b2][t]) matches Some(p) ==> covered(sccs.deep_view(), p)),
            bo.len() == out@.len(),
            forall|i: int| 0 <= i < bo.len() ==> 0 <= #[trigger] bo[i] < b,
            forall|i: int, j: int| 0 <= i < j < bo.len() ==> bo[i] < bo[j],
            forall|i: int| 0 <= i < out@.len() ==> #[trigger] out@[i].rules.deep_view() == gv[bo[i]],
            forall|i: int| 0 <= i < out@.len() ==> stratum_ok(#[trigger] out@[i].view_stratum(), edges@),
            program_rules(Seq::new(out@.len(), |i: int| out@[i].view_stratum())) == flatten_groups(gv.subrange(0, b as int)),
        decreases rest.len(),
    {
        let ghost old_rest = rest.deep_view();
        let ghost old_rest_v = rest@;
        assert(rest@.len() == old_rest.len());
        let g = rest.remove(0);
        proof {
            assert(g == old_rest_v[0]);
            assert(old_rest[0] == old_rest_v[0].deep_view());
            assert(old_rest[0] == gv[b as int]);
            assert(rest.deep_view() =~= old_rest.drop_first());
            assert(gv.subrange(0, b + 1).drop_last() =~= gv.subrange(0, b as int));
            assert(gv.subrange(0, b + 1).last() == gv[b as int]);
        }
        let ghost old_out = Seq::new(out@.len(), |i: int| out@[i].view_stratum());
        if g.len() > 0 {
            let d = derived_pred_ids(&g);
            let mut rec = false;
            let mut j: usize = 0;
            while j < d.len()
                invariant
                    j <= d@.len(),
                    is_scc_partition(sccs.deep_view(), nodes, edges@),
                    forall|p: i64| #[trigger] d@.contains(p) ==> covered(sccs.deep_view(), p),
                    rec == exists|j2: int| 0 <= j2 < j && recursive_pred(edges@, #[trigger] d@[j2]),
                decreases d.len() - j,
            {
                assert(d@.contains(d@[j as int]));
                if pred_is_recursive(d[j], sccs, edges, Ghost(nodes)) {
                    rec = true;
                }
                j = j + 1;
            }
            proof {
                assert(rec == exists|p: i64| #[trigger] d@.contains(p) && recursive_pred(edges@, p)) by {
                    if rec {
                        let j2 = choose|j2: int| 0 <= j2 < d@.len() && recursive_pred(edges@, #[trigger] d@[j2]);
                        assert(d@.contains(d@[j2]));
                    }
                    if exists|p: i64| #[trigger] d@.contains(p) && recursive_pred(edges@, p) {
                        let p = choose|p: i64| #[trigger] d@.contains(p) && recursive_pred(edges@, p);
                        let j2 = choose|j2: int| 0 <= j2 < d@.len() && d@[j2] == p;
                        assert(recursive_pred(edges@, d@[j2]));
                    }
                }
            }
            let st = Stratum { rules: g, is_recursive: rec, derived_predicates: d };
            proof {
                assert(st.rules.deep_view() == gv[b as int]);
                let sv = st.view_stratum();
                assert(sv.rules == g.deep_view());
                assert(sv.derived_predicates == d@);
                assert(sv.rules.len() > 0);
                assert(forall|p: i64| #[trigger] sv.derived_predicates.contains(p)
                    <==> exists|t: int| 0 <= t < sv.rules.len() && head_pred(#[trigger] sv.rules[t]) == Some(p));
                assert(sv.is_recursive == exists|p: i64| #[trigger] sv.derived_predicates.contains(p) && recursive_pred(edges@, p));
                assert(stratum_ok(st.view_stratum(), edges@));
                bo = bo.push(b as int);
            }
            out.push(st);
            proof {
                let nv = Seq::new(out@.len(), |i: int| out@[i].view_stratum());
                assert(nv =~= old_out.push(st.view_stratum()));
                let ng = Seq::new(nv.len(), |i: int| nv[i].rules);
                assert(ng.drop_last() =~= Seq::new(old_out.len(), |i: int| old_out[i].rules));
                assert(flatten_groups(ng) == flatten_groups(ng.drop_last()) + ng.last());
            }
        } else {
            proof {
                assert(gv[b as int] =~= Seq::<RuleV<i64>>::empty());
                assert(flatten_groups(gv.subrange(0, b + 1)) =~= flatten_groups(gv.subrange(0, b as int)));
            }
        }
        b = b + 1;
    }
    assert(gv.subrange(0, n as int) =~= gv);
    (out, Ghost(bo))
}


// ─── Stratification ──────────────────────────────────────────────────────────

proof fn lemma_literal_edges_from(h: i64, lits: Seq<LiteralV<i64>>, k: int)
    requires
        0 <= k < literal_edges(h, lits).len(),
    ensures
        literal_edges(h, lits)[k].from == h,
    decreases lits.len(),
{
    if lits.len() > 0 {
        let pre = literal_edges(h, lits.drop_last());
        if k < pre.len() {
            lemma_literal_edges_from(h, lits.drop_last(), k);
        }
    }
}

proof fn lemma_rule_edges_head(r: RuleV<i64>, k: int)
    requires
        0 <= k < rule_edges(r).len(),
    ensures
        head_pred(r) == Some(rule_edges(r)[k].from),
{
    match head_pred(r) {
        Some(h) => lemma_literal_edges_from(h, r.body, k),
        None => {},
    }
}

proof fn lemma_dep_edge_in(rv: Seq<RuleV<i64>>, q: int, k: int)
    requires
        0 <= q < rv.len(),
        0 <= k < rule_edges(rv[q]).len(),
    ensures
        exists|k2: int| 0 <= k2 < dependency_edges(rv).len() && #[trigger] dependency_edges(rv)[k2] == rule_edges(rv[q])[k],
    decreases rv.len(),
{
    let pre = dependency_edges(rv.drop_last());
    if q == rv.len() - 1 {
        assert(dependency_edges(rv)[pre.len() + k] == rule_edges(rv[q])[k]);
    } else {
        assert(rv.drop_last()[q] == rv[q]);
        lemma_dep_edge_in(rv.drop_last(), q, k);
        let k2 = choose|k2: int| 0 <= k2 < pre.len() && #[trigger] pre[k2] == rule_edges(rv[q])[k];
        assert(dependency_edges(rv)[k2] == pre[k2]);
    }
}

/// The component `i` holding `x` is the set of nodes sharing a component with `x`.
proof fn lemma_scc_is_class(cs: Seq<Seq<i64>>, nodes: Seq<i64>, es: Seq<Edge>, i: int, x: i64)
    requires
        is_scc_partition(cs, nodes, es),
        in_scc(cs, i, x),
    ensures
        cs[i].to_set() == scc_set(es, x),
{
    lemma_partition_covers(cs, nodes, es);
    assert forall|y: i64| cs[i].to_set().contains(y) <==> scc_set(es, x).contains(y) by {
        if cs[i].contains(y) {
            assert(in_scc(cs, i, y));
        }
        if same_scc(es, y, x) {
            if y == x {
                assert(in_scc(cs, i, y));
            } else {
                lemma_reach_other_has_out_edge(es, y, x);
                let k = choose|k: int| 0 <= k < es.len() && #[trigger] es[k].from == y;
                assert(covered(cs, es[k].from));
                let j = choose|j: int| #[trigger] in_scc(cs, j, y);
                assert(j == i);
            }
        }
    }
    assert(cs[i].to_set() =~= scc_set(es, x));
}

/// Rule view `r` sits in bucket `b`: the stratum number of the component of
/// its head predicate, or 0 without one.
pub open spec fn bucket_ok(cs: Seq<Seq<i64>>, rank: Seq<usize>, r: RuleV<i64>, b: usize) -> bool {
    match head_pred(r) {
        Some(p) => exists|i: int| #[trigger] in_scc(cs, i, p) && b == rank[i],
        None => b == 0,
    }
}

/// Stratum numbers that place a component after those it depends on.
pub open spec fn rank_respects(cs: Seq<Seq<i64>>, es: Seq<Edge>, rank: Seq<usize>) -> bool {
    forall|k: int, i: int, j: int| #[trigger] in_scc(cs, i, es[k].from) && #[trigger] in_scc(cs, j, es[k].to)
        && 0 <= k < es.len() ==> (i != j ==> rank[j] < rank[i]) && (i == j ==> !es[k].negative)
}

proof fn lemma_bucket_order(
    rv: Seq<RuleV<i64>>,
    cs: Seq<Seq<i64>>,
    nodes: Seq<i64>,
    rank: Seq<usize>,
    bucket: Seq<usize>,
    r1: RuleV<i64>,
    b1: int,
    r2: RuleV<i64>,
    b2: int,
)
    requires
        is_scc_partition(cs, nodes, dependency_edges(rv)),
        rank_respects(cs, dependency_edges(rv), rank),
        bucket.len() == rv.len(),
        forall|q: int| 0 <= q < rv.len() ==> #[trigger] bucket_ok(cs, rank, rv[q], bucket[q]),
        came_from(r1, rv, bucket, b1),
        came_from(r2, rv, bucket, b2),
    ensures
        depends_on(r1, r2) ==> b2 <= b1,
        depends_negatively(r1, r2) ==> b2 < b1,
{
    let es = dependency_edges(rv);
    let q1 = choose|q: int| 0 <= q < rv.len() && q < rv.len() && #[trigger] rv[q] == r1 && bucket[q] == b1;
    let q2 = choose|q: int| 0 <= q < rv.len() && q < rv.len() && #[trigger] rv[q] == r2 && bucket[q] == b2;
    assert(bucket_ok(cs, rank, rv[q1], bucket[q1]));
    assert(bucket_ok(cs, rank, rv[q2], bucket[q2]));
    if depends_on(r1, r2) {
        let k = choose|k: int| 0 <= k < rule_edges(r1).len() && head_pred(r2) == Some(#[trigger] rule_edges(r1)[k].to);
        let e = rule_edges(r1)[k];
        lemma_rule_edges_head(r1, k);
        lemma_dep_edge_in(rv, q1, k);
        let k2 = choose|k2: int| 0 <= k2 < es.len() && #[trigger] es[k2] == rule_edges(rv[q1])[k];
        let i1 = choose|i: int| #[trigger] in_scc(cs, i, e.from) && b1 == rank[i];
        let i2 = choose|i: int| #[trigger] in_scc(cs, i, e.to) && b2 == rank[i];
        assert(in_scc(cs, i1, es[k2].from) && in_scc(cs, i2, es[k2].to));
        if depends_negatively(r1, r2) {
            let kn = choose|kn: int| 0 <= kn < rule_edges(r1).len() && head_pred(r2) == Some(#[trigger] rule_edges(r1)[kn].to)
                && rule_edges(r1)[kn].negative;
            let en = rule_edges(r1)[kn];
            lemma_rule_edges_head(r1, kn);
            lemma_dep_edge_in(rv, q1, kn);
            let kn2 = choose|kn2: int| 0 <= kn2 < es.len() && #[trigger] es[kn2] == rule_edges(rv[q1])[kn];
            let j1 = choose|i: int| #[trigger] in_scc(cs, i, en.from) && b1 == rank[i];
            let j2 = choose|i: int| #[trigger] in_scc(cs, i, en.to) && b2 == rank[i];
            assert(in_scc(cs, j1, es[kn2].from) && in_scc(cs, j2, es[kn2].to));
        }
    }
}

/// The program's strata hold exactly the input rules, each stratum is
/// well formed, and the strata are in dependency order.
pub open spec fn program_ok(ps: Seq<StratumV>, rv: Seq<RuleV<i64>>) -> bool {
    &&& program_rules(ps).to_multiset() == rv.to_multiset()
    &&& forall|i: int| 0 <= i < ps.len() ==> stratum_ok(#[trigger] ps[i], dependency_edges(rv))
    &&& strata_ordered(ps)
}

/// The outcome of [`stratify`] as values.
pub open spec fn outcome_view(r: Result<StratifiedProgram, String>) -> Result<Seq<StratumV>, Seq<char>> {
    match r {
        Ok(p) => Ok(p.view_program()),
        Err(m) => Err(m@),
    }
}

/// What [`stratify`] gives for the rules `rv`: no strata for no rules; the
/// first aggregation error; a report of the first edge that closes a cycle
/// through negation; otherwise a well-formed program in dependency order.
pub open spec fn stratify_outcome(rv: Seq<RuleV<i64>>, r: Result<Seq<StratumV>, Seq<char>>) -> bool {
    let es = dependency_edges(rv);
    if rv.len() == 0 {
        r == Ok::<Seq<StratumV>, Seq<char>>(Seq::empty())
    } else if first_agg_violation(rv) is Some {
        r == Err::<Seq<StratumV>, Seq<char>>(first_agg_violation(rv)->0)
    } else if exists|k: int| #[trigger] is_cycle_edge(es, k) {
        match r {
            Ok(_) => false,
            Err(m) => exists|k: int| #[trigger] is_first_cycle_edge(es, k) && exists|t: Seq<char>|
                m == cycle_error(t) && #[trigger] is_cycle_report(t, es, scc_set(es, es[k].from), k),
        }
    } else {
        match r {
            Ok(ps) => program_ok(ps, rv),
            Err(_) => false,
        }
    }
}

/// Stratifies a Datalog rule set.
///
/// Returns the strata in execution order (stratum 0 first): every rule
/// comes no earlier than the rules it reads and strictly after the rules it
/// reads through negation or aggregation.  Fails on aggregation in a
/// recursive rule head and on cycles through negation.
pub fn stratify(rules: Vec<Rule<i64>>) -> (r: Result<StratifiedProgram, String>)
    ensures
        stratify_outcome(rules.deep_view(), outcome_view(r)),
{
    let ghost rv = rules.deep_view();
    if rules.len() == 0 {
        let p = StratifiedProgram { strata: Vec::new() };
        assert(p.view_program() =~= Seq::<StratumV>::empty());
        return Ok(p);
    }
    let rs = rules.as_slice();
    assert(rs.deep_view() =~= rv);
    if let Some(m) = check_recursive_aggregation(rs) {
        return Err(m);
    }
    let nodes = collect_predicates(rs);
    let edges = build_dependency_graph(rs);
    let ghost es = edges@;
    let sccs = compute_sccs(&nodes, &edges);
    let ghost cs = sccs.deep_view();
    proof {
        lemma_partition_covers(cs, nodes@, es);
    }
    let rank = match topo_sort_sccs(&sccs, &edges) {
        Ok(rank) => rank,
        Err(m) => {
            proof {
                let k = choose|k: int, i: int| #[trigger] is_first_cycle_edge(es, k) && #[trigger] in_scc(cs, i, es[k].from)
                    && exists|t: Seq<char>| m@ == cycle_error(t) && #[trigger] is_cycle_report(t, es, cs[i].to_set(), k);
                let (k, i) = k;
                lemma_scc_is_class(cs, nodes@, es, i, es[k].from);
                assert(is_cycle_edge(es, k));
            }
            return Err(m);
        },
    };
    let nb: usize = if sccs.len() == 0 { 1 } else { sccs.len() };
    let mut bucket: Vec<usize> = Vec::new();
    let mut q: usize = 0;
    while q < rules.len()
        invariant
            q <= rv.len(),
            rv == rules.deep_view(),
            cs == sccs.deep_view(),
            es == edges@,
            es == dependency_edges(rv),
            is_scc_partition(cs, nodes@, es),
            forall|p: i64| nodes@.contains(p) <==> is_predicate_of(rv, p),
            rank@.len() == cs.len(),
            forall|i: int| 0 <= i < rank@.len() ==> #[trigger] rank@[i] < cs.len(),
            nb == (if cs.len() == 0 { 1 } else { cs.len() }),
            bucket@.len() == q,
            forall|q2: int| 0 <= q2 < q ==> #[trigger] bucket_ok(cs, rank@, rv[q2], bucket@[q2]),
            forall|q2: int| 0 <= q2 < q ==> #[trigger] bucket@[q2] < nb,
        decreases rules.len() - q,
    {
        assert(rv[q as int] == rules@[q as int].deep_view());
        match head_pred_of(&rules[q]) {
            Some(p) => {
                proof {
                    assert(rule_mentions(rv[q as int], p));
                    assert(is_predicate_of(rv, p));
                    assert(nodes@.contains(p));
                    assert(in_graph(nodes@, es, p));
                }
                let i = scc_index_of(&sccs, p);
                bucket.push(rank[i]);
            },
            None => {
                bucket.push(0);
            },
        }
        q = q + 1;
    }
    let groups = group_rules(rules, &bucket, nb);
    let ghost gv = groups.deep_view();
    proof {
        assert forall|b: int, t: int| 0 <= b < gv.len() && 0 <= t < gv[b].len()
            implies (#[trigger] head_pred(gv[b][t]) matches Some(p) ==> covered(cs, p)) by {
            assert(came_from(gv[b][t], rv, bucket@, b));
            let q1 = choose|q1: int| 0 <= q1 < rv.len() && q1 < rv.len() && #[trigger] rv[q1] == gv[b][t] && bucket@[q1] == b;
            assert(bucket_ok(cs, rank@, rv[q1], bucket@[q1]));
        }
    }
    let (strata, Ghost(bo)) = build_strata(groups, &sccs, &edges, Ghost(nodes@));
    let prog = StratifiedProgram { strata };
    proof {
        let ps = prog.view_program();
        assert(ps =~= Seq::new(prog.strata@.len(), |i: int| prog.strata@[i].view_stratum()));
        assert(rank_respects(cs, es, rank@));
        assert forall|i: int| 0 <= i < ps.len() implies stratum_ok(#[trigger] ps[i], dependency_edges(rv)) by {
            assert(ps[i] == prog.strata@[i].view_stratum());
        }
        assert forall|i: int, j: int, t: int, u: int|
            0 <= i < ps.len() && 0 <= j < ps.len() && 0 <= t < ps[i].rules.len() && 0 <= u < ps[j].rules.len()
            implies (depends_on(ps[i].rules[t], ps[j].rules[u]) ==> j <= i)
                && (depends_negatively(ps[i].rules[t], ps[j].rules[u]) ==> j < i) by {
            assert(ps[i].rules == gv[bo[i]]);
            assert(ps[j].rules == gv[bo[j]]);
            assert(came_from(gv[bo[i]][t], rv, bucket@, bo[i]));
            assert(came_from(gv[bo[j]][u], rv, bucket@, bo[j]));
            lemma_bucket_order(rv, cs, nodes@, rank@, bucket@, ps[i].rules[t], bo[i], ps[j].rules[u], bo[j]);
            if j > i {
                assert(bo[i] < bo[j]);
            }
            if i > j {
                assert(bo[j] < bo[i]);
            }
        }
        assert(strata_ordered(ps));
        assert(program_rules(ps) == flatten_groups(gv));
        assert(!exists|k: int| #[trigger] is_cycle_edge(es, k));
        assert(program_ok(ps, rv));
    }
    Ok(prog)
}


// ─── Subsumption ─────────────────────────────────────────────────────────────

/// How many times `x` occurs in `s`.
pub open spec fn occurrences(s: Seq<i64>, x: i64) -> nat
    decreases s.len(),
{
    if s.len() == 0 {
        0
    } else {
        occurrences(s.drop_last(), x) + (if s.last() == x { 1nat } else { 0nat })
    }
}

/// Every element occurs in `b` at least as often as in `a`.
pub open spec fn multiset_subset(a: Seq<i64>, b: Seq<i64>) -> bool {
    forall|x: i64| #[trigger] occurrences(a, x) <= occurrences(b, x)
}

proof fn lemma_occurs_in(s: Seq<i64>, x: i64)
    requires
        occurrences(s, x) > 0,
    ensures
        s.contains(x),
    decreases s.len(),
{
    if s.last() != x {
        lemma_occurs_in(s.drop_last(), x);
        let i = choose|i: int| 0 <= i < s.drop_last().len() && s.drop_last()[i] == x;
        assert(s[i] == x);
    } else {
        assert(s[s.len() - 1] == x);
    }
}

fn count_of(v: &[i64], x: i64) -> (c: usize)
    ensures
        c as int == occurrences(v@, x),
{
    let mut c: usize = 0;
    let mut j: usize = 0;
    assert(v@.subrange(0, 0) =~= Seq::<i64>::empty());
    while j < v.len()
        invariant
            j <= v@.len(),
            c <= j,
            c as int == occurrences(v@.subrange(0, j as int), x),
        decreases v.len() - j,
    {
        assert(v@.subrange(0, j + 1).drop_last() =~= v@.subrange(0, j as int));
        if v[j] == x {
            c = c + 1;
        }
        j = j + 1;
    }
    assert(v@.subrange(0, v@.len() as int) =~= v@);
    c
}

/// Whether `a` is a multiset subset of `b`: every element of `a` appears at
/// least as many times in `b`.
pub fn is_multiset_subset(a: &[i64], b: &[i64]) -> (r: bool)
    ensures
        r == multiset_subset(a@, b@),
{
    let mut i: usize = 0;
    while i < a.len()
        invariant
            i <= a@.len(),
            forall|k: int| 0 <= k < i ==> occurrences(a@, #[trigger] a@[k]) <= occurrences(b@, a@[k]),
        decreases a.len() - i,
    {
        let ca = count_of(a, a[i]);
        let cb = count_of(b, a[i]);
        if ca > cb {
            proof {
                assert(!(occurrences(a@, a@[i as int]) <= occurrences(b@, a@[i as int])));
            }
            return false;
        }
        i = i + 1;
    }
    proof {
        assert forall|x: i64| #[trigger] occurrences(a@, x) <= occurrences(b@, x) by {
            if occurrences(a@, x) > 0 {
                lemma_occurs_in(a@, x);
                let k = choose|k: int| 0 <= k < a@.len() && a@[k] == x;
                assert(occurrences(a@, a@[k]) <= occurrences(b@, a@[k]));
            }
        }
    }
    true
}

/// The predicates of the positive body atoms of `lits`, in order.
pub open spec fn positive_preds(lits: Seq<LiteralV<i64>>) -> Seq<i64>
    decreases lits.len(),
{
    if lits.len() == 0 {
        Seq::empty()
    } else {
        let pre = positive_preds(lits.drop_last());
        match lits.last() {
            LiteralV::Positive(a) => match atom_pred(a) {
                Some(p) => pre.push(p),
                None => pre,
            },
            _ => pre,
        }
    }
}

/// A variable substitution: each variable of one rule with the term of
/// another rule that it stands for.
pub type SubstV = Seq<(Seq<char>, TermV<i64>)>;

/// The term that `v` is bound to in `th` (its first binding).
pub open spec fn binding_of(th: SubstV, v: Seq<char>) -> Option<TermV<i64>>
    decreases th.len(),
{
    if th.len() == 0 {
        None
    } else if th[0].0 == v {
        Some(th[0].1)
    } else {
        binding_of(th.drop_first(), v)
    }
}

/// `th` extended so that the term `t1` of the general rule stands for the
/// term `t2` of the other rule, or `None` when it cannot: a variable takes
/// the term it is bound to or binds to `t2` (never to an anonymous `?_`,
/// whose occurrences are unrelated); `?_` matches anything; a constant or
/// the default graph matches only itself.
pub open spec fn match_term(th: SubstV, t1: TermV<i64>, t2: TermV<i64>) -> Option<SubstV> {
    match t1 {
        TermV::Var(v) => match binding_of(th, v) {
            Some(x) => if x == t2 { Some(th) } else { None },
            None => if t2 is Wildcard { None } else { Some(th.push((v, t2))) },
        },
        TermV::Wildcard => Some(th),
        TermV::Const(c) => if t2 == TermV::<i64>::Const(c) { Some(th) } else { None },
        TermV::DefaultGraph => if t2 is DefaultGraph { Some(th) } else { None },
    }
}

/// `th` extended so that atom `a1` maps onto atom `a2` position by position.
pub open spec fn match_atom(th: SubstV, a1: AtomV<i64>, a2: AtomV<i64>) -> Option<SubstV> {
    match match_term(th, a1.s, a2.s) {
        Some(t) => match match_term(t, a1.p, a2.p) {
            Some(t) => match match_term(t, a1.o, a2.o) {
                Some(t) => match_term(t, a1.g, a2.g),
                None => None,
            },
            None => None,
        },
        None => None,
    }
}

/// The atoms `b1[k..]` map, under an extension of `th`, onto atoms of `b2`,
/// the atom `b1[k]` onto one of `b2[j..]`.
pub open spec fn embeds_from(b1: Seq<AtomV<i64>>, k: int, b2: Seq<AtomV<i64>>, th: SubstV, j: int) -> bool
    decreases b1.len() - k, b2.len() - j,
{
    if k < 0 || k >= b1.len() {
        true
    } else if j < 0 || j >= b2.len() {
        false
    } else {
        (match match_atom(th, b1[k], b2[j]) {
            Some(t) => embeds_from(b1, k + 1, b2, t, 0),
            None => false,
        }) || embeds_from(b1, k, b2, th, j + 1)
    }
}

/// The positive body atoms of `lits`, in order.
pub open spec fn positive_atoms(lits: Seq<LiteralV<i64>>) -> Seq<AtomV<i64>>
    decreases lits.len(),
{
    if lits.len() == 0 {
        Seq::empty()
    } else {
        let pre = positive_atoms(lits.drop_last());
        match lits.last() {
            LiteralV::Positive(a) => pre.push(a),
            _ => pre,
        }
    }
}

/// Every body literal of `lits` is a positive atom.
pub open spec fn all_positive(lits: Seq<LiteralV<i64>>) -> bool {
    forall|k: int| 0 <= k < lits.len() ==> #[trigger] lits[k] is Positive
}

/// Rule `r1` is at least as general as rule `r2`: its body holds positive
/// atoms only, and one substitution of its variables maps its head onto
/// `r2`'s head and each of its body atoms onto a positive body atom of `r2`.
/// Whenever `r2` fires, `r1` then fires with the same head fact.
pub open spec fn rule_embeds(r1: RuleV<i64>, r2: RuleV<i64>) -> bool {
    match (r1.head, r2.head) {
        (Some(h1), Some(h2)) => all_positive(r1.body) && match match_atom(Seq::empty(), h1, h2) {
            Some(t) => embeds_from(positive_atoms(r1.body), 0, positive_atoms(r2.body), t, 0),
            None => false,
        },
        _ => false,
    }
}

/// Rule `i` makes rule `j` redundant: both have a constant head predicate,
/// rule `i` is at least as general as rule `j`, and either rule `j` is not
/// as general as rule `i` or the two are variants and rule `i` comes first.
pub open spec fn subsumes(rv: Seq<RuleV<i64>>, i: int, j: int) -> bool {
    &&& i != j
    &&& head_pred(rv[i]) is Some
    &&& head_pred(rv[j]) is Some
    &&& rule_embeds(rv[i], rv[j])
    &&& (i < j || !rule_embeds(rv[j], rv[i]))
}

/// The rule texts of the rules, among the first `m`, that another rule subsumes.
pub open spec fn eliminated_texts(rv: Seq<RuleV<i64>>, m: int) -> Seq<Seq<char>>
    decreases m,
{
    if m <= 0 {
        Seq::empty()
    } else {
        let pre = eliminated_texts(rv, m - 1);
        if exists|i: int| 0 <= i < rv.len() && #[trigger] subsumes(rv, i, m - 1) {
            pre.push(rv[m - 1].rule_text)
        } else {
            pre
        }
    }
}

/// The view of an executable substitution.
pub open spec fn subst_view(th: Seq<(String, Term<i64>)>) -> SubstV {
    Seq::new(th.len(), |i: int| (th[i].0@, th[i].1.deep_view()))
}

fn term_same(a: &Term<i64>, b: &Term<i64>) -> (r: bool)
    ensures
        r == (a.deep_view() == b.deep_view()),
{
    match (a, b) {
        (Term::Var(x), Term::Var(y)) => crate::text::str_eq(x.as_str(), y.as_str()),
        (Term::Const(x), Term::Const(y)) => *x == *y,
        (Term::Wildcard, Term::Wildcard) => true,
        (Term::DefaultGraph, Term::DefaultGraph) => true,
        _ => false,
    }
}

fn binding_in(th: &Vec<(String, Term<i64>)>, v: &String) -> (r: Option<usize>)
    ensures
        match r {
            Some(i) => i < th@.len() && binding_of(subst_view(th@), v@) == Some(th@[i as int].1.deep_view()),
            None => binding_of(subst_view(th@), v@) is None,
        },
{
    let ghost sv = subst_view(th@);
    let mut i: usize = 0;
    assert(sv.subrange(0, sv.len() as int) =~= sv);
    while i < th.len()
        invariant
            i <= th@.len(),
            sv == subst_view(th@),
            binding_of(sv, v@) == binding_of(sv.subrange(i as int, sv.len() as int), v@),
        decreases th.len() - i,
    {
        let ghost rest = sv.subrange(i as int, sv.len() as int);
        assert(rest[0] == (th@[i as int].0@, th@[i as int].1.deep_view()));
        if crate::text::str_eq(th[i].0.as_str(), v.as_str()) {
            return Some(i);
        }
        assert(rest.drop_first() =~= sv.subrange(i + 1, sv.len() as int));
        i = i + 1;
    }
    assert(sv.subrange(i as int, sv.len() as int) =~= SubstV::empty());
    None
}

fn match_term_exec(th: &mut Vec<(String, Term<i64>)>, t1: &Term<i64>, t2: &Term<i64>) -> (ok: bool)
    ensures
        match match_term(subst_view(old(th)@), t1.deep_view(), t2.deep_view()) {
            Some(t) => ok && subst_view(final(th)@) == t,
            None => !ok,
        },
{
    match t1 {
        Term::Var(v) => match binding_in(th, v) {
            Some(i) => term_same(&th[i].1, t2),
            None => {
                if let Term::Wildcard = t2 {
                    false
                } else {
                    let ghost old_v = subst_view(th@);
                    th.push((v.clone(), crate::datalog::predvar::copy_term(t2)));
                    assert(subst_view(th@) =~= old_v.push((v@, t2.deep_view())));
                    true
                }
            },
        },
        Term::Wildcard => true,
        Term::Const(c) => match t2 {
            Term::Const(d) => *c == *d,
            _ => false,
        },
        Term::DefaultGraph => match t2 {
            Term::DefaultGraph => true,
            _ => false,
        },
    }
}

fn match_atom_exec(th: &mut Vec<(String, Term<i64>)>, a1: &Atom<i64>, a2: &Atom<i64>) -> (ok: bool)
    ensures
        match match_atom(subst_view(old(th)@), a1.deep_view(), a2.deep_view()) {
            Some(t) => ok && subst_view(final(th)@) == t,
            None => !ok,
        },
{
    match_term_exec(th, &a1.s, &a2.s) && match_term_exec(th, &a1.p, &a2.p) && match_term_exec(th, &a1.o, &a2.o)
        && match_term_exec(th, &a1.g, &a2.g)
}

fn copy_subst(th: &Vec<(String, Term<i64>)>) -> (r: Vec<(String, Term<i64>)>)
    ensures
        subst_view(r@) == subst_view(th@),
{
    let mut r: Vec<(String, Term<i64>)> = Vec::new();
    let mut i: usize = 0;
    while i < th.len()
        invariant
            i <= th@.len(),
            r@.len() == i,
            forall|k: int| 0 <= k < i ==> (#[trigger] r@[k]).0@ == th@[k].0@ && r@[k].1.deep_view()
                == th@[k].1.deep_view(),
        decreases th.len() - i,
    {
        r.push((th[i].0.clone(), crate::datalog::predvar::copy_term(&th[i].1)));
        i = i + 1;
    }
    assert(subst_view(r@) =~= subst_view(th@));
    r
}

/// Whether `b1[k..]` maps onto atoms of `b2` under an extension of `th`.
fn embed_at(b1: &Vec<Atom<i64>>, k: usize, b2: &Vec<Atom<i64>>, th: &Vec<(String, Term<i64>)>) -> (r: bool)
    ensures
        r == embeds_from(b1.deep_view(), k as int, b2.deep_view(), subst_view(th@), 0),
    decreases b1@.len() - k,
{
    let ghost v1 = b1.deep_view();
    let ghost v2 = b2.deep_view();
    let ghost t0 = subst_view(th@);
    let n1 = b1.len();
    if k >= n1 {
        return true;
    }
    let mut j: usize = 0;
    while j < b2.len()
        invariant
            k < n1 == b1@.len(),
            j <= b2@.len(),
            v1 == b1.deep_view(),
            v2 == b2.deep_view(),
            t0 == subst_view(th@),
            embeds_from(v1, k as int, v2, t0, 0) == embeds_from(v1, k as int, v2, t0, j as int),
        decreases b2.len() - j,
    {
        let mut t = copy_subst(th);
        assert(v1[k as int] == b1@[k as int].deep_view() && v2[j as int] == b2@[j as int].deep_view());
        if match_atom_exec(&mut t, &b1[k], &b2[j]) {
            if embed_at(b1, k + 1, b2, &t) {
                return true;
            }
        }
        j = j + 1;
    }
    false
}

fn positive_atoms_of(rule: &Rule<i64>) -> (r: (Vec<Atom<i64>>, bool))
    ensures
        r.0.deep_view() == positive_atoms(rule.deep_view().body),
        r.1 == all_positive(rule.deep_view().body),
{
    let ghost bv = rule.body.deep_view();
    let mut r: Vec<Atom<i64>> = Vec::new();
    let mut all = true;
    let mut j: usize = 0;
    assert(bv.subrange(0, 0) =~= Seq::<LiteralV<i64>>::empty());
    assert(r.deep_view() =~= Seq::<AtomV<i64>>::empty());
    while j < rule.body.len()
        invariant
            j <= bv.len(),
            bv == rule.body.deep_view(),
            r.deep_view() == positive_atoms(bv.subrange(0, j as int)),
            all == all_positive(bv.subrange(0, j as int)),
        decreases rule.body.len() - j,
    {
        let ghost pre = bv.subrange(0, j as int);
        assert(bv.subrange(0, j + 1).drop_last() =~= pre);
        assert(bv[j as int] == rule.body@[j as int].deep_view());
        if let BodyLiteral::Positive(a) = &rule.body[j] {
            let ghost old_r = r.deep_view();
            r.push(crate::datalog::predvar::copy_atom(a));
            assert(r.deep_view() =~= old_r.push(a.deep_view()));
        } else {
            all = false;
        }
        proof {
            let nxt = bv.subrange(0, j + 1);
            if all_positive(nxt) {
                assert forall|k: int| 0 <= k < pre.len() implies #[trigger] pre[k] is Positive by {
                    assert(nxt[k] == pre[k]);
                }
            }
            if all_positive(pre) && bv[j as int] is Positive {
                assert forall|k: int| 0 <= k < nxt.len() implies #[trigger] nxt[k] is Positive by {
                    if k < j {
                        assert(nxt[k] == pre[k]);
                    }
                }
            }
            if !(bv[j as int] is Positive) {
                assert(!(nxt[j as int] is Positive));
            }
        }
        j = j + 1;
    }
    assert(bv.subrange(0, bv.len() as int) =~= bv);
    (r, all)
}

/// Whether rule `r1` is at least as general as rule `r2`.
fn rule_embeds_exec(r1: &Rule<i64>, r2: &Rule<i64>) -> (r: bool)
    ensures
        r == rule_embeds(r1.deep_view(), r2.deep_view()),
{
    match (&r1.head, &r2.head) {
        (Some(h1), Some(h2)) => {
            let (b1, all) = positive_atoms_of(r1);
            if !all {
                return false;
            }
            let mut th: Vec<(String, Term<i64>)> = Vec::new();
            assert(subst_view(th@) =~= SubstV::empty());
            if !match_atom_exec(&mut th, h1, h2) {
                return false;
            }
            let (b2, _) = positive_atoms_of(r2);
            embed_at(&b1, 0, &b2, &th)
        },
        _ => false,
    }
}

/// The rule texts of the rules that another rule of `rules` subsumes, in
/// order: a rule leaves when a rule at least as general derives every fact
/// that it derives (keeping the first of rules that are variants of each
/// other).
pub fn check_subsumption(rules: &[Rule<i64>]) -> (r: Vec<String>)
    ensures
        r.deep_view() == eliminated_texts(rules.deep_view(), rules.deep_view().len() as int),
{
    let ghost rv = rules.deep_view();
    let n = rules.len();
    let mut out: Vec<String> = Vec::new();
    let mut j: usize = 0;
    while j < n
        invariant
            j <= n == rv.len(),
            rv == rules.deep_view(),
            out.deep_view() == eliminated_texts(rv, j as int),
        decreases n - j,
    {
        let r2 = &rules[j];
        assert(rv[j as int] == r2.deep_view());
        let mut found = false;
        if let Some(_h2) = head_pred_of(r2) {
            let mut i: usize = 0;
            while i < n && !found
                invariant
                    i <= n == rv.len(),
                    rv == rules.deep_view(),
                    j < n,
                    head_pred(rv[j as int]) is Some,
                    rv[j as int] == r2.deep_view(),
                    found ==> exists|i2: int| 0 <= i2 < rv.len() && #[trigger] subsumes(rv, i2, j as int),
                    !found ==> forall|i2: int| 0 <= i2 < i ==> !#[trigger] subsumes(rv, i2, j as int),
                decreases n - i,
            {
                let r1 = &rules[i];
                assert(rv[i as int] == r1.deep_view());
                if i != j {
                    if let Some(_h1) = head_pred_of(r1) {
                        if rule_embeds_exec(r1, r2) {
                            if i < j || !rule_embeds_exec(r2, r1) {
                                proof {
                                    assert(subsumes(rv, i as int, j as int));
                                }
                                found = true;
                            }
                        }
                    }
                }
                if !found {
                    proof {
                        assert(!subsumes(rv, i as int, j as int));
                    }
                }
                i = i + 1;
            }
        } else {
            proof {
                assert forall|i2: int| 0 <= i2 < rv.len() implies !#[trigger] subsumes(rv, i2, j as int) by {}
            }
        }
        if found {
            let t = r2.rule_text.clone();
            let ghost old_out = out.deep_view();
            out.push(t);
            assert(out.deep_view() =~= old_out.push(rv[j as int].rule_text));
        }
        j = j + 1;
    }
    out
}

// ─── Aggregation stratification ──────────────────────────────────────────────

/// The aggregate dependencies that the literals `lits` give from head `h`.
pub open spec fn literal_agg_edges(h: i64, lits: Seq<LiteralV<i64>>) -> Seq<Edge>
    decreases lits.len(),
{
    if lits.len() == 0 {
        Seq::empty()
    } else {
        let pre = literal_agg_edges(h, lits.drop_last());
        match lits.last() {
            LiteralV::Aggregate(g) => match atom_pred(g.atom) {
                Some(p) => pre.push(Edge { from: h, to: p, negative: true }),
                None => pre,
            },
            _ => pre,
        }
    }
}

/// The aggregate dependencies of `rules`, rule by rule.
pub open spec fn aggregate_edges(rules: Seq<RuleV<i64>>) -> Seq<Edge>
    decreases rules.len(),
{
    if rules.len() == 0 {
        Seq::empty()
    } else {
        aggregate_edges(rules.drop_last()) + match head_pred(rules.last()) {
            Some(h) => literal_agg_edges(h, rules.last().body),
            None => Seq::empty(),
        }
    }
}

/// The positive dependencies of `rules`, rule by rule.
pub open spec fn positive_edges(rules: Seq<RuleV<i64>>) -> Seq<Edge>
    decreases rules.len(),
{
    if rules.len() == 0 {
        Seq::empty()
    } else {
        positive_edges(rules.drop_last()) + match head_pred(rules.last()) {
            Some(h) => Seq::new(positive_preds(rules.last().body).len(), |k: int| Edge {
                from: h,
                to: positive_preds(rules.last().body)[k],
                negative: false,
            }),
            None => Seq::empty(),
        }
    }
}

/// The message of an aggregation-stratification violation.
pub open spec fn agg_stratification_message() -> Seq<char> {
    "PT510: aggregation-stratification violation: a derived predicate depends on another predicate via aggregation, but that predicate is also derived through positive rules; this creates a cycle through aggregation; ensure the aggregated predicate is fully computed before the aggregate rule runs"@
}

/// Whether `target` can be reached from `start` along the positive
/// dependencies `deps` (every predicate reaches itself).
pub fn can_reach_positive(start: i64, target: i64, deps: &Vec<Edge>) -> (r: bool)
    ensures
        r == reaches(deps@, start, target),
{
    let reach = reachable_from(start, deps);
    vec_has(&reach, target)
}

fn collect_edges(rules: &[Rule<i64>], aggregate: bool) -> (r: Vec<Edge>)
    ensures
        aggregate ==> r@ == aggregate_edges(rules.deep_view()),
        !aggregate ==> r@ == positive_edges(rules.deep_view()),
{
    let ghost rv = rules.deep_view();
    let mut edges: Vec<Edge> = Vec::new();
    let mut q: usize = 0;
    assert(rv.subrange(0, 0) =~= Seq::<RuleV<i64>>::empty());
    while q < rules.len()
        invariant
            q <= rv.len(),
            rv == rules.deep_view(),
            aggregate ==> edges@ == aggregate_edges(rv.subrange(0, q as int)),
            !aggregate ==> edges@ == positive_edges(rv.subrange(0, q as int)),
        decreases rules.len() - q,
    {
        let rule = &rules[q];
        assert(rv.subrange(0, q + 1).drop_last() =~= rv.subrange(0, q as int));
        assert(rv.subrange(0, q + 1).last() == rule.deep_view());
        let ghost base = edges@;
        match head_pred_of(rule) {
            None => {
                assert(edges@ =~= base + Seq::<Edge>::empty());
            },
            Some(h) => {
                let ghost bv = rule.body.deep_view();
                let mut j: usize = 0;
                assert(bv.subrange(0, 0) =~= Seq::<LiteralV<i64>>::empty());
                assert(base =~= base + literal_agg_edges(h, bv.subrange(0, 0)));
                assert(positive_preds(bv.subrange(0, 0)) =~= Seq::<i64>::empty());
                while j < rule.body.len()
                    invariant
                        j <= bv.len(),
                        bv == rule.body.deep_view(),
                        aggregate ==> edges@ == base + literal_agg_edges(h, bv.subrange(0, j as int)),
                        !aggregate ==> edges@ == base + Seq::new(positive_preds(bv.subrange(0, j as int)).len(), |k: int| Edge {
                            from: h,
                            to: positive_preds(bv.subrange(0, j as int))[k],
                            negative: false,
                        }),
                    decreases rule.body.len() - j,
                {
                    let ghost before = edges@;
                    assert(bv.subrange(0, j + 1).drop_last() =~= bv.subrange(0, j as int));
                    assert(bv[j as int] == rule.body@[j as int].deep_view());
                    match &rule.body[j] {
                        BodyLiteral::Aggregate(g) => {
                            if aggregate {
                                if let Some(p) = atom_pred_of(&g.atom) {
                                    edges.push(Edge { from: h, to: p, negative: true });
                                }
                            }
                        },
                        BodyLiteral::Positive(a) => {
                            if !aggregate {
                                if let Some(p) = atom_pred_of(a) {
                                    edges.push(Edge { from: h, to: p, negative: false });
                                }
                            }
                        },
                        _ => {},
                    }
                    proof {
                        if aggregate {
                            assert(edges@ =~= base + literal_agg_edges(h, bv.subrange(0, j + 1)));
                        } else {
                            assert(edges@ =~= base + Seq::new(positive_preds(bv.subrange(0, j + 1)).len(), |k: int| Edge {
                                from: h,
                                to: positive_preds(bv.subrange(0, j + 1))[k],
                                negative: false,
                            }));
                        }
                    }
                    j = j + 1;
                }
                assert(bv.subrange(0, bv.len() as int) =~= bv);
                assert(rv[q as int].body == bv);
            },
        }
        q = q + 1;
    }
    assert(rv.subrange(0, rv.len() as int) =~= rv);
    edges
}

/// The positive dependencies of `rules`: an edge from each constant head
/// predicate to each predicate of its positive body atoms.
pub fn positive_dependencies(rules: &[Rule<i64>]) -> (r: Vec<Edge>)
    ensures
        r@ == positive_edges(rules.deep_view()),
{
    collect_edges(rules, false)
}

/// Checks that no predicate is aggregated while also being derived, through
/// positive rules, from the head that aggregates it.
pub fn check_aggregation_stratification(rules: &[Rule<i64>]) -> (r: Result<(), String>)
    ensures
        r is Ok <==> !exists|k: int| 0 <= k < aggregate_edges(rules.deep_view()).len()
            && reaches(positive_edges(rules.deep_view()),
                #[trigger] aggregate_edges(rules.deep_view())[k].to,
                aggregate_edges(rules.deep_view())[k].from),
        r matches Err(m) ==> m@ == agg_stratification_message(),
{
    let agg = collect_edges(rules, true);
    if agg.len() == 0 {
        return Ok(());
    }
    let pos = collect_edges(rules, false);
    let mut k: usize = 0;
    while k < agg.len()
        invariant
            k <= agg@.len(),
            agg@ == aggregate_edges(rules.deep_view()),
            pos@ == positive_edges(rules.deep_view()),
            forall|k2: int| 0 <= k2 < k ==> !reaches(pos@, #[trigger] agg@[k2].to, agg@[k2].from),
        decreases agg.len() - k,
    {
        let e = agg[k];
        if can_reach_positive(e.to, e.from, &pos) {
            return Err(String::from_str("PT510: aggregation-stratification violation: a derived predicate depends on another predicate via aggregation, but that predicate is also derived through positive rules; this creates a cycle through aggregation; ensure the aggregated predicate is fully computed before the aggregate rule runs"));
        }
        k = k + 1;
    }
    Ok(())
}

} // verus!
