//! Rules whose predicate position holds a variable.
//!
//! Such a rule cannot be compiled to SQL as it stands: it is instantiated once
//! per binding of its predicate variables, each variable replaced by a
//! predicate ID throughout the head and the triple-pattern literals.

use vstd::prelude::*;
use crate::datalog::{
    AggregateLiteral, Atom, AtomV, BodyLiteral, LiteralV, Rule, RuleV, StringBuiltin, TemporalFilter, Term,
    TermV,
};
use crate::datalog::compiler::{read_expr, vp_read_expr, CompileEnv, PredStats};
use crate::text::{i64_to_string, int_decimal, str_eq};

verus! {

// ─── Which variables stand in predicate position ─────────────────────────────

/// The predicate variable of an atom, if its predicate is a variable.
pub open spec fn atom_pred_var(a: AtomV<i64>) -> Seq<Seq<char>> {
    match a.p {
        TermV::Var(v) => seq![v],
        _ => Seq::empty(),
    }
}

/// The predicate variable of a positive or negated triple pattern.
pub open spec fn literal_pred_var(l: LiteralV<i64>) -> Seq<Seq<char>> {
    match l {
        LiteralV::Positive(a) => atom_pred_var(a),
        LiteralV::Negated(a) => atom_pred_var(a),
        _ => Seq::empty(),
    }
}

/// The predicate variables of a body, literal by literal.
pub open spec fn body_pred_vars(b: Seq<LiteralV<i64>>) -> Seq<Seq<char>>
    decreases b.len(),
{
    if b.len() == 0 {
        Seq::empty()
    } else {
        body_pred_vars(b.drop_last()) + literal_pred_var(b.last())
    }
}

/// The predicate variables of the head, then of the body, repeats included.
pub open spec fn head_pred_var(r: RuleV<i64>) -> Seq<Seq<char>> {
    match r.head {
        Some(h) => atom_pred_var(h),
        None => Seq::empty(),
    }
}

/// Each name of `s` once, in the order of its first occurrence.
pub open spec fn first_occurrences(s: Seq<Seq<char>>) -> Seq<Seq<char>>
    decreases s.len(),
{
    if s.len() == 0 {
        Seq::empty()
    } else {
        let d = first_occurrences(s.drop_last());
        if d.contains(s.last()) {
            d
        } else {
            d.push(s.last())
        }
    }
}

/// The rule's predicate variables, each once, head first.
pub open spec fn pred_vars_spec(r: RuleV<i64>) -> Seq<Seq<char>> {
    first_occurrences(head_pred_var(r) + body_pred_vars(r.body))
}

fn contains_name(v: &Vec<String>, s: &String) -> (b: bool)
    ensures
        b == v.deep_view().contains(s@),
{
    let mut i: usize = 0;
    while i < v.len()
        invariant
            i <= v.len(),
            forall|k: int| 0 <= k < i ==> v.deep_view()[k] != s@,
        decreases v.len() - i,
    {
        if str_eq(v[i].as_str(), s.as_str()) {
            assert(v.deep_view()[i as int] == s@);
            return true;
        }
        i = i + 1;
    }
    false
}

fn note_var(out: &mut Vec<String>, found: Ghost<Seq<Seq<char>>>, t: &Term<i64>)
    requires
        old(out).deep_view() == first_occurrences(found@),
    ensures
        final(out).deep_view() == first_occurrences(
            found@ + (match t.deep_view() {
                TermV::Var(v) => seq![v],
                _ => Seq::empty(),
            }),
        ),
{
    match t {
        Term::Var(name) => {
            let ghost s = found@ + seq![name@];
            assert(s.drop_last() =~= found@);
            assert(s.last() == name@);
            if !contains_name(out, name) {
                let ghost before = out.deep_view();
                out.push(name.clone());
                assert(out.deep_view() =~= before.push(name@));
            }
        },
        _ => {
            assert(found@ + Seq::<Seq<char>>::empty() =~= found@);
        },
    }
}

/// The variables that stand in predicate position in the head or in a
/// positive or negated triple pattern, each once, in order of appearance.
pub fn collect_pred_vars(rule: &Rule<i64>) -> (r: Vec<String>)
    ensures
        r.deep_view() == pred_vars_spec(rule.deep_view()),
{
    let ghost rv = rule.deep_view();
    let mut out: Vec<String> = Vec::new();
    assert(out.deep_view() =~= first_occurrences(Seq::empty()));
    match &rule.head {
        Some(h) => {
            note_var(&mut out, Ghost(Seq::empty()), &h.p);
            assert(Seq::<Seq<char>>::empty() + atom_pred_var(h.deep_view()) =~= head_pred_var(rv));
        },
        None => {},
    }
    let ghost hv = head_pred_var(rv);
    assert(out.deep_view() == first_occurrences(hv));
    let mut i: usize = 0;
    assert(rv.body.subrange(0, 0) =~= Seq::<LiteralV<i64>>::empty());
    assert(hv + body_pred_vars(Seq::empty()) =~= hv);
    while i < rule.body.len()
        invariant
            rv == rule.deep_view(),
            hv == head_pred_var(rv),
            i <= rule.body.len(),
            rv.body.len() == rule.body.len(),
            out.deep_view() == first_occurrences(hv + body_pred_vars(rv.body.subrange(0, i as int))),
        decreases rule.body.len() - i,
    {
        let ghost pre = hv + body_pred_vars(rv.body.subrange(0, i as int));
        let ghost sub = rv.body.subrange(0, i as int + 1);
        assert(sub.drop_last() =~= rv.body.subrange(0, i as int));
        assert(sub.last() == rule.body[i as int].deep_view());
        match &rule.body[i] {
            BodyLiteral::Positive(a) => {
                note_var(&mut out, Ghost(pre), &a.p);
            },
            BodyLiteral::Negated(a) => {
                note_var(&mut out, Ghost(pre), &a.p);
            },
            _ => {
                assert(pre + Seq::<Seq<char>>::empty() =~= pre);
            },
        }
        assert(hv + body_pred_vars(sub) =~= pre + literal_pred_var(sub.last()));
        i = i + 1;
    }
    assert(rv.body.subrange(0, rv.body.len() as int) =~= rv.body);
    out
}

// ─── Substituting a predicate ID for a variable ──────────────────────────────

/// `t` with the variable `x` replaced by the constant `id`.
pub open spec fn subst_term(t: TermV<i64>, x: Seq<char>, id: i64) -> TermV<i64> {
    match t {
        TermV::Var(v) => if v == x {
            TermV::Const(id)
        } else {
            t
        },
        _ => t,
    }
}

/// An atom with `x` replaced by `id` in all four positions.
pub open spec fn subst_atom(a: AtomV<i64>, x: Seq<char>, id: i64) -> AtomV<i64> {
    AtomV { s: subst_term(a.s, x, id), p: subst_term(a.p, x, id), o: subst_term(a.o, x, id), g: subst_term(a.g, x, id) }
}

/// A literal with `x` replaced by `id` in a positive or negated triple
/// pattern; any other literal unchanged.
pub open spec fn subst_literal(l: LiteralV<i64>, x: Seq<char>, id: i64) -> LiteralV<i64> {
    match l {
        LiteralV::Positive(a) => LiteralV::Positive(subst_atom(a, x, id)),
        LiteralV::Negated(a) => LiteralV::Negated(subst_atom(a, x, id)),
        _ => l,
    }
}

/// The text of an instantiated rule: a comment naming the binding, then the
/// rule's own text.
pub open spec fn instance_text(x: Seq<char>, id: i64, text: Seq<char>) -> Seq<char> {
    "/* "@ + x + "="@ + int_decimal(id as int) + " */ "@ + text
}

/// The rule with `x` replaced by `id` in the head and the triple patterns.
pub open spec fn subst_rule(r: RuleV<i64>, x: Seq<char>, id: i64) -> RuleV<i64> {
    RuleV {
        head: match r.head {
            Some(h) => Some(subst_atom(h, x, id)),
            None => None,
        },
        body: Seq::new(r.body.len(), |i: int| subst_literal(r.body[i], x, id)),
        rule_text: instance_text(x, id, r.rule_text),
        weight: r.weight,
    }
}


// ─── What substitution leaves ────────────────────────────────────────────────

proof fn lemma_concat_contains(a: Seq<Seq<char>>, b: Seq<Seq<char>>, v: Seq<char>)
    ensures
        (a + b).contains(v) ==> a.contains(v) || b.contains(v),
{
    if (a + b).contains(v) {
        let k = choose|k: int| 0 <= k < (a + b).len() && (a + b)[k] == v;
        if k < a.len() {
            assert(a[k] == v);
        } else {
            assert(b[k - a.len()] == v);
        }
    }
}

proof fn lemma_first_occurrences_from(s: Seq<Seq<char>>, v: Seq<char>)
    ensures
        first_occurrences(s).contains(v) ==> s.contains(v),
    decreases s.len(),
{
    if s.len() > 0 {
        let p = s.drop_last();
        lemma_first_occurrences_from(p, v);
        let d = first_occurrences(p);
        if first_occurrences(s).contains(v) {
            if !d.contains(v) {
                let k = choose|k: int| 0 <= k < d.push(s.last()).len() && d.push(s.last())[k] == v;
                assert(k == d.len());
                assert(s[s.len() - 1] == v);
            } else {
                let k = choose|k: int| 0 <= k < p.len() && p[k] == v;
                assert(s[k] == v);
            }
        }
    }
}

proof fn lemma_body_without(b: Seq<LiteralV<i64>>, x: Seq<char>)
    requires
        forall|i: int| 0 <= i < b.len() ==> !(#[trigger] literal_pred_var(b[i])).contains(x),
    ensures
        !body_pred_vars(b).contains(x),
    decreases b.len(),
{
    if b.len() > 0 {
        let p = b.drop_last();
        assert forall|i: int| 0 <= i < p.len() implies !(#[trigger] literal_pred_var(p[i])).contains(x) by {
            assert(p[i] == b[i]);
        }
        lemma_body_without(p, x);
        lemma_concat_contains(body_pred_vars(p), literal_pred_var(b.last()), x);
        assert(!literal_pred_var(b[b.len() - 1]).contains(x));
    }
}

proof fn lemma_atom_without(a: AtomV<i64>, x: Seq<char>, id: i64)
    ensures
        !atom_pred_var(subst_atom(a, x, id)).contains(x),
{
    match a.p {
        TermV::Var(v) => {
            if v != x {
                assert(atom_pred_var(subst_atom(a, x, id)) == seq![v]);
                if seq![v].contains(x) {
                    let k = choose|k: int| 0 <= k < 1 && seq![v][k] == x;
                    assert(seq![v][k] == v);
                }
            } else {
                assert(atom_pred_var(subst_atom(a, x, id)) =~= Seq::<Seq<char>>::empty());
            }
        },
        _ => {
            assert(atom_pred_var(subst_atom(a, x, id)) =~= Seq::<Seq<char>>::empty());
        },
    }
}

/// Once a predicate variable is bound, it stands in predicate position no
/// more: substituting a predicate ID for `x` leaves `x` out of the rule's
/// predicate variables.
pub proof fn law_substitution_binds_the_variable(r: RuleV<i64>, x: Seq<char>, id: i64)
    ensures
        !pred_vars_spec(subst_rule(r, x, id)).contains(x),
{
    let s = subst_rule(r, x, id);
    match r.head {
        Some(h) => {
            lemma_atom_without(h, x, id);
        },
        None => {
            assert(head_pred_var(s) =~= Seq::<Seq<char>>::empty());
        },
    }
    assert forall|i: int| 0 <= i < s.body.len() implies !(#[trigger] literal_pred_var(s.body[i])).contains(x) by {
        assert(s.body[i] == subst_literal(r.body[i], x, id));
        match r.body[i] {
            LiteralV::Positive(a) => {
                lemma_atom_without(a, x, id);
            },
            LiteralV::Negated(a) => {
                lemma_atom_without(a, x, id);
            },
            _ => {
                assert(literal_pred_var(s.body[i]) =~= Seq::<Seq<char>>::empty());
            },
        }
    }
    lemma_body_without(s.body, x);
    lemma_concat_contains(head_pred_var(s), body_pred_vars(s.body), x);
    lemma_first_occurrences_from(head_pred_var(s) + body_pred_vars(s.body), x);
}

pub(crate) fn copy_term(t: &Term<i64>) -> (r: Term<i64>)
    ensures
        r.deep_view() == t.deep_view(),
{
    match t {
        Term::Var(v) => Term::Var(v.clone()),
        Term::Const(c) => Term::Const(*c),
        Term::Wildcard => Term::Wildcard,
        Term::DefaultGraph => Term::DefaultGraph,
    }
}

pub(crate) fn copy_atom(a: &Atom<i64>) -> (r: Atom<i64>)
    ensures
        r.deep_view() == a.deep_view(),
{
    Atom { s: copy_term(&a.s), p: copy_term(&a.p), o: copy_term(&a.o), g: copy_term(&a.g) }
}

fn copy_builtin(b: &StringBuiltin<i64>) -> (r: StringBuiltin<i64>)
    ensures
        r.deep_view() == b.deep_view(),
{
    match b {
        StringBuiltin::Strlen(a, op, c) => StringBuiltin::Strlen(copy_term(a), *op, copy_term(c)),
        StringBuiltin::Regex(a, p) => StringBuiltin::Regex(copy_term(a), p.clone()),
        StringBuiltin::TrigramSimilarity(a, c, op, t) => StringBuiltin::TrigramSimilarity(
            copy_term(a),
            copy_term(c),
            *op,
            copy_term(t),
        ),
        StringBuiltin::Levenshtein(a, c, op, t) => StringBuiltin::Levenshtein(
            copy_term(a),
            copy_term(c),
            *op,
            copy_term(t),
        ),
        StringBuiltin::Soundex(a, op, t) => StringBuiltin::Soundex(copy_term(a), *op, copy_term(t)),
        StringBuiltin::Metaphone(a, n, op, t) => StringBuiltin::Metaphone(copy_term(a), *n, *op, copy_term(t)),
        StringBuiltin::JaroWinkler(a, c, op, t) => StringBuiltin::JaroWinkler(
            copy_term(a),
            copy_term(c),
            *op,
            copy_term(t),
        ),
        StringBuiltin::DiceSimilarity(a, c, op, t) => StringBuiltin::DiceSimilarity(
            copy_term(a),
            copy_term(c),
            *op,
            copy_term(t),
        ),
    }
}

fn copy_temporal(f: &TemporalFilter) -> (r: TemporalFilter)
    ensures
        r.deep_view() == f.deep_view(),
{
    match f {
        TemporalFilter::After(a) => TemporalFilter::After(a.clone()),
        TemporalFilter::Before(a) => TemporalFilter::Before(a.clone()),
        TemporalFilter::During(a, b) => TemporalFilter::During(a.clone(), b.clone()),
        TemporalFilter::Within(a) => TemporalFilter::Within(a.clone()),
        TemporalFilter::Sequence(a, b, c, d, e, g, h) => TemporalFilter::Sequence(
            a.clone(),
            b.clone(),
            c.clone(),
            d.clone(),
            e.clone(),
            g.clone(),
            h.clone(),
        ),
        TemporalFilter::Consecutive(n, a, b) => TemporalFilter::Consecutive(*n, a.clone(), b.clone()),
        TemporalFilter::AllenBefore(a, b, c, d) => TemporalFilter::AllenBefore(a.clone(), b.clone(), c.clone(), d.clone()),
        TemporalFilter::AllenMeets(a, b, c, d) => TemporalFilter::AllenMeets(a.clone(), b.clone(), c.clone(), d.clone()),
        TemporalFilter::AllenOverlaps(a, b, c, d) => TemporalFilter::AllenOverlaps(
            a.clone(),
            b.clone(),
            c.clone(),
            d.clone(),
        ),
        TemporalFilter::AllenDuring(a, b, c, d) => TemporalFilter::AllenDuring(a.clone(), b.clone(), c.clone(), d.clone()),
        TemporalFilter::AllenFinishes(a, b, c, d) => TemporalFilter::AllenFinishes(
            a.clone(),
            b.clone(),
            c.clone(),
            d.clone(),
        ),
        TemporalFilter::AllenStarts(a, b, c, d) => TemporalFilter::AllenStarts(a.clone(), b.clone(), c.clone(), d.clone()),
        TemporalFilter::AllenEquals(a, b, c, d) => TemporalFilter::AllenEquals(a.clone(), b.clone(), c.clone(), d.clone()),
    }
}

fn subst_term_exec(t: &Term<i64>, x: &String, id: i64) -> (r: Term<i64>)
    ensures
        r.deep_view() == subst_term(t.deep_view(), x@, id),
{
    match t {
        Term::Var(v) => {
            if str_eq(v.as_str(), x.as_str()) {
                Term::Const(id)
            } else {
                Term::Var(v.clone())
            }
        },
        _ => copy_term(t),
    }
}

fn subst_atom_exec(a: &Atom<i64>, x: &String, id: i64) -> (r: Atom<i64>)
    ensures
        r.deep_view() == subst_atom(a.deep_view(), x@, id),
{
    Atom {
        s: subst_term_exec(&a.s, x, id),
        p: subst_term_exec(&a.p, x, id),
        o: subst_term_exec(&a.o, x, id),
        g: subst_term_exec(&a.g, x, id),
    }
}

fn subst_literal_exec(l: &BodyLiteral<i64>, x: &String, id: i64) -> (r: BodyLiteral<i64>)
    ensures
        r.deep_view() == subst_literal(l.deep_view(), x@, id),
{
    match l {
        BodyLiteral::Positive(a) => BodyLiteral::Positive(subst_atom_exec(a, x, id)),
        BodyLiteral::Negated(a) => BodyLiteral::Negated(subst_atom_exec(a, x, id)),
        BodyLiteral::Compare(a, op, b) => BodyLiteral::Compare(copy_term(a), *op, copy_term(b)),
        BodyLiteral::StringBuiltin(b) => BodyLiteral::StringBuiltin(copy_builtin(b)),
        BodyLiteral::Assign(v, a, op, b) => BodyLiteral::Assign(v.clone(), copy_term(a), *op, copy_term(b)),
        BodyLiteral::Aggregate(g) => BodyLiteral::Aggregate(
            AggregateLiteral {
                func: g.func,
                agg_var: g.agg_var.clone(),
                atom: copy_atom(&g.atom),
                result_var: g.result_var.clone(),
            },
        ),
        BodyLiteral::TemporalFilter(f) => BodyLiteral::TemporalFilter(copy_temporal(f)),
    }
}

/// The rule with the predicate variable `var_name` replaced by `pred_id` in
/// the head and in every positive and negated triple pattern; its text gains
/// a leading comment `/* var=id */`.
pub fn substitute_pred_var(rule: &Rule<i64>, var_name: &String, pred_id: i64) -> (r: Rule<i64>)
    ensures
        r.deep_view() == subst_rule(rule.deep_view(), var_name@, pred_id),
{
    let ghost rv = rule.deep_view();
    let head = match &rule.head {
        Some(h) => Some(subst_atom_exec(h, var_name, pred_id)),
        None => None,
    };
    let mut body: Vec<BodyLiteral<i64>> = Vec::new();
    let mut i: usize = 0;
    while i < rule.body.len()
        invariant
            rv == rule.deep_view(),
            i <= rule.body.len(),
            body.deep_view().len() == i,
            forall|k: int| 0 <= k < i ==> #[trigger] body.deep_view()[k] == subst_literal(rv.body[k], var_name@, pred_id),
        decreases rule.body.len() - i,
    {
        let l = subst_literal_exec(&rule.body[i], var_name, pred_id);
        let ghost before = body.deep_view();
        body.push(l);
        assert(body.deep_view() =~= before.push(l.deep_view()));
        i = i + 1;
    }
    let mut text = String::new();
    text.append("/* ");
    text.append(var_name.as_str());
    text.append("=");
    text.append(i64_to_string(pred_id).as_str());
    text.append(" */ ");
    text.append(rule.rule_text.as_str());
    let weight = match &rule.weight {
        Some(w) => Some(w.clone()),
        None => None,
    };
    let r = Rule { head, body, rule_text: text, weight };
    assert(r.deep_view().body =~= Seq::new(rv.body.len(), |k: int| subst_literal(rv.body[k], var_name@, pred_id)));
    assert(r.deep_view().rule_text =~= instance_text(var_name@, pred_id, rv.rule_text));
    r
}

// ─── Bindings of the predicate variables ─────────────────────────────────────

/// Each partial binding extended by `name` bound to each of `vals`, partial
/// bindings in order and, within one, values in order.
pub open spec fn extend_each(
    partials: Seq<Seq<(Seq<char>, i64)>>,
    name: Seq<char>,
    vals: Seq<i64>,
) -> Seq<Seq<(Seq<char>, i64)>>
    decreases partials.len(),
{
    if partials.len() == 0 {
        Seq::empty()
    } else {
        extend_each(partials.drop_last(), name, vals) + Seq::new(
            vals.len(),
            |j: int| partials.last().push((name, vals[j])),
        )
    }
}

/// Every combination of one value per variable, the first variable varying
/// slowest; one empty binding when there are no variables.
pub open spec fn binding_product_spec(per_var: Seq<(Seq<char>, Seq<i64>)>) -> Seq<Seq<(Seq<char>, i64)>>
    decreases per_var.len(),
{
    if per_var.len() == 0 {
        seq![Seq::empty()]
    } else {
        extend_each(binding_product_spec(per_var.drop_last()), per_var.last().0, per_var.last().1)
    }
}

fn copy_binding(b: &Vec<(String, i64)>) -> (r: Vec<(String, i64)>)
    ensures
        r.deep_view() == b.deep_view(),
{
    let mut out: Vec<(String, i64)> = Vec::new();
    let mut i: usize = 0;
    while i < b.len()
        invariant
            i <= b.len(),
            out.deep_view() == b.deep_view().subrange(0, i as int),
        decreases b.len() - i,
    {
        let ghost before = out.deep_view();
        out.push((b[i].0.clone(), b[i].1));
        assert(out.deep_view() =~= before.push(b.deep_view()[i as int]));
        assert(b.deep_view().subrange(0, i as int + 1) =~= b.deep_view().subrange(0, i as int).push(
            b.deep_view()[i as int],
        ));
        i = i + 1;
    }
    assert(b.deep_view().subrange(0, b.len() as int) =~= b.deep_view());
    out
}

fn extend_each_exec(partials: &Vec<Vec<(String, i64)>>, name: &String, vals: &Vec<i64>) -> (r: Vec<
    Vec<(String, i64)>,
>)
    ensures
        r.deep_view() == extend_each(partials.deep_view(), name@, vals.deep_view()),
{
    let ghost pv = partials.deep_view();
    let ghost vv = vals.deep_view();
    let mut out: Vec<Vec<(String, i64)>> = Vec::new();
    let mut i: usize = 0;
    assert(pv.subrange(0, 0) =~= Seq::<Seq<(Seq<char>, i64)>>::empty());
    while i < partials.len()
        invariant
            pv == partials.deep_view(),
            vv == vals.deep_view(),
            i <= partials.len(),
            out.deep_view() == extend_each(pv.subrange(0, i as int), name@, vv),
        decreases partials.len() - i,
    {
        let ghost base = out.deep_view();
        let mut j: usize = 0;
        assert(base + Seq::new(0, |k: int| pv[i as int].push((name@, vv[k]))) =~= base);
        while j < vals.len()
            invariant
                pv == partials.deep_view(),
                vv == vals.deep_view(),
                i < partials.len(),
                j <= vals.len(),
                out.deep_view() == base + Seq::new(j as nat, |k: int| pv[i as int].push((name@, vv[k]))),
            decreases vals.len() - j,
        {
            let mut ext = copy_binding(&partials[i]);
            let ghost b0 = ext.deep_view();
            ext.push((name.clone(), vals[j]));
            assert(ext.deep_view() =~= b0.push((name@, vv[j as int])));
            let ghost before = out.deep_view();
            out.push(ext);
            assert(out.deep_view() =~= before.push(ext.deep_view()));
            assert(base + Seq::new(j as nat + 1, |k: int| pv[i as int].push((name@, vv[k]))) =~= before.push(
                ext.deep_view(),
            ));
            j = j + 1;
        }
        let ghost sub = pv.subrange(0, i as int + 1);
        assert(sub.drop_last() =~= pv.subrange(0, i as int));
        assert(sub.last() == pv[i as int]);
        i = i + 1;
    }
    assert(pv.subrange(0, pv.len() as int) =~= pv);
    out
}

/// All bindings of the predicate variables: one value per variable from its
/// candidate list, in every combination, the first variable varying slowest.
/// A variable without candidates leaves no binding at all.
pub fn binding_product(per_var: &Vec<(String, Vec<i64>)>) -> (r: Vec<Vec<(String, i64)>>)
    ensures
        r.deep_view() == binding_product_spec(per_var.deep_view()),
{
    let ghost pv = per_var.deep_view();
    let mut result: Vec<Vec<(String, i64)>> = Vec::new();
    let first: Vec<(String, i64)> = Vec::new();
    assert(first.deep_view() =~= Seq::<(Seq<char>, i64)>::empty());
    result.push(first);
    assert(result.deep_view() =~= seq![Seq::<(Seq<char>, i64)>::empty()]);
    let mut i: usize = 0;
    assert(pv.subrange(0, 0) =~= Seq::<(Seq<char>, Seq<i64>)>::empty());
    while i < per_var.len()
        invariant
            pv == per_var.deep_view(),
            i <= per_var.len(),
            result.deep_view() == binding_product_spec(pv.subrange(0, i as int)),
        decreases per_var.len() - i,
    {
        let next = extend_each_exec(&result, &per_var[i].0, &per_var[i].1);
        let ghost sub = pv.subrange(0, i as int + 1);
        assert(sub.drop_last() =~= pv.subrange(0, i as int));
        assert(sub.last() == pv[i as int]);
        result = next;
        i = i + 1;
    }
    assert(pv.subrange(0, pv.len() as int) =~= pv);
    result
}


proof fn lemma_extend_each_member(
    partials: Seq<Seq<(Seq<char>, i64)>>,
    name: Seq<char>,
    vals: Seq<i64>,
    j: int,
)
    requires
        0 <= j < extend_each(partials, name, vals).len(),
    ensures
        exists|i: int, m: int|
            0 <= i < partials.len() && 0 <= m < vals.len() && extend_each(partials, name, vals)[j] == (
            #[trigger] partials[i]).push((name, #[trigger] vals[m])),
    decreases partials.len(),
{
    let p = partials.drop_last();
    let prev = extend_each(p, name, vals);
    let tail = Seq::new(vals.len(), |q: int| partials.last().push((name, vals[q])));
    assert(extend_each(partials, name, vals) == prev + tail);
    if j < prev.len() {
        lemma_extend_each_member(p, name, vals, j);
        let (i, m) = choose|i: int, m: int|
            0 <= i < p.len() && 0 <= m < vals.len() && prev[j] == (#[trigger] p[i]).push((name, #[trigger] vals[m]));
        assert(partials[i] == p[i]);
        assert(extend_each(partials, name, vals)[j] == partials[i].push((name, vals[m])));
    } else {
        let m = j - prev.len();
        assert(extend_each(partials, name, vals)[j] == tail[m]);
        assert(tail[m] == partials[partials.len() - 1].push((name, vals[m])));
    }
}

/// Each binding of the product binds the variables in order, each to one of
/// its candidate values.
pub proof fn law_binding_product_shape(per_var: Seq<(Seq<char>, Seq<i64>)>, j: int)
    requires
        0 <= j < binding_product_spec(per_var).len(),
    ensures
        binding_product_spec(per_var)[j].len() == per_var.len(),
        forall|k: int|
            0 <= k < per_var.len() ==> (#[trigger] binding_product_spec(per_var)[j][k]).0 == per_var[k].0
                && per_var[k].1.contains(binding_product_spec(per_var)[j][k].1),
    decreases per_var.len(),
{
    if per_var.len() == 0 {
        assert(binding_product_spec(per_var) == seq![Seq::<(Seq<char>, i64)>::empty()]);
    } else {
        let p = per_var.drop_last();
        let prev = binding_product_spec(p);
        let (name, vals) = per_var.last();
        lemma_extend_each_member(prev, name, vals, j);
        let (i, m) = choose|i: int, m: int|
            0 <= i < prev.len() && 0 <= m < vals.len() && extend_each(prev, name, vals)[j] == (
            #[trigger] prev[i]).push((name, #[trigger] vals[m]));
        law_binding_product_shape(p, i);
        let bnd = binding_product_spec(per_var)[j];
        assert(bnd == prev[i].push((name, vals[m])));
        assert forall|k: int| 0 <= k < per_var.len() implies (#[trigger] binding_product_spec(per_var)[j][k]).0
            == per_var[k].0 && per_var[k].1.contains(binding_product_spec(per_var)[j][k].1) by {
            if k < p.len() {
                assert(bnd[k] == prev[i][k]);
                assert(p[k] == per_var[k]);
                assert(prev[i][k] == binding_product_spec(p)[i][k]);
            } else {
                assert(bnd[k] == (name, vals[m]));
                assert(vals[m] == per_var[k].1[m]);
            }
        }
    }
}

/// The rule with each binding applied in turn.
pub open spec fn apply_binding_spec(r: RuleV<i64>, b: Seq<(Seq<char>, i64)>) -> RuleV<i64>
    decreases b.len(),
{
    if b.len() == 0 {
        r
    } else {
        subst_rule(apply_binding_spec(r, b.drop_last()), b.last().0, b.last().1)
    }
}

fn copy_literal(l: &BodyLiteral<i64>) -> (r: BodyLiteral<i64>)
    ensures
        r.deep_view() == l.deep_view(),
{
    match l {
        BodyLiteral::Positive(a) => BodyLiteral::Positive(copy_atom(a)),
        BodyLiteral::Negated(a) => BodyLiteral::Negated(copy_atom(a)),
        BodyLiteral::Compare(a, op, b) => BodyLiteral::Compare(copy_term(a), *op, copy_term(b)),
        BodyLiteral::StringBuiltin(b) => BodyLiteral::StringBuiltin(copy_builtin(b)),
        BodyLiteral::Assign(v, a, op, b) => BodyLiteral::Assign(v.clone(), copy_term(a), *op, copy_term(b)),
        BodyLiteral::Aggregate(g) => BodyLiteral::Aggregate(
            AggregateLiteral {
                func: g.func,
                agg_var: g.agg_var.clone(),
                atom: copy_atom(&g.atom),
                result_var: g.result_var.clone(),
            },
        ),
        BodyLiteral::TemporalFilter(f) => BodyLiteral::TemporalFilter(copy_temporal(f)),
    }
}

/// A copy of the rule.
pub fn copy_rule(rule: &Rule<i64>) -> (r: Rule<i64>)
    ensures
        r.deep_view() == rule.deep_view(),
{
    let ghost rv = rule.deep_view();
    let head = match &rule.head {
        Some(h) => Some(copy_atom(h)),
        None => None,
    };
    let mut body: Vec<BodyLiteral<i64>> = Vec::new();
    let mut i: usize = 0;
    while i < rule.body.len()
        invariant
            rv == rule.deep_view(),
            i <= rule.body.len(),
            body.deep_view() == rv.body.subrange(0, i as int),
        decreases rule.body.len() - i,
    {
        let l = copy_literal(&rule.body[i]);
        let ghost before = body.deep_view();
        body.push(l);
        assert(body.deep_view() =~= before.push(l.deep_view()));
        assert(rv.body.subrange(0, i as int + 1) =~= rv.body.subrange(0, i as int).push(rv.body[i as int]));
        i = i + 1;
    }
    assert(rv.body.subrange(0, rv.body.len() as int) =~= rv.body);
    let weight = match &rule.weight {
        Some(w) => Some(w.clone()),
        None => None,
    };
    Rule { head, body, rule_text: rule.rule_text.clone(), weight }
}

/// The rule specialised to one binding of its predicate variables: each
/// `(variable, predicate ID)` pair substituted in turn.
pub fn apply_pred_binding(rule: &Rule<i64>, binding: &Vec<(String, i64)>) -> (r: Rule<i64>)
    ensures
        r.deep_view() == apply_binding_spec(rule.deep_view(), binding.deep_view()),
{
    let ghost bv = binding.deep_view();
    let mut cur = copy_rule(rule);
    let mut i: usize = 0;
    assert(bv.subrange(0, 0) =~= Seq::<(Seq<char>, i64)>::empty());
    while i < binding.len()
        invariant
            bv == binding.deep_view(),
            i <= binding.len(),
            cur.deep_view() == apply_binding_spec(rule.deep_view(), bv.subrange(0, i as int)),
        decreases binding.len() - i,
    {
        let next = substitute_pred_var(&cur, &binding[i].0, binding[i].1);
        let ghost sub = bv.subrange(0, i as int + 1);
        assert(sub.drop_last() =~= bv.subrange(0, i as int));
        assert(sub.last() == bv[i as int]);
        cur = next;
        i = i + 1;
    }
    assert(bv.subrange(0, bv.len() as int) =~= bv);
    cur
}


proof fn lemma_first_occurrences_to(s: Seq<Seq<char>>, v: Seq<char>)
    ensures
        s.contains(v) ==> first_occurrences(s).contains(v),
    decreases s.len(),
{
    if s.len() > 0 {
        let p = s.drop_last();
        lemma_first_occurrences_to(p, v);
        let d = first_occurrences(p);
        if s.contains(v) {
            let k = choose|k: int| 0 <= k < s.len() && s[k] == v;
            if k < p.len() {
                assert(p[k] == v);
                assert(d.contains(v));
                if !d.contains(s.last()) {
                    let j = choose|j: int| 0 <= j < d.len() && d[j] == v;
                    assert(d.push(s.last())[j] == v);
                }
            } else {
                if !d.contains(s.last()) {
                    assert(d.push(s.last())[d.len() as int] == v);
                }
            }
        }
    }
}

proof fn lemma_atom_subst_keeps(a: AtomV<i64>, x: Seq<char>, id: i64, v: Seq<char>)
    ensures
        atom_pred_var(subst_atom(a, x, id)).contains(v) ==> atom_pred_var(a).contains(v) && v != x,
{
    if atom_pred_var(subst_atom(a, x, id)).contains(v) {
        let k = choose|k: int| 0 <= k < atom_pred_var(subst_atom(a, x, id)).len() && atom_pred_var(
            subst_atom(a, x, id),
        )[k] == v;
        match a.p {
            TermV::Var(w) => {
                if w == x {
                    assert(atom_pred_var(subst_atom(a, x, id)) =~= Seq::<Seq<char>>::empty());
                } else {
                    assert(atom_pred_var(a) == seq![w]);
                    assert(atom_pred_var(a)[0] == v);
                }
            },
            _ => {
                assert(atom_pred_var(subst_atom(a, x, id)) =~= Seq::<Seq<char>>::empty());
            },
        }
    }
}

proof fn lemma_literal_subst_keeps(l: LiteralV<i64>, x: Seq<char>, id: i64, v: Seq<char>)
    ensures
        literal_pred_var(subst_literal(l, x, id)).contains(v) ==> literal_pred_var(l).contains(v) && v != x,
{
    match l {
        LiteralV::Positive(a) => lemma_atom_subst_keeps(a, x, id, v),
        LiteralV::Negated(a) => lemma_atom_subst_keeps(a, x, id, v),
        _ => {
            if literal_pred_var(subst_literal(l, x, id)).contains(v) {
                assert(literal_pred_var(subst_literal(l, x, id)) =~= Seq::<Seq<char>>::empty());
            }
        },
    }
}

proof fn lemma_body_subst_keeps(b: Seq<LiteralV<i64>>, x: Seq<char>, id: i64, v: Seq<char>)
    ensures
        body_pred_vars(Seq::new(b.len(), |i: int| subst_literal(b[i], x, id))).contains(v) ==> body_pred_vars(
            b,
        ).contains(v) && v != x,
    decreases b.len(),
{
    let m = Seq::new(b.len(), |i: int| subst_literal(b[i], x, id));
    if b.len() > 0 && body_pred_vars(m).contains(v) {
        let p = b.drop_last();
        lemma_body_subst_keeps(p, x, id, v);
        assert(m.drop_last() =~= Seq::new(p.len(), |i: int| subst_literal(p[i], x, id)));
        assert(m.last() == subst_literal(b.last(), x, id));
        lemma_concat_contains(body_pred_vars(m.drop_last()), literal_pred_var(m.last()), v);
        lemma_literal_subst_keeps(b.last(), x, id, v);
        if body_pred_vars(p).contains(v) {
            let k = choose|k: int| 0 <= k < body_pred_vars(p).len() && body_pred_vars(p)[k] == v;
            assert(body_pred_vars(b)[k] == v);
        } else {
            let k = choose|k: int| 0 <= k < literal_pred_var(b.last()).len() && literal_pred_var(b.last())[k] == v;
            assert(body_pred_vars(b)[body_pred_vars(p).len() + k] == v);
        }
    }
}

proof fn lemma_subst_keeps(r: RuleV<i64>, x: Seq<char>, id: i64, v: Seq<char>)
    ensures
        pred_vars_spec(subst_rule(r, x, id)).contains(v) ==> pred_vars_spec(r).contains(v) && v != x,
{
    let s = subst_rule(r, x, id);
    if pred_vars_spec(s).contains(v) {
        lemma_first_occurrences_from(head_pred_var(s) + body_pred_vars(s.body), v);
        lemma_concat_contains(head_pred_var(s), body_pred_vars(s.body), v);
        let occ = head_pred_var(r) + body_pred_vars(r.body);
        if head_pred_var(s).contains(v) {
            match r.head {
                Some(h) => lemma_atom_subst_keeps(h, x, id, v),
                None => {
                    assert(head_pred_var(s) =~= Seq::<Seq<char>>::empty());
                },
            }
            let k = choose|k: int| 0 <= k < head_pred_var(r).len() && head_pred_var(r)[k] == v;
            assert(occ[k] == v);
        } else {
            lemma_body_subst_keeps(r.body, x, id, v);
            let k = choose|k: int| 0 <= k < body_pred_vars(r.body).len() && body_pred_vars(r.body)[k] == v;
            assert(occ[head_pred_var(r).len() + k] == v);
        }
        lemma_first_occurrences_to(occ, v);
    }
}

proof fn lemma_binding_keeps(r: RuleV<i64>, b: Seq<(Seq<char>, i64)>, v: Seq<char>)
    ensures
        pred_vars_spec(apply_binding_spec(r, b)).contains(v) ==> pred_vars_spec(r).contains(v) && forall|k: int|
            0 <= k < b.len() ==> (#[trigger] b[k]).0 != v,
    decreases b.len(),
{
    if b.len() > 0 && pred_vars_spec(apply_binding_spec(r, b)).contains(v) {
        let p = b.drop_last();
        lemma_subst_keeps(apply_binding_spec(r, p), b.last().0, b.last().1, v);
        lemma_binding_keeps(r, p, v);
        assert forall|k: int| 0 <= k < b.len() implies (#[trigger] b[k]).0 != v by {
            if k < p.len() {
                assert(p[k] == b[k]);
            }
        }
    }
}

/// A binding that names every predicate variable of a rule leaves a rule
/// with none: each instance can be compiled like any rule.
pub proof fn law_full_binding_leaves_no_pred_vars(r: RuleV<i64>, b: Seq<(Seq<char>, i64)>)
    requires
        forall|v: Seq<char>| #[trigger] pred_vars_spec(r).contains(v) ==> exists|k: int| 0 <= k < b.len() && (#[trigger] b[k]).0 == v,
    ensures
        pred_vars_spec(apply_binding_spec(r, b)).len() == 0,
{
    let out = pred_vars_spec(apply_binding_spec(r, b));
    if out.len() > 0 {
        let v = out[0];
        assert(out.contains(v));
        lemma_binding_keeps(r, b, v);
        let k = choose|k: int| 0 <= k < b.len() && (#[trigger] b[k]).0 == v;
        assert(b[k].0 != v);
    }
}

// ─── Queries for the values of a predicate variable ──────────────────────────

/// The query for the values that `x` takes in a positive triple pattern `a`
/// over a constant predicate, when `x` is its subject (else its object): the
/// distinct subjects (objects) of the predicate, restricted by a constant
/// object (subject) where there is one.
pub open spec fn value_query(a: AtomV<i64>, x: Seq<char>, stats: Seq<PredStats>) -> Seq<Seq<char>> {
    match a.p {
        TermV::Const(pid) => if a.s == TermV::<i64>::Var(x) {
            seq![
                match a.o {
                    TermV::Const(o) => "SELECT DISTINCT s FROM "@ + read_expr(stats, pid) + " WHERE o = "@ + int_decimal(
                        o as int,
                    ),
                    _ => "SELECT DISTINCT s FROM "@ + read_expr(stats, pid),
                },
            ]
        } else if a.o == TermV::<i64>::Var(x) {
            seq![
                match a.s {
                    TermV::Const(v) => "SELECT DISTINCT o FROM "@ + read_expr(stats, pid) + " WHERE s = "@ + int_decimal(
                        v as int,
                    ),
                    _ => "SELECT DISTINCT o FROM "@ + read_expr(stats, pid),
                },
            ]
        } else {
            Seq::empty()
        },
        _ => Seq::empty(),
    }
}

/// The value queries of `x` over a body, literal by literal.
pub open spec fn value_queries_spec(b: Seq<LiteralV<i64>>, x: Seq<char>, stats: Seq<PredStats>) -> Seq<Seq<char>>
    decreases b.len(),
{
    if b.len() == 0 {
        Seq::empty()
    } else {
        value_queries_spec(b.drop_last(), x, stats) + match b.last() {
            LiteralV::Positive(a) => value_query(a, x, stats),
            _ => Seq::empty(),
        }
    }
}

fn is_var_named(t: &Term<i64>, x: &String) -> (b: bool)
    ensures
        b == (t.deep_view() == TermV::<i64>::Var(x@)),
{
    match t {
        Term::Var(v) => str_eq(v.as_str(), x.as_str()),
        _ => false,
    }
}

fn value_query_exec(a: &Atom<i64>, x: &String, env: &CompileEnv, out: &mut Vec<String>)
    ensures
        final(out).deep_view() == old(out).deep_view() + value_query(a.deep_view(), x@, env.stats@),
{
    let ghost av = a.deep_view();
    match &a.p {
        Term::Const(pid) => {
            if is_var_named(&a.s, x) {
                let mut q = String::new();
                q.append("SELECT DISTINCT s FROM ");
                q.append(vp_read_expr(env, *pid).as_str());
                match &a.o {
                    Term::Const(o) => {
                        q.append(" WHERE o = ");
                        q.append(i64_to_string(*o).as_str());
                    },
                    _ => {},
                }
                let ghost before = out.deep_view();
                out.push(q);
                assert(out.deep_view() =~= before + value_query(av, x@, env.stats@));
            } else if is_var_named(&a.o, x) {
                let mut q = String::new();
                q.append("SELECT DISTINCT o FROM ");
                q.append(vp_read_expr(env, *pid).as_str());
                match &a.s {
                    Term::Const(v) => {
                        q.append(" WHERE s = ");
                        q.append(i64_to_string(*v).as_str());
                    },
                    _ => {},
                }
                let ghost before = out.deep_view();
                out.push(q);
                assert(out.deep_view() =~= before + value_query(av, x@, env.stats@));
            } else {
                assert(out.deep_view() =~= out.deep_view() + Seq::<Seq<char>>::empty());
            }
        },
        _ => {
            assert(out.deep_view() =~= out.deep_view() + Seq::<Seq<char>>::empty());
        },
    }
}

/// The queries whose rows are the candidate values of the predicate
/// variable `var_name`: one per positive triple pattern over a constant
/// predicate that has the variable as its subject or object.
pub fn pred_var_value_queries(rule: &Rule<i64>, var_name: &String, env: &CompileEnv) -> (r: Vec<String>)
    ensures
        r.deep_view() == value_queries_spec(rule.deep_view().body, var_name@, env.stats@),
{
    let ghost bv = rule.deep_view().body;
    let mut out: Vec<String> = Vec::new();
    let mut i: usize = 0;
    assert(bv.subrange(0, 0) =~= Seq::<LiteralV<i64>>::empty());
    assert(out.deep_view() =~= Seq::<Seq<char>>::empty());
    while i < rule.body.len()
        invariant
            bv == rule.deep_view().body,
            i <= rule.body.len(),
            out.deep_view() == value_queries_spec(bv.subrange(0, i as int), var_name@, env.stats@),
        decreases rule.body.len() - i,
    {
        let ghost sub = bv.subrange(0, i as int + 1);
        assert(sub.drop_last() =~= bv.subrange(0, i as int));
        assert(sub.last() == rule.body[i as int].deep_view());
        match &rule.body[i] {
            BodyLiteral::Positive(a) => {
                value_query_exec(a, var_name, env, &mut out);
            },
            _ => {
                assert(out.deep_view() =~= out.deep_view() + Seq::<Seq<char>>::empty());
            },
        }
        i = i + 1;
    }
    assert(bv.subrange(0, bv.len() as int) =~= bv);
    out
}

/// Whether `t` is a variable named in `vars`.
pub open spec fn var_among(t: TermV<i64>, vars: Seq<Seq<char>>) -> bool {
    match t {
        TermV::Var(v) => vars.contains(v),
        _ => false,
    }
}

/// The first positive triple pattern over a constant predicate whose subject
/// and object are both predicate variables: the query for its distinct
/// `(s, o)` pairs, with the subject's and the object's variable.
pub open spec fn pair_query_spec(b: Seq<LiteralV<i64>>, vars: Seq<Seq<char>>, stats: Seq<PredStats>) -> Option<
    (Seq<char>, Seq<char>, Seq<char>),
>
    decreases b.len(),
{
    if b.len() == 0 {
        None
    } else {
        match b[0] {
            LiteralV::Positive(a) => match (a.p, a.s, a.o) {
                (TermV::Const(pid), TermV::Var(sv), TermV::Var(ov)) => if vars.contains(sv) && vars.contains(ov) {
                    Some(("SELECT DISTINCT s, o FROM "@ + read_expr(stats, pid), sv, ov))
                } else {
                    pair_query_spec(b.drop_first(), vars, stats)
                },
                _ => pair_query_spec(b.drop_first(), vars, stats),
            },
            _ => pair_query_spec(b.drop_first(), vars, stats),
        }
    }
}

fn var_in(t: &Term<i64>, vars: &Vec<String>) -> (r: Option<String>)
    ensures
        match t.deep_view() {
            TermV::Var(v) => if vars.deep_view().contains(v) {
                r matches Some(s) && s@ == v
            } else {
                r is None
            },
            _ => r is None,
        },
{
    match t {
        Term::Var(v) => {
            if contains_name(vars, v) {
                Some(v.clone())
            } else {
                None
            }
        },
        _ => None,
    }
}

/// Where two predicate variables are the subject and object of one positive
/// triple pattern over a constant predicate (the first such), the query for
/// their joint values and the two variables; `None` otherwise.
pub fn pred_var_pair_query(rule: &Rule<i64>, pred_vars: &Vec<String>, env: &CompileEnv) -> (r: Option<
    (String, String, String),
>)
    ensures
        match pair_query_spec(rule.deep_view().body, pred_vars.deep_view(), env.stats@) {
            Some(t) => r matches Some(x) && x.0@ == t.0 && x.1@ == t.1 && x.2@ == t.2,
            None => r is None,
        },
{
    let ghost bv = rule.deep_view().body;
    let ghost vv = pred_vars.deep_view();
    let mut i: usize = 0;
    assert(bv.subrange(0, bv.len() as int) =~= bv);
    while i < rule.body.len()
        invariant
            bv == rule.deep_view().body,
            vv == pred_vars.deep_view(),
            i <= rule.body.len(),
            pair_query_spec(bv.subrange(i as int, bv.len() as int), vv, env.stats@) == pair_query_spec(
                bv,
                vv,
                env.stats@,
            ),
        decreases rule.body.len() - i,
    {
        let ghost rest = bv.subrange(i as int, bv.len() as int);
        assert(rest.drop_first() =~= bv.subrange(i + 1, bv.len() as int));
        assert(rest[0] == rule.body[i as int].deep_view());
        match &rule.body[i] {
            BodyLiteral::Positive(a) => {
                match &a.p {
                    Term::Const(pid) => {
                        let sv = var_in(&a.s, pred_vars);
                        let ov = var_in(&a.o, pred_vars);
                        match (sv, ov) {
                            (Some(s), Some(o)) => {
                                let mut q = String::new();
                                q.append("SELECT DISTINCT s, o FROM ");
                                q.append(vp_read_expr(env, *pid).as_str());
                                return Some((q, s, o));
                            },
                            _ => {},
                        }
                    },
                    _ => {},
                }
            },
            _ => {},
        }
        i = i + 1;
    }
    assert(bv.subrange(bv.len() as int, bv.len() as int) =~= Seq::<LiteralV<i64>>::empty());
    None
}

} // verus!
