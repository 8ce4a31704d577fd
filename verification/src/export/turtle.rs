//! Turtle documents grouped by subject and predicate.
//!
//! Subjects come out in ascending key order; within a subject, predicates
//! in ascending key order; the objects of one subject and predicate in the
//! order of the rows.

use vstd::prelude::*;
use super::{prefix_block, prefix_views, emit_turtle_prefixes};
use crate::text::{chars_eq, first_pos, lemma_first_pos, str_chars};

verus! {

// ─── Ordered distinct keys ───────────────────────────────────────────────────

/// `s` with `k` inserted before the first element that `k` is `lt`, unless
/// `k` is met first (then `s` unchanged).
pub open spec fn insert_ordered<K>(s: Seq<K>, k: K, lt: spec_fn(K, K) -> bool) -> Seq<K>
    decreases s.len(),
{
    if s.len() == 0 {
        seq![k]
    } else if k == s[0] {
        s
    } else if lt(k, s[0]) {
        seq![k] + s
    } else {
        seq![s[0]] + insert_ordered(s.drop_first(), k, lt)
    }
}

/// The distinct keys of `ks`, ordered by `lt`, built by insertion.
pub open spec fn ordered_keys<K>(ks: Seq<K>, lt: spec_fn(K, K) -> bool) -> Seq<K>
    decreases ks.len(),
{
    if ks.len() == 0 {
        Seq::empty()
    } else {
        insert_ordered(ordered_keys(ks.drop_last(), lt), ks.last(), lt)
    }
}

/// The order of dictionary IDs.
pub open spec fn id_lt() -> spec_fn(i64, i64) -> bool {
    |a: i64, b: i64| a < b
}

/// The distinct IDs of `ks`, ascending.
pub open spec fn sorted_ids(ks: Seq<i64>) -> Seq<i64> {
    ordered_keys(ks, id_lt())
}

proof fn lemma_insert_ordered_at<K>(s: Seq<K>, k: K, lt: spec_fn(K, K) -> bool, i: int)
    requires
        0 <= i <= s.len(),
        forall|j: int| 0 <= j < i ==> !lt(k, #[trigger] s[j]) && k != s[j],
        i < s.len() ==> lt(k, s[i]) || k == s[i],
    ensures
        insert_ordered(s, k, lt) == (if i < s.len() && k == s[i] { s } else { s.insert(i, k) }),
    decreases i,
{
    if i == 0 {
        if s.len() == 0 {
            assert(seq![k] =~= s.insert(0, k));
        } else if k != s[0] {
            assert(seq![k] + s =~= s.insert(0, k));
        }
    } else {
        let t = s.drop_first();
        assert(!lt(k, s[0]) && k != s[0]);
        assert forall|j: int| 0 <= j < i - 1 implies !lt(k, #[trigger] t[j]) && k != t[j] by {
            assert(t[j] == s[j + 1]);
        }
        if i < s.len() {
            assert(t[i - 1] == s[i]);
        }
        lemma_insert_ordered_at(t, k, lt, i - 1);
        assert(insert_ordered(s, k, lt) == seq![s[0]] + insert_ordered(t, k, lt));
        if i < s.len() && k == s[i] {
            assert(seq![s[0]] + t =~= s);
        } else {
            assert(seq![s[0]] + t.insert(i - 1, k) =~= s.insert(i, k));
        }
    }
}

proof fn lemma_insert_ordered_members<K>(s: Seq<K>, k: K, lt: spec_fn(K, K) -> bool)
    ensures
        forall|x: K| #[trigger] insert_ordered(s, k, lt).contains(x) <==> (s.contains(x) || x == k),
    decreases s.len(),
{
    broadcast use vstd::seq_lib::lemma_seq_concat_contains_all_elements;

    if s.len() == 0 {
        assert(insert_ordered(s, k, lt) =~= seq![k]);
        assert(seq![k][0] == k);
    } else {
        let t = s.drop_first();
        assert(s =~= seq![s[0]] + t);
        assert(seq![k][0] == k);
        assert(seq![s[0]][0] == s[0]);
        if k == s[0] {
            assert(insert_ordered(s, k, lt) == s);
        } else if lt(k, s[0]) {
            assert(insert_ordered(s, k, lt) == seq![k] + s);
        } else {
            lemma_insert_ordered_members(t, k, lt);
            assert(insert_ordered(s, k, lt) == seq![s[0]] + insert_ordered(t, k, lt));
        }
    }
}

/// Every key of `ks` is among its ordered keys, and nothing else is.
pub proof fn lemma_ordered_keys_members<K>(ks: Seq<K>, lt: spec_fn(K, K) -> bool)
    ensures
        forall|x: K| #[trigger] ordered_keys(ks, lt).contains(x) <==> ks.contains(x),
    decreases ks.len(),
{
    if ks.len() > 0 {
        let d = ks.drop_last();
        lemma_ordered_keys_members(d, lt);
        lemma_insert_ordered_members(ordered_keys(d, lt), ks.last(), lt);
        assert forall|x: K| #[trigger] ordered_keys(ks, lt).contains(x) <==> ks.contains(x) by {
            if d.contains(x) {
                let j = choose|j: int| 0 <= j < d.len() && d[j] == x;
                assert(ks[j] == x);
            }
            if ks.contains(x) && x != ks.last() {
                let j = choose|j: int| 0 <= j < ks.len() && ks[j] == x;
                assert(j < ks.len() - 1);
                assert(d[j] == x);
            }
            assert(ks[ks.len() - 1] == ks.last());
        }
    }
}

/// `s` is strictly ascending under `lt`.
pub open spec fn strictly_ordered<K>(s: Seq<K>, lt: spec_fn(K, K) -> bool) -> bool {
    forall|i: int, j: int| 0 <= i < j < s.len() ==> lt(#[trigger] s[i], #[trigger] s[j])
}

/// `lt` is a strict total order.
pub open spec fn strict_total_order<K>(lt: spec_fn(K, K) -> bool) -> bool {
    &&& forall|a: K, b: K, c: K| #[trigger] lt(a, b) && #[trigger] lt(b, c) ==> lt(a, c)
    &&& forall|a: K, b: K| #[trigger] lt(a, b) || lt(b, a) || a == b
}

proof fn lemma_insert_ordered_sorted<K>(s: Seq<K>, k: K, lt: spec_fn(K, K) -> bool)
    requires
        strict_total_order(lt),
        strictly_ordered(s, lt),
    ensures
        strictly_ordered(insert_ordered(s, k, lt), lt),
    decreases s.len(),
{
    if s.len() == 0 {
    } else if k == s[0] {
    } else if lt(k, s[0]) {
        let r = seq![k] + s;
        assert forall|i: int, j: int| 0 <= i < j < r.len() implies lt(#[trigger] r[i], #[trigger] r[j]) by {
            if i == 0 {
                if j > 1 {
                    assert(lt(s[0], s[j - 1]));
                }
            } else {
                assert(r[i] == s[i - 1] && r[j] == s[j - 1]);
            }
        }
    } else {
        let t = s.drop_first();
        assert(lt(s[0], k));
        assert(strictly_ordered(t, lt)) by {
            assert forall|i: int, j: int| 0 <= i < j < t.len() implies lt(#[trigger] t[i], #[trigger] t[j]) by {
                assert(t[i] == s[i + 1] && t[j] == s[j + 1]);
            }
        }
        lemma_insert_ordered_sorted(t, k, lt);
        lemma_insert_ordered_members(t, k, lt);
        let q = insert_ordered(t, k, lt);
        let r = seq![s[0]] + q;
        assert forall|i: int, j: int| 0 <= i < j < r.len() implies lt(#[trigger] r[i], #[trigger] r[j]) by {
            if i == 0 {
                assert(r[j] == q[j - 1]);
                assert(q.contains(q[j - 1]));
                if q[j - 1] != k {
                    let m = choose|m: int| 0 <= m < t.len() && t[m] == q[j - 1];
                    assert(lt(s[0], s[m + 1]));
                }
            } else {
                assert(r[i] == q[i - 1] && r[j] == q[j - 1]);
            }
        }
    }
}

/// The ordered keys of `ks` under a strict total order are strictly
/// ascending: each distinct key once, in order.
pub proof fn law_ordered_keys_ascending<K>(ks: Seq<K>, lt: spec_fn(K, K) -> bool)
    requires
        strict_total_order(lt),
    ensures
        strictly_ordered(ordered_keys(ks, lt), lt),
        forall|x: K| #[trigger] ordered_keys(ks, lt).contains(x) <==> ks.contains(x),
    decreases ks.len(),
{
    lemma_ordered_keys_members(ks, lt);
    if ks.len() > 0 {
        law_ordered_keys_ascending(ks.drop_last(), lt);
        lemma_insert_ordered_sorted(ordered_keys(ks.drop_last(), lt), ks.last(), lt);
    }
}

/// Turtle blocks keyed by dictionary ID come out in strictly ascending ID
/// order, one per distinct ID.
pub proof fn law_sorted_ids_ascending(ks: Seq<i64>)
    ensures
        forall|i: int, j: int| 0 <= i < j < sorted_ids(ks).len() ==> sorted_ids(ks)[i] < sorted_ids(ks)[j],
        forall|x: i64| #[trigger] sorted_ids(ks).contains(x) <==> ks.contains(x),
{
    law_ordered_keys_ascending(ks, id_lt());
}

/// Inserts `k` into the ascending distinct IDs `v`.
pub(crate) fn insert_id(v: &mut Vec<i64>, k: i64)
    ensures
        final(v)@ == insert_ordered(old(v)@, k, id_lt()),
{
    let mut i: usize = 0;
    while i < v.len() && v[i] < k
        invariant
            i <= v@.len(),
            forall|j: int| 0 <= j < i ==> #[trigger] v@[j] < k,
        decreases v.len() - i,
    {
        i = i + 1;
    }
    proof {
        lemma_insert_ordered_at(v@, k, id_lt(), i as int);
    }
    if i < v.len() && v[i] == k {
        return;
    }
    v.insert(i, k);
}

// ─── Grouping ────────────────────────────────────────────────────────────────

/// A triple decoded for Turtle, with the keys by which subjects and
/// predicates are grouped and ordered.
#[derive(Debug)]
pub struct KeyedTriple {
    pub s_id: i64,
    pub s: String,
    pub p_id: i64,
    pub p: String,
    pub o: String,
}

/// A keyed triple as `(subject key, subject, predicate key, predicate, object)`.
pub type KeyedView = (i64, Seq<char>, i64, Seq<char>, Seq<char>);

/// The rows as keyed text triples.
pub open spec fn keyed_views(rows: Seq<KeyedTriple>) -> Seq<KeyedView> {
    Seq::new(rows.len(), |i: int| (rows[i].s_id, rows[i].s@, rows[i].p_id, rows[i].p@, rows[i].o@))
}

/// The subject keys of `rv`, in row order.
pub open spec fn subject_ids(rv: Seq<KeyedView>) -> Seq<i64> {
    Seq::new(rv.len(), |i: int| rv[i].0)
}

/// The predicate keys of `rv`, in row order.
pub open spec fn predicate_ids(rv: Seq<KeyedView>) -> Seq<i64> {
    Seq::new(rv.len(), |i: int| rv[i].2)
}

/// The rows of `rv` with subject key `k`, in row order.
pub open spec fn with_subject(rv: Seq<KeyedView>, k: i64) -> Seq<KeyedView>
    decreases rv.len(),
{
    if rv.len() == 0 {
        Seq::empty()
    } else {
        with_subject(rv.drop_last(), k) + (if rv.last().0 == k { seq![rv.last()] } else { Seq::empty() })
    }
}

/// The rows of `rv` with predicate key `k`, in row order.
pub open spec fn with_predicate(rv: Seq<KeyedView>, k: i64) -> Seq<KeyedView>
    decreases rv.len(),
{
    if rv.len() == 0 {
        Seq::empty()
    } else {
        with_predicate(rv.drop_last(), k) + (if rv.last().2 == k { seq![rv.last()] } else { Seq::empty() })
    }
}

/// The objects of `g`, separated by ` ,` and an indented new line.
pub open spec fn object_list(g: Seq<KeyedView>) -> Seq<char>
    decreases g.len(),
{
    if g.len() == 0 {
        Seq::empty()
    } else if g.len() == 1 {
        g[0].4
    } else {
        object_list(g.drop_last()) + " ,\n        "@ + g.last().4
    }
}

/// The entry of one predicate: its text (from its first row) and its objects.
pub open spec fn predicate_entry(g: Seq<KeyedView>) -> Seq<char> {
    "    "@ + g[0].3 + " "@ + object_list(g)
}

/// The entries of the predicates `pks` of a subject's rows `f`, separated by ` ;`.
pub open spec fn predicate_entries(f: Seq<KeyedView>, pks: Seq<i64>) -> Seq<char>
    decreases pks.len(),
{
    if pks.len() == 0 {
        Seq::empty()
    } else if pks.len() == 1 {
        predicate_entry(with_predicate(f, pks[0]))
    } else {
        predicate_entries(f, pks.drop_last()) + " ;\n"@ + predicate_entry(with_predicate(f, pks.last()))
    }
}

/// The block of one subject with rows `f`: the subject's text (from its first
/// row), its predicates in ascending key order, a final ` .`, an empty line.
pub open spec fn subject_block(f: Seq<KeyedView>) -> Seq<char> {
    f[0].1 + "\n"@ + predicate_entries(f, sorted_ids(predicate_ids(f))) + " .\n"@ + "\n"@
}

/// The blocks of the subjects `sks`, in that order.
pub open spec fn subject_blocks(rv: Seq<KeyedView>, sks: Seq<i64>) -> Seq<char>
    decreases sks.len(),
{
    if sks.len() == 0 {
        Seq::empty()
    } else {
        subject_blocks(rv, sks.drop_last()) + subject_block(with_subject(rv, sks.last()))
    }
}

/// The Turtle statements of `rv`: one block per subject, in ascending key order.
pub open spec fn turtle_body(rv: Seq<KeyedView>) -> Seq<char> {
    subject_blocks(rv, sorted_ids(subject_ids(rv)))
}

pub(crate) proof fn lemma_with_subject_nonempty(rv: Seq<KeyedView>, k: i64)
    requires
        subject_ids(rv).contains(k),
    ensures
        with_subject(rv, k).len() > 0,
    decreases rv.len(),
{
    if rv.last().0 != k {
        let j = choose|j: int| 0 <= j < rv.len() && subject_ids(rv)[j] == k;
        assert(j < rv.len() - 1);
        assert(subject_ids(rv.drop_last())[j] == k);
        lemma_with_subject_nonempty(rv.drop_last(), k);
    }
}

pub(crate) proof fn lemma_with_predicate_nonempty(rv: Seq<KeyedView>, k: i64)
    requires
        predicate_ids(rv).contains(k),
    ensures
        with_predicate(rv, k).len() > 0,
    decreases rv.len(),
{
    if rv.last().2 != k {
        let j = choose|j: int| 0 <= j < rv.len() && predicate_ids(rv)[j] == k;
        assert(j < rv.len() - 1);
        assert(predicate_ids(rv.drop_last())[j] == k);
        lemma_with_predicate_nonempty(rv.drop_last(), k);
    }
}

/// The distinct subject keys of `rows`, ascending.
pub(crate) fn sorted_subject_ids(rows: &Vec<KeyedTriple>) -> (ks: Vec<i64>)
    ensures
        ks@ == sorted_ids(subject_ids(keyed_views(rows@))),
{
    let ghost ids = subject_ids(keyed_views(rows@));
    let mut ks: Vec<i64> = Vec::new();
    let mut i: usize = 0;
    while i < rows.len()
        invariant
            i <= rows@.len(),
            ids == subject_ids(keyed_views(rows@)),
            ks@ == sorted_ids(ids.take(i as int)),
        decreases rows.len() - i,
    {
        insert_id(&mut ks, rows[i].s_id);
        proof {
            assert(ids.take(i + 1).drop_last() =~= ids.take(i as int));
            assert(ids.take(i + 1).last() == rows@[i as int].s_id);
        }
        i = i + 1;
    }
    assert(ids.take(rows@.len() as int) =~= ids);
    ks
}

/// The positions in `rows` of the rows with subject key `k`.
pub(crate) fn rows_with_subject(rows: &Vec<KeyedTriple>, k: i64) -> (sel: Vec<usize>)
    ensures
        sel@.len() == with_subject(keyed_views(rows@), k).len(),
        forall|j: int|
            0 <= j < sel@.len() ==> (#[trigger] sel@[j]) < rows@.len() && keyed_views(rows@)[sel@[j] as int]
                == with_subject(keyed_views(rows@), k)[j],
{
    let ghost rv = keyed_views(rows@);
    let mut sel: Vec<usize> = Vec::new();
    let mut i: usize = 0;
    while i < rows.len()
        invariant
            i <= rows@.len(),
            rv == keyed_views(rows@),
            sel@.len() == with_subject(rv.take(i as int), k).len(),
            forall|j: int|
                0 <= j < sel@.len() ==> (#[trigger] sel@[j]) < rows@.len() && rv[sel@[j] as int] == with_subject(
                    rv.take(i as int),
                    k,
                )[j],
        decreases rows.len() - i,
    {
        proof {
            assert(rv.take(i + 1).drop_last() =~= rv.take(i as int));
            assert(rv.take(i + 1).last() == rv[i as int]);
        }
        if rows[i].s_id == k {
            sel.push(i);
        }
        i = i + 1;
    }
    assert(rv.take(rows@.len() as int) =~= rv);
    sel
}

/// The entry of predicate `pk` among a subject's rows `f`, which `sel`
/// locates in `rows`.
fn predicate_entry_of(rows: &Vec<KeyedTriple>, sel: &Vec<usize>, Ghost(f): Ghost<Seq<KeyedView>>, pk: i64) -> (r:
    String)
    requires
        sel@.len() == f.len(),
        forall|j: int|
            0 <= j < sel@.len() ==> (#[trigger] sel@[j]) < rows@.len() && keyed_views(rows@)[sel@[j] as int]
                == f[j],
        with_predicate(f, pk).len() > 0,
    ensures
        r@ == predicate_entry(with_predicate(f, pk)),
{
    let mut objs = String::new();
    let mut ptext = String::new();
    let mut count: usize = 0;
    let mut j: usize = 0;
    while j < sel.len()
        invariant
            j <= sel@.len(),
            sel@.len() == f.len(),
            forall|q: int|
                0 <= q < sel@.len() ==> (#[trigger] sel@[q]) < rows@.len() && keyed_views(rows@)[sel@[q] as int]
                    == f[q],
            count <= j,
            count == with_predicate(f.take(j as int), pk).len(),
            objs@ == object_list(with_predicate(f.take(j as int), pk)),
            count > 0 ==> ptext@ == with_predicate(f.take(j as int), pk)[0].3,
        decreases sel.len() - j,
    {
        let ghost g = with_predicate(f.take(j as int), pk);
        proof {
            assert(f.take(j + 1).drop_last() =~= f.take(j as int));
            assert(f.take(j + 1).last() == f[j as int]);
        }
        let row = &rows[sel[j]];
        if row.p_id == pk {
            let ghost g1 = with_predicate(f.take(j + 1), pk);
            assert(g1 == g.push(f[j as int]));
            if count == 0 {
                ptext = String::from_str(row.p.as_str());
            } else {
                objs.append(" ,\n        ");
                assert(g1.drop_last() =~= g);
            }
            objs.append(row.o.as_str());
            count = count + 1;
        } else {
            assert(with_predicate(f.take(j + 1), pk) =~= g);
        }
        j = j + 1;
    }
    assert(f.take(sel@.len() as int) =~= f);
    let mut out = String::from_str("    ");
    out.append(ptext.as_str());
    out.append(" ");
    out.append(objs.as_str());
    out
}

/// The block of subject `k`.
fn subject_block_of(rows: &Vec<KeyedTriple>, k: i64) -> (r: String)
    requires
        with_subject(keyed_views(rows@), k).len() > 0,
    ensures
        r@ == subject_block(with_subject(keyed_views(rows@), k)),
{
    let ghost f = with_subject(keyed_views(rows@), k);
    let ghost ids = predicate_ids(f);
    let sel = rows_with_subject(rows, k);
    let mut pks: Vec<i64> = Vec::new();
    let mut j: usize = 0;
    while j < sel.len()
        invariant
            j <= sel@.len(),
            sel@.len() == f.len(),
            forall|q: int|
                0 <= q < sel@.len() ==> (#[trigger] sel@[q]) < rows@.len() && keyed_views(rows@)[sel@[q] as int]
                    == f[q],
            ids == predicate_ids(f),
            pks@ == sorted_ids(ids.take(j as int)),
        decreases sel.len() - j,
    {
        insert_id(&mut pks, rows[sel[j]].p_id);
        proof {
            assert(ids.take(j + 1).drop_last() =~= ids.take(j as int));
            assert(ids.take(j + 1).last() == f[j as int].2);
        }
        j = j + 1;
    }
    assert(ids.take(sel@.len() as int) =~= ids);
    let mut out = String::from_str(rows[sel[0]].s.as_str());
    out.append("\n");
    proof {
        lemma_ordered_keys_members(ids, id_lt());
    }
    let mut m: usize = 0;
    while m < pks.len()
        invariant
            m <= pks@.len(),
            sel@.len() == f.len(),
            f.len() > 0,
            forall|q: int|
                0 <= q < sel@.len() ==> (#[trigger] sel@[q]) < rows@.len() && keyed_views(rows@)[sel@[q] as int]
                    == f[q],
            ids == predicate_ids(f),
            pks@ == sorted_ids(ids),
            forall|x: i64| #[trigger] pks@.contains(x) <==> ids.contains(x),
            out@ == f[0].1 + "\n"@ + predicate_entries(f, pks@.take(m as int)),
        decreases pks.len() - m,
    {
        if m > 0 {
            out.append(" ;\n");
        }
        proof {
            assert(pks@.contains(pks@[m as int]));
            lemma_with_predicate_nonempty(f, pks@[m as int]);
            assert(pks@.take(m + 1).drop_last() =~= pks@.take(m as int));
            assert(pks@.take(m + 1).last() == pks@[m as int]);
        }
        let e = predicate_entry_of(rows, &sel, Ghost(f), pks[m]);
        out.append(e.as_str());
        m = m + 1;
    }
    assert(pks@.take(pks@.len() as int) =~= pks@);
    out.append(" .\n");
    out.append("\n");
    out
}

/// Writes the Turtle statements of `rows`.
fn write_turtle_body(rows: &Vec<KeyedTriple>) -> (r: String)
    ensures
        r@ == turtle_body(keyed_views(rows@)),
{
    let ghost rv = keyed_views(rows@);
    let sks = sorted_subject_ids(rows);
    proof {
        lemma_ordered_keys_members(subject_ids(rv), id_lt());
    }
    let mut out = String::new();
    let mut m: usize = 0;
    while m < sks.len()
        invariant
            m <= sks@.len(),
            rv == keyed_views(rows@),
            sks@ == sorted_ids(subject_ids(rv)),
            forall|x: i64| #[trigger] sks@.contains(x) <==> subject_ids(rv).contains(x),
            out@ == subject_blocks(rv, sks@.take(m as int)),
        decreases sks.len() - m,
    {
        proof {
            assert(sks@.contains(sks@[m as int]));
            lemma_with_subject_nonempty(rv, sks@[m as int]);
            assert(sks@.take(m + 1).drop_last() =~= sks@.take(m as int));
            assert(sks@.take(m + 1).last() == sks@[m as int]);
        }
        let b = subject_block_of(rows, sks[m]);
        out.append(b.as_str());
        m = m + 1;
    }
    assert(sks@.take(sks@.len() as int) =~= sks@);
    out
}

/// Exports triples as Turtle: the prefix declarations of the registry rows
/// `prefixes`, then one block per subject, grouped by subject key and then
/// by predicate key.
pub fn export_turtle(prefixes: &Vec<(String, String)>, rows: &Vec<KeyedTriple>) -> (r: String)
    ensures
        r@ == prefix_block(prefix_views(prefixes@)) + turtle_body(keyed_views(rows@)),
{
    let mut out = emit_turtle_prefixes(prefixes);
    let body = write_turtle_body(rows);
    out.append(body.as_str());
    out
}

/// The Turtle export used when confidence export is off.
pub fn export_turtle_impl(prefixes: &Vec<(String, String)>, rows: &Vec<KeyedTriple>) -> (r: String)
    ensures
        r@ == prefix_block(prefix_views(prefixes@)) + turtle_body(keyed_views(rows@)),
{
    export_turtle(prefixes, rows)
}

/// The RDF-star annotation of an object whose statement has confidence
/// `c` (the decimal text of the stored value).
pub open spec fn confidence_annotation(c: Seq<char>) -> Seq<char> {
    " {| <http://pg-ripple.org/ns/confidence> \""@ + c + "\"^^<http://www.w3.org/2001/XMLSchema#double> |}"@
}

/// An object's text, followed by the annotation of its confidence when it
/// has one.
pub open spec fn annotated_object(o: Seq<char>, c: Option<Seq<char>>) -> Seq<char> {
    match c {
        Some(c) => o + confidence_annotation(c),
        None => o,
    }
}

/// The rows with each object annotated with the confidence of its row.
pub open spec fn annotated_views(rv: Seq<KeyedView>, cs: Seq<Option<Seq<char>>>) -> Seq<KeyedView> {
    Seq::new(rv.len(), |i: int| (rv[i].0, rv[i].1, rv[i].2, rv[i].3, annotated_object(rv[i].4, cs[i])))
}

/// The views of the optional confidence texts.
pub open spec fn confidence_views(cs: Seq<Option<String>>) -> Seq<Option<Seq<char>>> {
    Seq::new(cs.len(), |i: int| match cs[i] {
        Some(c) => Some(c@),
        None => None,
    })
}

/// Exports triples as Turtle with RDF-star confidence annotations:
/// `confidences[i]` is the stored confidence of row `i` as decimal text, or
/// `None` for a statement without one.  The document is that of
/// [`export_turtle`] with each annotated object followed by
/// `{| <http://pg-ripple.org/ns/confidence> "c"^^xsd:double |}`.
pub fn export_turtle_with_confidence_impl(
    prefixes: &Vec<(String, String)>,
    rows: &Vec<KeyedTriple>,
    confidences: &Vec<Option<String>>,
) -> (r: String)
    requires
        confidences@.len() == rows@.len(),
    ensures
        r@ == prefix_block(prefix_views(prefixes@)) + turtle_body(
            annotated_views(keyed_views(rows@), confidence_views(confidences@)),
        ),
{
    let ghost target = annotated_views(keyed_views(rows@), confidence_views(confidences@));
    let mut annotated: Vec<KeyedTriple> = Vec::new();
    let mut i: usize = 0;
    while i < rows.len()
        invariant
            i <= rows@.len(),
            confidences@.len() == rows@.len(),
            target == annotated_views(keyed_views(rows@), confidence_views(confidences@)),
            annotated@.len() == i,
            forall|k: int| 0 <= k < i ==> #[trigger] keyed_views(annotated@)[k] == target[k],
        decreases rows.len() - i,
    {
        let row = &rows[i];
        let mut o = row.o.clone();
        match &confidences[i] {
            Some(c) => {
                o.append(" {| <http://pg-ripple.org/ns/confidence> \"");
                o.append(c.as_str());
                o.append("\"^^<http://www.w3.org/2001/XMLSchema#double> |}");
            },
            None => {},
        }
        proof {
            reveal_strlit(" {| <http://pg-ripple.org/ns/confidence> \"");
            reveal_strlit("\"^^<http://www.w3.org/2001/XMLSchema#double> |}");
        }
        let ghost old_a = annotated@;
        annotated.push(KeyedTriple { s_id: row.s_id, s: row.s.clone(), p_id: row.p_id, p: row.p.clone(), o });
        proof {
            assert forall|k: int| 0 <= k <= i implies #[trigger] keyed_views(annotated@)[k] == target[k] by {
                if k < i {
                    assert(annotated@[k] == old_a[k]);
                    assert(keyed_views(old_a)[k] == target[k]);
                } else {
                    assert(confidence_views(confidences@)[k] == match confidences@[k] {
                        Some(c) => Some(c@),
                        None => None,
                    });
                    match confidences@[k] {
                        Some(c) => {
                            assert(annotated@[k].o@ =~= rows@[k].o@ + confidence_annotation(c@));
                        },
                        None => {},
                    }
                }
            }
        }
        i = i + 1;
    }
    assert(keyed_views(annotated@) =~= target);
    export_turtle(prefixes, &annotated)
}

// ─── Turtle from text triples ────────────────────────────────────────────────

/// `a` sorts before `b` character by character, a proper prefix first: the
/// order of `&str`, whose UTF-8 byte order is that of the code points.
pub open spec fn text_lt(a: Seq<char>, b: Seq<char>) -> bool
    decreases a.len(),
{
    if a.len() == 0 {
        b.len() > 0
    } else if b.len() == 0 {
        false
    } else if a[0] != b[0] {
        a[0] < b[0]
    } else {
        text_lt(a.drop_first(), b.drop_first())
    }
}

/// The order of texts.
pub open spec fn text_order() -> spec_fn(Seq<char>, Seq<char>) -> bool {
    |a: Seq<char>, b: Seq<char>| text_lt(a, b)
}

/// The distinct texts of `ks`, in text order.
pub open spec fn sorted_texts(ks: Seq<Seq<char>>) -> Seq<Seq<char>> {
    ordered_keys(ks, text_order())
}

/// The triples as text.
pub open spec fn text_triples(ts: Seq<(String, String, String)>) -> Seq<(Seq<char>, Seq<char>, Seq<char>)> {
    Seq::new(ts.len(), |i: int| (ts[i].0@, ts[i].1@, ts[i].2@))
}

/// The subjects of `ts`, in row order.
pub open spec fn subject_texts(ts: Seq<(Seq<char>, Seq<char>, Seq<char>)>) -> Seq<Seq<char>> {
    Seq::new(ts.len(), |i: int| ts[i].0)
}

/// The predicates of `ts`, in row order.
pub open spec fn predicate_texts(ts: Seq<(Seq<char>, Seq<char>, Seq<char>)>) -> Seq<Seq<char>> {
    Seq::new(ts.len(), |i: int| ts[i].1)
}

/// The triples keyed by the rank of their subject among the distinct
/// subjects and of their predicate among the distinct predicates, both in
/// text order.
pub open spec fn ranked_views(ts: Seq<(Seq<char>, Seq<char>, Seq<char>)>) -> Seq<KeyedView> {
    let ss = sorted_texts(subject_texts(ts));
    let ps = sorted_texts(predicate_texts(ts));
    Seq::new(
        ts.len(),
        |i: int| (first_pos(ss, ts[i].0) as i64, ts[i].0, first_pos(ps, ts[i].1) as i64, ts[i].1, ts[i].2),
    )
}

proof fn lemma_text_lt_strict(a: Seq<char>, b: Seq<char>)
    ensures
        text_lt(a, b) ==> !text_lt(b, a) && a != b,
        text_lt(a, b) || text_lt(b, a) || a == b,
    decreases a.len(),
{
    if a.len() > 0 && b.len() > 0 && a[0] == b[0] {
        lemma_text_lt_strict(a.drop_first(), b.drop_first());
        if a.drop_first() == b.drop_first() {
            assert(a =~= seq![a[0]] + a.drop_first());
            assert(b =~= seq![b[0]] + b.drop_first());
        }
    }
    if a.len() == 0 && b.len() == 0 {
        assert(a =~= b);
    }
}

proof fn lemma_text_lt_trans(a: Seq<char>, b: Seq<char>, c: Seq<char>)
    requires
        text_lt(a, b),
        text_lt(b, c),
    ensures
        text_lt(a, c),
    decreases a.len(),
{
    if a.len() > 0 && a[0] == b[0] && b[0] == c[0] {
        lemma_text_lt_trans(a.drop_first(), b.drop_first(), c.drop_first());
    }
}

/// Turtle blocks from text triples come out in strictly ascending text
/// order, one per distinct subject (and, within it, per distinct predicate).
pub proof fn law_sorted_texts_ascending(ks: Seq<Seq<char>>)
    ensures
        forall|i: int, j: int|
            0 <= i < j < sorted_texts(ks).len() ==> text_lt(sorted_texts(ks)[i], sorted_texts(ks)[j]),
        forall|x: Seq<char>| #[trigger] sorted_texts(ks).contains(x) <==> ks.contains(x),
{
    let lt = text_order();
    assert forall|a: Seq<char>, b: Seq<char>, c: Seq<char>| #[trigger] lt(a, b) && #[trigger] lt(b, c) implies lt(
        a,
        c,
    ) by {
        lemma_text_lt_trans(a, b, c);
    }
    assert forall|a: Seq<char>, b: Seq<char>| #[trigger] lt(a, b) || lt(b, a) || a == b by {
        lemma_text_lt_strict(a, b);
    }
    law_ordered_keys_ascending(ks, lt);
    let r = sorted_texts(ks);
    assert forall|i: int, j: int| 0 <= i < j < r.len() implies text_lt(r[i], r[j]) by {
        assert(lt(r[i], r[j]));
    }
}

/// Whether `a` sorts before `b`.
fn chars_lt(a: &Vec<char>, b: &Vec<char>) -> (r: bool)
    ensures
        r == text_lt(a@, b@),
{
    assert(a@.skip(0) =~= a@);
    assert(b@.skip(0) =~= b@);
    let mut i: usize = 0;
    while i < a.len() && i < b.len() && a[i] == b[i]
        invariant
            i <= a@.len(),
            i <= b@.len(),
            text_lt(a@, b@) == text_lt(a@.skip(i as int), b@.skip(i as int)),
        decreases a.len() - i,
    {
        proof {
            assert(a@.skip(i as int).drop_first() =~= a@.skip(i + 1));
            assert(b@.skip(i as int).drop_first() =~= b@.skip(i + 1));
        }
        i = i + 1;
    }
    if i == a.len() {
        i < b.len()
    } else if i == b.len() {
        false
    } else {
        a[i] < b[i]
    }
}

/// Inserts `k` into the distinct texts `v`, kept in text order.
pub(crate) fn insert_text(v: &mut Vec<Vec<char>>, k: Vec<char>)
    ensures
        char_views(final(v)@) == insert_ordered(char_views(old(v)@), k@, text_order()),
{
    let ghost s = char_views(v@);
    let mut i: usize = 0;
    while i < v.len() && chars_lt(&v[i], &k)
        invariant
            i <= v@.len(),
            s == char_views(v@),
            forall|j: int| 0 <= j < i ==> text_lt(#[trigger] s[j], k@),
        decreases v.len() - i,
    {
        i = i + 1;
    }
    proof {
        assert forall|j: int| 0 <= j < i implies !text_lt(k@, #[trigger] s[j]) && k@ != s[j] by {
            lemma_text_lt_strict(s[j], k@);
        }
        if i < v.len() {
            lemma_text_lt_strict(s[i as int], k@);
        }
        lemma_insert_ordered_at(s, k@, text_order(), i as int);
    }
    if i < v.len() && chars_eq(&v[i], &k) {
        return;
    }
    v.insert(i, k);
    assert(char_views(v@) =~= s.insert(i as int, k@));
}

/// The views of a vector of character vectors.
pub open spec fn char_views(v: Seq<Vec<char>>) -> Seq<Seq<char>> {
    Seq::new(v.len(), |i: int| v[i]@)
}

/// The position of `x` in `v`, where it occurs.
pub(crate) fn position_of(v: &Vec<Vec<char>>, x: &Vec<char>) -> (r: usize)
    requires
        char_views(v@).contains(x@),
    ensures
        r < v@.len(),
        r == first_pos(char_views(v@), x@),
{
    let ghost s = char_views(v@);
    let mut j: usize = 0;
    while j < v.len() && !chars_eq(&v[j], x)
        invariant
            j <= v@.len(),
            s == char_views(v@),
            forall|q: int| 0 <= q < j ==> #[trigger] s[q] != x@,
        decreases v.len() - j,
    {
        j = j + 1;
    }
    proof {
        if j == v.len() {
            let q = choose|q: int| 0 <= q < s.len() && s[q] == x@;
            assert(s[q] != x@);
        }
        lemma_first_pos(s, x@, j as int);
    }
    j
}

/// The text triples keyed by the ranks of their subjects and predicates in
/// text order.
pub(crate) fn ranked_rows(triples: &[(String, String, String)]) -> (rows: Vec<KeyedTriple>)
    requires
        triples@.len() <= i64::MAX,
    ensures
        keyed_views(rows@) == ranked_views(text_triples(triples@)),
{
    let ghost ts = text_triples(triples@);
    let mut ss: Vec<Vec<char>> = Vec::new();
    let mut ps: Vec<Vec<char>> = Vec::new();
    let mut i: usize = 0;
    while i < triples.len()
        invariant
            i <= triples@.len(),
            ts == text_triples(triples@),
            char_views(ss@) == sorted_texts(subject_texts(ts).take(i as int)),
            char_views(ps@) == sorted_texts(predicate_texts(ts).take(i as int)),
        decreases triples.len() - i,
    {
        let (s, p, _) = &triples[i];
        insert_text(&mut ss, str_chars(s.as_str()));
        insert_text(&mut ps, str_chars(p.as_str()));
        proof {
            let st = subject_texts(ts);
            let pt = predicate_texts(ts);
            assert(st.take(i + 1).drop_last() =~= st.take(i as int));
            assert(pt.take(i + 1).drop_last() =~= pt.take(i as int));
        }
        i = i + 1;
    }
    proof {
        assert(subject_texts(ts).take(triples@.len() as int) =~= subject_texts(ts));
        assert(predicate_texts(ts).take(triples@.len() as int) =~= predicate_texts(ts));
        lemma_ordered_keys_members(subject_texts(ts), text_order());
        lemma_ordered_keys_members(predicate_texts(ts), text_order());
    }
    let ghost rv = ranked_views(ts);
    let mut rows: Vec<KeyedTriple> = Vec::new();
    let mut i: usize = 0;
    while i < triples.len()
        invariant
            i <= triples@.len(),
            triples@.len() <= i64::MAX,
            ts == text_triples(triples@),
            rv == ranked_views(ts),
            char_views(ss@) == sorted_texts(subject_texts(ts)),
            char_views(ps@) == sorted_texts(predicate_texts(ts)),
            forall|x: Seq<char>| #[trigger] char_views(ss@).contains(x) <==> subject_texts(ts).contains(x),
            forall|x: Seq<char>| #[trigger] char_views(ps@).contains(x) <==> predicate_texts(ts).contains(x),
            keyed_views(rows@) == rv.take(i as int),
        decreases triples.len() - i,
    {
        let (s, p, o) = &triples[i];
        let sc = str_chars(s.as_str());
        let pc = str_chars(p.as_str());
        proof {
            assert(subject_texts(ts)[i as int] == sc@);
            assert(predicate_texts(ts)[i as int] == pc@);
        }
        let si = position_of(&ss, &sc);
        let pi = position_of(&ps, &pc);
        let row = KeyedTriple {
            s_id: si as i64,
            s: String::from_str(s.as_str()),
            p_id: pi as i64,
            p: String::from_str(p.as_str()),
            o: String::from_str(o.as_str()),
        };
        let ghost before = rows@;
        rows.push(row);
        proof {
            assert(keyed_views(rows@) =~= keyed_views(before).push(rv[i as int]));
            assert(rv.take(i + 1) =~= rv.take(i as int).push(rv[i as int]));
        }
        i = i + 1;
    }
    assert(rv.take(triples@.len() as int) =~= rv);
    rows
}

/// Writes `(s, p, o)` rows of N-Triples terms (the result of a `CONSTRUCT`
/// or `DESCRIBE` query) as Turtle, grouped by subject and then predicate in
/// text order.
pub fn triples_to_turtle(triples: &[(String, String, String)]) -> (r: String)
    requires
        triples@.len() <= i64::MAX,
    ensures
        r@ == turtle_body(ranked_views(text_triples(triples@))),
{
    let rows = ranked_rows(triples);
    write_turtle_body(&rows)
}

// ─── Regrouping laws ─────────────────────────────────────────────────────────

proof fn lemma_insert_ordered_len<K>(s: Seq<K>, k: K, lt: spec_fn(K, K) -> bool)
    ensures
        insert_ordered(s, k, lt).len() <= s.len() + 1,
    decreases s.len(),
{
    if s.len() > 0 && k != s[0] && !lt(k, s[0]) {
        lemma_insert_ordered_len(s.drop_first(), k, lt);
    }
}

proof fn lemma_ordered_keys_len<K>(ks: Seq<K>, lt: spec_fn(K, K) -> bool)
    ensures
        ordered_keys(ks, lt).len() <= ks.len(),
    decreases ks.len(),
{
    if ks.len() > 0 {
        lemma_ordered_keys_len(ks.drop_last(), lt);
        lemma_insert_ordered_len(ordered_keys(ks.drop_last(), lt), ks.last(), lt);
    }
}

/// Two strictly ordered sequences with the same members are equal.
proof fn lemma_sorted_unique<K>(a: Seq<K>, b: Seq<K>, lt: spec_fn(K, K) -> bool)
    requires
        forall|x: K, y: K, z: K| #[trigger] lt(x, y) && #[trigger] lt(y, z) ==> lt(x, z),
        forall|x: K| !#[trigger] lt(x, x),
        strictly_ordered(a, lt),
        strictly_ordered(b, lt),
        forall|x: K| #![trigger a.contains(x)] #![trigger b.contains(x)] a.contains(x) <==> b.contains(x),
    ensures
        a == b,
    decreases a.len(),
{
    if a.len() == 0 {
        if b.len() > 0 {
            assert(b.contains(b[0]));
        }
        assert(a =~= b);
    } else {
        assert(a.contains(a[0]));
        let j = choose|j: int| 0 <= j < b.len() && b[j] == a[0];
        assert(b.contains(b[0]));
        let i = choose|i: int| 0 <= i < a.len() && a[i] == b[0];
        if j > 0 {
            assert(lt(b[0], b[j]));
            if i > 0 {
                assert(lt(a[0], a[i]));
            }
            assert(lt(a[0], a[0]));
        }
        let a2 = a.drop_first();
        let b2 = b.drop_first();
        assert forall|x: K| #![trigger a2.contains(x)] #![trigger b2.contains(x)] a2.contains(x) <==> b2.contains(x) by {
            if a2.contains(x) {
                let q = choose|q: int| 0 <= q < a2.len() && a2[q] == x;
                assert(lt(a[0], a[q + 1]));
                assert(a.contains(x));
                let r = choose|r: int| 0 <= r < b.len() && b[r] == x;
                assert(r != 0);
                assert(b2[r - 1] == x);
            }
            if b2.contains(x) {
                let q = choose|q: int| 0 <= q < b2.len() && b2[q] == x;
                assert(lt(b[0], b[q + 1]));
                assert(b.contains(x));
                let r = choose|r: int| 0 <= r < a.len() && a[r] == x;
                assert(r != 0);
                assert(a2[r - 1] == x);
            }
        }
        assert forall|x: int, y: int| 0 <= x < y < a2.len() implies lt(#[trigger] a2[x], #[trigger] a2[y]) by {
            assert(lt(a[x + 1], a[y + 1]));
        }
        assert forall|x: int, y: int| 0 <= x < y < b2.len() implies lt(#[trigger] b2[x], #[trigger] b2[y]) by {
            assert(lt(b[x + 1], b[y + 1]));
        }
        lemma_sorted_unique(a2, b2, lt);
        assert(a =~= seq![a[0]] + a2);
        assert(b =~= seq![b[0]] + b2);
    }
}

/// The distinct texts of two sequences with the same members are the same.
proof fn lemma_sorted_texts_same(k1: Seq<Seq<char>>, k2: Seq<Seq<char>>)
    requires
        forall|x: Seq<char>| #[trigger] k1.contains(x) <==> k2.contains(x),
    ensures
        sorted_texts(k1) == sorted_texts(k2),
{
    let lt = text_order();
    assert forall|a: Seq<char>, b: Seq<char>, c: Seq<char>| #[trigger] lt(a, b) && #[trigger] lt(b, c) implies lt(
        a,
        c,
    ) by {
        lemma_text_lt_trans(a, b, c);
    }
    assert forall|a: Seq<char>| !#[trigger] lt(a, a) by {
        lemma_text_lt_strict(a, a);
    }
    assert forall|a: Seq<char>, b: Seq<char>| #[trigger] lt(a, b) || lt(b, a) || a == b by {
        lemma_text_lt_strict(a, b);
    }
    law_ordered_keys_ascending(k1, lt);
    law_ordered_keys_ascending(k2, lt);
    assert forall|x: Seq<char>| #[trigger] sorted_texts(k1).contains(x) <==> sorted_texts(k2).contains(x) by {
        assert(sorted_texts(k1).contains(x) <==> k1.contains(x));
        assert(sorted_texts(k2).contains(x) <==> k2.contains(x));
    }
    lemma_sorted_unique(sorted_texts(k1), sorted_texts(k2), lt);
}

/// The distinct IDs of two sequences with the same members are the same.
proof fn lemma_sorted_ids_same(k1: Seq<i64>, k2: Seq<i64>)
    requires
        forall|x: i64| #[trigger] k1.contains(x) <==> k2.contains(x),
    ensures
        sorted_ids(k1) == sorted_ids(k2),
{
    let lt = id_lt();
    law_ordered_keys_ascending(k1, lt);
    law_ordered_keys_ascending(k2, lt);
    assert forall|x: i64| #[trigger] sorted_ids(k1).contains(x) <==> sorted_ids(k2).contains(x) by {
        assert(sorted_ids(k1).contains(x) <==> k1.contains(x));
        assert(sorted_ids(k2).contains(x) <==> k2.contains(x));
    }
    lemma_sorted_unique(sorted_ids(k1), sorted_ids(k2), lt);
}

/// The objects of the triples of `t` with subject `s` and predicate `p`, in
/// row order.
pub open spec fn sp_objects(t: Seq<(Seq<char>, Seq<char>, Seq<char>)>, s: Seq<char>, p: Seq<char>) -> Seq<Seq<char>>
    decreases t.len(),
{
    if t.len() == 0 {
        Seq::empty()
    } else {
        sp_objects(t.drop_last(), s, p) + (if t.last().0 == s && t.last().1 == p {
            seq![t.last().2]
        } else {
            Seq::empty()
        })
    }
}

/// The triples keyed by the positions of their subject in `ss` and of their
/// predicate in `ps`.
pub open spec fn keyed_by(t: Seq<(Seq<char>, Seq<char>, Seq<char>)>, ss: Seq<Seq<char>>, ps: Seq<Seq<char>>) -> Seq<
    KeyedView,
> {
    Seq::new(
        t.len(),
        |i: int| (first_pos(ss, t[i].0) as i64, t[i].0, first_pos(ps, t[i].1) as i64, t[i].1, t[i].2),
    )
}

/// The rows of one subject and predicate with objects `objs`.
pub open spec fn object_rows(objs: Seq<Seq<char>>, ks: int, s: Seq<char>, kp: int, p: Seq<char>) -> Seq<KeyedView> {
    Seq::new(objs.len(), |i: int| (ks as i64, s, kp as i64, p, objs[i]))
}

proof fn lemma_first_pos_member(s: Seq<Seq<char>>, x: Seq<char>)
    requires
        s.contains(x),
    ensures
        0 <= first_pos(s, x) < s.len(),
        s[first_pos(s, x)] == x,
    decreases s.len(),
{
    if s[0] != x {
        let j = choose|j: int| 0 <= j < s.len() && s[j] == x;
        assert(s.drop_first()[j - 1] == x);
        lemma_first_pos_member(s.drop_first(), x);
    }
}

proof fn lemma_first_pos_index(s: Seq<Seq<char>>, i: int)
    requires
        s.no_duplicates(),
        0 <= i < s.len(),
    ensures
        first_pos(s, s[i]) == i,
{
    lemma_first_pos(s, s[i], i);
}

proof fn lemma_sp_objects_nonempty(t: Seq<(Seq<char>, Seq<char>, Seq<char>)>, s: Seq<char>, p: Seq<char>)
    ensures
        sp_objects(t, s, p).len() > 0 <==> exists|i: int| 0 <= i < t.len() && #[trigger] t[i].0 == s && t[i].1 == p,
    decreases t.len(),
{
    if t.len() > 0 {
        let d = t.drop_last();
        lemma_sp_objects_nonempty(d, s, p);
        if exists|i: int| 0 <= i < d.len() && #[trigger] d[i].0 == s && d[i].1 == p {
            let i = choose|i: int| 0 <= i < d.len() && #[trigger] d[i].0 == s && d[i].1 == p;
            assert(t[i] == d[i]);
        }
        if exists|i: int| 0 <= i < t.len() && #[trigger] t[i].0 == s && t[i].1 == p {
            let i = choose|i: int| 0 <= i < t.len() && #[trigger] t[i].0 == s && t[i].1 == p;
            if i < t.len() - 1 {
                assert(d[i] == t[i]);
            }
        }
    }
}

proof fn lemma_with_subject_found(rv: Seq<KeyedView>, k: i64)
    requires
        with_subject(rv, k).len() > 0,
    ensures
        subject_ids(rv).contains(k),
    decreases rv.len(),
{
    if rv.last().0 == k {
        assert(subject_ids(rv)[rv.len() - 1] == k);
    } else {
        assert(with_subject(rv, k) =~= with_subject(rv.drop_last(), k));
        lemma_with_subject_found(rv.drop_last(), k);
        let j = choose|j: int| 0 <= j < rv.len() - 1 && subject_ids(rv.drop_last())[j] == k;
        assert(subject_ids(rv)[j] == k);
    }
}

proof fn lemma_with_predicate_found(rv: Seq<KeyedView>, k: i64)
    requires
        with_predicate(rv, k).len() > 0,
    ensures
        predicate_ids(rv).contains(k),
    decreases rv.len(),
{
    if rv.last().2 == k {
        assert(predicate_ids(rv)[rv.len() - 1] == k);
    } else {
        assert(with_predicate(rv, k) =~= with_predicate(rv.drop_last(), k));
        lemma_with_predicate_found(rv.drop_last(), k);
        let j = choose|j: int| 0 <= j < rv.len() - 1 && predicate_ids(rv.drop_last())[j] == k;
        assert(predicate_ids(rv)[j] == k);
    }
}

/// Every subject of `t` is in `ss` and every predicate in `ps`.
pub open spec fn all_members(t: Seq<(Seq<char>, Seq<char>, Seq<char>)>, ss: Seq<Seq<char>>, ps: Seq<Seq<char>>) -> bool {
    forall|i: int| 0 <= i < t.len() ==> ss.contains(#[trigger] t[i].0) && ps.contains(t[i].1)
}

/// The rows keyed `ks` and `kp` are those of the subject and predicate at
/// those positions, objects in row order.
proof fn lemma_keyed_group(
    t: Seq<(Seq<char>, Seq<char>, Seq<char>)>,
    ss: Seq<Seq<char>>,
    ps: Seq<Seq<char>>,
    ks: int,
    kp: int,
)
    requires
        0 <= ks < ss.len() <= i64::MAX,
        0 <= kp < ps.len() <= i64::MAX,
        ss.no_duplicates(),
        ps.no_duplicates(),
        all_members(t, ss, ps),
    ensures
        with_predicate(with_subject(keyed_by(t, ss, ps), ks as i64), kp as i64) == object_rows(
            sp_objects(t, ss[ks], ps[kp]),
            ks,
            ss[ks],
            kp,
            ps[kp],
        ),
        forall|i: int| 0 <= i < with_subject(keyed_by(t, ss, ps), ks as i64).len() ==> {
            let r = #[trigger] with_subject(keyed_by(t, ss, ps), ks as i64)[i];
            &&& r.0 == ks as i64
            &&& r.1 == ss[ks]
            &&& ps.contains(r.3)
            &&& r.2 == first_pos(ps, r.3) as i64
        },
    decreases t.len(),
{
    let kv = keyed_by(t, ss, ps);
    if t.len() == 0 {
        assert(with_subject(kv, ks as i64) =~= Seq::<KeyedView>::empty());
        assert(with_predicate(Seq::<KeyedView>::empty(), kp as i64) =~= Seq::<KeyedView>::empty());
        assert(object_rows(sp_objects(t, ss[ks], ps[kp]), ks, ss[ks], kp, ps[kp]) =~= Seq::<KeyedView>::empty());
    } else {
        let d = t.drop_last();
        assert forall|i: int| 0 <= i < d.len() implies ss.contains(#[trigger] d[i].0) && ps.contains(d[i].1) by {
            assert(d[i] == t[i]);
        }
        lemma_keyed_group(d, ss, ps, ks, kp);
        let kd = keyed_by(d, ss, ps);
        assert(kv.drop_last() =~= kd);
        let last = t.last();
        assert(ss.contains(t[t.len() - 1].0) && ps.contains(t[t.len() - 1].1));
        lemma_first_pos_member(ss, last.0);
        lemma_first_pos_member(ps, last.1);
        lemma_first_pos_index(ss, ks);
        lemma_first_pos_index(ps, kp);
        let r = kv.last();
        assert(r == (first_pos(ss, last.0) as i64, last.0, first_pos(ps, last.1) as i64, last.1, last.2));
        assert((r.0 == ks as i64) == (last.0 == ss[ks]));
        assert((r.2 == kp as i64) == (last.1 == ps[kp]));
        let wd = with_subject(kd, ks as i64);
        let objs_d = sp_objects(d, ss[ks], ps[kp]);
        if r.0 == ks as i64 {
            let ws = with_subject(kv, ks as i64);
            assert(ws == wd + seq![r]);
            assert(ws.drop_last() =~= wd);
            assert(ws.last() == r);
            if r.2 == kp as i64 {
                assert(sp_objects(t, ss[ks], ps[kp]) == objs_d + seq![last.2]);
                assert(object_rows(objs_d + seq![last.2], ks, ss[ks], kp, ps[kp]) =~= object_rows(
                    objs_d,
                    ks,
                    ss[ks],
                    kp,
                    ps[kp],
                ) + seq![r]);
            } else {
                assert(sp_objects(t, ss[ks], ps[kp]) =~= objs_d);
                assert(with_predicate(ws, kp as i64) =~= with_predicate(wd, kp as i64));
            }
            assert forall|i: int| 0 <= i < ws.len() implies {
                let q = #[trigger] ws[i];
                &&& q.0 == ks as i64
                &&& q.1 == ss[ks]
                &&& ps.contains(q.3)
                &&& q.2 == first_pos(ps, q.3) as i64
            } by {
                if i < wd.len() {
                    assert(ws[i] == wd[i]);
                } else {
                    assert(ws[i] == r);
                    assert(last.0 == ss[ks]);
                }
            }
        } else {
            assert(with_subject(kv, ks as i64) =~= wd);
            assert(sp_objects(t, ss[ks], ps[kp]) =~= objs_d);
        }
    }
}

proof fn lemma_blocks_same(rv1: Seq<KeyedView>, rv2: Seq<KeyedView>, sks: Seq<i64>)
    requires
        forall|i: int| 0 <= i < sks.len() ==> subject_block(with_subject(rv1, #[trigger] sks[i])) == subject_block(
            with_subject(rv2, sks[i]),
        ),
    ensures
        subject_blocks(rv1, sks) == subject_blocks(rv2, sks),
    decreases sks.len(),
{
    if sks.len() > 0 {
        let d = sks.drop_last();
        assert forall|i: int| 0 <= i < d.len() implies subject_block(with_subject(rv1, #[trigger] d[i]))
            == subject_block(with_subject(rv2, d[i])) by {
            assert(d[i] == sks[i]);
        }
        lemma_blocks_same(rv1, rv2, d);
        assert(sks.last() == sks[sks.len() - 1]);
    }
}

proof fn lemma_entries_same(f1: Seq<KeyedView>, f2: Seq<KeyedView>, pks: Seq<i64>)
    requires
        forall|i: int| 0 <= i < pks.len() ==> with_predicate(f1, #[trigger] pks[i]) == with_predicate(f2, pks[i]),
    ensures
        predicate_entries(f1, pks) == predicate_entries(f2, pks),
    decreases pks.len(),
{
    if pks.len() > 0 {
        let d = pks.drop_last();
        assert forall|i: int| 0 <= i < d.len() implies with_predicate(f1, #[trigger] d[i]) == with_predicate(
            f2,
            d[i],
        ) by {
            assert(d[i] == pks[i]);
        }
        lemma_entries_same(f1, f2, d);
        assert(pks.last() == pks[pks.len() - 1]);
        assert(pks[0] == pks[0]);
    }
}

/// The facts about the distinct subjects and predicates of `t` that the
/// regrouping law needs.
proof fn lemma_ranked_shape(t: Seq<(Seq<char>, Seq<char>, Seq<char>)>)
    requires
        t.len() <= i64::MAX,
    ensures
        ranked_views(t) == keyed_by(t, sorted_texts(subject_texts(t)), sorted_texts(predicate_texts(t))),
        sorted_texts(subject_texts(t)).len() <= i64::MAX,
        sorted_texts(predicate_texts(t)).len() <= i64::MAX,
        sorted_texts(subject_texts(t)).no_duplicates(),
        sorted_texts(predicate_texts(t)).no_duplicates(),
        forall|i: int| 0 <= i < t.len() ==> sorted_texts(subject_texts(t)).contains(#[trigger] t[i].0)
            && sorted_texts(predicate_texts(t)).contains(t[i].1),
{
    let ss = sorted_texts(subject_texts(t));
    let ps = sorted_texts(predicate_texts(t));
    assert(ranked_views(t) =~= keyed_by(t, ss, ps));
    lemma_ordered_keys_len(subject_texts(t), text_order());
    lemma_ordered_keys_len(predicate_texts(t), text_order());
    law_sorted_texts_ascending(subject_texts(t));
    law_sorted_texts_ascending(predicate_texts(t));
    assert forall|i: int, j: int| 0 <= i < ss.len() && 0 <= j < ss.len() && i != j implies ss[i] != ss[j] by {
        if i < j {
            lemma_text_lt_strict(ss[i], ss[j]);
        } else {
            lemma_text_lt_strict(ss[j], ss[i]);
        }
    }
    assert forall|i: int, j: int| 0 <= i < ps.len() && 0 <= j < ps.len() && i != j implies ps[i] != ps[j] by {
        if i < j {
            lemma_text_lt_strict(ps[i], ps[j]);
        } else {
            lemma_text_lt_strict(ps[j], ps[i]);
        }
    }
    assert forall|i: int| 0 <= i < t.len() implies ss.contains(#[trigger] t[i].0) && ps.contains(t[i].1) by {
        assert(subject_texts(t)[i] == t[i].0);
        assert(predicate_texts(t)[i] == t[i].1);
        assert(subject_texts(t).contains(t[i].0));
        assert(predicate_texts(t).contains(t[i].1));
    }
}

/// The block of the subject at position `ks` is the same for two sets of
/// triples whose objects agree for every subject and predicate.
proof fn lemma_block_same(
    t1: Seq<(Seq<char>, Seq<char>, Seq<char>)>,
    t2: Seq<(Seq<char>, Seq<char>, Seq<char>)>,
    ss: Seq<Seq<char>>,
    ps: Seq<Seq<char>>,
    ks: int,
)
    requires
        0 <= ks < ss.len() <= i64::MAX,
        0 < ps.len() <= i64::MAX,
        ss.no_duplicates(),
        ps.no_duplicates(),
        all_members(t1, ss, ps),
        all_members(t2, ss, ps),
        forall|s: Seq<char>, p: Seq<char>| #[trigger] sp_objects(t1, s, p) == sp_objects(t2, s, p),
        with_subject(keyed_by(t1, ss, ps), ks as i64).len() > 0,
        with_subject(keyed_by(t2, ss, ps), ks as i64).len() > 0,
    ensures
        subject_block(with_subject(keyed_by(t1, ss, ps), ks as i64)) == subject_block(
            with_subject(keyed_by(t2, ss, ps), ks as i64),
        ),
{
    let f1 = with_subject(keyed_by(t1, ss, ps), ks as i64);
    let f2 = with_subject(keyed_by(t2, ss, ps), ks as i64);
    lemma_keyed_group(t1, ss, ps, ks, 0);
    lemma_keyed_group(t2, ss, ps, ks, 0);
    assert(f1[0].1 == ss[ks] && f2[0].1 == ss[ks]);
    // The predicate keys of the subject, and each predicate's rows, agree.
    assert forall|x: i64| #[trigger] predicate_ids(f1).contains(x) implies with_predicate(f1, x) == with_predicate(
        f2,
        x,
    ) && predicate_ids(f2).contains(x) by {
        let i = choose|i: int| 0 <= i < f1.len() && predicate_ids(f1)[i] == x;
        assert(f1[i].2 == x);
        lemma_first_pos_member(ps, f1[i].3);
        let kp = first_pos(ps, f1[i].3);
        lemma_keyed_group(t1, ss, ps, ks, kp);
        lemma_keyed_group(t2, ss, ps, ks, kp);
        assert(sp_objects(t1, ss[ks], ps[kp]) == sp_objects(t2, ss[ks], ps[kp]));
        lemma_with_predicate_nonempty(f1, x);
        lemma_with_predicate_found(f2, x);
    }
    assert forall|x: i64| #[trigger] predicate_ids(f2).contains(x) implies predicate_ids(f1).contains(x) by {
        let i = choose|i: int| 0 <= i < f2.len() && predicate_ids(f2)[i] == x;
        assert(f2[i].2 == x);
        lemma_first_pos_member(ps, f2[i].3);
        let kp = first_pos(ps, f2[i].3);
        lemma_keyed_group(t1, ss, ps, ks, kp);
        lemma_keyed_group(t2, ss, ps, ks, kp);
        assert(sp_objects(t1, ss[ks], ps[kp]) == sp_objects(t2, ss[ks], ps[kp]));
        lemma_with_predicate_nonempty(f2, x);
        lemma_with_predicate_found(f1, x);
    }
    lemma_sorted_ids_same(predicate_ids(f1), predicate_ids(f2));
    let pks = sorted_ids(predicate_ids(f1));
    law_sorted_ids_ascending(predicate_ids(f1));
    assert forall|i: int| 0 <= i < pks.len() implies with_predicate(f1, #[trigger] pks[i]) == with_predicate(
        f2,
        pks[i],
    ) by {
        assert(pks.contains(pks[i]));
        assert(predicate_ids(f1).contains(pks[i]));
    }
    lemma_entries_same(f1, f2, pks);
}

/// Turtle output depends only on which objects each subject and predicate
/// have, in row order: two lists of triples that agree on that (one a
/// reordering of the other that keeps, for each subject and predicate, the
/// order of its objects) give the same document.
pub proof fn law_turtle_regrouping(
    t1: Seq<(Seq<char>, Seq<char>, Seq<char>)>,
    t2: Seq<(Seq<char>, Seq<char>, Seq<char>)>,
)
    requires
        t1.len() <= i64::MAX,
        t2.len() <= i64::MAX,
        forall|s: Seq<char>, p: Seq<char>| #[trigger] sp_objects(t1, s, p) == sp_objects(t2, s, p),
    ensures
        turtle_body(ranked_views(t1)) == turtle_body(ranked_views(t2)),
{
    // The same subjects and predicates occur in both.
    assert forall|x: Seq<char>| #[trigger] subject_texts(t1).contains(x) <==> subject_texts(t2).contains(x) by {
        if subject_texts(t1).contains(x) {
            let i = choose|i: int| 0 <= i < t1.len() && subject_texts(t1)[i] == x;
            lemma_sp_objects_nonempty(t1, x, t1[i].1);
            lemma_sp_objects_nonempty(t2, x, t1[i].1);
            let j = choose|j: int| 0 <= j < t2.len() && #[trigger] t2[j].0 == x && t2[j].1 == t1[i].1;
            assert(subject_texts(t2)[j] == x);
        }
        if subject_texts(t2).contains(x) {
            let i = choose|i: int| 0 <= i < t2.len() && subject_texts(t2)[i] == x;
            lemma_sp_objects_nonempty(t2, x, t2[i].1);
            lemma_sp_objects_nonempty(t1, x, t2[i].1);
            let j = choose|j: int| 0 <= j < t1.len() && #[trigger] t1[j].0 == x && t1[j].1 == t2[i].1;
            assert(subject_texts(t1)[j] == x);
        }
    }
    assert forall|x: Seq<char>| #[trigger] predicate_texts(t1).contains(x) <==> predicate_texts(t2).contains(x) by {
        if predicate_texts(t1).contains(x) {
            let i = choose|i: int| 0 <= i < t1.len() && predicate_texts(t1)[i] == x;
            lemma_sp_objects_nonempty(t1, t1[i].0, x);
            lemma_sp_objects_nonempty(t2, t1[i].0, x);
            let j = choose|j: int| 0 <= j < t2.len() && #[trigger] t2[j].0 == t1[i].0 && t2[j].1 == x;
            assert(predicate_texts(t2)[j] == x);
        }
        if predicate_texts(t2).contains(x) {
            let i = choose|i: int| 0 <= i < t2.len() && predicate_texts(t2)[i] == x;
            lemma_sp_objects_nonempty(t2, t2[i].0, x);
            lemma_sp_objects_nonempty(t1, t2[i].0, x);
            let j = choose|j: int| 0 <= j < t1.len() && #[trigger] t1[j].0 == t2[i].0 && t1[j].1 == x;
            assert(predicate_texts(t1)[j] == x);
        }
    }
    lemma_sorted_texts_same(subject_texts(t1), subject_texts(t2));
    lemma_sorted_texts_same(predicate_texts(t1), predicate_texts(t2));
    let ss = sorted_texts(subject_texts(t1));
    let ps = sorted_texts(predicate_texts(t1));
    lemma_ranked_shape(t1);
    lemma_ranked_shape(t2);
    let rv1 = ranked_views(t1);
    let rv2 = ranked_views(t2);
    assert(rv1 == keyed_by(t1, ss, ps));
    assert(rv2 == keyed_by(t2, ss, ps));
    assert(all_members(t1, ss, ps));
    assert(all_members(t2, ss, ps));
    // The same subject keys occur in both.
    assert forall|k: i64| #[trigger] subject_ids(rv1).contains(k) <==> subject_ids(rv2).contains(k) by {
        if subject_ids(rv1).contains(k) {
            let i = choose|i: int| 0 <= i < rv1.len() && subject_ids(rv1)[i] == k;
            lemma_sp_objects_nonempty(t1, t1[i].0, t1[i].1);
            lemma_sp_objects_nonempty(t2, t1[i].0, t1[i].1);
            let j = choose|j: int| 0 <= j < t2.len() && #[trigger] t2[j].0 == t1[i].0 && t2[j].1 == t1[i].1;
            assert(subject_ids(rv2)[j] == k);
        }
        if subject_ids(rv2).contains(k) {
            let i = choose|i: int| 0 <= i < rv2.len() && subject_ids(rv2)[i] == k;
            lemma_sp_objects_nonempty(t2, t2[i].0, t2[i].1);
            lemma_sp_objects_nonempty(t1, t2[i].0, t2[i].1);
            let j = choose|j: int| 0 <= j < t1.len() && #[trigger] t1[j].0 == t2[i].0 && t1[j].1 == t2[i].1;
            assert(subject_ids(rv1)[j] == k);
        }
    }
    lemma_sorted_ids_same(subject_ids(rv1), subject_ids(rv2));
    let sks = sorted_ids(subject_ids(rv1));
    law_sorted_ids_ascending(subject_ids(rv1));
    assert forall|i: int| 0 <= i < sks.len() implies subject_block(with_subject(rv1, #[trigger] sks[i]))
        == subject_block(with_subject(rv2, sks[i])) by {
        let k = sks[i];
        assert(sks.contains(k));
        assert(subject_ids(rv1).contains(k));
        let j = choose|j: int| 0 <= j < rv1.len() && subject_ids(rv1)[j] == k;
        lemma_first_pos_member(ss, t1[j].0);
        lemma_first_pos_member(ps, t1[j].1);
        let ks = first_pos(ss, t1[j].0);
        assert(k == ks as i64);
        lemma_with_subject_nonempty(rv1, k);
        lemma_with_subject_nonempty(rv2, k);
        lemma_block_same(t1, t2, ss, ps, ks);
    }
    lemma_blocks_same(rv1, rv2, sks);
}

/// Reordering the triples given to [`triples_to_turtle`], while keeping the
/// order of the triples of each subject and predicate, leaves its document
/// unchanged: `triples_to_turtle(t1) == triples_to_turtle(t2)` for `t2` a
/// permutation of `t1` that keeps, for each `(s, p)`, the relative order of
/// its triples.
pub proof fn law_triples_to_turtle_permutation(t1: Seq<(String, String, String)>, t2: Seq<(String, String, String)>)
    requires
        t1.len() <= i64::MAX,
        t2.len() <= i64::MAX,
        text_triples(t1).to_multiset() == text_triples(t2).to_multiset(),
        forall|s: Seq<char>, p: Seq<char>| #[trigger] sp_objects(text_triples(t1), s, p) == sp_objects(
            text_triples(t2),
            s,
            p,
        ),
    ensures
        turtle_body(ranked_views(text_triples(t1))) == turtle_body(ranked_views(text_triples(t2))),
{
    law_turtle_regrouping(text_triples(t1), text_triples(t2));
}

} // verus!
