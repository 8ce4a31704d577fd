//! `owl:sameAs` entity canonicalisation.
//!
//! Before an inference run, the equivalence classes of the `owl:sameAs`
//! pairs are computed with a union-find over dictionary IDs, and every rule
//! constant is rewritten to the canonical (lowest-ID) member of its class.

use std::collections::HashMap;
use vstd::prelude::*;
use crate::datalog::{
    AggregateLiteral, AggregateV, Atom, AtomV, BodyLiteral, BuiltinV, LiteralV, Rule, RuleV, StringBuiltin, Term,
    TermV,
};

verus! {

broadcast use vstd::std_specs::hash::group_hash_axioms;

// ─── Union-find ──────────────────────────────────────────────────────────────

/// Every parent link points to a smaller ID.
pub open spec fn is_forest(m: Map<i64, i64>) -> bool {
    forall|k: i64| m.contains_key(k) ==> #[trigger] m[k] < k
}

/// The root reached from `x` by following parent links.
pub open spec fn root(m: Map<i64, i64>, x: i64) -> i64
    decreases x - i64::MIN,
{
    if m.contains_key(x) && m[x] < x {
        root(m, m[x])
    } else {
        x
    }
}

/// A union-find over dictionary IDs whose representatives are the lowest
/// IDs of their classes.
pub struct UnionFind {
    pub parent: HashMap<i64, i64>,
}

proof fn lemma_root_le(m: Map<i64, i64>, x: i64)
    ensures
        root(m, x) <= x,
        !(m.contains_key(root(m, x)) && m[root(m, x)] < root(m, x)),
    decreases x - i64::MIN,
{
    if m.contains_key(x) && m[x] < x {
        lemma_root_le(m, m[x]);
    }
}

/// Linking `x` straight to its root changes no root.
proof fn lemma_compress(m: Map<i64, i64>, x: i64, y: i64)
    requires
        is_forest(m),
        m.contains_key(x),
    ensures
        root(m.insert(x, root(m, x)), y) == root(m, y),
    decreases y - i64::MIN,
{
    let m2 = m.insert(x, root(m, x));
    lemma_root_le(m, x);
    lemma_root_le(m, y);
    if y == x {
        if root(m, x) < x {
            lemma_compress(m, x, root(m, x));
        }
    } else if m.contains_key(y) && m[y] < y {
        lemma_compress(m, x, m[y]);
    }
}

/// Linking root `hi` under root `lo` sends the class of `hi` to `lo`.
proof fn lemma_link(m: Map<i64, i64>, lo: i64, hi: i64, y: i64)
    requires
        is_forest(m),
        lo < hi,
        root(m, lo) == lo,
        root(m, hi) == hi,
    ensures
        root(m.insert(hi, lo), y) == (if root(m, y) == hi { lo } else { root(m, y) }),
    decreases y - i64::MIN,
{
    lemma_root_le(m, lo);
    lemma_root_le(m, hi);
    if y == hi {
        assert(!m.contains_key(lo) || !(m[lo] < lo));
        assert(root(m.insert(hi, lo), lo) == lo);
    } else if m.contains_key(y) && m[y] < y {
        lemma_link(m, lo, hi, m[y]);
    } else {
    }
}

impl UnionFind {
    /// An empty union-find: every ID is its own class.
    pub fn new() -> (u: Self)
        ensures
            u.parent@ == Map::<i64, i64>::empty(),
    {
        UnionFind { parent: HashMap::new() }
    }

    /// The root of `x`; compresses the path it follows.
    pub fn find(&mut self, x: i64) -> (r: i64)
        requires
            is_forest(old(self).parent@),
        ensures
            r == root(old(self).parent@, x),
            is_forest(final(self).parent@),
            final(self).parent@.dom() == old(self).parent@.dom(),
            forall|y: i64| #[trigger] root(final(self).parent@, y) == root(old(self).parent@, y),
        decreases x - i64::MIN,
    {
        let p = match self.parent.get(&x) {
            Some(v) => *v,
            None => x,
        };
        if p >= x {
            return x;
        }
        let ghost m0 = self.parent@;
        let r = self.find(p);
        let ghost m1 = self.parent@;
        proof {
            lemma_root_le(m0, x);
            assert(root(m1, x) == root(m0, x));
            assert(m1.contains_key(x));
        }
        self.parent.insert(x, r);
        proof {
            lemma_root_le(m1, x);
            assert forall|y: i64| #[trigger] root(self.parent@, y) == root(m0, y) by {
                lemma_compress(m1, x, y);
            }
            assert(self.parent@.dom() =~= m0.dom());
        }
        r
    }

    /// Merges the classes of `x` and `y`; the lower root becomes the root of both.
    pub fn union(&mut self, x: i64, y: i64)
        requires
            is_forest(old(self).parent@),
        ensures
            is_forest(final(self).parent@),
            forall|z: i64| #[trigger] root(final(self).parent@, z) == union_root(
                old(self).parent@,
                x,
                y,
                z,
            ),
    {
        let ghost m0 = self.parent@;
        let rx = self.find(x);
        let ry = self.find(y);
        let ghost m1 = self.parent@;
        proof {
            lemma_root_le(m1, rx);
            lemma_root_le(m1, ry);
            lemma_root_le(m0, x);
            lemma_root_le(m0, y);
            assert(root(m1, rx) == rx);
            assert(root(m1, ry) == ry);
        }
        if rx == ry {
            return;
        }
        if rx < ry {
            self.parent.insert(ry, rx);
            proof {
                assert forall|z: i64| #[trigger] root(self.parent@, z) == union_root(m0, x, y, z) by {
                    lemma_link(m1, rx, ry, z);
                }
            }
        } else {
            self.parent.insert(rx, ry);
            proof {
                assert forall|z: i64| #[trigger] root(self.parent@, z) == union_root(m0, x, y, z) by {
                    lemma_link(m1, ry, rx, z);
                }
            }
        }
    }
}

/// The root of `z` after merging the classes of `x` and `y` in `m`.
pub open spec fn union_root(m: Map<i64, i64>, x: i64, y: i64, z: i64) -> i64 {
    let rx = root(m, x);
    let ry = root(m, y);
    let lo = if rx < ry { rx } else { ry };
    if rx != ry && (root(m, z) == rx || root(m, z) == ry) {
        lo
    } else {
        root(m, z)
    }
}

// ─── Canonicalisation ────────────────────────────────────────────────────────

/// The canonical ID of `id`: its entry in `map`, or `id` itself.
pub fn canonicalize_id(id: i64, map: &HashMap<i64, i64>) -> (r: i64)
    ensures
        r == (if map@.contains_key(id) { map@[id] } else { id }),
{
    match map.get(&id) {
        Some(v) => *v,
        None => id,
    }
}


// ─── The sameAs map ──────────────────────────────────────────────────────────

/// The canonical ID of `z` once the pairs `pairs` are merged in order: the
/// lowest root wins each merge.
pub open spec fn canon(pairs: Seq<(i64, i64)>, z: i64) -> i64
    decreases pairs.len(),
{
    if pairs.len() == 0 {
        z
    } else {
        let ps = pairs.drop_last();
        let a = canon(ps, pairs.last().0);
        let b = canon(ps, pairs.last().1);
        let lo = if a < b { a } else { b };
        if a != b && (canon(ps, z) == a || canon(ps, z) == b) {
            lo
        } else {
            canon(ps, z)
        }
    }
}

/// `l` with `x` appended unless already there.
pub open spec fn add_id(l: Seq<i64>, x: i64) -> Seq<i64> {
    if l.contains(x) { l } else { l.push(x) }
}

/// The IDs of `pairs`, each once, in order of first occurrence.
pub open spec fn ids_of(pairs: Seq<(i64, i64)>) -> Seq<i64>
    decreases pairs.len(),
{
    if pairs.len() == 0 {
        Seq::empty()
    } else {
        add_id(add_id(ids_of(pairs.drop_last()), pairs.last().0), pairs.last().1)
    }
}

/// How many of `ids` have the canonical ID `r`.
pub open spec fn class_size(ids: Seq<i64>, pairs: Seq<(i64, i64)>, r: i64) -> nat
    decreases ids.len(),
{
    if ids.len() == 0 {
        0
    } else {
        class_size(ids.drop_last(), pairs, r) + (if canon(pairs, ids.last()) == r { 1nat } else { 0nat })
    }
}

/// Some class has more than `max_cluster` members (checked when positive).
pub open spec fn cluster_too_large(pairs: Seq<(i64, i64)>, max_cluster: i32) -> bool {
    max_cluster > 0 && exists|i: int| 0 <= i < ids_of(pairs).len()
        && class_size(ids_of(pairs), pairs, canon(pairs, #[trigger] ids_of(pairs)[i])) > max_cluster
}

/// The warning given when a class is too large.
pub open spec fn cluster_warning(max_cluster: i32) -> Seq<char> {
    "PT550: owl:sameAs equivalence class of "@ + crate::text::int_decimal(max_cluster + 1)
        + " members exceeds pg_ripple.sameas_max_cluster_size ("@ + crate::text::int_decimal(
        max_cluster as int,
    ) + "); canonicalization skipped — check for data quality issues"@
}

/// Builds the canonicalisation map of the `owl:sameAs` pairs `pairs`: every
/// ID of a pair that is not the lowest of its class, mapped to that lowest
/// ID.  When `max_cluster` is positive and a class has more members, the map
/// is empty and the warning text comes back too.
pub fn sameas_map_from_pairs(pairs: &Vec<(i64, i64)>, max_cluster: i32) -> (r: (HashMap<i64, i64>, Option<String>))
    ensures
        cluster_too_large(pairs@, max_cluster) ==> r.0@ == Map::<i64, i64>::empty(),
        cluster_too_large(pairs@, max_cluster) ==> (r.1 matches Some(w) && w@ == cluster_warning(max_cluster)),
        !cluster_too_large(pairs@, max_cluster) ==> r.1 is None
            && (forall|x: i64| #[trigger] r.0@.contains_key(x) <==> (ids_of(pairs@).contains(x) && canon(pairs@, x) != x))
            && (forall|x: i64| #[trigger] r.0@.contains_key(x) ==> r.0@[x] == canon(pairs@, x)),
{
    let mut uf = UnionFind::new();
    let mut ids: Vec<i64> = Vec::new();
    let mut i: usize = 0;
    assert(pairs@.subrange(0, 0) =~= Seq::<(i64, i64)>::empty());
    while i < pairs.len()
        invariant
            i <= pairs@.len(),
            is_forest(uf.parent@),
            forall|z: i64| #[trigger] root(uf.parent@, z) == canon(pairs@.subrange(0, i as int), z),
            ids@ == ids_of(pairs@.subrange(0, i as int)),
            ids@.len() <= 2 * i,
        decreases pairs.len() - i,
    {
        let (s, o) = pairs[i];
        let ghost pre = pairs@.subrange(0, i as int);
        assert(pairs@.subrange(0, i + 1).drop_last() =~= pre);
        assert(pairs@.subrange(0, i + 1).last() == (s, o));
        uf.union(s, o);
        if !vec_contains(&ids, s) {
            ids.push(s);
        }
        if !vec_contains(&ids, o) {
            ids.push(o);
        }
        i = i + 1;
    }
    assert(pairs@.subrange(0, pairs@.len() as int) =~= pairs@);
    let ghost ps = pairs@;
    // Class sizes.
    if max_cluster > 0 {
        let mut k: usize = 0;
        while k < ids.len()
            invariant
                k <= ids@.len(),
                ids@ == ids_of(ps),
                ps == pairs@,
                max_cluster > 0,
                is_forest(uf.parent@),
                forall|z: i64| #[trigger] root(uf.parent@, z) == canon(ps, z),
                forall|t: int| 0 <= t < k ==> class_size(ids@, ps, canon(ps, #[trigger] ids@[t])) <= max_cluster,
            decreases ids.len() - k,
        {
            let rk = uf.find(ids[k]);
            let n = count_root(&mut uf, &ids, rk, Ghost(ps));
            if n > max_cluster as u64 {
                proof {
                    assert(class_size(ids_of(ps), ps, canon(ps, ids_of(ps)[k as int])) > max_cluster);
                    let ii = k as int;
                    assert(0 <= ii < ids_of(ps).len());
                    assert(exists|i: int| 0 <= i < ids_of(ps).len()
                        && class_size(ids_of(ps), ps, canon(ps, #[trigger] ids_of(ps)[i])) > max_cluster);
                    assert(cluster_too_large(ps, max_cluster));
                }
                let mut w = String::from_str("PT550: owl:sameAs equivalence class of ");
                crate::text::push_i64_decimal(&mut w, (max_cluster as i64) + 1);
                w.append(" members exceeds pg_ripple.sameas_max_cluster_size (");
                crate::text::push_i64_decimal(&mut w, max_cluster as i64);
                w.append("); canonicalization skipped — check for data quality issues");
                return (HashMap::new(), Some(w));
            }
            k = k + 1;
        }
    }
    let mut map: HashMap<i64, i64> = HashMap::new();
    let mut k: usize = 0;
    while k < ids.len()
        invariant
            k <= ids@.len(),
            ids@ == ids_of(ps),
            ps == pairs@,
            is_forest(uf.parent@),
            forall|z: i64| #[trigger] root(uf.parent@, z) == canon(ps, z),
            forall|x: i64| #[trigger] map@.contains_key(x) <==> (ids@.subrange(0, k as int).contains(x) && canon(ps, x) != x),
            forall|x: i64| #[trigger] map@.contains_key(x) ==> map@[x] == canon(ps, x),
        decreases ids.len() - k,
    {
        let id = ids[k];
        let c = uf.find(id);
        if c != id {
            map.insert(id, c);
        }
        proof {
            let pre = ids@.subrange(0, k as int);
            assert(ids@.subrange(0, k + 1) =~= pre.push(id));
            assert forall|x: i64| pre.push(id).contains(x) <==> (pre.contains(x) || x == id) by {
                if pre.push(id).contains(x) && x != id {
                    let j = choose|j: int| 0 <= j < pre.push(id).len() && #[trigger] pre.push(id)[j] == x;
                    assert(pre[j] == x);
                }
                if pre.contains(x) {
                    let j = choose|j: int| 0 <= j < pre.len() && #[trigger] pre[j] == x;
                    assert(pre.push(id)[j] == x);
                }
                if x == id {
                    assert(pre.push(id)[k as int] == x);
                }
            }
        }
        k = k + 1;
    }
    assert(ids@.subrange(0, ids@.len() as int) =~= ids@);
    (map, None)
}

/// Whether `v` holds `x`.
fn vec_contains(v: &Vec<i64>, x: i64) -> (b: bool)
    ensures
        b == v@.contains(x),
{
    let mut i: usize = 0;
    while i < v.len()
        invariant
            i <= v@.len(),
            forall|j: int| 0 <= j < i ==> v@[j] != x,
        decreases v.len() - i,
    {
        if v[i] == x {
            return true;
        }
        i = i + 1;
    }
    false
}

/// How many of `ids` have root `r`.
fn count_root(uf: &mut UnionFind, ids: &Vec<i64>, r: i64, Ghost(ps): Ghost<Seq<(i64, i64)>>) -> (n: u64)
    requires
        is_forest(old(uf).parent@),
        forall|z: i64| #[trigger] root(old(uf).parent@, z) == canon(ps, z),
    ensures
        is_forest(final(uf).parent@),
        forall|z: i64| #[trigger] root(final(uf).parent@, z) == canon(ps, z),
        n as int == class_size(ids@, ps, r),
{
    let mut n: u64 = 0;
    let mut j: usize = 0;
    assert(ids@.subrange(0, 0) =~= Seq::<i64>::empty());
    while j < ids.len()
        invariant
            j <= ids@.len(),
            n <= j,
            is_forest(uf.parent@),
            forall|z: i64| #[trigger] root(uf.parent@, z) == canon(ps, z),
            n as int == class_size(ids@.subrange(0, j as int), ps, r),
        decreases ids.len() - j,
    {
        assert(ids@.subrange(0, j + 1).drop_last() =~= ids@.subrange(0, j as int));
        let c = uf.find(ids[j]);
        if c == r {
            n = n + 1;
        }
        j = j + 1;
    }
    assert(ids@.subrange(0, ids@.len() as int) =~= ids@);
    n
}

// ─── Laws ────────────────────────────────────────────────────────────────────

/// The canonical ID of any ID is at most that ID, and is its own canonical
/// ID: the representative is the lowest member of its class.
pub proof fn law_canonical_is_lowest(pairs: Seq<(i64, i64)>, z: i64)
    ensures
        canon(pairs, z) <= z,
        canon(pairs, canon(pairs, z)) == canon(pairs, z),
    decreases pairs.len(),
{
    if pairs.len() > 0 {
        let ps = pairs.drop_last();
        law_canonical_is_lowest(ps, z);
        law_canonical_is_lowest(ps, pairs.last().0);
        law_canonical_is_lowest(ps, pairs.last().1);
        law_canonical_is_lowest(ps, canon(ps, z));
        let a = canon(ps, pairs.last().0);
        let b = canon(ps, pairs.last().1);
        law_canonical_is_lowest(ps, a);
        law_canonical_is_lowest(ps, b);
    }
}

/// Merging keeps together what was together.
proof fn lemma_canon_keeps_together(pairs: Seq<(i64, i64)>, n: int, x: i64, y: i64)
    requires
        0 <= n <= pairs.len(),
        canon(pairs.subrange(0, n), x) == canon(pairs.subrange(0, n), y),
    ensures
        canon(pairs, x) == canon(pairs, y),
    decreases pairs.len() - n,
{
    if n < pairs.len() {
        assert(pairs.subrange(0, n + 1).drop_last() =~= pairs.subrange(0, n));
        lemma_canon_keeps_together(pairs, n + 1, x, y);
    } else {
        assert(pairs.subrange(0, n) =~= pairs);
    }
}

/// The two IDs of every `owl:sameAs` pair end up with the same canonical ID.
pub proof fn law_pair_members_share_canonical(pairs: Seq<(i64, i64)>, k: int)
    requires
        0 <= k < pairs.len(),
    ensures
        canon(pairs, pairs[k].0) == canon(pairs, pairs[k].1),
{
    let pre = pairs.subrange(0, k + 1);
    assert(pre.drop_last() =~= pairs.subrange(0, k));
    assert(pre.last() == pairs[k]);
    lemma_canon_keeps_together(pairs, k + 1, pairs[k].0, pairs[k].1);
}


/// `a` and `b` are the two IDs of one of the pairs, in either order.
pub open spec fn linked(pairs: Seq<(i64, i64)>, a: i64, b: i64) -> bool {
    exists|k: int| 0 <= k < pairs.len() && (#[trigger] pairs[k] == (a, b) || pairs[k] == (b, a))
}

/// `p` is a walk along the pairs: each ID is linked to the next.
pub open spec fn sameas_walk(pairs: Seq<(i64, i64)>, p: Seq<i64>) -> bool {
    p.len() > 0 && forall|i: int| 0 <= i < p.len() - 1 ==> #[trigger] linked(pairs, p[i], p[i + 1])
}

/// `x` and `y` are in one `owl:sameAs` class: a walk along the pairs leads
/// from `x` to `y`.
pub open spec fn same_class(pairs: Seq<(i64, i64)>, x: i64, y: i64) -> bool {
    exists|p: Seq<i64>| #[trigger] sameas_walk(pairs, p) && p[0] == x && p.last() == y
}

proof fn lemma_class_refl(pairs: Seq<(i64, i64)>, x: i64)
    ensures
        same_class(pairs, x, x),
{
    assert(sameas_walk(pairs, seq![x]));
}

proof fn lemma_class_pair(pairs: Seq<(i64, i64)>, k: int)
    requires
        0 <= k < pairs.len(),
    ensures
        same_class(pairs, pairs[k].0, pairs[k].1),
        same_class(pairs, pairs[k].1, pairs[k].0),
{
    let (a, b) = pairs[k];
    let p = seq![a, b];
    assert(linked(pairs, p[0], p[1]));
    assert(sameas_walk(pairs, p));
    let q = seq![b, a];
    assert(linked(pairs, q[0], q[1]));
    assert(sameas_walk(pairs, q));
}

proof fn lemma_class_trans(pairs: Seq<(i64, i64)>, x: i64, y: i64, z: i64)
    requires
        same_class(pairs, x, y),
        same_class(pairs, y, z),
    ensures
        same_class(pairs, x, z),
{
    let p = choose|p: Seq<i64>| #[trigger] sameas_walk(pairs, p) && p[0] == x && p.last() == y;
    let q = choose|q: Seq<i64>| #[trigger] sameas_walk(pairs, q) && q[0] == y && q.last() == z;
    let w = p + q.drop_first();
    assert forall|i: int| 0 <= i < w.len() - 1 implies #[trigger] linked(pairs, w[i], w[i + 1]) by {
        if i < p.len() - 1 {
            assert(linked(pairs, p[i], p[i + 1]));
        } else if i == p.len() - 1 {
            assert(q.len() > 1);
            assert(w[i] == q[0] && w[i + 1] == q[1]);
            let z0: int = 0;
            assert(linked(pairs, q[z0], q[z0 + 1]));
        } else {
            let j = i - p.len() + 1;
            assert(w[i] == q[j] && w[i + 1] == q[j + 1]);
            assert(linked(pairs, q[j], q[j + 1]));
        }
    }
    assert(sameas_walk(pairs, w));
    if q.len() == 1 {
        assert(w.last() == p.last());
    }
}

proof fn lemma_class_sym(pairs: Seq<(i64, i64)>, x: i64, y: i64)
    requires
        same_class(pairs, x, y),
    ensures
        same_class(pairs, y, x),
{
    let p = choose|p: Seq<i64>| #[trigger] sameas_walk(pairs, p) && p[0] == x && p.last() == y;
    let n = p.len();
    let r = Seq::new(n, |i: int| p[n - 1 - i]);
    assert forall|i: int| 0 <= i < r.len() - 1 implies #[trigger] linked(pairs, r[i], r[i + 1]) by {
        let j = n - 2 - i;
        assert(linked(pairs, p[j], p[j + 1]));
        let k = choose|k: int| 0 <= k < pairs.len() && (#[trigger] pairs[k] == (p[j], p[j + 1]) || pairs[k] == (
            p[j + 1],
            p[j],
        ));
        assert(pairs[k] == (r[i], r[i + 1]) || pairs[k] == (r[i + 1], r[i]));
    }
    assert(sameas_walk(pairs, r));
}

/// A class under the first pairs stays a class under more pairs.
proof fn lemma_class_grows(pairs: Seq<(i64, i64)>, x: i64, y: i64)
    requires
        pairs.len() > 0,
        same_class(pairs.drop_last(), x, y),
    ensures
        same_class(pairs, x, y),
{
    let ps = pairs.drop_last();
    let p = choose|p: Seq<i64>| #[trigger] sameas_walk(ps, p) && p[0] == x && p.last() == y;
    assert forall|i: int| 0 <= i < p.len() - 1 implies #[trigger] linked(pairs, p[i], p[i + 1]) by {
        assert(linked(ps, p[i], p[i + 1]));
        let k = choose|k: int| 0 <= k < ps.len() && (#[trigger] ps[k] == (p[i], p[i + 1]) || ps[k] == (
            p[i + 1],
            p[i],
        ));
        assert(pairs[k] == ps[k]);
    }
    assert(sameas_walk(pairs, p));
}

/// IDs of one class share their canonical ID.
proof fn lemma_class_same_canon(pairs: Seq<(i64, i64)>, x: i64, y: i64)
    requires
        same_class(pairs, x, y),
    ensures
        canon(pairs, x) == canon(pairs, y),
{
    let p = choose|p: Seq<i64>| #[trigger] sameas_walk(pairs, p) && p[0] == x && p.last() == y;
    lemma_walk_same_canon(pairs, p, p.len() - 1);
}

proof fn lemma_walk_same_canon(pairs: Seq<(i64, i64)>, p: Seq<i64>, i: int)
    requires
        sameas_walk(pairs, p),
        0 <= i < p.len(),
    ensures
        canon(pairs, p[0]) == canon(pairs, p[i]),
    decreases i,
{
    if i > 0 {
        lemma_walk_same_canon(pairs, p, i - 1);
        let j = i - 1;
        assert(linked(pairs, p[j], p[j + 1]));
        let k = choose|k: int| 0 <= k < pairs.len() && (#[trigger] pairs[k] == (p[i - 1], p[i]) || pairs[k] == (
            p[i],
            p[i - 1],
        ));
        law_pair_members_share_canonical(pairs, k);
    }
}

/// Every ID is in one class with its canonical ID.
proof fn lemma_canon_in_class(pairs: Seq<(i64, i64)>, z: i64)
    ensures
        same_class(pairs, z, canon(pairs, z)),
    decreases pairs.len(),
{
    if pairs.len() == 0 {
        lemma_class_refl(pairs, z);
    } else {
        let ps = pairs.drop_last();
        let (x, y) = pairs.last();
        let a = canon(ps, x);
        let b = canon(ps, y);
        let cz = canon(ps, z);
        lemma_canon_in_class(ps, z);
        lemma_canon_in_class(ps, x);
        lemma_canon_in_class(ps, y);
        lemma_class_grows(pairs, z, cz);
        lemma_class_grows(pairs, x, a);
        lemma_class_grows(pairs, y, b);
        assert(pairs[pairs.len() - 1] == (x, y));
        lemma_class_pair(pairs, pairs.len() - 1);
        lemma_class_sym(pairs, x, a);
        lemma_class_sym(pairs, y, b);
        // a and b are in one class: a ~ x ~ y ~ b.
        lemma_class_trans(pairs, a, x, y);
        lemma_class_trans(pairs, a, y, b);
        lemma_class_sym(pairs, a, b);
        if a != b && (cz == a || cz == b) {
            let lo = if a < b { a } else { b };
            if cz == lo {
            } else if cz == a {
                lemma_class_trans(pairs, z, a, b);
            } else {
                lemma_class_trans(pairs, z, b, a);
            }
        }
    }
}

/// The canonical ID that the union-find gives an ID after the pairs are
/// merged in order is the least ID of its `owl:sameAs` class: it is in the
/// class, and no member of the class is smaller.
pub proof fn law_canonical_is_least_of_class(pairs: Seq<(i64, i64)>, z: i64)
    ensures
        same_class(pairs, z, canon(pairs, z)),
        forall|w: i64| #[trigger] same_class(pairs, z, w) ==> canon(pairs, z) <= w,
{
    lemma_canon_in_class(pairs, z);
    assert forall|w: i64| #[trigger] same_class(pairs, z, w) implies canon(pairs, z) <= w by {
        lemma_class_same_canon(pairs, z, w);
        law_canonical_is_lowest(pairs, w);
    }
}

/// Union-find and the pairs agree: when every root of `m` is the canonical
/// ID under the pairs merged so far, merging `x` and `y` gives, for every
/// ID, the canonical ID under those pairs followed by `(x, y)`.
pub proof fn law_union_follows_pairs(m: Map<i64, i64>, ps: Seq<(i64, i64)>, x: i64, y: i64)
    requires
        forall|z: i64| #[trigger] root(m, z) == canon(ps, z),
    ensures
        forall|z: i64| #[trigger] union_root(m, x, y, z) == canon(ps.push((x, y)), z),
{
    assert(ps.push((x, y)).drop_last() =~= ps);
    assert forall|z: i64| #[trigger] union_root(m, x, y, z) == canon(ps.push((x, y)), z) by {
        assert(root(m, x) == canon(ps, x) && root(m, y) == canon(ps, y) && root(m, z) == canon(ps, z));
    }
}

// ─── Rule rewriting ──────────────────────────────────────────────────────────

/// `c` mapped through `m` (unchanged when absent).
pub open spec fn canon_const(m: Map<i64, i64>, c: i64) -> i64 {
    if m.contains_key(c) { m[c] } else { c }
}

/// A term with its constant canonicalised.
pub open spec fn rewrite_termv(t: TermV<i64>, m: Map<i64, i64>) -> TermV<i64> {
    match t {
        TermV::Const(c) => TermV::Const(canon_const(m, c)),
        _ => t,
    }
}

/// An atom with its constants canonicalised.
pub open spec fn rewrite_atomv(a: AtomV<i64>, m: Map<i64, i64>) -> AtomV<i64> {
    AtomV {
        s: rewrite_termv(a.s, m),
        p: rewrite_termv(a.p, m),
        o: rewrite_termv(a.o, m),
        g: rewrite_termv(a.g, m),
    }
}

/// A string built-in with the constants among its operands canonicalised.
pub open spec fn rewrite_builtinv(b: BuiltinV<i64>, m: Map<i64, i64>) -> BuiltinV<i64> {
    match b {
        BuiltinV::Strlen(a, op, r) => BuiltinV::Strlen(rewrite_termv(a, m), op, rewrite_termv(r, m)),
        BuiltinV::Regex(a, p) => BuiltinV::Regex(rewrite_termv(a, m), p),
        BuiltinV::TrigramSimilarity(a, c, op, r) => BuiltinV::TrigramSimilarity(
            rewrite_termv(a, m),
            rewrite_termv(c, m),
            op,
            rewrite_termv(r, m),
        ),
        BuiltinV::Levenshtein(a, c, op, r) => BuiltinV::Levenshtein(
            rewrite_termv(a, m),
            rewrite_termv(c, m),
            op,
            rewrite_termv(r, m),
        ),
        BuiltinV::Soundex(a, op, r) => BuiltinV::Soundex(rewrite_termv(a, m), op, rewrite_termv(r, m)),
        BuiltinV::Metaphone(a, n, op, r) => BuiltinV::Metaphone(rewrite_termv(a, m), n, op, rewrite_termv(r, m)),
        BuiltinV::JaroWinkler(a, c, op, r) => BuiltinV::JaroWinkler(
            rewrite_termv(a, m),
            rewrite_termv(c, m),
            op,
            rewrite_termv(r, m),
        ),
        BuiltinV::DiceSimilarity(a, c, op, r) => BuiltinV::DiceSimilarity(
            rewrite_termv(a, m),
            rewrite_termv(c, m),
            op,
            rewrite_termv(r, m),
        ),
    }
}

/// A body literal with every constant canonicalised: those of its atoms,
/// comparisons, assignments, aggregates and string built-ins.  Temporal
/// filters hold no constants and are left as they are.
pub open spec fn rewrite_literalv(l: LiteralV<i64>, m: Map<i64, i64>) -> LiteralV<i64> {
    match l {
        LiteralV::StringBuiltin(b) => LiteralV::StringBuiltin(rewrite_builtinv(b, m)),
        LiteralV::Positive(a) => LiteralV::Positive(rewrite_atomv(a, m)),
        LiteralV::Negated(a) => LiteralV::Negated(rewrite_atomv(a, m)),
        LiteralV::Compare(a, op, b) => LiteralV::Compare(rewrite_termv(a, m), op, rewrite_termv(b, m)),
        LiteralV::Assign(v, a, op, b) => LiteralV::Assign(v, rewrite_termv(a, m), op, rewrite_termv(b, m)),
        LiteralV::Aggregate(g) => LiteralV::Aggregate(AggregateV { atom: rewrite_atomv(g.atom, m), ..g }),
        _ => l,
    }
}

/// A rule with its head and body canonicalised.
pub open spec fn rewrite_rulev(r: RuleV<i64>, m: Map<i64, i64>) -> RuleV<i64> {
    RuleV {
        head: match r.head {
            Some(h) => Some(rewrite_atomv(h, m)),
            None => None,
        },
        body: Seq::new(r.body.len(), |i: int| rewrite_literalv(r.body[i], m)),
        ..r
    }
}

fn rewrite_term(t: Term<i64>, map: &HashMap<i64, i64>) -> (r: Term<i64>)
    ensures
        r.deep_view() == rewrite_termv(t.deep_view(), map@),
{
    match t {
        Term::Const(id) => Term::Const(canonicalize_id(id, map)),
        other => other,
    }
}

fn rewrite_atom(a: Atom<i64>, map: &HashMap<i64, i64>) -> (r: Atom<i64>)
    ensures
        r.deep_view() == rewrite_atomv(a.deep_view(), map@),
{
    Atom {
        s: rewrite_term(a.s, map),
        p: rewrite_term(a.p, map),
        o: rewrite_term(a.o, map),
        g: rewrite_term(a.g, map),
    }
}

fn rewrite_builtin(b: StringBuiltin<i64>, map: &HashMap<i64, i64>) -> (r: StringBuiltin<i64>)
    ensures
        r.deep_view() == rewrite_builtinv(b.deep_view(), map@),
{
    match b {
        StringBuiltin::Strlen(a, op, r) => StringBuiltin::Strlen(rewrite_term(a, map), op, rewrite_term(r, map)),
        StringBuiltin::Regex(a, p) => StringBuiltin::Regex(rewrite_term(a, map), p),
        StringBuiltin::TrigramSimilarity(a, c, op, r) => StringBuiltin::TrigramSimilarity(
            rewrite_term(a, map),
            rewrite_term(c, map),
            op,
            rewrite_term(r, map),
        ),
        StringBuiltin::Levenshtein(a, c, op, r) => StringBuiltin::Levenshtein(
            rewrite_term(a, map),
            rewrite_term(c, map),
            op,
            rewrite_term(r, map),
        ),
        StringBuiltin::Soundex(a, op, r) => StringBuiltin::Soundex(rewrite_term(a, map), op, rewrite_term(r, map)),
        StringBuiltin::Metaphone(a, n, op, r) => StringBuiltin::Metaphone(
            rewrite_term(a, map),
            n,
            op,
            rewrite_term(r, map),
        ),
        StringBuiltin::JaroWinkler(a, c, op, r) => StringBuiltin::JaroWinkler(
            rewrite_term(a, map),
            rewrite_term(c, map),
            op,
            rewrite_term(r, map),
        ),
        StringBuiltin::DiceSimilarity(a, c, op, r) => StringBuiltin::DiceSimilarity(
            rewrite_term(a, map),
            rewrite_term(c, map),
            op,
            rewrite_term(r, map),
        ),
    }
}

fn rewrite_body_literal(lit: BodyLiteral<i64>, map: &HashMap<i64, i64>) -> (r: BodyLiteral<i64>)
    ensures
        r.deep_view() == rewrite_literalv(lit.deep_view(), map@),
{
    match lit {
        BodyLiteral::Positive(a) => BodyLiteral::Positive(rewrite_atom(a, map)),
        BodyLiteral::Negated(a) => BodyLiteral::Negated(rewrite_atom(a, map)),
        BodyLiteral::Compare(a, op, b) => BodyLiteral::Compare(rewrite_term(a, map), op, rewrite_term(b, map)),
        BodyLiteral::Assign(v, a, op, b) => BodyLiteral::Assign(v, rewrite_term(a, map), op, rewrite_term(b, map)),
        BodyLiteral::Aggregate(g) => BodyLiteral::Aggregate(AggregateLiteral {
            func: g.func,
            agg_var: g.agg_var,
            atom: rewrite_atom(g.atom, map),
            result_var: g.result_var,
        }),
        BodyLiteral::StringBuiltin(b) => BodyLiteral::StringBuiltin(rewrite_builtin(b, map)),
        other => other,
    }
}

fn rewrite_rule(rule: Rule<i64>, map: &HashMap<i64, i64>) -> (r: Rule<i64>)
    ensures
        r.deep_view() == rewrite_rulev(rule.deep_view(), map@),
{
    let Rule { head, body, rule_text, weight } = rule;
    let ghost bv = body.deep_view();
    let head = match head {
        Some(h) => Some(rewrite_atom(h, map)),
        None => None,
    };
    let mut rest = body;
    let mut out: Vec<BodyLiteral<i64>> = Vec::new();
    let ghost n = bv.len();
    assert(rest.deep_view() =~= bv.subrange(0, n as int));
    while rest.len() > 0
        invariant
            out.deep_view().len() + rest.deep_view().len() == n,
            n == bv.len(),
            rest.deep_view() == bv.subrange(out.deep_view().len() as int, n as int),
            forall|i: int| 0 <= i < out.deep_view().len() ==> #[trigger] out.deep_view()[i] == rewrite_literalv(bv[i], map@),
        decreases rest.len(),
    {
        let ghost k = out.deep_view().len();
        let ghost old_rest = rest.deep_view();
        let l = rest.remove(0);
        assert(l.deep_view() == old_rest[0]);
        assert(rest.deep_view() =~= old_rest.drop_first());
        let nl = rewrite_body_literal(l, map);
        let ghost old_out = out.deep_view();
        out.push(nl);
        assert(out.deep_view() =~= old_out.push(nl.deep_view()));
    }
    let r = Rule { head, body: out, rule_text, weight };
    assert(r.deep_view().body =~= Seq::new(bv.len(), |i: int| rewrite_literalv(bv[i], map@)));
    r
}

/// Rewrites every rule constant to its canonical ID under `map`.
pub fn apply_sameas_to_rules(rules: Vec<Rule<i64>>, map: &HashMap<i64, i64>) -> (r: Vec<Rule<i64>>)
    ensures
        r.deep_view() == Seq::new(rules.deep_view().len(), |i: int| rewrite_rulev(rules.deep_view()[i], map@)),
{
    let ghost rv = rules.deep_view();
    let ghost n = rv.len();
    let mut rest = rules;
    let mut out: Vec<Rule<i64>> = Vec::new();
    assert(rest.deep_view() =~= rv.subrange(0, n as int));
    while rest.len() > 0
        invariant
            out.deep_view().len() + rest.deep_view().len() == n,
            n == rv.len(),
            rest.deep_view() == rv.subrange(out.deep_view().len() as int, n as int),
            forall|i: int| 0 <= i < out.deep_view().len() ==> #[trigger] out.deep_view()[i] == rewrite_rulev(rv[i], map@),
        decreases rest.len(),
    {
        let ghost old_rest = rest.deep_view();
        let r0 = rest.remove(0);
        assert(r0.deep_view() == old_rest[0]);
        assert(rest.deep_view() =~= old_rest.drop_first());
        let nr = rewrite_rule(r0, map);
        let ghost old_out = out.deep_view();
        out.push(nr);
        assert(out.deep_view() =~= old_out.push(nr.deep_view()));
    }
    assert(out.deep_view() =~= Seq::new(n, |i: int| rewrite_rulev(rv[i], map@)));
    out
}

// ─── What the rewriting does to each position ───────────────────────────────

/// `y` is what term `x` becomes: a mapped constant its image under `m`,
/// anything else unchanged.
pub open spec fn term_canonicalised(m: Map<i64, i64>, x: TermV<i64>, y: TermV<i64>) -> bool {
    match x {
        TermV::Const(c) => if m.contains_key(c) { y == TermV::<i64>::Const(m[c]) } else { y == x },
        _ => y == x,
    }
}

/// Every position of atom `a` (subject, predicate, object, graph) becomes
/// the matching position of `b` as [`term_canonicalised`] says.
pub open spec fn atom_canonicalised(m: Map<i64, i64>, a: AtomV<i64>, b: AtomV<i64>) -> bool {
    &&& term_canonicalised(m, a.s, b.s)
    &&& term_canonicalised(m, a.p, b.p)
    &&& term_canonicalised(m, a.o, b.o)
    &&& term_canonicalised(m, a.g, b.g)
}

/// The atom of a positive, negated or aggregate literal `l1` is rewritten
/// into the same kind of literal `l2`.
pub open spec fn literal_atoms_canonicalised(m: Map<i64, i64>, l1: LiteralV<i64>, l2: LiteralV<i64>) -> bool {
    match l1 {
        LiteralV::Positive(a) => l2 matches LiteralV::Positive(b) && atom_canonicalised(m, a, b),
        LiteralV::Negated(a) => l2 matches LiteralV::Negated(b) && atom_canonicalised(m, a, b),
        LiteralV::Aggregate(g) => l2 matches LiteralV::Aggregate(h) && atom_canonicalised(m, g.atom, h.atom),
        _ => true,
    }
}

/// No position of atom `a` holds a constant that is a key of `m`.
pub open spec fn atom_free_of_keys(m: Map<i64, i64>, a: AtomV<i64>) -> bool {
    &&& (a.s matches TermV::Const(c) ==> !m.contains_key(c))
    &&& (a.p matches TermV::Const(c) ==> !m.contains_key(c))
    &&& (a.o matches TermV::Const(c) ==> !m.contains_key(c))
    &&& (a.g matches TermV::Const(c) ==> !m.contains_key(c))
}

/// `apply_sameas_to_rules` rewrites every atom position: in each rule's
/// head and in the atom of each positive, negated or aggregate body
/// literal, a constant `c` that the map holds becomes `map[c]` and
/// everything else stays; the rules keep their number, body lengths, texts
/// and weights.
pub proof fn law_sameas_rewrites_every_position(rules: Seq<RuleV<i64>>, m: Map<i64, i64>)
    ensures
        ({
            let out = Seq::new(rules.len(), |i: int| rewrite_rulev(rules[i], m));
            &&& out.len() == rules.len()
            &&& forall|i: int| 0 <= i < rules.len() ==> {
                &&& (#[trigger] out[i]).rule_text == rules[i].rule_text
                &&& out[i].weight == rules[i].weight
                &&& out[i].body.len() == rules[i].body.len()
                &&& (rules[i].head matches Some(h) ==> (out[i].head matches Some(h2) && atom_canonicalised(m, h, h2)))
                &&& (rules[i].head is None ==> out[i].head is None)
                &&& forall|k: int| 0 <= k < rules[i].body.len() ==> literal_atoms_canonicalised(
                    m,
                    rules[i].body[k],
                    #[trigger] out[i].body[k],
                )
            }
        }),
{
}

/// When no value of the map is itself a key (as in a canonicalisation map,
/// whose values are the lowest members of their classes), no atom of the
/// rewritten rules holds a key of the map in any position.
pub proof fn law_sameas_leaves_no_mapped_constant(rules: Seq<RuleV<i64>>, m: Map<i64, i64>)
    requires
        forall|k: i64| #[trigger] m.contains_key(k) ==> !m.contains_key(m[k]),
    ensures
        ({
            let out = Seq::new(rules.len(), |i: int| rewrite_rulev(rules[i], m));
            forall|i: int| 0 <= i < out.len() ==> {
                &&& ((#[trigger] out[i]).head matches Some(h) ==> atom_free_of_keys(m, h))
                &&& forall|k: int| 0 <= k < out[i].body.len() ==> match #[trigger] out[i].body[k] {
                    LiteralV::Positive(a) => atom_free_of_keys(m, a),
                    LiteralV::Negated(a) => atom_free_of_keys(m, a),
                    LiteralV::Aggregate(g) => atom_free_of_keys(m, g.atom),
                    _ => true,
                }
            }
        }),
{
    let out = Seq::new(rules.len(), |i: int| rewrite_rulev(rules[i], m));
    assert forall|i: int| 0 <= i < out.len() implies {
        &&& ((#[trigger] out[i]).head matches Some(h) ==> atom_free_of_keys(m, h))
        &&& forall|k: int| 0 <= k < out[i].body.len() ==> match #[trigger] out[i].body[k] {
            LiteralV::Positive(a) => atom_free_of_keys(m, a),
            LiteralV::Negated(a) => atom_free_of_keys(m, a),
            LiteralV::Aggregate(g) => atom_free_of_keys(m, g.atom),
            _ => true,
        }
    } by {
        let r = rules[i];
        assert forall|k: int| 0 <= k < out[i].body.len() implies match #[trigger] out[i].body[k] {
            LiteralV::Positive(a) => atom_free_of_keys(m, a),
            LiteralV::Negated(a) => atom_free_of_keys(m, a),
            LiteralV::Aggregate(g) => atom_free_of_keys(m, g.atom),
            _ => true,
        } by {
            assert(out[i].body[k] == rewrite_literalv(r.body[k], m));
        }
    }
}

} // verus!
