//! Rule plan cache for Datalog inference.
//!
//! Holds the SQL strings compiled for each rule set so that repeated
//! inference calls on the same rule set skip the parse and compile step.
//! There are two tables: one for ordinary rules and one for aggregate rules.
//! Each entry counts its hits and misses.
//!
//! The cache state is a value of [`PlanCaches`]; the master switch
//! (`pg_ripple.rule_plan_cache`) and the size limit
//! (`pg_ripple.rule_plan_cache_size`) are passed to the operations that
//! read them.

use vstd::prelude::*;
use crate::text::str_eq;

verus! {

/// One cached plan: the compiled SQL of a rule set and its counters.
pub struct PlanEntry {
    pub key: String,
    pub sqls: Vec<String>,
    pub hits: i64,
    pub misses: i64,
}

/// View of a [`PlanEntry`].
pub struct EntryV {
    pub key: Seq<char>,
    pub sqls: Seq<Seq<char>>,
    pub hits: i64,
    pub misses: i64,
}

impl PlanEntry {
    pub open spec fn view_entry(&self) -> EntryV {
        EntryV { key: self.key@, sqls: self.sqls.deep_view(), hits: self.hits, misses: self.misses }
    }
}

/// One plan table: entries with distinct rule set names.
pub struct CacheState {
    pub entries: Vec<PlanEntry>,
}

impl View for CacheState {
    type V = Seq<EntryV>;

    open spec fn view(&self) -> Seq<EntryV> {
        Seq::new(self.entries@.len(), |i: int| self.entries@[i].view_entry())
    }
}

/// The two plan tables: ordinary rules and aggregate rules.
pub struct PlanCaches {
    pub plans: CacheState,
    pub aggs: CacheState,
}

/// Per-rule-set statistics, summed over both tables.
#[derive(Debug)]
pub struct CacheStats {
    pub rule_set: String,
    pub hits: i64,
    pub misses: i64,
    pub entries: i32,
}

/// No rule set name occurs twice.
pub open spec fn keys_distinct(s: Seq<EntryV>) -> bool {
    forall|i: int, j: int| 0 <= i < s.len() && 0 <= j < s.len() && i != j ==> s[i].key != s[j].key
}

/// The entry at `i` is the one for `k`.
pub open spec fn key_at(s: Seq<EntryV>, i: int, k: Seq<char>) -> bool {
    0 <= i < s.len() && s[i].key == k
}

/// The position of the entry for `k`, or -1.
pub open spec fn key_index(s: Seq<EntryV>, k: Seq<char>) -> int {
    if exists|i: int| key_at(s, i, k) {
        choose|i: int| key_at(s, i, k)
    } else {
        -1
    }
}

/// A fresh entry for `k`.
pub open spec fn empty_entry(k: Seq<char>) -> EntryV {
    EntryV { key: k, sqls: Seq::empty(), hits: 0, misses: 0 }
}

/// The table and the answer after a lookup of `k`: a hit when the entry has
/// SQL (its hit count goes up); otherwise a miss, counted on the entry, which
/// is created when missing.
pub open spec fn lookup_spec(s: Seq<EntryV>, k: Seq<char>) -> (Seq<EntryV>, Option<Seq<Seq<char>>>) {
    let i = key_index(s, k);
    if i >= 0 && s[i].sqls.len() > 0 {
        (s.update(i, EntryV { hits: s[i].hits.wrapping_add(1), ..s[i] }), Some(s[i].sqls))
    } else if i >= 0 {
        (s.update(i, EntryV { misses: s[i].misses.wrapping_add(1), ..s[i] }), None)
    } else {
        (s.push(EntryV { misses: 1, ..empty_entry(k) }), None)
    }
}

/// The first position of an entry with the fewest hits (0 for an empty table).
pub open spec fn min_hits_index(s: Seq<EntryV>) -> int {
    if exists|i: int| 0 <= i < s.len() && is_first_min(s, i) {
        choose|i: int| 0 <= i < s.len() && is_first_min(s, i)
    } else {
        0
    }
}

/// `i` holds the fewest hits, and no earlier entry holds as few.
pub open spec fn is_first_min(s: Seq<EntryV>, i: int) -> bool {
    &&& forall|j: int| 0 <= j < s.len() ==> s[i].hits <= #[trigger] s[j].hits
    &&& forall|j: int| 0 <= j < i ==> s[i].hits < #[trigger] s[j].hits
}

/// `s` with the SQL of `k` set to `sqls`, the entry created when missing.
pub open spec fn put_spec(s: Seq<EntryV>, k: Seq<char>, sqls: Seq<Seq<char>>) -> Seq<EntryV> {
    let i = key_index(s, k);
    if i >= 0 {
        s.update(i, EntryV { sqls, ..s[i] })
    } else {
        s.push(EntryV { sqls, ..empty_entry(k) })
    }
}

/// The table after storing `sqls` for `k` with room for `max_entries`
/// (at least one): when the table is full and `k` is new, the entry with the
/// fewest hits leaves first.
pub open spec fn store_spec(s: Seq<EntryV>, max_entries: int, k: Seq<char>, sqls: Seq<Seq<char>>) -> Seq<EntryV> {
    let cap = if max_entries < 1 { 1 } else { max_entries };
    if s.len() >= cap && key_index(s, k) < 0 && s.len() > 0 {
        put_spec(s.remove(min_hits_index(s)), k, sqls)
    } else {
        put_spec(s, k, sqls)
    }
}

/// `s` without the entry for `k`.
pub open spec fn remove_spec(s: Seq<EntryV>, k: Seq<char>) -> Seq<EntryV> {
    let i = key_index(s, k);
    if i >= 0 { s.remove(i) } else { s }
}

impl CacheState {
    /// An empty table.
    pub fn new() -> (c: Self)
        ensures
            c@ == Seq::<EntryV>::empty(),
    {
        let c = CacheState { entries: Vec::new() };
        assert(c@ =~= Seq::<EntryV>::empty());
        c
    }

    /// Names are distinct.
    pub open spec fn wf(&self) -> bool {
        keys_distinct(self@)
    }

    /// The position of the entry for `k`.
    fn find(&self, k: &str) -> (r: Option<usize>)
        requires
            self.wf(),
        ensures
            match r {
                Some(i) => i < self@.len() && key_index(self@, k@) == i as int,
                None => key_index(self@, k@) == -1,
            },
    {
        let mut i: usize = 0;
        while i < self.entries.len()
            invariant
                i <= self.entries@.len(),
                self.wf(),
                forall|j: int| 0 <= j < i ==> self@[j].key != k@,
            decreases self.entries.len() - i,
        {
            if str_eq(self.entries[i].key.as_str(), k) {
                proof {
                    lemma_key_index_unique(self@, i as int);
                }
                return Some(i);
            }
            i = i + 1;
        }
        None
    }
}

/// A copy of a vector of strings.
pub fn copy_strings(v: &Vec<String>) -> (r: Vec<String>)
    ensures
        r.deep_view() == v.deep_view(),
{
    let mut r: Vec<String> = Vec::new();
    let mut i: usize = 0;
    while i < v.len()
        invariant
            i <= v@.len(),
            r.deep_view() == v.deep_view().subrange(0, i as int),
        decreases v.len() - i,
    {
        let ghost before = r.deep_view();
        let s = v[i].clone();
        r.push(s);
        assert(r.deep_view() =~= v.deep_view().subrange(0, i + 1)) by {
            assert(before.push(s@) =~= v.deep_view().subrange(0, i + 1));
        }
        i = i + 1;
    }
    assert(v.deep_view().subrange(0, v@.len() as int) =~= v.deep_view());
    r
}

/// A copy of a slice of strings.
fn copy_slice(v: &[String]) -> (r: Vec<String>)
    ensures
        r.deep_view() == v.deep_view(),
{
    let mut r: Vec<String> = Vec::new();
    let mut i: usize = 0;
    while i < v.len()
        invariant
            i <= v@.len(),
            r.deep_view() == v.deep_view().subrange(0, i as int),
        decreases v.len() - i,
    {
        let ghost before = r.deep_view();
        let s = v[i].clone();
        r.push(s);
        assert(r.deep_view() =~= v.deep_view().subrange(0, i + 1)) by {
            assert(before.push(s@) =~= v.deep_view().subrange(0, i + 1));
        }
        i = i + 1;
    }
    assert(v.deep_view().subrange(0, v@.len() as int) =~= v.deep_view());
    r
}

proof fn lemma_update_keeps_distinct(s: Seq<EntryV>, i: int, e: EntryV)
    requires
        keys_distinct(s),
        0 <= i < s.len(),
        e.key == s[i].key,
    ensures
        keys_distinct(s.update(i, e)),
{
}

proof fn lemma_push_keeps_distinct(s: Seq<EntryV>, e: EntryV)
    requires
        keys_distinct(s),
        forall|j: int| 0 <= j < s.len() ==> s[j].key != e.key,
    ensures
        keys_distinct(s.push(e)),
{
}

proof fn lemma_remove_keeps_distinct(s: Seq<EntryV>, i: int)
    requires
        keys_distinct(s),
        0 <= i < s.len(),
    ensures
        keys_distinct(s.remove(i)),
{
    let t = s.remove(i);
    assert forall|a: int, b: int| 0 <= a < t.len() && 0 <= b < t.len() && a != b implies t[a].key != t[b].key by {
        let a2 = if a < i { a } else { a + 1 };
        let b2 = if b < i { b } else { b + 1 };
        assert(t[a] == s[a2] && t[b] == s[b2]);
    }
}

proof fn lemma_key_index_unique(s: Seq<EntryV>, i: int)
    requires
        keys_distinct(s),
        0 <= i < s.len(),
    ensures
        key_index(s, s[i].key) == i,
{
    assert(key_at(s, i, s[i].key));
}

/// Looks up `k` in one table (the shared body of [`lookup`] and [`lookup_agg`]).
fn lookup_in(c: &mut CacheState, k: &str) -> (r: Option<Vec<String>>)
    requires
        old(c).wf(),
    ensures
        final(c).wf(),
        final(c)@ == lookup_spec(old(c)@, k@).0,
        match r {
            Some(v) => lookup_spec(old(c)@, k@).1 == Some(v.deep_view()),
            None => lookup_spec(old(c)@, k@).1 is None,
        },
{
    let ghost s = c@;
    match c.find(k) {
        Some(i) => {
            if c.entries[i].sqls.len() > 0 {
                let out = copy_strings(&c.entries[i].sqls);
                let h = c.entries[i].hits.wrapping_add(1);
                c.entries[i].hits = h;
                proof {
                    lemma_update_keeps_distinct(s, i as int, EntryV { hits: h, ..s[i as int] });
                    assert(c@ =~= s.update(i as int, EntryV { hits: h, ..s[i as int] }));
                }
                Some(out)
            } else {
                let m = c.entries[i].misses.wrapping_add(1);
                c.entries[i].misses = m;
                proof {
                    lemma_update_keeps_distinct(s, i as int, EntryV { misses: m, ..s[i as int] });
                    assert(c@ =~= s.update(i as int, EntryV { misses: m, ..s[i as int] }));
                }
                None
            }
        },
        None => {
            let e = PlanEntry { key: String::from_str(k), sqls: Vec::new(), hits: 0, misses: 1 };
            c.entries.push(e);
            proof {
                let ev = EntryV { misses: 1, ..empty_entry(k@) };
                assert(e.sqls.deep_view() =~= Seq::<Seq<char>>::empty());
                assert forall|j: int| 0 <= j < s.len() implies s[j].key != ev.key by {
                    if s[j].key == k@ {
                        assert(key_at(s, j, k@));
                    }
                }
                lemma_push_keeps_distinct(s, ev);
                assert(c@ =~= s.push(ev));
            }
            None
        },
    }
}

/// Sets the SQL of `k` in one table, creating the entry when missing.
fn put(c: &mut CacheState, k: &str, sqls: &[String])
    requires
        old(c).wf(),
    ensures
        final(c).wf(),
        final(c)@ == put_spec(old(c)@, k@, sqls.deep_view()),
{
    let ghost s = c@;
    let v = copy_slice(sqls);
    match c.find(k) {
        Some(i) => {
            c.entries[i].sqls = v;
            proof {
                lemma_update_keeps_distinct(s, i as int, EntryV { sqls: sqls.deep_view(), ..s[i as int] });
                assert(c@ =~= s.update(i as int, EntryV { sqls: sqls.deep_view(), ..s[i as int] }));
            }
        },
        None => {
            let e = PlanEntry { key: String::from_str(k), sqls: v, hits: 0, misses: 0 };
            c.entries.push(e);
            proof {
                let ev = EntryV { sqls: sqls.deep_view(), ..empty_entry(k@) };
                assert forall|j: int| 0 <= j < s.len() implies s[j].key != ev.key by {
                    if s[j].key == k@ {
                        assert(key_at(s, j, k@));
                    }
                }
                lemma_push_keeps_distinct(s, ev);
                assert(c@ =~= s.push(ev));
            }
        },
    }
}

/// The first position of an entry with the fewest hits.
fn min_hits_position(c: &CacheState) -> (r: usize)
    requires
        c@.len() > 0,
    ensures
        r < c@.len(),
        r as int == min_hits_index(c@),
{
    let ghost s = c@;
    let mut best: usize = 0;
    let mut i: usize = 1;
    while i < c.entries.len()
        invariant
            s == c@,
            1 <= i <= s.len(),
            best < i,
            forall|j: int| 0 <= j < i ==> s[best as int].hits <= #[trigger] s[j].hits,
            forall|j: int| 0 <= j < best ==> s[best as int].hits < #[trigger] s[j].hits,
        decreases c.entries.len() - i,
    {
        if c.entries[i].hits < c.entries[best].hits {
            best = i;
        }
        i = i + 1;
    }
    proof {
        assert(is_first_min(s, best as int));
        assert forall|j: int| 0 <= j < s.len() && is_first_min(s, j) implies j == best by {
            if j < best {
                assert(s[best as int].hits < s[j].hits);
            } else if j > best {
                assert(s[j].hits < s[best as int].hits);
            }
        }
    }
    best
}

/// Removes the entry at `i`.
fn remove_at(c: &mut CacheState, i: usize)
    requires
        old(c).wf(),
        i < old(c)@.len(),
    ensures
        final(c).wf(),
        final(c)@ == old(c)@.remove(i as int),
{
    let ghost s = c@;
    let _ = c.entries.remove(i);
    proof {
        lemma_remove_keeps_distinct(s, i as int);
        assert(c@ =~= s.remove(i as int));
    }
}

impl PlanCaches {
    /// Two empty tables.
    pub fn new() -> (c: Self)
        ensures
            c.plans@ == Seq::<EntryV>::empty(),
            c.aggs@ == Seq::<EntryV>::empty(),
            c.wf(),
    {
        PlanCaches { plans: CacheState::new(), aggs: CacheState::new() }
    }

    /// Both tables have distinct names.
    pub open spec fn wf(&self) -> bool {
        self.plans.wf() && self.aggs.wf()
    }
}

/// Looks up the compiled SQL for a rule set.
///
/// With the cache switched off, nothing changes and the answer is `None`.
/// Otherwise a hit (the entry has SQL) counts a hit and returns the SQL; a
/// miss counts a miss on the entry, creating it when missing.
pub fn lookup(c: &mut PlanCaches, enabled: bool, rule_set: &str) -> (r: Option<Vec<String>>)
    requires
        old(c).wf(),
    ensures
        final(c).wf(),
        final(c).aggs@ == old(c).aggs@,
        !enabled ==> final(c).plans@ == old(c).plans@ && r is None,
        enabled ==> final(c).plans@ == lookup_spec(old(c).plans@, rule_set@).0,
        enabled ==> match r {
            Some(v) => lookup_spec(old(c).plans@, rule_set@).1 == Some(v.deep_view()),
            None => lookup_spec(old(c).plans@, rule_set@).1 is None,
        },
{
    if !enabled {
        return None;
    }
    lookup_in(&mut c.plans, rule_set)
}

/// Looks up the compiled aggregate SQL for a rule set; as [`lookup`], on the
/// aggregate table.
pub fn lookup_agg(c: &mut PlanCaches, enabled: bool, rule_set: &str) -> (r: Option<Vec<String>>)
    requires
        old(c).wf(),
    ensures
        final(c).wf(),
        final(c).plans@ == old(c).plans@,
        !enabled ==> final(c).aggs@ == old(c).aggs@ && r is None,
        enabled ==> final(c).aggs@ == lookup_spec(old(c).aggs@, rule_set@).0,
        enabled ==> match r {
            Some(v) => lookup_spec(old(c).aggs@, rule_set@).1 == Some(v.deep_view()),
            None => lookup_spec(old(c).aggs@, rule_set@).1 is None,
        },
{
    if !enabled {
        return None;
    }
    lookup_in(&mut c.aggs, rule_set)
}

/// Stores the compiled SQL for a rule set.
///
/// With the cache switched off nothing changes.  When the table already
/// holds `max(cache_size, 1)` entries and the rule set is new, the entry
/// with the fewest hits is evicted first.
pub fn store(c: &mut PlanCaches, enabled: bool, cache_size: i32, rule_set: &str, sqls: &[String])
    requires
        old(c).wf(),
    ensures
        final(c).wf(),
        final(c).aggs@ == old(c).aggs@,
        !enabled ==> final(c).plans@ == old(c).plans@,
        enabled ==> final(c).plans@ == store_spec(old(c).plans@, cache_size as int, rule_set@, sqls.deep_view()),
{
    if !enabled {
        return;
    }
    let max_entries: usize = if cache_size < 1 { 1 } else { cache_size as usize };
    let full = c.plans.entries.len() >= max_entries;
    let present = c.plans.find(rule_set);
    if full && present.is_none() && c.plans.entries.len() > 0 {
        let victim = min_hits_position(&c.plans);
        remove_at(&mut c.plans, victim);
    }
    put(&mut c.plans, rule_set, sqls);
}

/// Stores compiled aggregate SQL for a rule set (no eviction).
pub fn store_agg(c: &mut PlanCaches, enabled: bool, rule_set: &str, sqls: &[String])
    requires
        old(c).wf(),
    ensures
        final(c).wf(),
        final(c).plans@ == old(c).plans@,
        !enabled ==> final(c).aggs@ == old(c).aggs@,
        enabled ==> final(c).aggs@ == put_spec(old(c).aggs@, rule_set@, sqls.deep_view()),
{
    if !enabled {
        return;
    }
    put(&mut c.aggs, rule_set, sqls);
}

/// Removes the entries of a rule set from both tables.
pub fn invalidate(c: &mut PlanCaches, rule_set: &str)
    requires
        old(c).wf(),
    ensures
        final(c).wf(),
        final(c).plans@ == remove_spec(old(c).plans@, rule_set@),
        final(c).aggs@ == remove_spec(old(c).aggs@, rule_set@),
{
    match c.plans.find(rule_set) {
        Some(i) => remove_at(&mut c.plans, i),
        None => {},
    }
    match c.aggs.find(rule_set) {
        Some(i) => remove_at(&mut c.aggs, i),
        None => {},
    }
}

/// Empties both tables.
pub fn invalidate_all(c: &mut PlanCaches)
    ensures
        final(c).wf(),
        final(c).plans@ == Seq::<EntryV>::empty(),
        final(c).aggs@ == Seq::<EntryV>::empty(),
{
    c.plans = CacheState::new();
    c.aggs = CacheState::new();
}


/// View of a [`CacheStats`].
pub struct StatsV {
    pub rule_set: Seq<char>,
    pub hits: int,
    pub misses: int,
    pub entries: int,
}

impl CacheStats {
    pub open spec fn view_stats(&self) -> StatsV {
        StatsV { rule_set: self.rule_set@, hits: self.hits as int, misses: self.misses as int, entries: self.entries as int }
    }
}

/// The hits recorded for `k` in `s` (0 when absent).
pub open spec fn hits_of(s: Seq<EntryV>, k: Seq<char>) -> int {
    if key_index(s, k) >= 0 { s[key_index(s, k)].hits as int } else { 0 }
}

/// The misses recorded for `k` in `s` (0 when absent).
pub open spec fn misses_of(s: Seq<EntryV>, k: Seq<char>) -> int {
    if key_index(s, k) >= 0 { s[key_index(s, k)].misses as int } else { 0 }
}

/// The names of `a`, in order, that `p` does not hold.
pub open spec fn fresh_keys(a: Seq<EntryV>, p: Seq<EntryV>) -> Seq<Seq<char>>
    decreases a.len(),
{
    if a.len() == 0 {
        Seq::empty()
    } else {
        let r = fresh_keys(a.drop_last(), p);
        if key_index(p, a.last().key) < 0 { r.push(a.last().key) } else { r }
    }
}

/// Every rule set name of either table, once: those of `p` in order, then
/// the others of `a` in order.
pub open spec fn stats_keys(p: Seq<EntryV>, a: Seq<EntryV>) -> Seq<Seq<char>> {
    Seq::new(p.len(), |i: int| p[i].key) + fresh_keys(a, p)
}

/// `x + y` as an `i64` sum wraps.
pub open spec fn wrapping_sum(x: int, y: int) -> int {
    (x as i64).wrapping_add(y as i64) as int
}

/// Statistics of both tables: one record per rule set name, with hits and
/// misses summed over the two tables (as `i64` sums, which wrap) and
/// `entries` the number of names (as an `i32`, which truncates).
pub fn stats(c: &PlanCaches) -> (r: Vec<CacheStats>)
    requires
        c.wf(),
    ensures
        r@.len() == stats_keys(c.plans@, c.aggs@).len(),
        forall|t: int| 0 <= t < r@.len() ==> {
            let k = stats_keys(c.plans@, c.aggs@)[t];
            #[trigger] r@[t].view_stats() == (StatsV {
                rule_set: k,
                hits: wrapping_sum(hits_of(c.plans@, k), hits_of(c.aggs@, k)),
                misses: wrapping_sum(misses_of(c.plans@, k), misses_of(c.aggs@, k)),
                entries: #[verifier::truncate] (stats_keys(c.plans@, c.aggs@).len() as i32) as int,
            })
        },
{
    let ghost p = c.plans@;
    let ghost a = c.aggs@;
    let ghost keys = stats_keys(p, a);
    let mut keys_out: Vec<String> = Vec::new();
    let mut hits: Vec<i64> = Vec::new();
    let mut misses: Vec<i64> = Vec::new();
    let mut i: usize = 0;
    while i < c.plans.entries.len()
        invariant
            p == c.plans@,
            a == c.aggs@,
            c.wf(),
            i <= p.len(),
            keys_out@.len() == i && hits@.len() == i && misses@.len() == i,
            forall|t: int| 0 <= t < i ==> #[trigger] keys_out@[t]@ == p[t].key
                && hits@[t] == wrapping_sum(p[t].hits as int, hits_of(a, p[t].key))
                && misses@[t] == wrapping_sum(p[t].misses as int, misses_of(a, p[t].key)),
        decreases c.plans.entries.len() - i,
    {
        let e = &c.plans.entries[i];
        assert(p[i as int].key == e.key@);
        let (h, m) = match c.aggs.find(e.key.as_str()) {
            Some(j) => (c.aggs.entries[j].hits, c.aggs.entries[j].misses),
            None => (0, 0),
        };
        assert(h as int == hits_of(a, p[i as int].key) && m as int == misses_of(a, p[i as int].key));
        keys_out.push(e.key.clone());
        hits.push(e.hits.wrapping_add(h));
        misses.push(e.misses.wrapping_add(m));
        i = i + 1;
    }
    let mut j: usize = 0;
    let ghost n0 = p.len();
    assert(fresh_keys(a.subrange(0, 0), p) =~= Seq::<Seq<char>>::empty());
    while j < c.aggs.entries.len()
        invariant
            p == c.plans@,
            a == c.aggs@,
            c.wf(),
            n0 == p.len(),
            j <= a.len(),
            keys_out@.len() <= n0 + j,
            keys_out@.len() == hits@.len() && hits@.len() == misses@.len(),
            keys_out@.len() == n0 + fresh_keys(a.subrange(0, j as int), p).len(),
            forall|t: int| 0 <= t < n0 ==> #[trigger] keys_out@[t]@ == p[t].key
                && hits@[t] == wrapping_sum(p[t].hits as int, hits_of(a, p[t].key))
                && misses@[t] == wrapping_sum(p[t].misses as int, misses_of(a, p[t].key)),
            forall|t: int| n0 <= t < keys_out@.len() ==> #[trigger] keys_out@[t]@ == fresh_keys(a.subrange(0, j as int), p)[t - n0]
                && hits@[t] == hits_of(a, keys_out@[t]@)
                && misses@[t] == misses_of(a, keys_out@[t]@)
                && key_index(p, keys_out@[t]@) < 0,
        decreases c.aggs.entries.len() - j,
    {
        let e = &c.aggs.entries[j];
        assert(a.subrange(0, j + 1).drop_last() =~= a.subrange(0, j as int));
        assert(a.subrange(0, j + 1).last() == a[j as int]);
        if c.plans.find(e.key.as_str()).is_none() {
            proof {
                lemma_key_index_unique(a, j as int);
            }
            let ghost ko = keys_out@;
            let ghost ho = hits@;
            let ghost mo = misses@;
            keys_out.push(e.key.clone());
            hits.push(e.hits);
            misses.push(e.misses);
            assert(forall|t: int| 0 <= t < ko.len() ==> keys_out@[t] == ko[t] && hits@[t] == ho[t] && misses@[t] == mo[t]);
            assert forall|t: int| 0 <= t < n0 implies #[trigger] keys_out@[t]@ == p[t].key
                && hits@[t] == wrapping_sum(p[t].hits as int, hits_of(a, p[t].key))
                && misses@[t] == wrapping_sum(p[t].misses as int, misses_of(a, p[t].key)) by {
                assert(keys_out@[t] == ko[t] && hits@[t] == ho[t] && misses@[t] == mo[t]);
                assert(ko[t]@ == p[t].key);
            }
        }
        j = j + 1;
    }
    assert(a.subrange(0, a.len() as int) =~= a);
    assert(keys_out@.len() == keys.len());
    let total = #[verifier::truncate] (keys_out.len() as i32);
    let mut r: Vec<CacheStats> = Vec::new();
    let mut t: usize = 0;
    while t < keys_out.len()
        invariant
            t <= keys_out@.len(),
            r@.len() == t,
            keys_out@.len() == hits@.len() && hits@.len() == misses@.len(),
            total == #[verifier::truncate] (keys_out@.len() as i32),
            forall|u: int| 0 <= u < t ==> #[trigger] r@[u].view_stats() == (StatsV {
                rule_set: keys_out@[u]@,
                hits: hits@[u] as int,
                misses: misses@[u] as int,
                entries: total as int,
            }),
        decreases keys_out.len() - t,
    {
        r.push(CacheStats { rule_set: keys_out[t].clone(), hits: hits[t], misses: misses[t], entries: total });
        t = t + 1;
    }
    proof {
        assert forall|u: int| 0 <= u < r@.len() implies keys[u] == keys_out@[u]@ by {
            if u < n0 {
            } else {
            }
        }
        assert forall|u: int| n0 <= u < r@.len() implies hits_of(p, keys_out@[u]@) == 0 && misses_of(p, keys_out@[u]@) == 0 by {
        }
        assert forall|u: int| 0 <= u < n0 implies hits_of(p, keys_out@[u]@) == p[u].hits && misses_of(p, keys_out@[u]@) == p[u].misses by {
            lemma_key_index_unique(p, u);
        }
    }
    r
}

// ─── Laws ────────────────────────────────────────────────────────────────────

/// After SQL is stored for a rule set, a lookup of that rule set returns it.
pub proof fn law_lookup_returns_stored(s: Seq<EntryV>, max_entries: int, k: Seq<char>, sqls: Seq<Seq<char>>)
    requires
        keys_distinct(s),
        sqls.len() > 0,
    ensures
        lookup_spec(store_spec(s, max_entries, k, sqls), k).1 == Some(sqls),
{
    let cap = if max_entries < 1 { 1 } else { max_entries };
    let base = if s.len() >= cap && key_index(s, k) < 0 && s.len() > 0 {
        lemma_min_hits_index_in_range(s);
        lemma_remove_keeps_distinct(s, min_hits_index(s));
        s.remove(min_hits_index(s))
    } else {
        s
    };
    lemma_put_then_index(base, k, sqls);
}

proof fn lemma_min_hits_index_in_range(s: Seq<EntryV>)
    requires
        s.len() > 0,
    ensures
        0 <= min_hits_index(s) < s.len(),
{
}

proof fn lemma_put_then_index(s: Seq<EntryV>, k: Seq<char>, sqls: Seq<Seq<char>>)
    requires
        keys_distinct(s),
    ensures
        keys_distinct(put_spec(s, k, sqls)),
        key_index(put_spec(s, k, sqls), k) >= 0,
        put_spec(s, k, sqls)[key_index(put_spec(s, k, sqls), k)].sqls == sqls,
{
    let i = key_index(s, k);
    if i >= 0 {
        assert(key_at(s, i, k));
        let t = s.update(i, EntryV { sqls, ..s[i] });
        lemma_update_keeps_distinct(s, i, EntryV { sqls, ..s[i] });
        lemma_key_index_unique(t, i);
    } else {
        let e = EntryV { sqls, ..empty_entry(k) };
        assert forall|j: int| 0 <= j < s.len() implies s[j].key != e.key by {
            if s[j].key == k {
                assert(key_at(s, j, k));
            }
        }
        lemma_push_keeps_distinct(s, e);
        lemma_key_index_unique(s.push(e), s.len() as int);
    }
}

/// After a rule set is invalidated, a lookup of it misses.
pub proof fn law_lookup_after_invalidate_misses(s: Seq<EntryV>, k: Seq<char>)
    requires
        keys_distinct(s),
    ensures
        lookup_spec(remove_spec(s, k), k).1 is None,
{
    let i = key_index(s, k);
    if i >= 0 {
        assert(key_at(s, i, k));
        let t = s.remove(i);
        assert forall|j: int| 0 <= j < t.len() implies t[j].key != k by {
            let j2 = if j < i { j } else { j + 1 };
            assert(t[j] == s[j2]);
        }
        assert(!exists|j: int| key_at(t, j, k));
    }
}

/// A table never holds more entries than its limit: storing into a table
/// within `max(cache_size, 1)` entries keeps it within that limit.
pub proof fn law_store_respects_limit(s: Seq<EntryV>, max_entries: int, k: Seq<char>, sqls: Seq<Seq<char>>)
    requires
        keys_distinct(s),
        s.len() <= (if max_entries < 1 { 1 } else { max_entries }),
    ensures
        store_spec(s, max_entries, k, sqls).len() <= (if max_entries < 1 { 1 } else { max_entries }),
{
    let cap = if max_entries < 1 { 1 } else { max_entries };
    if s.len() >= cap && key_index(s, k) < 0 && s.len() > 0 {
        lemma_min_hits_index_in_range(s);
        let t = s.remove(min_hits_index(s));
        lemma_remove_keeps_distinct(s, min_hits_index(s));
        lemma_put_len(t, k, sqls);
    } else {
        lemma_put_len(s, k, sqls);
        if key_index(s, k) < 0 {
            assert(s.len() < cap);
        }
    }
}

proof fn lemma_put_len(s: Seq<EntryV>, k: Seq<char>, sqls: Seq<Seq<char>>)
    ensures
        put_spec(s, k, sqls).len() == s.len() + (if key_index(s, k) >= 0 { 0int } else { 1int }),
        key_index(s, k) >= 0 ==> key_index(s, k) < s.len(),
{
    if key_index(s, k) >= 0 {
        assert(key_at(s, key_index(s, k), k));
    }
}

} // verus!
