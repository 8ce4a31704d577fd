//! Goal-directed Datalog inference (simplified magic sets).
//!
//! Given a goal triple pattern such as `?x rdf:type foaf:Person`, only the
//! rules that can contribute to the goal predicate are run, and the seed pass
//! of the rules deriving it is filtered by the goal's bound positions.
//!
//! This module holds the goal parser, the choice of evaluation path, the
//! selection of relevant rules and the SQL filters; running the inference
//! and encoding terms in the dictionary is the caller's part.

use vstd::prelude::*;
use crate::datalog::stratify::{head_pred, positive_edges, reachable_from, reaches, vec_has};
use crate::datalog::{Rule, RuleV};
use crate::text::{first_occurrence, find_chars, str_chars, string_from_chars, sub_chars, trim};
use crate::datalog::parser::{join_strings, join_with};
use crate::datalog::lattice::{ci_equals, name_is};
use crate::datalog::compiler::{compile_single_rule_to, single_rule_sql, CompileEnv};
use crate::text::{i64_to_string, int_decimal};

verus! {

// ─── Goal pattern ────────────────────────────────────────────────────────────

/// A triple-pattern goal: bound positions hold a dictionary ID, free
/// variables are `None`.
#[derive(Debug)]
pub struct GoalPattern {
    pub s: Option<i64>,
    pub p: Option<i64>,
    pub o: Option<i64>,
}

impl GoalPattern {
    /// Whether all three positions are free.
    pub fn is_unconstrained(&self) -> (r: bool)
        ensures
            r == (self.s is None && self.p is None && self.o is None),
    {
        self.s.is_none() && self.p.is_none() && self.o.is_none()
    }
}

// ─── Goal tokenizer ──────────────────────────────────────────────────────────

/// The white space that separates goal terms.
pub open spec fn is_goal_ws(c: char) -> bool {
    c == ' ' || c == '\t' || c == '\n' || c == '\r'
}

/// Whether `c` is alphanumeric (`char::is_alphanumeric`).
pub uninterp spec fn is_alnum(c: char) -> bool;

/// Whether `c` is alphanumeric, as `char::is_alphanumeric` decides it; its
/// documentation counts the ASCII letters and digits among them.
#[verifier::external_body]
fn char_is_alphanumeric(c: char) -> (b: bool)
    ensures
        b == is_alnum(c),
        ('a' <= c <= 'z' || 'A' <= c <= 'Z' || '0' <= c <= '9') ==> b,
{
    c.is_alphanumeric()
}

/// The position after the first `>` at or after `i` (the end of `s` if none).
pub open spec fn through_close(s: Seq<char>, i: int) -> int
    decreases s.len() - i,
{
    if i < 0 || i >= s.len() {
        s.len() as int
    } else if s[i] == '>' {
        i + 1
    } else {
        through_close(s, i + 1)
    }
}

/// The position after the closing quote of a literal whose text continues at
/// `i` (`esc`: the previous character was a backslash).
pub open spec fn quote_end(s: Seq<char>, i: int, esc: bool) -> int
    decreases s.len() - i,
{
    if i < 0 || i >= s.len() {
        s.len() as int
    } else if esc {
        quote_end(s, i + 1, false)
    } else if s[i] == '\\' {
        quote_end(s, i + 1, true)
    } else if s[i] == '"' {
        i + 1
    } else {
        quote_end(s, i + 1, false)
    }
}

/// The end of a literal's `^^<datatype>` or `@lang` suffix starting at `i`.
pub open spec fn suffix_end(s: Seq<char>, i: int) -> int
    decreases s.len() - i,
{
    if i < 0 || i >= s.len() {
        s.len() as int
    } else if s[i] == '^' || s[i] == '@' {
        suffix_end(s, i + 1)
    } else if s[i] == '<' {
        through_close(s, i + 1)
    } else if is_alnum(s[i]) || s[i] == '-' || s[i] == '_' {
        suffix_end(s, i + 1)
    } else {
        i
    }
}

/// The end of a bare word starting at `i`.
pub open spec fn word_end(s: Seq<char>, i: int) -> int
    decreases s.len() - i,
{
    if i < 0 || i >= s.len() {
        s.len() as int
    } else if is_goal_ws(s[i]) {
        i
    } else {
        word_end(s, i + 1)
    }
}

/// The end of the goal token starting at `i`: an `<IRI>`, a literal with its
/// suffix, or a bare word.
pub open spec fn token_end(s: Seq<char>, i: int) -> int {
    if s[i] == '<' {
        through_close(s, i + 1)
    } else if s[i] == '"' {
        suffix_end(s, quote_end(s, i + 1, false))
    } else {
        word_end(s, i + 1)
    }
}

/// The goal tokens of `s` from position `i`.
pub open spec fn goal_tokens_from(s: Seq<char>, i: int) -> Seq<Seq<char>>
    decreases s.len() - i,
{
    if i < 0 || i >= s.len() {
        Seq::empty()
    } else if is_goal_ws(s[i]) {
        goal_tokens_from(s, i + 1)
    } else {
        let e = token_end(s, i);
        if i < e <= s.len() {
            seq![s.subrange(i, e)] + goal_tokens_from(s, e)
        } else {
            seq![s.subrange(i, s.len() as int)]
        }
    }
}

/// The tokens of a goal string: its trimmed text split into terms.
pub open spec fn goal_tokens(s: Seq<char>) -> Seq<Seq<char>> {
    goal_tokens_from(trim(s), 0)
}

fn through_close_at(s: &Vec<char>, i: usize) -> (r: usize)
    requires
        i <= s@.len(),
    ensures
        r as int == through_close(s@, i as int),
        i <= r <= s@.len(),
{
    let mut j = i;
    while j < s.len()
        invariant
            i <= j <= s@.len(),
            through_close(s@, i as int) == through_close(s@, j as int),
        decreases s.len() - j,
    {
        if s[j] == '>' {
            return j + 1;
        }
        j = j + 1;
    }
    j
}

fn quote_end_at(s: &Vec<char>, i: usize) -> (r: usize)
    requires
        i <= s@.len(),
    ensures
        r as int == quote_end(s@, i as int, false),
        i <= r <= s@.len(),
{
    let mut j = i;
    let mut esc = false;
    while j < s.len()
        invariant
            i <= j <= s@.len(),
            quote_end(s@, i as int, false) == quote_end(s@, j as int, esc),
        decreases s.len() - j,
    {
        if esc {
            esc = false;
        } else if s[j] == '\\' {
            esc = true;
        } else if s[j] == '"' {
            return j + 1;
        }
        j = j + 1;
    }
    j
}

fn suffix_end_at(s: &Vec<char>, i: usize) -> (r: usize)
    requires
        i <= s@.len(),
    ensures
        r as int == suffix_end(s@, i as int),
        i <= r <= s@.len(),
{
    let mut j = i;
    while j < s.len()
        invariant
            i <= j <= s@.len(),
            suffix_end(s@, i as int) == suffix_end(s@, j as int),
        decreases s.len() - j,
    {
        let c = s[j];
        if c == '^' || c == '@' {
        } else if c == '<' {
            return through_close_at(s, j + 1);
        } else if char_is_alphanumeric(c) || c == '-' || c == '_' {
        } else {
            return j;
        }
        j = j + 1;
    }
    j
}

fn word_end_at(s: &Vec<char>, i: usize) -> (r: usize)
    requires
        i <= s@.len(),
    ensures
        r as int == word_end(s@, i as int),
        i <= r <= s@.len(),
{
    let mut j = i;
    while j < s.len()
        invariant
            i <= j <= s@.len(),
            word_end(s@, i as int) == word_end(s@, j as int),
        decreases s.len() - j,
    {
        let c = s[j];
        if c == ' ' || c == '\t' || c == '\n' || c == '\r' {
            return j;
        }
        j = j + 1;
    }
    j
}

/// Splits a goal string into at most three term tokens: `<IRI>`s, literals
/// with their `^^<datatype>` or `@lang` suffix, and bare words.  A goal with
/// more than three terms is refused with the arity error.
pub fn tokenize_goal(input: &str) -> (r: Result<Vec<String>, String>)
    ensures
        goal_tokens(input@).len() <= 3 ==> (r matches Ok(v) && v.deep_view() == goal_tokens(input@)),
        goal_tokens(input@).len() > 3 ==> (r matches Err(m) && m@ == goal_arity_message(goal_tokens(input@))),
        r matches Ok(v) ==> v@.len() <= 3,
{
    let all = str_chars(input);
    let s = crate::datalog::parser::trimmed(&all);
    let mut tokens: Vec<String> = Vec::new();
    let mut i: usize = 0;
    assert(tokens.deep_view() =~= Seq::<Seq<char>>::empty());
    while i < s.len()
        invariant
            i <= s@.len(),
            s@ == trim(input@),
            goal_tokens(input@) == tokens.deep_view() + goal_tokens_from(s@, i as int),
        decreases s.len() - i,
    {
        let c = s[i];
        if c == ' ' || c == '\t' || c == '\n' || c == '\r' {
            i = i + 1;
        } else {
            let e = if c == '<' {
                through_close_at(&s, i + 1)
            } else if c == '"' {
                let q = quote_end_at(&s, i + 1);
                suffix_end_at(&s, q)
            } else {
                word_end_at(&s, i + 1)
            };
            let tok = sub_chars(&s, i, e);
            let ghost old_t = tokens.deep_view();
            tokens.push(string_from_chars(&tok));
            proof {
                assert(e as int == token_end(s@, i as int));
                assert(tokens.deep_view() =~= old_t.push(s@.subrange(i as int, e as int)));
                assert(old_t + goal_tokens_from(s@, i as int) =~= old_t.push(s@.subrange(i as int, e as int))
                    + goal_tokens_from(s@, e as int));
            }
            i = e;
        }
    }
    assert(goal_tokens_from(s@, i as int) =~= Seq::<Seq<char>>::empty());
    assert(tokens.deep_view() =~= goal_tokens(input@));
    if tokens.len() > 3 {
        return Err(arity_error(&tokens));
    }
    Ok(tokens)
}

/// The arity error of a goal with the tokens `tokens`.
fn arity_error(tokens: &Vec<String>) -> (m: String)
    ensures
        m@ == goal_arity_message(tokens.deep_view()),
{
    let mut m = String::from_str("magic sets: goal must have exactly 3 terms (s p o), got ");
    crate::text::push_u64_digits(&mut m, tokens.len() as u64);
    m.append(": ");
    let d = debug_string_list(tokens);
    m.append(d.as_str());
    m
}

// ─── Goal parsing ────────────────────────────────────────────────────────────

/// A goal term before dictionary encoding, holding its token.
#[derive(Debug)]
pub enum GoalTerm {
    /// `?name`: a free position.
    Variable(String),
    /// A quoted literal, possibly with a datatype or language suffix.
    Literal(String),
    /// An `<IRI>` or a prefixed name.
    Iri(String),
}

/// View of a [`GoalTerm`].
pub enum GoalTermV {
    Variable(Seq<char>),
    Literal(Seq<char>),
    Iri(Seq<char>),
}

impl GoalTerm {
    pub open spec fn view_term(&self) -> GoalTermV {
        match self {
            GoalTerm::Variable(t) => GoalTermV::Variable(t@),
            GoalTerm::Literal(t) => GoalTermV::Literal(t@),
            GoalTerm::Iri(t) => GoalTermV::Iri(t@),
        }
    }
}

/// The kind of term a token is: `?` starts a variable, `"` a literal,
/// anything else an IRI.
pub open spec fn classify(t: Seq<char>) -> GoalTermV {
    if t.len() > 0 && t[0] == '?' {
        GoalTermV::Variable(t)
    } else if t.len() > 0 && t[0] == '"' {
        GoalTermV::Literal(t)
    } else {
        GoalTermV::Iri(t)
    }
}

/// The text `{:?}` gives for a list of strings.
pub uninterp spec fn debug_list(v: Seq<Seq<char>>) -> Seq<char>;

/// The `{:?}` text of a list of strings, as `Debug for Vec<String>` writes it.
#[verifier::external_body]
fn debug_string_list(v: &Vec<String>) -> (r: String)
    ensures
        r@ == debug_list(v.deep_view()),
{
    format!("{:?}", v)
}

/// The error for a goal without exactly three terms.
pub open spec fn goal_arity_message(toks: Seq<Seq<char>>) -> Seq<char> {
    "magic sets: goal must have exactly 3 terms (s p o), got "@ + crate::text::int_decimal(toks.len() as int)
        + ": "@ + debug_list(toks)
}

/// Parses a goal triple pattern into its three terms.
pub fn parse_goal(goal: &str) -> (r: Result<Vec<GoalTerm>, String>)
    ensures
        goal_tokens(goal@).len() == 3 ==> (r matches Ok(v) && v@.len() == 3
            && forall|k: int| 0 <= k < 3 ==> #[trigger] v@[k].view_term() == classify(goal_tokens(goal@)[k])),
        goal_tokens(goal@).len() != 3 ==> (r matches Err(m) && m@ == goal_arity_message(goal_tokens(goal@))),
{
    let tokens = match tokenize_goal(goal) {
        Ok(t) => t,
        Err(e) => return Err(e),
    };
    let ghost tv = tokens.deep_view();
    if tokens.len() != 3 {
        return Err(arity_error(&tokens));
    }
    let mut out: Vec<GoalTerm> = Vec::new();
    let mut k: usize = 0;
    while k < 3
        invariant
            k <= 3,
            tokens@.len() == 3,
            tv == tokens.deep_view(),
            out@.len() == k,
            forall|j: int| 0 <= j < k ==> #[trigger] out@[j].view_term() == classify(tv[j]),
        decreases 3 - k,
    {
        let t = &tokens[k];
        assert(tv[k as int] == t@);
        let cs = str_chars(t.as_str());
        let term = if cs.len() > 0 && cs[0] == '?' {
            GoalTerm::Variable(t.clone())
        } else if cs.len() > 0 && cs[0] == '"' {
            GoalTerm::Literal(t.clone())
        } else {
            GoalTerm::Iri(t.clone())
        };
        out.push(term);
        k = k + 1;
    }
    Ok(out)
}

// ─── Term resolution helpers ─────────────────────────────────────────────────

/// How a term names an IRI: a full `<IRI>`, a `prefix:local` name whose
/// prefix is looked up, or neither.
#[derive(Debug)]
pub enum PrefixForm {
    Full(String),
    Prefixed(String, String),
    Plain,
}

/// View of a [`PrefixForm`].
pub enum PrefixFormV {
    Full(Seq<char>),
    Prefixed(Seq<char>, Seq<char>),
    Plain,
}

impl PrefixForm {
    pub open spec fn view_form(&self) -> PrefixFormV {
        match self {
            PrefixForm::Full(a) => PrefixFormV::Full(a@),
            PrefixForm::Prefixed(a, b) => PrefixFormV::Prefixed(a@, b@),
            PrefixForm::Plain => PrefixFormV::Plain,
        }
    }
}

/// The form of `t`: `<…>` gives its inside; else the text either side of
/// the first `:`.
pub open spec fn prefix_form_spec(t: Seq<char>) -> PrefixFormV {
    if t.len() >= 2 && t[0] == '<' && t.last() == '>' {
        PrefixFormV::Full(t.subrange(1, t.len() - 1))
    } else if crate::text::first_index(t, ':') >= 0 {
        let c = crate::text::first_index(t, ':');
        PrefixFormV::Prefixed(t.subrange(0, c), t.subrange(c + 1, t.len() as int))
    } else {
        PrefixFormV::Plain
    }
}

/// Splits a term into its IRI form, as prefix resolution reads it.
pub fn prefix_form(t: &str) -> (r: PrefixForm)
    requires
        t@.len() < 0x7FFF_FFFF_FFFF_FFFF,
    ensures
        r.view_form() == prefix_form_spec(t@),
{
    let s = str_chars(t);
    let n = s.len();
    if n >= 2 && s[0] == '<' && s[n - 1] == '>' {
        let inner = sub_chars(&s, 1, n - 1);
        return PrefixForm::Full(string_from_chars(&inner));
    }
    let c = crate::text::find_char(&s, ':');
    if c >= 0 {
        let a = sub_chars(&s, 0, c as usize);
        let b = sub_chars(&s, (c + 1) as usize, n);
        return PrefixForm::Prefixed(string_from_chars(&a), string_from_chars(&b));
    }
    PrefixForm::Plain
}

/// A typed literal `"value"^^<datatype>` split at its first `^^<`: the text
/// before it without surrounding quotes, and the text after it without
/// trailing `>`.
pub open spec fn typed_literal_spec(t: Seq<char>) -> Option<(Seq<char>, Seq<char>)> {
    let pos = first_occurrence(t, seq!['^', '^', '<']);
    if pos < 0 {
        None
    } else {
        Some((
            crate::datalog::parser::strip_trailing(crate::datalog::parser::strip_leading(t.subrange(0, pos), '"'), '"'),
            crate::datalog::parser::strip_trailing(t.subrange(pos + 3, t.len() as int), '>'),
        ))
    }
}

/// Splits a resolved typed literal into its value and datatype IRI.
pub fn split_typed_literal(resolved: &str) -> (r: Option<(String, String)>)
    requires
        resolved@.len() < 0x7FFF_FFFF_FFFF_FFFF,
    ensures
        match r {
            Some((v, d)) => typed_literal_spec(resolved@) == Some((v@, d@)),
            None => typed_literal_spec(resolved@) is None,
        },
{
    let s = str_chars(resolved);
    let pat = vec!['^', '^', '<'];
    assert(pat@ =~= seq!['^', '^', '<']);
    let pos = find_chars(&s, &pat);
    if pos < 0 {
        return None;
    }
    let a = sub_chars(&s, 0, pos as usize);
    let b = sub_chars(&s, (pos + 3) as usize, s.len());
    let v = crate::datalog::parser::strip_quotes_chars(&a);
    let d = crate::datalog::parser::strip_trailing_chars(&b, '>');
    Some((string_from_chars(&v), string_from_chars(&d)))
}

/// A resolved IRI without its leading `<`s and trailing `>`s.
pub open spec fn bare_iri(t: Seq<char>) -> Seq<char> {
    crate::datalog::parser::strip_trailing(crate::datalog::parser::strip_leading(t, '<'), '>')
}

/// Removes the angle brackets around a resolved IRI.
pub fn strip_iri_brackets(resolved: &str) -> (r: String)
    ensures
        r@ == bare_iri(resolved@),
{
    let s = str_chars(resolved);
    let a = crate::datalog::parser::strip_leading_chars(&s, '<');
    let b = crate::datalog::parser::strip_trailing_chars(&a, '>');
    string_from_chars(&b)
}

// ─── Evaluation path ─────────────────────────────────────────────────────────

/// How goal-directed inference runs.
#[derive(Debug, PartialEq, Eq)]
pub enum GoalPlan {
    /// Magic sets: only the rules relevant to this goal predicate.
    Magic(i64),
    /// Full inference, then counting the matches.
    Full,
}

/// Decides how goal-directed inference runs: magic sets when they are
/// enabled and the goal binds its predicate, full inference otherwise.
pub fn run_infer_goal(magic_sets_enabled: bool, goal: &GoalPattern) -> (r: GoalPlan)
    ensures
        r == (if magic_sets_enabled && goal.p is Some { GoalPlan::Magic(goal.p->0) } else { GoalPlan::Full }),
{
    match goal.p {
        Some(p) => if magic_sets_enabled {
            GoalPlan::Magic(p)
        } else {
            GoalPlan::Full
        },
        None => GoalPlan::Full,
    }
}

/// The predicates the goal predicate depends on through positive body
/// atoms, itself included, each once.
pub fn find_goal_reachable_preds(rules: &[Rule<i64>], goal_pred_id: i64) -> (r: Vec<i64>)
    ensures
        r@.no_duplicates(),
        forall|x: i64| r@.contains(x) <==> reaches(positive_edges(rules.deep_view()), goal_pred_id, x),
{
    let deps = crate::datalog::stratify::positive_dependencies(rules);
    reachable_from(goal_pred_id, &deps)
}

/// The rules of `rv` whose constant head predicate is in `preds`, in order.
pub open spec fn relevant_rules_spec(rv: Seq<RuleV<i64>>, preds: Seq<i64>) -> Seq<RuleV<i64>>
    decreases rv.len(),
{
    if rv.len() == 0 {
        Seq::empty()
    } else {
        let pre = relevant_rules_spec(rv.drop_last(), preds);
        match head_pred(rv.last()) {
            Some(h) => if preds.contains(h) { pre.push(rv.last()) } else { pre },
            None => pre,
        }
    }
}

/// Keeps the rules that can contribute to the goal: those whose constant
/// head predicate is one of `reachable`.
pub fn select_relevant_rules(rules: Vec<Rule<i64>>, reachable: &Vec<i64>) -> (r: Vec<Rule<i64>>)
    ensures
        r.deep_view() == relevant_rules_spec(rules.deep_view(), reachable@),
{
    let ghost rv = rules.deep_view();
    let ghost n = rv.len();
    let mut rest = rules;
    let total = rest.len();
    let mut out: Vec<Rule<i64>> = Vec::new();
    let mut q: usize = 0;
    assert(rest.deep_view() =~= rv.subrange(0, n as int));
    assert(rv.subrange(0, 0) =~= Seq::<RuleV<i64>>::empty());
    while rest.len() > 0
        invariant
            q + rest.deep_view().len() == n,
            n == rv.len(),
            n == total,
            rest.deep_view() == rv.subrange(q as int, n as int),
            out.deep_view() == relevant_rules_spec(rv.subrange(0, q as int), reachable@),
        decreases rest.len(),
    {
        let ghost old_rest = rest.deep_view();
        let ghost old_rest_v = rest@;
        assert(rest@.len() == old_rest.len());
        let r = rest.remove(0);
        proof {
            assert(r == old_rest_v[0]);
            assert(old_rest[0] == old_rest_v[0].deep_view());
            assert(rest.deep_view() =~= old_rest.drop_first());
            assert(rv.subrange(0, q + 1).drop_last() =~= rv.subrange(0, q as int));
            assert(rv.subrange(0, q + 1).last() == r.deep_view());
        }
        let keep = match crate::datalog::stratify::head_pred_of(&r) {
            Some(h) => vec_has(reachable, h),
            None => false,
        };
        if keep {
            let ghost old_out = out.deep_view();
            out.push(r);
            assert(out.deep_view() =~= old_out.push(r.deep_view()));
        }
        q = q + 1;
    }
    assert(rv.subrange(0, n as int) =~= rv);
    out
}

/// The rules of `rv` whose constant head predicate is reached from `g`
/// along the edges `es`, in order.
pub open spec fn rules_reaching(rv: Seq<RuleV<i64>>, es: Seq<crate::datalog::stratify::Edge>, g: i64) -> Seq<
    RuleV<i64>,
>
    decreases rv.len(),
{
    if rv.len() == 0 {
        Seq::empty()
    } else {
        let pre = rules_reaching(rv.drop_last(), es, g);
        match head_pred(rv.last()) {
            Some(h) => if reaches(es, g, h) { pre.push(rv.last()) } else { pre },
            None => pre,
        }
    }
}

/// The rules that can contribute to goal predicate `g`: those whose head
/// predicate `g` depends on, through positive body atoms of the rules.
pub open spec fn goal_rules(rv: Seq<RuleV<i64>>, g: i64) -> Seq<RuleV<i64>> {
    rules_reaching(rv, positive_edges(rv), g)
}

proof fn lemma_relevant_is_reaching(
    rv: Seq<RuleV<i64>>,
    es: Seq<crate::datalog::stratify::Edge>,
    g: i64,
    ps: Seq<i64>,
)
    requires
        forall|x: i64| ps.contains(x) <==> reaches(es, g, x),
    ensures
        relevant_rules_spec(rv, ps) == rules_reaching(rv, es, g),
    decreases rv.len(),
{
    if rv.len() > 0 {
        lemma_relevant_is_reaching(rv.drop_last(), es, g, ps);
    }
}

/// What goal-directed inference does once the active rules are loaded.
#[derive(Debug)]
pub enum MagicRun {
    /// No rule can derive the goal predicate (there may be no rule at all):
    /// inference would add nothing to it, so the stored triples matching the
    /// goal are counted, with nothing derived.
    CountExisting,
    /// Run these rules, the ones that can contribute to the goal.
    Run(Vec<Rule<i64>>),
}

/// Chooses the rules that goal-directed inference runs for goal predicate
/// `goal_pred`, or to count the existing matches when none can derive it.
pub fn plan_magic_run(rules: Vec<Rule<i64>>, goal_pred: i64) -> (r: MagicRun)
    ensures
        goal_rules(rules.deep_view(), goal_pred).len() == 0 ==> r is CountExisting,
        goal_rules(rules.deep_view(), goal_pred).len() > 0 ==> (r matches MagicRun::Run(v) && v.deep_view()
            == goal_rules(rules.deep_view(), goal_pred)),
{
    let ghost rv = rules.deep_view();
    let reachable = find_goal_reachable_preds(rules.as_slice(), goal_pred);
    let relevant = select_relevant_rules(rules, &reachable);
    proof {
        lemma_relevant_is_reaching(rv, positive_edges(rv), goal_pred, reachable@);
    }
    if relevant.len() == 0 {
        MagicRun::CountExisting
    } else {
        MagicRun::Run(relevant)
    }
}

// ─── SQL filters ─────────────────────────────────────────────────────────────

/// `col = id` as SQL text.
pub open spec fn eq_condition(col: Seq<char>, id: i64) -> Seq<char> {
    col + " = "@ + crate::text::int_decimal(id as int)
}

/// The conditions on the bound subject and object of a goal.
pub open spec fn so_conditions(goal_s: Option<i64>, goal_o: Option<i64>) -> Seq<Seq<char>> {
    (match goal_s {
        Some(s) => seq![eq_condition("s"@, s)],
        None => Seq::empty(),
    }) + (match goal_o {
        Some(o) => seq![eq_condition("o"@, o)],
        None => Seq::empty(),
    })
}

/// `s` without all trailing copies of `p`.
pub open spec fn strip_suffix_all(s: Seq<char>, p: Seq<char>) -> Seq<char>
    decreases s.len(),
{
    if p.len() > 0 && crate::text::has_suffix(s, p) {
        strip_suffix_all(s.subrange(0, s.len() - p.len()), p)
    } else {
        s
    }
}

/// `s` contains `p`.
pub open spec fn contains_seq(s: Seq<char>, p: Seq<char>) -> bool {
    first_occurrence(s, p) >= 0
}

/// The seed SQL of a rule deriving the goal predicate, with the goal's bound
/// subject and object added as filters.
pub open spec fn magic_seed_spec(base: Seq<char>, goal_s: Option<i64>, goal_o: Option<i64>) -> Seq<char> {
    let conds = so_conditions(goal_s, goal_o);
    let pos = first_occurrence(base, "SELECT "@);
    if conds.len() == 0 || pos < 0 {
        base
    } else {
        let insert = base.subrange(0, pos);
        let select = base.subrange(pos, base.len() as int);
        let sn = crate::text::trim_end(strip_suffix_all(
            crate::text::trim_end(crate::datalog::parser::strip_trailing(select, '\n')),
            "ON CONFLICT DO NOTHING"@,
        ));
        let joiner = if contains_seq(sn, "WHERE "@) { "\n  AND "@ } else { "\nWHERE "@ };
        insert + sn + joiner + crate::datalog::parser::join_with(conds, " AND "@) + "\nON CONFLICT DO NOTHING"@
    }
}

fn condition(col: &str, id: i64) -> (r: String)
    ensures
        r@ == eq_condition(col@, id),
{
    let mut m = String::from_str(col);
    m.append(" = ");
    crate::text::push_i64_decimal(&mut m, id);
    m
}

fn trim_end_chars(v: &Vec<char>) -> (r: Vec<char>)
    ensures
        r@ == crate::text::trim_end(v@),
        r@.len() <= v@.len(),
{
    let ghost t = v@;
    let mut e = v.len();
    assert(t.subrange(0, e as int) =~= t);
    while e > 0 && crate::text::is_whitespace(v[e - 1])
        invariant
            e <= v@.len(),
            t == v@,
            crate::text::trim_end(t) == crate::text::trim_end(t.subrange(0, e as int)),
        decreases e,
    {
        proof {
            let u = t.subrange(0, e as int);
            assert(u.last() == v@[e - 1]);
            assert(u.drop_last() =~= t.subrange(0, e - 1));
        }
        e = e - 1;
    }
    proof {
        let u = t.subrange(0, e as int);
        if e > 0 {
            assert(u.last() == v@[e - 1]);
        }
    }
    sub_chars(v, 0, e)
}

fn strip_suffix_all_chars(v: &Vec<char>, p: &Vec<char>) -> (r: Vec<char>)
    ensures
        r@ == strip_suffix_all(v@, p@),
        r@.len() <= v@.len(),
{
    let mut cur = sub_chars(v, 0, v.len());
    assert(cur@ =~= v@);
    if p.len() == 0 {
        return cur;
    }
    loop
        invariant
            cur@.len() <= v@.len(),
            p@.len() > 0,
            strip_suffix_all(v@, p@) == strip_suffix_all(cur@, p@),
        decreases cur@.len(),
    {
        if p.len() <= cur.len() && crate::text::tail_equals(&cur, cur.len() - p.len(), p) {
            let nxt = sub_chars(&cur, 0, cur.len() - p.len());
            cur = nxt;
        } else {
            return cur;
        }
    }
}

/// Adds the goal's bound subject and object as filters to the seed SQL
/// `base_sql` of a rule deriving the goal predicate.
pub fn build_magic_filtered_seed_sql(base_sql: &str, goal: &GoalPattern) -> (r: String)
    ensures
        r@ == magic_seed_spec(base_sql@, goal.s, goal.o),
{
    proof {
        reveal_strlit("SELECT ");
    }
    let mut conds: Vec<String> = Vec::new();
    if let Some(s) = goal.s {
        conds.push(condition("s", s));
    }
    if let Some(o) = goal.o {
        conds.push(condition("o", o));
    }
    assert(conds.deep_view() =~= so_conditions(goal.s, goal.o));
    let base = str_chars(base_sql);
    let sel = str_chars("SELECT ");
    let pos = match crate::text::find_first(&base, &sel) {
        Some(p) => p,
        None => {
            return string_from_chars(&base);
        },
    };
    if conds.len() == 0 {
        return string_from_chars(&base);
    }
    let insert = sub_chars(&base, 0, pos);
    let select = sub_chars(&base, pos, base.len());
    let s1 = crate::datalog::parser::strip_trailing_chars(&select, '\n');
    let s2 = trim_end_chars(&s1);
    let tail = str_chars("ON CONFLICT DO NOTHING");
    let s3 = strip_suffix_all_chars(&s2, &tail);
    let sn = trim_end_chars(&s3);
    let wh = str_chars("WHERE ");
    let has_where = crate::text::find_first(&sn, &wh).is_some();
    let mut m = string_from_chars(&insert);
    m.append(string_from_chars(&sn).as_str());
    if has_where {
        m.append("\n  AND ");
    } else {
        m.append("\nWHERE ");
    }
    m.append(crate::datalog::parser::join_strings(&conds, " AND ").as_str());
    m.append("\nON CONFLICT DO NOTHING");
    m
}

/// `WHERE c1 AND c2 …`, or nothing without conditions.
pub open spec fn where_clause(conds: Seq<Seq<char>>) -> Seq<char> {
    if conds.len() == 0 { Seq::empty() } else { "WHERE "@ + crate::datalog::parser::join_with(conds, " AND "@) }
}

/// The conditions of a goal on the predicate (when `with_p`), subject and object.
pub open spec fn goal_conditions(goal_s: Option<i64>, goal_p: Option<i64>, goal_o: Option<i64>, with_p: bool) -> Seq<Seq<char>> {
    (match goal_p {
        Some(p) => if with_p { seq![eq_condition("p"@, p)] } else { Seq::empty() },
        None => Seq::empty(),
    }) + so_conditions(goal_s, goal_o)
}

/// The `WHERE` clause that counts the triples matching a goal: on the
/// predicate too when `with_p` (the shared table), else on subject and
/// object only (a predicate's own table).
pub fn goal_where_clause(goal: &GoalPattern, with_p: bool) -> (r: String)
    ensures
        r@ == where_clause(goal_conditions(goal.s, goal.p, goal.o, with_p)),
{
    let mut conds: Vec<String> = Vec::new();
    if with_p {
        if let Some(p) = goal.p {
            conds.push(condition("p", p));
        }
    }
    if let Some(s) = goal.s {
        conds.push(condition("s", s));
    }
    if let Some(o) = goal.o {
        conds.push(condition("o", o));
    }
    assert(conds.deep_view() =~= goal_conditions(goal.s, goal.p, goal.o, with_p));
    if conds.len() == 0 {
        return String::new();
    }
    let mut m = String::from_str("WHERE ");
    m.append(crate::datalog::parser::join_strings(&conds, " AND ").as_str());
    m
}

// ─── Counting a goal's answers ───────────────────────────────────────────────

/// The queries whose counts add up to the goal's answers: over `vp_rare` with
/// every bound position, preceded, for a bound predicate with a dedicated
/// table, by the count of that table with the bound subject and object.
pub open spec fn goal_count_queries_spec(g: GoalPattern, has_dedicated: bool) -> Seq<Seq<char>> {
    let rare = "SELECT count(*) FROM _pg_ripple.vp_rare "@ + where_clause(goal_conditions(g.s, g.p, g.o, true));
    match g.p {
        Some(p) => if has_dedicated {
            seq![
                "SELECT count(*) FROM _pg_ripple.vp_"@ + int_decimal(p as int) + " "@ + where_clause(
                    goal_conditions(g.s, g.p, g.o, false),
                ),
                rare,
            ]
        } else {
            seq![rare]
        },
        None => seq![rare],
    }
}

/// The count queries of a goal pattern, given whether its bound predicate
/// has a dedicated table.
pub fn goal_count_queries(goal: &GoalPattern, has_dedicated: bool) -> (r: Vec<String>)
    ensures
        r.deep_view() == goal_count_queries_spec(*goal, has_dedicated),
{
    let mut rare = String::new();
    rare.append("SELECT count(*) FROM _pg_ripple.vp_rare ");
    rare.append(goal_where_clause(goal, true).as_str());
    let mut out: Vec<String> = Vec::new();
    match goal.p {
        Some(p) => {
            if has_dedicated {
                let mut q = String::new();
                q.append("SELECT count(*) FROM _pg_ripple.vp_");
                q.append(i64_to_string(p).as_str());
                q.append(" ");
                q.append(goal_where_clause(goal, false).as_str());
                out.push(q);
            }
        },
        None => {},
    }
    out.push(rare);
    assert(out.deep_view() =~= goal_count_queries_spec(*goal, has_dedicated));
    out
}

// ─── Checking a goal's predicate ─────────────────────────────────────────────

/// How an unknown goal predicate is reported.
#[derive(Debug, Clone, Copy, PartialEq, Eq, Structural)]
pub enum GoalValidation {
    Off,
    Warn,
    Error,
}

/// The mode named by the setting's text, matched without regard to ASCII
/// case: `off`, `error`, and anything else (an unset setting too) `warn`.
pub open spec fn goal_validation_spec(setting: Option<Seq<char>>) -> GoalValidation {
    match setting {
        Some(t) => if ci_equals(t, "OFF"@) {
            GoalValidation::Off
        } else if ci_equals(t, "ERROR"@) {
            GoalValidation::Error
        } else {
            GoalValidation::Warn
        },
        None => GoalValidation::Warn,
    }
}

/// The reporting mode that the setting's text selects.
pub fn goal_validation_mode(setting: Option<&str>) -> (r: GoalValidation)
    ensures
        r == goal_validation_spec(
            match setting {
                Some(t) => Some(t@),
                None => None,
            },
        ),
{
    match setting {
        Some(t) => {
            let v = str_chars(t);
            if name_is(&v, "OFF") {
                GoalValidation::Off
            } else if name_is(&v, "ERROR") {
                GoalValidation::Error
            } else {
                GoalValidation::Warn
            }
        },
        None => GoalValidation::Warn,
    }
}

/// The hint that ends the message: the rule set's derived predicates, or
/// that it has none, or that no rule set was given.
pub open spec fn goal_hint_spec(rule_set: Option<Seq<char>>, available: Seq<Seq<char>>) -> Seq<char> {
    match rule_set {
        Some(rs) => if available.len() == 0 {
            "hint: rule set '"@ + rs + "' has no active derived predicates"@
        } else {
            "hint: derived predicates in rule set '"@ + rs + "': "@ + join_with(available, ", "@)
        },
        None => "hint: no rule set specified; check the goal predicate spelling"@,
    }
}

/// The report of a goal predicate that no rule derives and that is not a
/// base predicate.
pub open spec fn unknown_goal_message_spec(
    pred_iri: Seq<char>,
    rule_set: Option<Seq<char>>,
    available: Seq<Seq<char>>,
) -> Seq<char> {
    "goal predicate "@ + pred_iri + " is not derived by any rule in rule set '"@ + (match rule_set {
        Some(rs) => rs,
        None => "<none>"@,
    }) + "' and does not exist as a base predicate — the result will always be empty; "@ + goal_hint_spec(
        rule_set,
        available,
    )
}

/// The report for an unknown goal predicate `pred_iri` (its decoded text),
/// with the derived predicates of the rule set (decoded, at most twenty).
pub fn unknown_goal_message(pred_iri: &str, rule_set: Option<&str>, available: &Vec<String>) -> (r: String)
    ensures
        r@ == unknown_goal_message_spec(
            pred_iri@,
            match rule_set {
                Some(t) => Some(t@),
                None => None,
            },
            available.deep_view(),
        ),
{
    let mut m = String::new();
    m.append("goal predicate ");
    m.append(pred_iri);
    m.append(" is not derived by any rule in rule set '");
    match rule_set {
        Some(rs) => m.append(rs),
        None => m.append("<none>"),
    }
    m.append("' and does not exist as a base predicate — the result will always be empty; ");
    match rule_set {
        Some(rs) => {
            if available.len() == 0 {
                m.append("hint: rule set '");
                m.append(rs);
                m.append("' has no active derived predicates");
            } else {
                m.append("hint: derived predicates in rule set '");
                m.append(rs);
                m.append("': ");
                m.append(join_strings(available, ", ").as_str());
            }
        },
        None => m.append("hint: no rule set specified; check the goal predicate spelling"),
    }
    m
}

// ─── The magic table and the goal-directed seed ──────────────────────────────

/// Each character of `s` kept if alphanumeric or `_`, else replaced by `_`.
pub open spec fn sanitize_name(s: Seq<char>) -> Seq<char> {
    Seq::new(s.len(), |i: int| if is_alnum(s[i]) || s[i] == '_' { s[i] } else { '_' })
}

/// The temporary table of the goal's demanded bindings:
/// `_magic_<rule set>_<goal predicate>` with any character other than a
/// letter, digit or `_` made `_`.
pub open spec fn magic_table_spec(rule_set: Seq<char>, goal_pred: i64) -> Seq<char> {
    sanitize_name("_magic_"@ + rule_set + "_"@ + int_decimal(goal_pred as int))
}

/// The name of the magic table of a goal.
pub fn magic_table_name(rule_set: &str, goal_pred: i64) -> (r: String)
    ensures
        r@ == magic_table_spec(rule_set@, goal_pred),
{
    let mut raw = String::new();
    raw.append("_magic_");
    raw.append(rule_set);
    raw.append("_");
    raw.append(i64_to_string(goal_pred).as_str());
    let v = str_chars(raw.as_str());
    let mut out: Vec<char> = Vec::new();
    let mut i: usize = 0;
    while i < v.len()
        invariant
            i <= v@.len(),
            v@ == raw@,
            out@ == sanitize_name(v@).subrange(0, i as int),
        decreases v.len() - i,
    {
        let c = v[i];
        let k = if char_is_alphanumeric(c) || c == '_' {
            c
        } else {
            '_'
        };
        out.push(k);
        assert(sanitize_name(v@).subrange(0, i as int + 1) =~= sanitize_name(v@).subrange(0, i as int).push(k));
        i = i + 1;
    }
    assert(sanitize_name(v@).subrange(0, v@.len() as int) =~= sanitize_name(v@));
    string_from_chars(&out)
}

/// `NULL` for a free position, else the ID.
pub open spec fn sql_value(v: Option<i64>) -> Seq<char> {
    match v {
        Some(id) => int_decimal(id as int),
        None => "NULL"@,
    }
}

/// The statements that create the magic table and record the goal's
/// demanded binding in it.
pub open spec fn magic_table_setup_spec(tbl: Seq<char>, goal: GoalPattern) -> Seq<Seq<char>> {
    seq![
        "DROP TABLE IF EXISTS "@ + tbl,
        "CREATE TEMP TABLE "@ + tbl + " (s BIGINT, o BIGINT, UNIQUE (s, o))"@,
        "INSERT INTO "@ + tbl + " (s, o) VALUES ("@ + sql_value(goal.s) + ", "@ + sql_value(goal.o)
            + ") ON CONFLICT DO NOTHING"@,
    ]
}

fn push_sql_value(m: &mut String, v: Option<i64>)
    ensures
        final(m)@ == old(m)@ + sql_value(v),
{
    match v {
        Some(id) => m.append(i64_to_string(id).as_str()),
        None => m.append("NULL"),
    }
}

/// Creates the magic table `tbl` and seeds it with the goal's binding.
pub fn magic_table_setup_sql(tbl: &str, goal: &GoalPattern) -> (r: Vec<String>)
    ensures
        r.deep_view() == magic_table_setup_spec(tbl@, *goal),
{
    let mut drop = String::new();
    drop.append("DROP TABLE IF EXISTS ");
    drop.append(tbl);
    let mut create = String::new();
    create.append("CREATE TEMP TABLE ");
    create.append(tbl);
    create.append(" (s BIGINT, o BIGINT, UNIQUE (s, o))");
    let mut ins = String::new();
    ins.append("INSERT INTO ");
    ins.append(tbl);
    ins.append(" (s, o) VALUES (");
    push_sql_value(&mut ins, goal.s);
    ins.append(", ");
    push_sql_value(&mut ins, goal.o);
    ins.append(") ON CONFLICT DO NOTHING");
    let mut v: Vec<String> = Vec::new();
    v.push(drop);
    v.push(create);
    v.push(ins);
    assert(v.deep_view() =~= magic_table_setup_spec(tbl@, *goal));
    v
}

/// The seed statement of a rule deriving the goal predicate: its statement
/// into `target` restricted to the goal's bound subject and object, or, when
/// the rule does not compile, the compile error and a statement that inserts
/// nothing.
pub open spec fn goal_seed_spec(r: RuleV<i64>, target: Seq<char>, goal: GoalPattern, env: CompileEnv) -> (
    Seq<char>,
    Option<Seq<char>>,
) {
    match single_rule_sql(r, target, env) {
        Ok(s) => (magic_seed_spec(s, goal.s, goal.o), None),
        Err(e) => (
            "INSERT INTO "@ + target + " (s, o, g) SELECT NULL, NULL, 0 WHERE FALSE"@,
            Some(e),
        ),
    }
}

/// Compiles the goal-directed seed of a rule that derives the goal
/// predicate; the compile error, if any, comes back beside the statement.
pub fn goal_seed_statement(rule: &Rule<i64>, target: &str, goal: &GoalPattern, env: &CompileEnv) -> (r: (
    String,
    Option<String>,
))
    ensures
        r.0@ == goal_seed_spec(rule.deep_view(), target@, *goal, *env).0,
        match goal_seed_spec(rule.deep_view(), target@, *goal, *env).1 {
            Some(e) => r.1 matches Some(m) && m@ == e,
            None => r.1 is None,
        },
{
    match compile_single_rule_to(rule, target, env) {
        Ok(s) => (build_magic_filtered_seed_sql(s.as_str(), goal), None),
        Err(e) => {
            let mut m = String::new();
            m.append("INSERT INTO ");
            m.append(target);
            m.append(" (s, o, g) SELECT NULL, NULL, 0 WHERE FALSE");
            (m, Some(e))
        },
    }
}

} // verus!
