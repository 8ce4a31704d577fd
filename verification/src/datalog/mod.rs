//! Datalog rule IR.
//!
//! Rules are `head :- body .` over RDF triple patterns.  The IR is generic in
//! the representation of constants: the parser produces constants as
//! [`ConstText`] (their text, not yet looked up in the dictionary), and the
//! catalog layer turns each into a dictionary ID (`i64`), the form that
//! stratification, rewriting and SQL generation work on.

pub mod cache;
pub mod catalog;
pub mod compiler;
pub mod conflict;
pub mod demand;
pub mod derivations;
pub mod explain;
pub mod lattice;
pub mod magic;
pub mod parser;
pub mod predvar;
pub mod rewrite;
pub mod seminaive;
pub mod stratify;
pub mod tabling;

use vstd::prelude::*;

verus! {

/// A Datalog term: variable, constant, wildcard, or the default-graph sentinel.
#[derive(Debug)]
pub enum Term<C> {
    /// Variable `?x`, unified across the atoms of a rule.
    Var(String),
    /// Constant (dictionary-encoded IRI or literal once resolved).
    Const(C),
    /// Wildcard `?_`: matches anything, binds nothing.
    Wildcard,
    /// Default graph sentinel (unscoped atom).
    DefaultGraph,
}

/// A triple pattern in a rule body or head.
#[derive(Debug)]
pub struct Atom<C> {
    pub s: Term<C>,
    pub p: Term<C>,
    pub o: Term<C>,
    /// Graph dimension: `DefaultGraph` when no `GRAPH` clause is present.
    pub g: Term<C>,
}

/// Aggregate function kinds.
#[derive(Clone, Copy, PartialEq, Eq, Structural, Debug)]
pub enum AggFunc {
    Count,
    Sum,
    Min,
    Max,
    Avg,
}

/// An aggregate literal: `COUNT(?aggVar WHERE s p o) = ?resultVar`.
#[derive(Debug)]
pub struct AggregateLiteral<C> {
    pub func: AggFunc,
    pub agg_var: String,
    pub atom: Atom<C>,
    pub result_var: String,
}

/// Comparison operators.
#[derive(Clone, Copy, PartialEq, Eq, Structural, Debug)]
pub enum CompareOp {
    Gt,
    Gte,
    Lt,
    Lte,
    Eq,
    Neq,
}

/// Arithmetic operators.
#[derive(Clone, Copy, PartialEq, Eq, Structural, Debug)]
pub enum ArithOp {
    Add,
    Sub,
    Mul,
    Div,
}

/// String built-ins.
#[derive(Debug)]
pub enum StringBuiltin<C> {
    /// `STRLEN(?s) OP ?n`
    Strlen(Term<C>, CompareOp, Term<C>),
    /// `REGEX(?s, "pattern")`
    Regex(Term<C>, String),
    /// `pg:trigram_similarity(?a, ?b) OP ?t`
    TrigramSimilarity(Term<C>, Term<C>, CompareOp, Term<C>),
    /// `pg:levenshtein(?a, ?b) OP ?t`
    Levenshtein(Term<C>, Term<C>, CompareOp, Term<C>),
    /// `pg:soundex(?a) OP ?b`
    Soundex(Term<C>, CompareOp, Term<C>),
    /// `pg:metaphone(?s, n) OP ?code`
    Metaphone(Term<C>, i64, CompareOp, Term<C>),
    /// `pg:jaro_winkler(?a, ?b) OP ?t`
    JaroWinkler(Term<C>, Term<C>, CompareOp, Term<C>),
    /// `pg:dice_similarity(?a, ?b) OP ?t`
    DiceSimilarity(Term<C>, Term<C>, CompareOp, Term<C>),
}

/// Temporal filter literals (their arguments are kept as text).
#[derive(Debug)]
pub enum TemporalFilter {
    After(String),
    Before(String),
    During(String, String),
    Within(String),
    Sequence(String, String, String, String, String, String, String),
    Consecutive(i64, String, String),
    AllenBefore(String, String, String, String),
    AllenMeets(String, String, String, String),
    AllenOverlaps(String, String, String, String),
    AllenDuring(String, String, String, String),
    AllenFinishes(String, String, String, String),
    AllenStarts(String, String, String, String),
    AllenEquals(String, String, String, String),
}

/// A body literal.
#[derive(Debug)]
pub enum BodyLiteral<C> {
    Positive(Atom<C>),
    Negated(Atom<C>),
    /// `?a OP ?b`
    Compare(Term<C>, CompareOp, Term<C>),
    StringBuiltin(StringBuiltin<C>),
    /// `?z IS ?x OP ?y`
    Assign(String, Term<C>, ArithOp, Term<C>),
    Aggregate(AggregateLiteral<C>),
    TemporalFilter(TemporalFilter),
}

/// A Datalog rule; constraint rules (`:- body .`) have no head.
#[derive(Debug)]
pub struct Rule<C> {
    pub head: Option<Atom<C>>,
    pub body: Vec<BodyLiteral<C>>,
    /// The rule's text (for catalog storage), ending in ` .`.
    pub rule_text: String,
    /// The text inside an `@weight(...)` annotation, when present; the catalog
    /// layer reads it as a probability in `[0, 1]`.
    pub weight: Option<String>,
}

/// A named collection of rules.
#[derive(Debug)]
pub struct RuleSet<C> {
    pub name: String,
    pub rules: Vec<Rule<C>>,
}

/// A constant as written in rule text, before dictionary lookup.
#[derive(Debug)]
pub enum ConstText {
    /// `<iri>`: the IRI between the angle brackets.
    Iri(String),
    /// `prefix:local`, or another bare name with a colon: expanded through the
    /// prefix registry, then encoded as an IRI.
    Prefixed(String),
    /// `"value"^^datatype`: the unescaped value and the datatype text, which
    /// is expanded through the prefix registry.
    Typed(String, String),
    /// `"value"@lang`
    Lang(String, String),
    /// `"value"`
    Plain(String),
    /// `_:label`
    Blank(String),
    /// A bare number with its XSD datatype IRI (`integer` or `decimal`).
    Number(String, String),
}


// ─── Mathematical views ──────────────────────────────────────────────────────

/// View of a [`Term`].
pub enum TermV<V> {
    Var(Seq<char>),
    Const(V),
    Wildcard,
    DefaultGraph,
}

/// View of an [`Atom`].
pub struct AtomV<V> {
    pub s: TermV<V>,
    pub p: TermV<V>,
    pub o: TermV<V>,
    pub g: TermV<V>,
}

/// View of an [`AggregateLiteral`].
pub struct AggregateV<V> {
    pub func: AggFunc,
    pub agg_var: Seq<char>,
    pub atom: AtomV<V>,
    pub result_var: Seq<char>,
}

/// View of a [`StringBuiltin`].
pub enum BuiltinV<V> {
    Strlen(TermV<V>, CompareOp, TermV<V>),
    Regex(TermV<V>, Seq<char>),
    TrigramSimilarity(TermV<V>, TermV<V>, CompareOp, TermV<V>),
    Levenshtein(TermV<V>, TermV<V>, CompareOp, TermV<V>),
    Soundex(TermV<V>, CompareOp, TermV<V>),
    Metaphone(TermV<V>, i64, CompareOp, TermV<V>),
    JaroWinkler(TermV<V>, TermV<V>, CompareOp, TermV<V>),
    DiceSimilarity(TermV<V>, TermV<V>, CompareOp, TermV<V>),
}

/// View of a [`TemporalFilter`].
pub enum TemporalV {
    After(Seq<char>),
    Before(Seq<char>),
    During(Seq<char>, Seq<char>),
    Within(Seq<char>),
    Sequence(Seq<char>, Seq<char>, Seq<char>, Seq<char>, Seq<char>, Seq<char>, Seq<char>),
    Consecutive(i64, Seq<char>, Seq<char>),
    AllenBefore(Seq<char>, Seq<char>, Seq<char>, Seq<char>),
    AllenMeets(Seq<char>, Seq<char>, Seq<char>, Seq<char>),
    AllenOverlaps(Seq<char>, Seq<char>, Seq<char>, Seq<char>),
    AllenDuring(Seq<char>, Seq<char>, Seq<char>, Seq<char>),
    AllenFinishes(Seq<char>, Seq<char>, Seq<char>, Seq<char>),
    AllenStarts(Seq<char>, Seq<char>, Seq<char>, Seq<char>),
    AllenEquals(Seq<char>, Seq<char>, Seq<char>, Seq<char>),
}

/// View of a [`BodyLiteral`].
pub enum LiteralV<V> {
    Positive(AtomV<V>),
    Negated(AtomV<V>),
    Compare(TermV<V>, CompareOp, TermV<V>),
    StringBuiltin(BuiltinV<V>),
    Assign(Seq<char>, TermV<V>, ArithOp, TermV<V>),
    Aggregate(AggregateV<V>),
    TemporalFilter(TemporalV),
}

/// View of a [`Rule`].
pub struct RuleV<V> {
    pub head: Option<AtomV<V>>,
    pub body: Seq<LiteralV<V>>,
    pub rule_text: Seq<char>,
    pub weight: Option<Seq<char>>,
}

/// View of a [`ConstText`].
pub enum ConstV {
    Iri(Seq<char>),
    Prefixed(Seq<char>),
    Typed(Seq<char>, Seq<char>),
    Lang(Seq<char>, Seq<char>),
    Plain(Seq<char>),
    Blank(Seq<char>),
    Number(Seq<char>, Seq<char>),
}

impl<C: DeepView> DeepView for Term<C> {
    type V = TermV<C::V>;

    open spec fn deep_view(&self) -> TermV<C::V> {
        match self {
            Term::Var(n) => TermV::Var(n@),
            Term::Const(c) => TermV::Const(c.deep_view()),
            Term::Wildcard => TermV::Wildcard,
            Term::DefaultGraph => TermV::DefaultGraph,
        }
    }
}

impl<C: DeepView> DeepView for Atom<C> {
    type V = AtomV<C::V>;

    open spec fn deep_view(&self) -> AtomV<C::V> {
        AtomV {
            s: self.s.deep_view(),
            p: self.p.deep_view(),
            o: self.o.deep_view(),
            g: self.g.deep_view(),
        }
    }
}

impl<C: DeepView> DeepView for AggregateLiteral<C> {
    type V = AggregateV<C::V>;

    open spec fn deep_view(&self) -> AggregateV<C::V> {
        AggregateV {
            func: self.func,
            agg_var: self.agg_var@,
            atom: self.atom.deep_view(),
            result_var: self.result_var@,
        }
    }
}

impl<C: DeepView> DeepView for StringBuiltin<C> {
    type V = BuiltinV<C::V>;

    open spec fn deep_view(&self) -> BuiltinV<C::V> {
        match self {
            StringBuiltin::Strlen(a, op, b) => BuiltinV::Strlen(a.deep_view(), *op, b.deep_view()),
            StringBuiltin::Regex(a, p) => BuiltinV::Regex(a.deep_view(), p@),
            StringBuiltin::TrigramSimilarity(a, b, op, r) => BuiltinV::TrigramSimilarity(
                a.deep_view(),
                b.deep_view(),
                *op,
                r.deep_view(),
            ),
            StringBuiltin::Levenshtein(a, b, op, r) => BuiltinV::Levenshtein(
                a.deep_view(),
                b.deep_view(),
                *op,
                r.deep_view(),
            ),
            StringBuiltin::Soundex(a, op, r) => BuiltinV::Soundex(a.deep_view(), *op, r.deep_view()),
            StringBuiltin::Metaphone(a, n, op, r) => BuiltinV::Metaphone(
                a.deep_view(),
                *n,
                *op,
                r.deep_view(),
            ),
            StringBuiltin::JaroWinkler(a, b, op, r) => BuiltinV::JaroWinkler(
                a.deep_view(),
                b.deep_view(),
                *op,
                r.deep_view(),
            ),
            StringBuiltin::DiceSimilarity(a, b, op, r) => BuiltinV::DiceSimilarity(
                a.deep_view(),
                b.deep_view(),
                *op,
                r.deep_view(),
            ),
        }
    }
}

impl DeepView for TemporalFilter {
    type V = TemporalV;

    open spec fn deep_view(&self) -> TemporalV {
        match self {
            TemporalFilter::After(a) => TemporalV::After(a@),
            TemporalFilter::Before(a) => TemporalV::Before(a@),
            TemporalFilter::During(a, b) => TemporalV::During(a@, b@),
            TemporalFilter::Within(a) => TemporalV::Within(a@),
            TemporalFilter::Sequence(a, b, c, d, e, f, g) => TemporalV::Sequence(
                a@,
                b@,
                c@,
                d@,
                e@,
                f@,
                g@,
            ),
            TemporalFilter::Consecutive(n, a, b) => TemporalV::Consecutive(*n, a@, b@),
            TemporalFilter::AllenBefore(a, b, c, d) => TemporalV::AllenBefore(a@, b@, c@, d@),
            TemporalFilter::AllenMeets(a, b, c, d) => TemporalV::AllenMeets(a@, b@, c@, d@),
            TemporalFilter::AllenOverlaps(a, b, c, d) => TemporalV::AllenOverlaps(a@, b@, c@, d@),
            TemporalFilter::AllenDuring(a, b, c, d) => TemporalV::AllenDuring(a@, b@, c@, d@),
            TemporalFilter::AllenFinishes(a, b, c, d) => TemporalV::AllenFinishes(a@, b@, c@, d@),
            TemporalFilter::AllenStarts(a, b, c, d) => TemporalV::AllenStarts(a@, b@, c@, d@),
            TemporalFilter::AllenEquals(a, b, c, d) => TemporalV::AllenEquals(a@, b@, c@, d@),
        }
    }
}

impl<C: DeepView> DeepView for BodyLiteral<C> {
    type V = LiteralV<C::V>;

    open spec fn deep_view(&self) -> LiteralV<C::V> {
        match self {
            BodyLiteral::Positive(a) => LiteralV::Positive(a.deep_view()),
            BodyLiteral::Negated(a) => LiteralV::Negated(a.deep_view()),
            BodyLiteral::Compare(a, op, b) => LiteralV::Compare(a.deep_view(), *op, b.deep_view()),
            BodyLiteral::StringBuiltin(b) => LiteralV::StringBuiltin(b.deep_view()),
            BodyLiteral::Assign(v, a, op, b) => LiteralV::Assign(
                v@,
                a.deep_view(),
                *op,
                b.deep_view(),
            ),
            BodyLiteral::Aggregate(a) => LiteralV::Aggregate(a.deep_view()),
            BodyLiteral::TemporalFilter(t) => LiteralV::TemporalFilter(t.deep_view()),
        }
    }
}

impl<C: DeepView> DeepView for Rule<C> {
    type V = RuleV<C::V>;

    open spec fn deep_view(&self) -> RuleV<C::V> {
        RuleV {
            head: match &self.head {
                Some(h) => Some(h.deep_view()),
                None => None,
            },
            body: self.body.deep_view(),
            rule_text: self.rule_text@,
            weight: match &self.weight {
                Some(w) => Some(w@),
                None => None,
            },
        }
    }
}

/// View of a [`RuleSet`].
pub struct RuleSetV<V> {
    pub name: Seq<char>,
    pub rules: Seq<RuleV<V>>,
}

impl<C: DeepView> DeepView for RuleSet<C> {
    type V = RuleSetV<C::V>;

    open spec fn deep_view(&self) -> RuleSetV<C::V> {
        RuleSetV { name: self.name@, rules: self.rules.deep_view() }
    }
}

impl DeepView for ConstText {
    type V = ConstV;

    open spec fn deep_view(&self) -> ConstV {
        match self {
            ConstText::Iri(a) => ConstV::Iri(a@),
            ConstText::Prefixed(a) => ConstV::Prefixed(a@),
            ConstText::Typed(a, b) => ConstV::Typed(a@, b@),
            ConstText::Lang(a, b) => ConstV::Lang(a@, b@),
            ConstText::Plain(a) => ConstV::Plain(a@),
            ConstText::Blank(a) => ConstV::Blank(a@),
            ConstText::Number(a, b) => ConstV::Number(a@, b@),
        }
    }
}

} // verus!
