//! Datalog rule parser: Turtle-flavoured Datalog syntax.
//!
//! ```text
//! RuleSet       ::= (Rule | Comment)*
//! Rule          ::= Head ':-' Body '.' | ':-' Body '.'
//! Head          ::= [GraphPattern] TriplePattern
//! Body          ::= Literal (',' Literal)*
//! Literal       ::= 'NOT'? [GraphPattern] TriplePattern
//!                 | CompareExpr | AssignExpr | StringBuiltin | Aggregate | TemporalFilter
//! GraphPattern  ::= 'GRAPH' GraphTerm '{' TriplePattern '}'
//! TriplePattern ::= Term Term Term
//! Term          ::= Variable | PrefixedIRI | FullIRI | RDFLiteral | Number | BlankNode
//! ```
//!
//! Each scanner below is specified as a left-to-right run over the input
//! characters (`*_from` spec functions: the result of scanning from position
//! `i` with a given state); the executable scanners keep the invariant that
//! finishing from the current state gives the same result as the whole run.
//! Keyword matching (`NOT`, `GRAPH`, `AFTER(`, `COUNT(`, `IS`, …) ignores
//! ASCII case.

use vstd::prelude::*;
use crate::dictionary::{escape_spec, escape_char};
use crate::datalog::{
    AggFunc, AggregateLiteral, ArithOp, Atom, AtomV, BodyLiteral, CompareOp, ConstText, ConstV,
    LiteralV, Rule, RuleSet, RuleSetV, RuleV, StringBuiltin, TemporalFilter, Term, TermV,
};
use crate::text::{
    ascii_upper, ci_prefix, ci_starts_with, contains_char, first_index,
    find_char, has_prefix, is_digit, parse_i64, parse_i64_spec,
    push_i64_decimal, push_u64_digits, int_decimal, replace_all, replace_chars, starts_with, starts_with_str,
    str_chars, string_from_chars, sub_chars, trim, trim_bounds, trim_start, trimmed_start,
    last_occurrence, rfind_chars, lemma_trim_idempotent,
};

verus! {

/// Appends a string to a vector of strings.
pub fn push_string(v: &mut Vec<String>, s: String)
    ensures
        final(v).deep_view() == old(v).deep_view().push(s@),
{
    let ghost old_dv = v.deep_view();
    v.push(s);
    assert(v.deep_view() =~= old_dv.push(s@));
}

/// The trimmed characters of `v`.
pub fn trimmed(v: &Vec<char>) -> (r: Vec<char>)
    ensures
        r@ == trim(v@),
        r@.len() <= v@.len(),
{
    let (a, b) = trim_bounds(v, 0, v.len());
    assert(v@.subrange(0, v@.len() as int) =~= v@);
    sub_chars(v, a, b)
}

// ─── Rule tokenizer: split on rule-ending '.' ────────────────────────────────

/// The rule texts found scanning `s` from position `i`, given the texts found
/// so far, the current text, and whether the scan is inside a literal, an IRI
/// or a `#` comment.
pub open spec fn rules_from(
    s: Seq<char>,
    i: int,
    rules: Seq<Seq<char>>,
    cur: Seq<char>,
    lit: bool,
    iri: bool,
    com: bool,
) -> Seq<Seq<char>>
    decreases s.len() - i,
{
    if i < 0 || i >= s.len() {
        if trim(cur).len() > 0 { rules.push(trim(cur)) } else { rules }
    } else {
        let c = s[i];
        if com {
            if c == '\n' {
                rules_from(s, i + 1, rules, cur.push(c), lit, iri, false)
            } else {
                rules_from(s, i + 1, rules, cur, lit, iri, true)
            }
        } else if c == '"' && !iri {
            rules_from(s, i + 1, rules, cur.push(c), !lit, iri, false)
        } else if c == '<' && !lit {
            rules_from(s, i + 1, rules, cur.push(c), lit, true, false)
        } else if c == '>' && !lit && iri {
            rules_from(s, i + 1, rules, cur.push(c), lit, false, false)
        } else if c == '.' && !lit && !iri {
            let t = trim(cur);
            rules_from(
                s,
                i + 1,
                if t.len() > 0 { rules.push(t) } else { rules },
                Seq::empty(),
                lit,
                iri,
                false,
            )
        } else if c == '#' && !lit && !iri {
            rules_from(s, i + 1, rules, cur, lit, iri, true)
        } else {
            rules_from(s, i + 1, rules, cur.push(c), lit, iri, false)
        }
    }
}

/// The rule texts of `s`: split on `.` outside literals and IRIs, with `#`
/// comments (to end of line) dropped, each trimmed, empty ones left out.
pub open spec fn tokenize_rules_spec(s: Seq<char>) -> Seq<Seq<char>> {
    rules_from(s, 0, Seq::empty(), Seq::empty(), false, false, false)
}

/// Splits rule text into individual rule strings (without the trailing `.`).
pub fn tokenize_rules(text: &str) -> (r: Vec<String>)
    ensures
        r.deep_view() == tokenize_rules_spec(text@),
        forall|k: int| 0 <= k < r.deep_view().len() ==> #[trigger] r.deep_view()[k].len() <= text@.len(),
{
    let s = str_chars(text);
    let mut rules: Vec<String> = Vec::new();
    let mut cur: Vec<char> = Vec::new();
    let mut lit = false;
    let mut iri = false;
    let mut com = false;
    let mut i: usize = 0;
    assert(rules.deep_view() =~= Seq::<Seq<char>>::empty());
    assert(cur@ =~= Seq::<char>::empty());
    while i < s.len()
        invariant
            s@ == text@,
            i <= s@.len(),
            tokenize_rules_spec(text@) == rules_from(s@, i as int, rules.deep_view(), cur@, lit, iri, com),
            cur@.len() <= i,
            forall|k: int| 0 <= k < rules.deep_view().len() ==> #[trigger] rules.deep_view()[k].len() <= i,
        decreases s.len() - i,
    {
        let c = s[i];
        if com {
            if c == '\n' {
                cur.push(c);
                com = false;
            }
        } else if c == '"' && !iri {
            cur.push(c);
            lit = !lit;
        } else if c == '<' && !lit {
            cur.push(c);
            iri = true;
        } else if c == '>' && !lit && iri {
            cur.push(c);
            iri = false;
        } else if c == '.' && !lit && !iri {
            let t = trimmed(&cur);
            if t.len() > 0 {
                push_string(&mut rules, string_from_chars(&t));
            }
            cur = Vec::new();
            assert(cur@ =~= Seq::<char>::empty());
        } else if c == '#' && !lit && !iri {
            com = true;
        } else {
            cur.push(c);
        }
        i = i + 1;
    }
    let t = trimmed(&cur);
    if t.len() > 0 {
        push_string(&mut rules, string_from_chars(&t));
    }
    rules
}


/// Appends a character vector to a vector of them.
pub fn push_chars(v: &mut Vec<Vec<char>>, c: Vec<char>)
    ensures
        final(v).deep_view() == old(v).deep_view().push(c@),
        final(v)@ == old(v)@.push(c),
{
    let ghost old_dv = v.deep_view();
    let ghost cv = c@;
    v.push(c);
    assert(v@[v@.len() - 1].deep_view() =~= cv);
    assert(v.deep_view() =~= old_dv.push(cv));
}

/// The strings holding the character vectors of `v`.
pub fn strings_of(v: &Vec<Vec<char>>) -> (r: Vec<String>)
    ensures
        r.deep_view() == v.deep_view(),
{
    let mut r: Vec<String> = Vec::new();
    let mut i: usize = 0;
    while i < v.len()
        invariant
            i <= v@.len(),
            r.deep_view() == v.deep_view().subrange(0, i as int),
        decreases v.len() - i,
    {
        let ghost dv = v.deep_view();
        let s = string_from_chars(&v[i]);
        assert(s@ =~= v@[i as int].deep_view());
        push_string(&mut r, s);
        i = i + 1;
        assert(r.deep_view() =~= dv.subrange(0, i as int));
    }
    assert(v.deep_view().subrange(0, v@.len() as int) =~= v.deep_view());
    r
}

// ─── Neck (":-") finder ──────────────────────────────────────────────────────

/// The position of the `:` of the first `:-` outside literals and IRIs,
/// scanning `s` from `i` in the given state.
pub open spec fn neck_from(s: Seq<char>, i: int, lit: bool, iri: bool) -> Option<int>
    decreases s.len() - i,
{
    if i < 0 || i >= s.len() {
        None
    } else {
        let c = s[i];
        if c == '"' {
            neck_from(s, i + 1, !lit, iri)
        } else if c == '<' && !lit {
            neck_from(s, i + 1, lit, true)
        } else if c == '>' && !lit {
            neck_from(s, i + 1, lit, false)
        } else if c == '-' && !lit && !iri && i > 0 && s[i - 1] == ':' {
            Some(i - 1)
        } else {
            neck_from(s, i + 1, lit, iri)
        }
    }
}

/// The character position of the rule's `:-`, if any.
pub open spec fn find_neck_spec(s: Seq<char>) -> Option<int> {
    neck_from(s, 0, false, false)
}

/// The character position of the `:-` separating head and body.
pub fn find_neck_chars(s: &Vec<char>) -> (r: Option<usize>)
    ensures
        match r {
            Some(p) => find_neck_spec(s@) == Some(p as int) && p + 2 <= s@.len(),
            None => find_neck_spec(s@) is None,
        },
{
    let mut lit = false;
    let mut iri = false;
    let mut i: usize = 0;
    while i < s.len()
        invariant
            i <= s@.len(),
            find_neck_spec(s@) == neck_from(s@, i as int, lit, iri),
        decreases s.len() - i,
    {
        let c = s[i];
        if c == '"' {
            lit = !lit;
        } else if c == '<' && !lit {
            iri = true;
        } else if c == '>' && !lit {
            iri = false;
        } else if c == '-' && !lit && !iri && i > 0 && s[i - 1] == ':' {
            return Some(i - 1);
        }
        i = i + 1;
    }
    None
}

/// The error text when a rule has no `:-`.
pub open spec fn missing_neck_message(s: Seq<char>) -> Seq<char> {
    "missing ':-' in rule: "@ + s
}

/// The UTF-8 bytes of `a + b` are those of `a` followed by those of `b`.
proof fn lemma_utf8_concat(a: Seq<char>, b: Seq<char>)
    ensures
        vstd::utf8::encode_utf8(a + b) == vstd::utf8::encode_utf8(a) + vstd::utf8::encode_utf8(b),
    decreases a.len(),
{
    if a.len() == 0 {
        assert(a + b =~= b);
        assert(vstd::utf8::encode_utf8(a) =~= Seq::<u8>::empty());
        assert(vstd::utf8::encode_utf8(b) =~= Seq::<u8>::empty() + vstd::utf8::encode_utf8(b));
    } else {
        lemma_utf8_concat(a.drop_first(), b);
        assert((a + b).drop_first() =~= a.drop_first() + b);
        assert((a + b)[0] == a[0]);
        assert(vstd::utf8::encode_utf8(a + b) =~= vstd::utf8::encode_utf8(a) + vstd::utf8::encode_utf8(b));
    }
}

/// The number of UTF-8 bytes of `c` (`char::len_utf8`).
fn utf8_width(c: char) -> (w: usize)
    ensures
        w as int == vstd::utf8::encode_scalar(c as u32).len(),
{
    let v = c as u32;
    if v < 0x80 {
        1
    } else if v < 0x800 {
        2
    } else if v < 0x10000 {
        3
    } else {
        4
    }
}

/// Finds the byte position in `text` of the `:-` that is not inside a
/// literal or IRI.
pub fn find_neck(text: &str) -> (r: Result<usize, String>)
    requires
        vstd::utf8::encode_utf8(text@).len() <= usize::MAX,
    ensures
        match r {
            Ok(p) => find_neck_spec(text@) matches Some(k) && p as int == vstd::utf8::encode_utf8(
                text@.subrange(0, k),
            ).len(),
            Err(e) => find_neck_spec(text@) is None && e@ == missing_neck_message(text@),
        },
{
    let s = str_chars(text);
    match find_neck_chars(&s) {
        Some(k) => {
            let ghost t = text@;
            let mut p: usize = 0;
            let mut i: usize = 0;
            proof {
                assert(t.subrange(0, 0) =~= Seq::<char>::empty());
                assert(vstd::utf8::encode_utf8(Seq::<char>::empty()) =~= Seq::<u8>::empty());
                assert(t =~= t.subrange(0, 0) + t.subrange(0, t.len() as int));
            }
            while i < k
                invariant
                    k + 2 <= s@.len(),
                    s@ == t,
                    vstd::utf8::encode_utf8(t).len() <= usize::MAX,
                    i <= k,
                    p as int == vstd::utf8::encode_utf8(t.subrange(0, i as int)).len(),
                decreases k - i,
            {
                let w = utf8_width(s[i]);
                proof {
                    let pre = t.subrange(0, i as int);
                    let one = seq![t[i as int]];
                    assert(t.subrange(0, i + 1) =~= pre + one);
                    lemma_utf8_concat(pre, one);
                    assert(vstd::utf8::encode_utf8(one.drop_first()) =~= Seq::<u8>::empty());
                    assert(vstd::utf8::encode_utf8(one) =~= vstd::utf8::encode_scalar(t[i as int] as u32));
                    assert(t =~= t.subrange(0, i + 1) + t.subrange(i + 1, t.len() as int));
                    lemma_utf8_concat(t.subrange(0, i + 1), t.subrange(i + 1, t.len() as int));
                }
                p = p + w;
                i = i + 1;
            }
            Ok(p)
        },
        None => {
            let mut e = String::from_str("missing ':-' in rule: ");
            e.append(text);
            Err(e)
        },
    }
}

// ─── Body splitter ───────────────────────────────────────────────────────────

/// The parts found splitting `s` on top-level commas, from position `i`.
pub open spec fn body_parts_from(
    s: Seq<char>,
    i: int,
    parts: Seq<Seq<char>>,
    cur: Seq<char>,
    depth: int,
    lit: bool,
    iri: bool,
) -> Seq<Seq<char>>
    decreases s.len() - i,
{
    if i < 0 || i >= s.len() {
        if trim(cur).len() > 0 { parts.push(trim(cur)) } else { parts }
    } else {
        let c = s[i];
        if c == '"' {
            body_parts_from(s, i + 1, parts, cur.push(c), depth, !lit, iri)
        } else if c == '<' && !lit {
            body_parts_from(s, i + 1, parts, cur.push(c), depth, lit, true)
        } else if c == '>' && !lit && iri {
            body_parts_from(s, i + 1, parts, cur.push(c), depth, lit, false)
        } else if (c == '{' || c == '(') && !lit && !iri {
            body_parts_from(s, i + 1, parts, cur.push(c), depth + 1, lit, iri)
        } else if (c == '}' || c == ')') && !lit && !iri {
            body_parts_from(s, i + 1, parts, cur.push(c), depth - 1, lit, iri)
        } else if c == ',' && !lit && !iri && depth == 0 {
            body_parts_from(s, i + 1, parts.push(trim(cur)), Seq::empty(), depth, lit, iri)
        } else {
            body_parts_from(s, i + 1, parts, cur.push(c), depth, lit, iri)
        }
    }
}

/// `s` split on commas outside literals, IRIs and brackets, each part trimmed;
/// a trailing empty part is left out.
pub open spec fn split_body_spec(s: Seq<char>) -> Seq<Seq<char>> {
    body_parts_from(s, 0, Seq::empty(), Seq::empty(), 0, false, false)
}

/// Splits `s` on top-level commas.
pub fn split_body_chars(s: &Vec<char>) -> (r: Vec<Vec<char>>)
    requires
        s@.len() < 0x7FFF_FFFF_FFFF_FFFF,
    ensures
        r.deep_view() == split_body_spec(s@),
        forall|k: int| 0 <= k < r@.len() ==> #[trigger] r@[k]@.len() <= s@.len(),
{
    let mut parts: Vec<Vec<char>> = Vec::new();
    let mut cur: Vec<char> = Vec::new();
    let mut depth: i64 = 0;
    let mut lit = false;
    let mut iri = false;
    let mut i: usize = 0;
    assert(parts.deep_view() =~= Seq::<Seq<char>>::empty());
    assert(cur@ =~= Seq::<char>::empty());
    while i < s.len()
        invariant
            i <= s@.len() < 0x7FFF_FFFF_FFFF_FFFF,
            -(i as int) <= depth <= i,
            split_body_spec(s@) == body_parts_from(s@, i as int, parts.deep_view(), cur@, depth as int, lit, iri),
            cur@.len() <= i,
            forall|k: int| 0 <= k < parts@.len() ==> #[trigger] parts@[k]@.len() <= i,
        decreases s.len() - i,
    {
        let c = s[i];
        if c == '"' {
            cur.push(c);
            lit = !lit;
        } else if c == '<' && !lit {
            cur.push(c);
            iri = true;
        } else if c == '>' && !lit && iri {
            cur.push(c);
            iri = false;
        } else if (c == '{' || c == '(') && !lit && !iri {
            cur.push(c);
            depth = depth + 1;
        } else if (c == '}' || c == ')') && !lit && !iri {
            cur.push(c);
            depth = depth - 1;
        } else if c == ',' && !lit && !iri && depth == 0 {
            let t = trimmed(&cur);
            push_chars(&mut parts, t);
            cur = Vec::new();
            assert(cur@ =~= Seq::<char>::empty());
        } else {
            cur.push(c);
        }
        i = i + 1;
    }
    let t = trimmed(&cur);
    if t.len() > 0 {
        push_chars(&mut parts, t);
    }
    parts
}

/// Splits a rule body on commas, respecting brackets, literals and IRIs.
pub fn split_body(text: &str) -> (r: Vec<String>)
    requires
        text@.len() < 0x7FFF_FFFF_FFFF_FFFF,
    ensures
        r.deep_view() == split_body_spec(text@),
{
    let s = str_chars(text);
    let parts = split_body_chars(&s);
    strings_of(&parts)
}

// ─── CSV splitter (arguments of temporal filters) ────────────────────────────

/// The parts found splitting `s` on commas outside `'…'` strings and
/// parentheses, from position `i`.
pub open spec fn csv_from(
    s: Seq<char>,
    i: int,
    parts: Seq<Seq<char>>,
    cur: Seq<char>,
    depth: int,
    in_str: bool,
) -> Seq<Seq<char>>
    decreases s.len() - i,
{
    if i < 0 || i >= s.len() {
        if cur.len() > 0 || parts.len() > 0 { parts.push(cur) } else { parts }
    } else {
        let c = s[i];
        if c == '\'' {
            csv_from(s, i + 1, parts, cur.push(c), depth, !in_str)
        } else if c == '(' && !in_str {
            csv_from(s, i + 1, parts, cur.push(c), depth + 1, in_str)
        } else if c == ')' && !in_str {
            csv_from(s, i + 1, parts, cur.push(c), depth - 1, in_str)
        } else if c == ',' && !in_str && depth == 0 {
            csv_from(s, i + 1, parts.push(cur), Seq::empty(), depth, in_str)
        } else {
            csv_from(s, i + 1, parts, cur.push(c), depth, in_str)
        }
    }
}

/// `s` split on top-level commas (parts not trimmed).
pub open spec fn split_csv_spec(s: Seq<char>) -> Seq<Seq<char>> {
    csv_from(s, 0, Seq::empty(), Seq::empty(), 0, false)
}

/// Splits a comma-separated argument list, respecting `'…'` strings and
/// nested parentheses.
pub fn split_csv(s: &Vec<char>) -> (r: Vec<Vec<char>>)
    requires
        s@.len() < 0x7FFF_FFFF_FFFF_FFFF,
    ensures
        r.deep_view() == split_csv_spec(s@),
        forall|k: int| 0 <= k < r@.len() ==> #[trigger] r@[k]@.len() <= s@.len(),
{
    let mut parts: Vec<Vec<char>> = Vec::new();
    let mut cur: Vec<char> = Vec::new();
    let mut depth: i64 = 0;
    let mut in_str = false;
    let mut i: usize = 0;
    assert(parts.deep_view() =~= Seq::<Seq<char>>::empty());
    assert(cur@ =~= Seq::<char>::empty());
    while i < s.len()
        invariant
            i <= s@.len() < 0x7FFF_FFFF_FFFF_FFFF,
            -(i as int) <= depth <= i,
            split_csv_spec(s@) == csv_from(s@, i as int, parts.deep_view(), cur@, depth as int, in_str),
            cur@.len() <= i,
            forall|k: int| 0 <= k < parts@.len() ==> #[trigger] parts@[k]@.len() <= i,
        decreases s.len() - i,
    {
        let c = s[i];
        if c == '\'' {
            cur.push(c);
            in_str = !in_str;
        } else if c == '(' && !in_str {
            cur.push(c);
            depth = depth + 1;
        } else if c == ')' && !in_str {
            cur.push(c);
            depth = depth - 1;
        } else if c == ',' && !in_str && depth == 0 {
            let done = cur;
            push_chars(&mut parts, done);
            cur = Vec::new();
            assert(cur@ =~= Seq::<char>::empty());
        } else {
            cur.push(c);
        }
        i = i + 1;
    }
    if cur.len() > 0 || parts.len() > 0 {
        push_chars(&mut parts, cur);
    }
    parts
}

// ─── Term tokenizer ──────────────────────────────────────────────────────────

/// The tokens found splitting `s` on blanks outside literals, IRIs and
/// `<< … >>`, from position `i`.  A `>` closes the IRI that is open, inside a
/// quoted triple too, and `>>` closes the quoted triple and any IRI in it.
pub open spec fn terms_from(
    s: Seq<char>,
    i: int,
    toks: Seq<Seq<char>>,
    cur: Seq<char>,
    lit: bool,
    iri: bool,
    quoted: bool,
) -> Seq<Seq<char>>
    decreases s.len() - i,
{
    if i < 0 || i >= s.len() {
        if trim(cur).len() > 0 { toks.push(trim(cur)) } else { toks }
    } else {
        let c = s[i];
        if c == '"' {
            terms_from(s, i + 1, toks, cur.push(c), !lit, iri, quoted)
        } else if c == '<' && !lit {
            if i + 1 < s.len() && s[i + 1] == '<' {
                terms_from(s, i + 2, toks, cur.push(c).push(s[i + 1]), lit, iri, true)
            } else {
                terms_from(s, i + 1, toks, cur.push(c), lit, true, quoted)
            }
        } else if c == '>' && !lit && quoted {
            if i + 1 < s.len() && s[i + 1] == '>' {
                terms_from(s, i + 2, toks, cur.push(c).push(s[i + 1]), lit, false, false)
            } else {
                terms_from(s, i + 1, toks, cur.push(c), lit, false, quoted)
            }
        } else if c == '>' && !lit && iri {
            terms_from(s, i + 1, toks, cur.push(c), lit, false, quoted)
        } else if (c == ' ' || c == '\t' || c == '\n') && !lit && !iri && !quoted {
            if cur.len() > 0 {
                terms_from(s, i + 1, toks.push(trim(cur)), Seq::empty(), lit, iri, quoted)
            } else {
                terms_from(s, i + 1, toks, cur, lit, iri, quoted)
            }
        } else {
            terms_from(s, i + 1, toks, cur.push(c), lit, iri, quoted)
        }
    }
}

/// The term tokens of a triple pattern.
pub open spec fn tokenize_terms_spec(s: Seq<char>) -> Seq<Seq<char>> {
    terms_from(s, 0, Seq::empty(), Seq::empty(), false, false, false)
}

/// Tokenizes a term list, respecting IRIs, literals and quoted triples.
pub fn tokenize_terms(s: &Vec<char>) -> (r: Vec<Vec<char>>)
    ensures
        r.deep_view() == tokenize_terms_spec(s@),
{
    let mut toks: Vec<Vec<char>> = Vec::new();
    let mut cur: Vec<char> = Vec::new();
    let mut lit = false;
    let mut iri = false;
    let mut quoted = false;
    let mut i: usize = 0;
    assert(toks.deep_view() =~= Seq::<Seq<char>>::empty());
    assert(cur@ =~= Seq::<char>::empty());
    while i < s.len()
        invariant
            i <= s@.len(),
            tokenize_terms_spec(s@) == terms_from(s@, i as int, toks.deep_view(), cur@, lit, iri, quoted),
        decreases s.len() - i,
    {
        let c = s[i];
        if c == '"' {
            cur.push(c);
            lit = !lit;
            i = i + 1;
        } else if c == '<' && !lit {
            if i + 1 < s.len() && s[i + 1] == '<' {
                cur.push(c);
                cur.push(s[i + 1]);
                quoted = true;
                i = i + 2;
            } else {
                cur.push(c);
                iri = true;
                i = i + 1;
            }
        } else if c == '>' && !lit && quoted {
            if i + 1 < s.len() && s[i + 1] == '>' {
                cur.push(c);
                cur.push(s[i + 1]);
                quoted = false;
                iri = false;
                i = i + 2;
            } else {
                cur.push(c);
                iri = false;
                i = i + 1;
            }
        } else if c == '>' && !lit && iri {
            cur.push(c);
            iri = false;
            i = i + 1;
        } else if (c == ' ' || c == '\t' || c == '\n') && !lit && !iri && !quoted {
            if cur.len() > 0 {
                let t = trimmed(&cur);
                push_chars(&mut toks, t);
                cur = Vec::new();
                assert(cur@ =~= Seq::<char>::empty());
            }
            i = i + 1;
        } else {
            cur.push(c);
            i = i + 1;
        }
    }
    let t = trimmed(&cur);
    if t.len() > 0 {
        push_chars(&mut toks, t);
    }
    toks
}


// ─── Literals ────────────────────────────────────────────────────────────────

/// The position of the closing `"` of a literal, scanning from `i` and
/// skipping the character after each `\`.
pub open spec fn literal_end_from(s: Seq<char>, i: int) -> Option<int>
    decreases s.len() - i,
{
    if i < 0 || i >= s.len() {
        None
    } else if s[i] == '\\' {
        if i + 2 <= s.len() { literal_end_from(s, i + 2) } else { None }
    } else if s[i] == '"' {
        Some(i)
    } else {
        literal_end_from(s, i + 1)
    }
}

/// The character that the escape `\\e` stands for, when `e` is one of the
/// escapes that literal values use: `"`, `\\`, `n`, `r`, `t`.
pub open spec fn escaped_char(e: char) -> Option<char> {
    if e == '"' {
        Some('"')
    } else if e == '\\' {
        Some('\\')
    } else if e == 'n' {
        Some('\n')
    } else if e == 'r' {
        Some('\r')
    } else if e == 't' {
        Some('\t')
    } else {
        None
    }
}

/// The escapes resolved in literal values, in one pass from left to right:
/// `\"`, `\\`, `\n`, `\r`, `\t` each become the one character they stand
/// for; any other backslash stays as it is.
pub open spec fn unescape(raw: Seq<char>) -> Seq<char>
    decreases raw.len(),
{
    if raw.len() == 0 {
        Seq::empty()
    } else if raw.len() >= 2 && raw[0] == '\\' && escaped_char(raw[1]) is Some {
        seq![escaped_char(raw[1])->0] + unescape(raw.subrange(2, raw.len() as int))
    } else {
        seq![raw[0]] + unescape(raw.subrange(1, raw.len() as int))
    }
}

/// A quoted literal split into its unescaped value and the text after the
/// closing quote.
pub open spec fn split_literal_spec(s: Seq<char>) -> Option<(Seq<char>, Seq<char>)> {
    if s.len() == 0 || s[0] != '"' {
        None
    } else {
        match literal_end_from(s, 1) {
            Some(i) => Some((unescape(s.subrange(1, i)), s.subrange(i + 1, s.len() as int))),
            None => None,
        }
    }
}

/// Resolves the escapes of a literal value.
pub fn unescape_chars(raw: &Vec<char>) -> (r: Vec<char>)
    ensures
        r@ == unescape(raw@),
{
    let n = raw.len();
    let mut out: Vec<char> = Vec::new();
    let mut i: usize = 0;
    assert(raw@.subrange(0, n as int) =~= raw@);
    assert(out@ + unescape(raw@) =~= unescape(raw@));
    while i < n
        invariant
            n == raw@.len(),
            i <= n,
            out@ + unescape(raw@.subrange(i as int, n as int)) == unescape(raw@),
        decreases n - i,
    {
        let ghost t = raw@.subrange(i as int, n as int);
        let ghost o = out@;
        let c = raw[i];
        let mut step: usize = 1;
        let mut d = c;
        if c == '\\' && n - i >= 2 {
            let e = raw[i + 1];
            if e == '"' {
                d = '"';
                step = 2;
            } else if e == '\\' {
                d = '\\';
                step = 2;
            } else if e == 'n' {
                d = '\n';
                step = 2;
            } else if e == 'r' {
                d = '\r';
                step = 2;
            } else if e == 't' {
                d = '\t';
                step = 2;
            }
        }
        out.push(d);
        proof {
            assert(t[0] == c);
            if step == 2 {
                assert(t[1] == raw@[i + 1]);
                assert(t.subrange(2, t.len() as int) =~= raw@.subrange(i + 2, n as int));
                assert(unescape(t) == seq![d] + unescape(raw@.subrange(i + 2, n as int)));
            } else {
                assert(t.subrange(1, t.len() as int) =~= raw@.subrange(i + 1, n as int));
                assert(unescape(t) == seq![d] + unescape(raw@.subrange(i + 1, n as int)));
            }
            assert(out@ =~= o + seq![d]);
            assert(o + (seq![d] + unescape(raw@.subrange(i + step, n as int))) =~= out@ + unescape(
                raw@.subrange(i + step, n as int),
            ));
        }
        i = i + step;
    }
    assert(raw@.subrange(n as int, n as int) =~= Seq::<char>::empty());
    assert(unescape(Seq::<char>::empty()) =~= Seq::<char>::empty());
    assert(out@ + Seq::<char>::empty() =~= out@);
    out
}

/// `escape_spec` read from the front: the first character's escape, then
/// the rest.
proof fn lemma_escape_front(v: Seq<char>)
    requires
        v.len() > 0,
    ensures
        escape_spec(v) == escape_char(v[0])
            + escape_spec(v.drop_first()),
    decreases v.len(),
{
    if v.len() == 1 {
        assert(v.drop_last() =~= Seq::<char>::empty());
        assert(v.drop_first() =~= Seq::<char>::empty());
        assert(escape_spec(v.drop_first()) =~= Seq::<char>::empty());
        assert(escape_spec(v) =~= escape_char(v[0]));
    } else {
        let d = v.drop_last();
        lemma_escape_front(d);
        assert(d.drop_first() =~= v.drop_first().drop_last());
        assert(v.drop_first().last() == v.last());
        assert(d[0] == v[0]);
        assert(escape_spec(v) =~= escape_char(v[0]) + escape_spec(v.drop_first()));
    }
}

/// Reading back a literal's escaped text gives its value again: `unescape`
/// undoes `escape_literal`.
pub proof fn law_unescape_undoes_escape(v: Seq<char>)
    ensures
        unescape(escape_spec(v)) == v,
    decreases v.len(),
{
    if v.len() == 0 {
        assert(escape_spec(v) =~= Seq::<char>::empty());
        assert(unescape(Seq::<char>::empty()) =~= v);
    } else {
        lemma_escape_front(v);
        law_unescape_undoes_escape(v.drop_first());
        let e = escape_spec(v);
        let c = v[0];
        if c == '"' || c == '\\' || c == '\n' || c == '\r' || c == '\t' {
            assert(e.subrange(2, e.len() as int) =~= escape_spec(v.drop_first()));
            assert(e[0] == '\\');
            assert(escaped_char(e[1]) == Some(c));
        } else {
            assert(e[0] == c);
            assert(e.subrange(1, e.len() as int) =~= escape_spec(v.drop_first()));
        }
        assert(unescape(e) =~= seq![c] + v.drop_first());
        assert(seq![c] + v.drop_first() =~= v);
    }
}

/// The closing quote of an escaped value is the first quote that no
/// backslash escapes.
proof fn lemma_literal_end_escaped(q: Seq<char>, i: int, w: Seq<char>)
    requires
        0 <= i,
        i + escape_spec(w).len() < q.len(),
        q.subrange(i, i + escape_spec(w).len()) == escape_spec(w),
        q[i + escape_spec(w).len()] == '"',
    ensures
        literal_end_from(q, i) == Some(i + escape_spec(w).len()),
    decreases w.len(),
{
    let e = escape_spec(w);
    if w.len() == 0 {
        assert(e =~= Seq::<char>::empty());
    } else {
        lemma_escape_front(w);
        let c = w[0];
        let e2 = escape_spec(w.drop_first());
        if c == '"' || c == '\\' || c == '\n' || c == '\r' || c == '\t' {
            assert(e.len() == 2 + e2.len());
            assert(q[i] == e[0]);
            assert forall|k: int| 0 <= k < e2.len() implies q[i + 2 + k] == e2[k] by {
                assert(q.subrange(i, i + e.len())[2 + k] == q[i + 2 + k]);
                assert(e[2 + k] == e2[k]);
            }
            assert(q.subrange(i + 2, i + 2 + e2.len()) =~= e2);
            lemma_literal_end_escaped(q, i + 2, w.drop_first());
        } else {
            assert(e.len() == 1 + e2.len());
            assert(q[i] == e[0]);
            assert forall|k: int| 0 <= k < e2.len() implies q[i + 1 + k] == e2[k] by {
                assert(q.subrange(i, i + e.len())[1 + k] == q[i + 1 + k]);
                assert(e[1 + k] == e2[k]);
            }
            assert(q.subrange(i + 1, i + 1 + e2.len()) =~= e2);
            lemma_literal_end_escaped(q, i + 1, w.drop_first());
        }
    }
}

/// A literal written as `"` + its escaped value + `"` and then any text
/// splits back into the value and that text.
pub proof fn law_split_literal_roundtrip(v: Seq<char>, rest: Seq<char>)
    ensures
        split_literal_spec(seq!['"'] + escape_spec(v) + seq!['"'] + rest) == Some((v, rest)),
{
    let e = escape_spec(v);
    let q = seq!['"'] + e + seq!['"'] + rest;
    let n: int = e.len() as int;
    assert(q.subrange(1, 1 + n) =~= e);
    assert(q[1 + n] == '"');
    lemma_literal_end_escaped(q, 1, v);
    law_unescape_undoes_escape(v);
    assert(q.subrange(1 + n + 1, q.len() as int) =~= rest);
}

/// Splits a quoted literal into `(unescaped value, rest after the closing quote)`.
pub fn split_literal(s: &Vec<char>) -> (r: Option<(Vec<char>, Vec<char>)>)
    ensures
        match r {
            Some((v, rest)) => split_literal_spec(s@) == Some((v@, rest@)),
            None => split_literal_spec(s@) is None,
        },
{
    if s.len() == 0 || s[0] != '"' {
        return None;
    }
    let mut i: usize = 1;
    while i < s.len()
        invariant
            1 <= i,
            s@.len() > 0,
            s@[0] == '"',
            literal_end_from(s@, 1) == literal_end_from(s@, i as int),
        decreases s.len() - i,
    {
        if s[i] == '\\' {
            if s.len() - i < 2 {
                return None;
            }
            i = i + 2;
        } else if s[i] == '"' {
            assert(literal_end_from(s@, i as int) == Some(i as int));
            let raw = sub_chars(s, 1, i);
            let rest = sub_chars(s, i + 1, s.len());
            let v = unescape_chars(&raw);
            assert(split_literal_spec(s@) == Some((v@, rest@)));
            return Some((v, rest));
        } else {
            i = i + 1;
        }
    }
    None
}

// ─── Terms ───────────────────────────────────────────────────────────────────

/// `s` without its leading copies of `c`.
pub open spec fn strip_leading(s: Seq<char>, c: char) -> Seq<char>
    decreases s.len(),
{
    if s.len() > 0 && s[0] == c { strip_leading(s.drop_first(), c) } else { s }
}

/// `s` without its trailing copies of `c`.
pub open spec fn strip_trailing(s: Seq<char>, c: char) -> Seq<char>
    decreases s.len(),
{
    if s.len() > 0 && s.last() == c { strip_trailing(s.drop_last(), c) } else { s }
}

/// `s` without its leading `+` and `-` signs.
pub open spec fn strip_signs(s: Seq<char>) -> Seq<char>
    decreases s.len(),
{
    if s.len() > 0 && (s[0] == '+' || s[0] == '-') { strip_signs(s.drop_first()) } else { s }
}

/// Whether `t` reads as a bare number: a digit or sign first, and only
/// digits and dots once the leading signs are dropped.
pub open spec fn looks_numeric(t: Seq<char>) -> bool {
    t.len() > 0 && (is_digit(t[0]) || t[0] == '-' || t[0] == '+') && forall|k: int|
        0 <= k < strip_signs(t).len() ==> is_digit(#[trigger] strip_signs(t)[k]) || strip_signs(t)[k]
            == '.'
}

/// The datatype IRI of `xsd:integer`.
pub open spec fn xsd_integer() -> Seq<char> {
    "http://www.w3.org/2001/XMLSchema#integer"@
}

/// The datatype IRI of `xsd:decimal`.
pub open spec fn xsd_decimal() -> Seq<char> {
    "http://www.w3.org/2001/XMLSchema#decimal"@
}

/// What [`parse_term`] gives for `s`.
pub open spec fn parse_term_spec(s: Seq<char>) -> Result<TermV<ConstV>, Seq<char>> {
    let t = trim(s);
    if t.len() > 0 && t[0] == '?' {
        if t.drop_first() == seq!['_'] {
            Ok(TermV::Wildcard)
        } else {
            Ok(TermV::Var(t.drop_first()))
        }
    } else if t.len() > 0 && t[0] == '<' && t.last() == '>' {
        Ok(TermV::Const(ConstV::Iri(t.subrange(1, t.len() - 1))))
    } else if t.len() > 0 && t[0] == '"' && split_literal_spec(t) is Some {
        let (val, rest) = split_literal_spec(t)->0;
        if has_prefix(rest, seq!['^', '^']) {
            let dt = strip_trailing(strip_leading(trim(rest.subrange(2, rest.len() as int)), '<'), '>');
            Ok(TermV::Const(ConstV::Typed(val, dt)))
        } else if has_prefix(rest, seq!['@']) {
            Ok(TermV::Const(ConstV::Lang(val, rest.drop_first())))
        } else {
            Ok(TermV::Const(ConstV::Plain(val)))
        }
    } else if has_prefix(t, seq!['_', ':']) {
        Ok(TermV::Const(ConstV::Blank(t.subrange(2, t.len() as int))))
    } else if looks_numeric(t) {
        Ok(TermV::Const(ConstV::Number(t, if t.contains('.') { xsd_decimal() } else { xsd_integer() })))
    } else if t.contains(':') && !t.contains(' ') {
        Ok(TermV::Const(ConstV::Prefixed(t)))
    } else {
        Err("unrecognized term: "@ + t)
    }
}

pub fn strip_leading_chars(s: &Vec<char>, c: char) -> (r: Vec<char>)
    ensures
        r@ == strip_leading(s@, c),
{
    let mut i: usize = 0;
    assert(s@.subrange(0, s@.len() as int) =~= s@);
    while i < s.len() && s[i] == c
        invariant
            i <= s@.len(),
            strip_leading(s@, c) == strip_leading(s@.subrange(i as int, s@.len() as int), c),
        decreases s.len() - i,
    {
        assert(s@.subrange(i as int, s@.len() as int).drop_first() =~= s@.subrange(i + 1, s@.len() as int));
        i = i + 1;
    }
    proof {
        assert(s@.subrange(0, s@.len() as int) =~= s@);
    }
    sub_chars(s, i, s.len())
}

pub fn strip_trailing_chars(s: &Vec<char>, c: char) -> (r: Vec<char>)
    ensures
        r@ == strip_trailing(s@, c),
        r@.len() <= s@.len(),
{
    let mut j: usize = s.len();
    assert(s@.subrange(0, s@.len() as int) =~= s@);
    while j > 0 && s[j - 1] == c
        invariant
            j <= s@.len(),
            strip_trailing(s@, c) == strip_trailing(s@.subrange(0, j as int), c),
        decreases j,
    {
        assert(s@.subrange(0, j as int).drop_last() =~= s@.subrange(0, j - 1));
        j = j - 1;
    }
    sub_chars(s, 0, j)
}

fn looks_numeric_chars(t: &Vec<char>) -> (b: bool)
    ensures
        b == looks_numeric(t@),
{
    if t.len() == 0 {
        return false;
    }
    let c0 = t[0];
    if !(('0' <= c0 && c0 <= '9') || c0 == '-' || c0 == '+') {
        return false;
    }
    let mut i: usize = 0;
    assert(t@.subrange(0, t@.len() as int) =~= t@);
    while i < t.len() && (t[i] == '+' || t[i] == '-')
        invariant
            i <= t@.len(),
            strip_signs(t@) == strip_signs(t@.subrange(i as int, t@.len() as int)),
        decreases t.len() - i,
    {
        assert(t@.subrange(i as int, t@.len() as int).drop_first() =~= t@.subrange(i + 1, t@.len() as int));
        i = i + 1;
    }
    proof {
        assert(t@.subrange(0, t@.len() as int) =~= t@);
        let u = t@.subrange(i as int, t@.len() as int);
        if i < t@.len() {
            assert(u[0] == t@[i as int]);
        }
        assert(strip_signs(u) == u);
    }
    let ghost u = t@.subrange(i as int, t@.len() as int);
    let mut j: usize = i;
    while j < t.len()
        invariant
            i <= j <= t@.len(),
            u == t@.subrange(i as int, t@.len() as int),
            strip_signs(t@) == u,
            forall|k: int| 0 <= k < j - i ==> is_digit(#[trigger] u[k]) || u[k] == '.',
        decreases t.len() - j,
    {
        let c = t[j];
        assert(u[j - i] == c);
        if !(('0' <= c && c <= '9') || c == '.') {
            return false;
        }
        j = j + 1;
    }
    true
}

/// Builds the error text `prefix` followed by `s`.
fn message_with(prefix: &str, s: &Vec<char>) -> (r: String)
    ensures
        r@ == prefix@ + s@,
{
    let mut m = String::from_str(prefix);
    let t = string_from_chars(s);
    m.append(t.as_str());
    m
}

/// Parses a single RDF term (variable, IRI, literal, blank node, number or
/// prefixed name).
pub fn parse_term(s: &Vec<char>) -> (r: Result<Term<ConstText>, String>)
    ensures
        match r {
            Ok(t) => parse_term_spec(s@) == Ok::<TermV<ConstV>, Seq<char>>(t.deep_view()),
            Err(e) => parse_term_spec(s@) == Err::<TermV<ConstV>, Seq<char>>(e@),
        },
{
    let t = trimmed(s);
    let n = t.len();
    if n > 0 && t[0] == '?' {
        let name = sub_chars(&t, 1, n);
        assert(name@ =~= t@.drop_first());
        if name.len() == 1 && name[0] == '_' {
            assert(name@ =~= seq!['_']);
            return Ok(Term::Wildcard);
        }
        proof {
            if name@ == seq!['_'] {
                assert(name@.len() == 1 && name@[0] == '_');
            }
        }
        return Ok(Term::Var(string_from_chars(&name)));
    }
    if n > 0 && t[0] == '<' && t[n - 1] == '>' {
        let iri = sub_chars(&t, 1, n - 1);
        return Ok(Term::Const(ConstText::Iri(string_from_chars(&iri))));
    }
    if n > 0 && t[0] == '"' {
        match split_literal(&t) {
            Some((val, rest)) => {
                let v = string_from_chars(&val);
                let carets = vec!['^', '^'];
                let at = vec!['@'];
                assert(carets@ =~= seq!['^', '^']);
                assert(at@ =~= seq!['@']);
                if starts_with(&rest, &carets) {
                    let dt0 = sub_chars(&rest, 2, rest.len());
                    let dt1 = trimmed(&dt0);
                    let dt2 = strip_leading_chars(&dt1, '<');
                    let dt3 = strip_trailing_chars(&dt2, '>');
                    return Ok(Term::Const(ConstText::Typed(v, string_from_chars(&dt3))));
                }
                if starts_with(&rest, &at) {
                    let lang = sub_chars(&rest, 1, rest.len());
                    assert(lang@ =~= rest@.drop_first());
                    return Ok(Term::Const(ConstText::Lang(v, string_from_chars(&lang))));
                }
                return Ok(Term::Const(ConstText::Plain(v)));
            },
            None => {},
        }
    }
    let blank = vec!['_', ':'];
    assert(blank@ =~= seq!['_', ':']);
    if starts_with(&t, &blank) {
        let label = sub_chars(&t, 2, n);
        return Ok(Term::Const(ConstText::Blank(string_from_chars(&label))));
    }
    if looks_numeric_chars(&t) {
        let text = string_from_chars(&t);
        let dt = if contains_char(&t, '.') {
            String::from_str("http://www.w3.org/2001/XMLSchema#decimal")
        } else {
            String::from_str("http://www.w3.org/2001/XMLSchema#integer")
        };
        return Ok(Term::Const(ConstText::Number(text, dt)));
    }
    if contains_char(&t, ':') && !contains_char(&t, ' ') {
        return Ok(Term::Const(ConstText::Prefixed(string_from_chars(&t))));
    }
    Err(message_with("unrecognized term: ", &t))
}


// ─── Triple patterns and atoms ───────────────────────────────────────────────

/// `toks` joined with single spaces (`[..].join(" ")`).
pub open spec fn join_space(toks: Seq<Seq<char>>) -> Seq<char>
    decreases toks.len(),
{
    if toks.len() == 0 {
        Seq::empty()
    } else if toks.len() == 1 {
        toks[0]
    } else {
        join_space(toks.drop_last()) + seq![' '] + toks.last()
    }
}

/// Joins character vectors with single spaces.
fn join_with_space(toks: &Vec<Vec<char>>, from: usize) -> (r: Vec<char>)
    requires
        from <= toks@.len(),
    ensures
        r@ == join_space(toks.deep_view().subrange(from as int, toks@.len() as int)),
{
    let ghost dv = toks.deep_view();
    let mut out: Vec<char> = Vec::new();
    let mut i: usize = from;
    assert(dv.subrange(from as int, from as int) =~= Seq::<Seq<char>>::empty());
    while i < toks.len()
        invariant
            from <= i <= toks@.len(),
            dv == toks.deep_view(),
            out@ == join_space(dv.subrange(from as int, i as int)),
        decreases toks.len() - i,
    {
        let ghost before = out@;
        if i > from {
            out.push(' ');
        }
        let t = &toks[i];
        let mut k: usize = 0;
        let ghost mid = out@;
        while k < t.len()
            invariant
                k <= t@.len(),
                out@ == mid + t@.subrange(0, k as int),
            decreases t.len() - k,
        {
            out.push(t[k]);
            k = k + 1;
            assert(out@ =~= mid + t@.subrange(0, k as int));
        }
        proof {
            assert(t@.subrange(0, t@.len() as int) =~= t@);
            assert(dv[i as int] =~= t@);
            let nxt = dv.subrange(from as int, i + 1);
            assert(nxt.drop_last() =~= dv.subrange(from as int, i as int));
            assert(nxt.last() == dv[i as int]);
            if i > from {
                assert(out@ =~= join_space(nxt));
            } else {
                assert(nxt.len() == 1);
                assert(out@ =~= join_space(nxt));
            }
        }
        i = i + 1;
    }
    out
}

/// What [`parse_triple_terms`] gives for `s`: three terms, where the object
/// is all tokens from the third on joined by spaces.
pub open spec fn parse_triple_spec(s: Seq<char>) -> Result<(TermV<ConstV>, TermV<ConstV>, TermV<ConstV>), Seq<char>> {
    let toks = tokenize_terms_spec(s);
    if toks.len() < 3 {
        Err("expected 3 terms in triple pattern, got "@ + int_decimal(toks.len() as int) + ": "@ + s)
    } else {
        match parse_term_spec(toks[0]) {
            Err(e) => Err(e),
            Ok(a) => match parse_term_spec(toks[1]) {
                Err(e) => Err(e),
                Ok(b) => match parse_term_spec(
                    if toks.len() == 3 { toks[2] } else { join_space(toks.subrange(2, toks.len() as int)) },
                ) {
                    Err(e) => Err(e),
                    Ok(c) => Ok((a, b, c)),
                },
            },
        }
    }
}

/// Parses three whitespace-separated terms of a triple pattern.
pub fn parse_triple_terms(s: &Vec<char>) -> (r: Result<(Term<ConstText>, Term<ConstText>, Term<ConstText>), String>)
    requires
        s@.len() < 0x7FFF_FFFF_FFFF_FFFF,
    ensures
        match r {
            Ok((a, b, c)) => parse_triple_spec(s@) == Ok::<_, Seq<char>>((a.deep_view(), b.deep_view(), c.deep_view())),
            Err(e) => parse_triple_spec(s@) == Err::<(TermV<ConstV>, TermV<ConstV>, TermV<ConstV>), _>(e@),
        },
{
    let toks = tokenize_terms(s);
    let ghost dv = toks.deep_view();
    if toks.len() < 3 {
        let mut e = String::from_str("expected 3 terms in triple pattern, got ");
        push_i64_decimal(&mut e, toks.len() as i64);
        e.append(": ");
        let st = string_from_chars(s);
        e.append(st.as_str());
        return Err(e);
    }
    assert(dv[0] == toks@[0]@ && dv[1] == toks@[1]@ && dv[2] == toks@[2]@);
    let a = match parse_term(&toks[0]) {
        Ok(t) => t,
        Err(e) => return Err(e),
    };
    let b = match parse_term(&toks[1]) {
        Ok(t) => t,
        Err(e) => return Err(e),
    };
    let o_text = if toks.len() == 3 {
        sub_chars(&toks[2], 0, toks[2].len())
    } else {
        join_with_space(&toks, 2)
    };
    proof {
        assert(toks@[2]@.subrange(0, toks@[2]@.len() as int) =~= toks@[2]@);
    }
    let c = match parse_term(&o_text) {
        Ok(t) => t,
        Err(e) => return Err(e),
    };
    Ok((a, b, c))
}

/// What [`parse_atom`] gives for `s`.
pub open spec fn parse_atom_spec(s: Seq<char>) -> Result<AtomV<ConstV>, Seq<char>> {
    let t = trim(s);
    if ci_prefix(t, "GRAPH"@) {
        let rest = trim(t.subrange(5, t.len() as int));
        let brace = first_index(rest, '{');
        if brace < 0 {
            Err("missing '{' in GRAPH pattern: "@ + t)
        } else {
            let g_text = trim(rest.subrange(0, brace));
            let inner0 = trim(rest.subrange(brace + 1, rest.len() as int));
            if !(inner0.len() > 0 && inner0.last() == '}') {
                Err("missing '}' in GRAPH pattern: "@ + t)
            } else {
                match parse_term_spec(g_text) {
                    Err(e) => Err(e),
                    Ok(g) => match parse_triple_spec(trim(inner0.drop_last())) {
                        Err(e) => Err(e),
                        Ok((a, b, c)) => Ok(AtomV { s: a, p: b, o: c, g }),
                    },
                }
            }
        }
    } else {
        match parse_triple_spec(t) {
            Err(e) => Err(e),
            Ok((a, b, c)) => Ok(AtomV { s: a, p: b, o: c, g: TermV::DefaultGraph }),
        }
    }
}

/// Parses a triple atom with an optional `GRAPH g { … }` clause.
pub fn parse_atom(s: &Vec<char>) -> (r: Result<Atom<ConstText>, String>)
    requires
        s@.len() < 0x7FFF_FFFF_FFFF_FFFF,
    ensures
        match r {
            Ok(a) => parse_atom_spec(s@) == Ok::<_, Seq<char>>(a.deep_view()),
            Err(e) => parse_atom_spec(s@) == Err::<AtomV<ConstV>, _>(e@),
        },
{
    let t = trimmed(s);
    if ci_starts_with(&t, "GRAPH") {
        proof {
            reveal_strlit("GRAPH");
        }
        let tail = sub_chars(&t, 5, t.len());
        let rest = trimmed(&tail);
        let brace = find_char(&rest, '{');
        if brace < 0 {
            return Err(message_with("missing '{' in GRAPH pattern: ", &t));
        }
        let gt0 = sub_chars(&rest, 0, brace as usize);
        let g_text = trimmed(&gt0);
        let in0 = sub_chars(&rest, (brace + 1) as usize, rest.len());
        let inner0 = trimmed(&in0);
        if !(inner0.len() > 0 && inner0[inner0.len() - 1] == '}') {
            return Err(message_with("missing '}' in GRAPH pattern: ", &t));
        }
        let in1 = sub_chars(&inner0, 0, inner0.len() - 1);
        assert(in1@ =~= inner0@.drop_last());
        let inner = trimmed(&in1);
        let g = match parse_term(&g_text) {
            Ok(g) => g,
            Err(e) => return Err(e),
        };
        match parse_triple_terms(&inner) {
            Ok((a, b, c)) => Ok(Atom { s: a, p: b, o: c, g }),
            Err(e) => Err(e),
        }
    } else {
        match parse_triple_terms(&t) {
            Ok((a, b, c)) => Ok(Atom { s: a, p: b, o: c, g: Term::DefaultGraph }),
            Err(e) => Err(e),
        }
    }
}

/// The variable name of `?name`.
pub open spec fn parse_variable_spec(s: Seq<char>) -> Option<Seq<char>> {
    if s.len() > 0 && s[0] == '?' { Some(s.drop_first()) } else { None }
}

/// Parses a variable name from `?var`.
pub fn parse_variable(s: &Vec<char>) -> (r: Option<String>)
    ensures
        match r {
            Some(n) => parse_variable_spec(s@) == Some(n@),
            None => parse_variable_spec(s@) is None,
        },
{
    if s.len() > 0 && s[0] == '?' {
        let n = sub_chars(s, 1, s.len());
        assert(n@ =~= s@.drop_first());
        Some(string_from_chars(&n))
    } else {
        None
    }
}

/// The comparison operator written `t`.
pub open spec fn compare_op_spec(t: Seq<char>) -> Option<CompareOp> {
    if t == seq!['>'] { Some(CompareOp::Gt) }
    else if t == seq!['>', '='] { Some(CompareOp::Gte) }
    else if t == seq!['<'] { Some(CompareOp::Lt) }
    else if t == seq!['<', '='] { Some(CompareOp::Lte) }
    else if t == seq!['='] { Some(CompareOp::Eq) }
    else if t == seq!['!', '='] { Some(CompareOp::Neq) }
    else { None }
}

/// Reads a comparison operator.
pub fn compare_op(t: &Vec<char>) -> (r: Option<CompareOp>)
    ensures
        r == compare_op_spec(t@),
{
    let n = t.len();
    proof {
        if t@ == seq!['>'] || t@ == seq!['<'] || t@ == seq!['='] {
            assert(t@.len() == 1 && (t@[0] == '>' || t@[0] == '<' || t@[0] == '='));
        }
        if t@ == seq!['>', '='] || t@ == seq!['<', '='] || t@ == seq!['!', '='] {
            assert(t@.len() == 2 && t@[1] == '=' && (t@[0] == '>' || t@[0] == '<' || t@[0] == '!'));
        }
    }
    if n == 1 && t[0] == '>' {
        assert(t@ =~= seq!['>']);
        Some(CompareOp::Gt)
    } else if n == 2 && t[0] == '>' && t[1] == '=' {
        assert(t@ =~= seq!['>', '=']);
        Some(CompareOp::Gte)
    } else if n == 1 && t[0] == '<' {
        assert(t@ =~= seq!['<']);
        Some(CompareOp::Lt)
    } else if n == 2 && t[0] == '<' && t[1] == '=' {
        assert(t@ =~= seq!['<', '=']);
        Some(CompareOp::Lte)
    } else if n == 1 && t[0] == '=' {
        assert(t@ =~= seq!['=']);
        Some(CompareOp::Eq)
    } else if n == 2 && t[0] == '!' && t[1] == '=' {
        assert(t@ =~= seq!['!', '=']);
        Some(CompareOp::Neq)
    } else {
        None
    }
}

/// The term a body-literal helper reads, or `None` when it is not a term.
pub open spec fn term_of(s: Seq<char>) -> Option<TermV<ConstV>> {
    match parse_term_spec(s) {
        Ok(t) => Some(t),
        Err(_) => None,
    }
}

/// Parses a term, keeping only success.
fn term_opt(s: &Vec<char>) -> (r: Option<Term<ConstText>>)
    ensures
        match r {
            Some(t) => term_of(s@) == Some(t.deep_view()),
            None => term_of(s@) is None,
        },
{
    match parse_term(s) {
        Ok(t) => Some(t),
        Err(_) => None,
    }
}

/// `?a OP ?b`: a comparison, when the second word is an operator and the
/// first and third are terms.
pub open spec fn comparison_spec(s: Seq<char>) -> Option<LiteralV<ConstV>> {
    let w = crate::text::split_whitespace_spec(s);
    if w.len() < 3 {
        None
    } else {
        match compare_op_spec(w[1]) {
            None => None,
            Some(op) => match (term_of(w[0]), term_of(w[2])) {
                (Some(a), Some(b)) => Some(LiteralV::Compare(a, op, b)),
                _ => None,
            },
        }
    }
}

/// Tries to parse a comparison `?a OP ?b`.
pub fn try_parse_comparison(s: &Vec<char>) -> (r: Option<BodyLiteral<ConstText>>)
    ensures
        match r {
            Some(l) => comparison_spec(s@) == Some(l.deep_view()),
            None => comparison_spec(s@) is None,
        },
{
    let w = crate::text::split_whitespace(s);
    let ghost dv = w.deep_view();
    if w.len() < 3 {
        return None;
    }
    assert(dv[0] == w@[0]@ && dv[1] == w@[1]@ && dv[2] == w@[2]@);
    let op = match compare_op(&w[1]) {
        Some(op) => op,
        None => return None,
    };
    let a = match term_opt(&w[0]) {
        Some(t) => t,
        None => return None,
    };
    let b = match term_opt(&w[2]) {
        Some(t) => t,
        None => return None,
    };
    Some(BodyLiteral::Compare(a, op, b))
}

/// The arithmetic operator written `t`.
pub open spec fn arith_op_spec(t: Seq<char>) -> Option<ArithOp> {
    if t == seq!['+'] { Some(ArithOp::Add) }
    else if t == seq!['-'] { Some(ArithOp::Sub) }
    else if t == seq!['*'] { Some(ArithOp::Mul) }
    else if t == seq!['/'] { Some(ArithOp::Div) }
    else { None }
}

fn arith_op(t: &Vec<char>) -> (r: Option<ArithOp>)
    ensures
        r == arith_op_spec(t@),
{
    proof {
        if t@ == seq!['+'] || t@ == seq!['-'] || t@ == seq!['*'] || t@ == seq!['/'] {
            assert(t@.len() == 1);
            assert(t@[0] == '+' || t@[0] == '-' || t@[0] == '*' || t@[0] == '/');
        }
    }
    if t.len() != 1 {
        return None;
    }
    let c = t[0];
    if c == '+' {
        assert(t@ =~= seq!['+']);
        Some(ArithOp::Add)
    } else if c == '-' {
        assert(t@ =~= seq!['-']);
        Some(ArithOp::Sub)
    } else if c == '*' {
        assert(t@ =~= seq!['*']);
        Some(ArithOp::Mul)
    } else if c == '/' {
        assert(t@ =~= seq!['/']);
        Some(ArithOp::Div)
    } else {
        None
    }
}

/// `?z IS ?x OP ?y`: an assignment, read from the first five words.
pub open spec fn assign_spec(s: Seq<char>) -> Option<LiteralV<ConstV>> {
    let w = crate::text::split_whitespace_spec(s);
    if w.len() < 5 || !(w[1].len() == 2 && ci_prefix(w[1], "IS"@)) {
        None
    } else {
        match parse_variable_spec(w[0]) {
            None => None,
            Some(v) => match term_of(w[2]) {
                None => None,
                Some(a) => match arith_op_spec(w[3]) {
                    None => None,
                    Some(op) => match term_of(w[4]) {
                        None => None,
                        Some(b) => Some(LiteralV::Assign(v, a, op, b)),
                    },
                },
            },
        }
    }
}

/// Tries to parse an arithmetic assignment `?z IS ?x OP ?y`.
pub fn try_parse_assign(s: &Vec<char>) -> (r: Option<BodyLiteral<ConstText>>)
    ensures
        match r {
            Some(l) => assign_spec(s@) == Some(l.deep_view()),
            None => assign_spec(s@) is None,
        },
{
    let w = crate::text::split_whitespace(s);
    let ghost dv = w.deep_view();
    if w.len() < 5 {
        return None;
    }
    assert(dv[0] == w@[0]@ && dv[1] == w@[1]@ && dv[2] == w@[2]@ && dv[3] == w@[3]@ && dv[4] == w@[4]@);
    if !(w[1].len() == 2 && ci_starts_with(&w[1], "IS")) {
        return None;
    }
    let v = match parse_variable(&w[0]) {
        Some(v) => v,
        None => return None,
    };
    let a = match term_opt(&w[2]) {
        Some(t) => t,
        None => return None,
    };
    let op = match arith_op(&w[3]) {
        Some(op) => op,
        None => return None,
    };
    let b = match term_opt(&w[4]) {
        Some(t) => t,
        None => return None,
    };
    Some(BodyLiteral::Assign(v, a, op, b))
}


// ─── Temporal filters ────────────────────────────────────────────────────────

/// An argument with a trailing `::type` cast removed, trimmed.
pub open spec fn trim_cast(s: Seq<char>) -> Seq<char> {
    let p = crate::text::last_occurrence(s, seq![':', ':']);
    if p >= 0 { trim(s.subrange(0, p)) } else { trim(s) }
}

fn trim_cast_chars(s: &Vec<char>) -> (r: String)
    requires
        s@.len() < 0x7FFF_FFFF_FFFF_FFFF,
    ensures
        r@ == trim_cast(s@),
{
    let cc = vec![':', ':'];
    assert(cc@ =~= seq![':', ':']);
    let p = crate::text::rfind_chars(s, &cc);
    if p >= 0 {
        let n = s.len();
        assert(p + 2 <= n);
        let head = sub_chars(s, 0, p as usize);
        let t = trimmed(&head);
        string_from_chars(&t)
    } else {
        let t = trimmed(s);
        string_from_chars(&t)
    }
}

/// The inner argument text `t[k .. len-1]`.
pub open spec fn args_of(t: Seq<char>, k: int) -> Seq<char> {
    t.subrange(k, t.len() - 1)
}

/// The four-argument Allen relation named by the prefix of `t`, if any, with
/// the position where its arguments start.
pub open spec fn allen_prefix(t: Seq<char>) -> int {
    if ci_prefix(t, "ALLEN_BEFORE("@) { 1 }
    else if ci_prefix(t, "ALLEN_MEETS("@) { 2 }
    else if ci_prefix(t, "ALLEN_OVERLAPS("@) { 3 }
    else if ci_prefix(t, "ALLEN_DURING("@) { 4 }
    else if ci_prefix(t, "ALLEN_FINISHES("@) { 5 }
    else if ci_prefix(t, "ALLEN_STARTS("@) { 6 }
    else if ci_prefix(t, "ALLEN_EQUALS("@) { 7 }
    else { 0 }
}

/// Where the arguments of Allen relation `k` start.
pub open spec fn allen_arg_start(k: int) -> int {
    if k == 1 { 13 } else if k == 2 { 12 } else if k == 3 { 15 } else if k == 4 { 13 }
    else if k == 5 { 15 } else if k == 6 { 13 } else { 13 }
}

/// The Allen relation `k` over four cast-trimmed arguments.
pub open spec fn allen_of(k: int, a: Seq<char>, b: Seq<char>, c: Seq<char>, d: Seq<char>) -> crate::datalog::TemporalV {
    if k == 1 { crate::datalog::TemporalV::AllenBefore(a, b, c, d) }
    else if k == 2 { crate::datalog::TemporalV::AllenMeets(a, b, c, d) }
    else if k == 3 { crate::datalog::TemporalV::AllenOverlaps(a, b, c, d) }
    else if k == 4 { crate::datalog::TemporalV::AllenDuring(a, b, c, d) }
    else if k == 5 { crate::datalog::TemporalV::AllenFinishes(a, b, c, d) }
    else if k == 6 { crate::datalog::TemporalV::AllenStarts(a, b, c, d) }
    else { crate::datalog::TemporalV::AllenEquals(a, b, c, d) }
}

/// What [`try_parse_temporal_filter`] gives for `t`: `AFTER(ts)`,
/// `BEFORE(ts)`, `DURING(from, to)`, `WITHIN(s, p, o, d)`,
/// `SEQUENCE(s1, p1, o1, s2, p2, o2, w)`, `CONSECUTIVE(n, p, w)` and the
/// `ALLEN_*(a_start, a_end, b_start, b_end)` relations.
pub open spec fn temporal_spec(t: Seq<char>) -> Option<crate::datalog::TemporalV> {
    let closed = t.len() > 0 && t.last() == ')';
    if !closed {
        None
    } else if ci_prefix(t, "AFTER("@) {
        Some(crate::datalog::TemporalV::After(trim_cast(args_of(t, 6))))
    } else if ci_prefix(t, "BEFORE("@) {
        Some(crate::datalog::TemporalV::Before(trim_cast(args_of(t, 7))))
    } else if ci_prefix(t, "DURING("@) {
        let p = split_csv_spec(args_of(t, 7));
        if p.len() == 2 {
            Some(crate::datalog::TemporalV::During(trim_cast(p[0]), trim_cast(p[1])))
        } else {
            None
        }
    } else if ci_prefix(t, "WITHIN("@) {
        let p = split_csv_spec(args_of(t, 7));
        if p.len() == 4 { Some(crate::datalog::TemporalV::Within(trim_cast(p[3]))) } else { None }
    } else if ci_prefix(t, "SEQUENCE("@) {
        let p = split_csv_spec(args_of(t, 9));
        if p.len() == 7 {
            Some(
                crate::datalog::TemporalV::Sequence(
                    trim(p[0]),
                    trim(p[1]),
                    trim(p[2]),
                    trim(p[3]),
                    trim(p[4]),
                    trim(p[5]),
                    trim_cast(p[6]),
                ),
            )
        } else {
            None
        }
    } else if ci_prefix(t, "CONSECUTIVE("@) {
        let p = split_csv_spec(args_of(t, 12));
        if p.len() == 3 && parse_i64_spec(trim(p[0])) is Some {
            Some(
                crate::datalog::TemporalV::Consecutive(
                    parse_i64_spec(trim(p[0]))->0 as i64,
                    trim(p[1]),
                    trim_cast(p[2]),
                ),
            )
        } else {
            None
        }
    } else if allen_prefix(t) > 0 {
        let k = allen_prefix(t);
        let p = split_csv_spec(args_of(t, allen_arg_start(k)));
        if p.len() == 4 {
            Some(allen_of(k, trim_cast(p[0]), trim_cast(p[1]), trim_cast(p[2]), trim_cast(p[3])))
        } else {
            None
        }
    } else {
        None
    }
}

fn args_chars(t: &Vec<char>, k: usize) -> (r: Vec<char>)
    requires
        k < t@.len(),
    ensures
        r@ == args_of(t@, k as int),
{
    sub_chars(t, k, t.len() - 1)
}

fn trimmed_string(v: &Vec<char>) -> (r: String)
    ensures
        r@ == trim(v@),
{
    let t = trimmed(v);
    string_from_chars(&t)
}

/// Tries to parse a temporal filter literal.
pub fn try_parse_temporal_filter(t: &Vec<char>) -> (r: Option<TemporalFilter>)
    requires
        t@.len() < 0x7FFF_FFFF_FFFF_FFFF,
    ensures
        match r {
            Some(f) => temporal_spec(t@) == Some(f.deep_view()),
            None => temporal_spec(t@) is None,
        },
{
    proof {
        reveal_strlit("AFTER(");
        reveal_strlit("BEFORE(");
        reveal_strlit("DURING(");
        reveal_strlit("WITHIN(");
        reveal_strlit("SEQUENCE(");
        reveal_strlit("CONSECUTIVE(");
        reveal_strlit("ALLEN_BEFORE(");
        reveal_strlit("ALLEN_MEETS(");
        reveal_strlit("ALLEN_OVERLAPS(");
        reveal_strlit("ALLEN_DURING(");
        reveal_strlit("ALLEN_FINISHES(");
        reveal_strlit("ALLEN_STARTS(");
        reveal_strlit("ALLEN_EQUALS(");
    }
    let n = t.len();
    if !(n > 0 && t[n - 1] == ')') {
        return None;
    }
    if ci_starts_with(t, "AFTER(") {
        assert(ascii_upper(t@[5]) == '(');
        let a = args_chars(t, 6);
        return Some(TemporalFilter::After(trim_cast_chars(&a)));
    }
    if ci_starts_with(t, "BEFORE(") {
        assert(ascii_upper(t@[6]) == '(');
        let a = args_chars(t, 7);
        return Some(TemporalFilter::Before(trim_cast_chars(&a)));
    }
    if ci_starts_with(t, "DURING(") {
        assert(ascii_upper(t@[6]) == '(');
        let a = args_chars(t, 7);
        let p = split_csv(&a);
        let ghost dv = p.deep_view();
        if p.len() == 2 {
            assert(dv[0] == p@[0]@ && dv[1] == p@[1]@);
            return Some(TemporalFilter::During(trim_cast_chars(&p[0]), trim_cast_chars(&p[1])));
        }
        return None;
    }
    if ci_starts_with(t, "WITHIN(") {
        assert(ascii_upper(t@[6]) == '(');
        let a = args_chars(t, 7);
        let p = split_csv(&a);
        let ghost dv = p.deep_view();
        if p.len() == 4 {
            assert(dv[3] == p@[3]@);
            return Some(TemporalFilter::Within(trim_cast_chars(&p[3])));
        }
        return None;
    }
    if ci_starts_with(t, "SEQUENCE(") {
        assert(ascii_upper(t@[8]) == '(');
        let a = args_chars(t, 9);
        let p = split_csv(&a);
        let ghost dv = p.deep_view();
        if p.len() == 7 {
            assert(dv[0] == p@[0]@ && dv[1] == p@[1]@ && dv[2] == p@[2]@ && dv[3] == p@[3]@);
            assert(dv[4] == p@[4]@ && dv[5] == p@[5]@ && dv[6] == p@[6]@);
            return Some(
                TemporalFilter::Sequence(
                    trimmed_string(&p[0]),
                    trimmed_string(&p[1]),
                    trimmed_string(&p[2]),
                    trimmed_string(&p[3]),
                    trimmed_string(&p[4]),
                    trimmed_string(&p[5]),
                    trim_cast_chars(&p[6]),
                ),
            );
        }
        return None;
    }
    if ci_starts_with(t, "CONSECUTIVE(") {
        assert(ascii_upper(t@[11]) == '(');
        let a = args_chars(t, 12);
        let p = split_csv(&a);
        let ghost dv = p.deep_view();
        if p.len() == 3 {
            assert(dv[0] == p@[0]@ && dv[1] == p@[1]@ && dv[2] == p@[2]@);
            let n0 = trimmed(&p[0]);
            match parse_i64(&n0) {
                Some(k) => {
                    return Some(
                        TemporalFilter::Consecutive(k, trimmed_string(&p[1]), trim_cast_chars(&p[2])),
                    );
                },
                None => {},
            }
        }
        return None;
    }
    let k: u8 = if ci_starts_with(t, "ALLEN_BEFORE(") {
        1
    } else if ci_starts_with(t, "ALLEN_MEETS(") {
        2
    } else if ci_starts_with(t, "ALLEN_OVERLAPS(") {
        3
    } else if ci_starts_with(t, "ALLEN_DURING(") {
        4
    } else if ci_starts_with(t, "ALLEN_FINISHES(") {
        5
    } else if ci_starts_with(t, "ALLEN_STARTS(") {
        6
    } else if ci_starts_with(t, "ALLEN_EQUALS(") {
        7
    } else {
        0
    };
    if k == 0 {
        return None;
    }
    let start: usize = if k == 1 { 13 } else if k == 2 { 12 } else if k == 3 { 15 } else if k == 4 { 13 }
        else if k == 5 { 15 } else if k == 6 { 13 } else { 13 };
    proof {
        assert(ascii_upper(t@[start - 1]) == '(');
    }
    let a = args_chars(t, start);
    let p = split_csv(&a);
    let ghost dv = p.deep_view();
    if p.len() != 4 {
        return None;
    }
    assert(dv[0] == p@[0]@ && dv[1] == p@[1]@ && dv[2] == p@[2]@ && dv[3] == p@[3]@);
    let a0 = trim_cast_chars(&p[0]);
    let a1 = trim_cast_chars(&p[1]);
    let a2 = trim_cast_chars(&p[2]);
    let a3 = trim_cast_chars(&p[3]);
    if k == 1 {
        Some(TemporalFilter::AllenBefore(a0, a1, a2, a3))
    } else if k == 2 {
        Some(TemporalFilter::AllenMeets(a0, a1, a2, a3))
    } else if k == 3 {
        Some(TemporalFilter::AllenOverlaps(a0, a1, a2, a3))
    } else if k == 4 {
        Some(TemporalFilter::AllenDuring(a0, a1, a2, a3))
    } else if k == 5 {
        Some(TemporalFilter::AllenFinishes(a0, a1, a2, a3))
    } else if k == 6 {
        Some(TemporalFilter::AllenStarts(a0, a1, a2, a3))
    } else {
        Some(TemporalFilter::AllenEquals(a0, a1, a2, a3))
    }
}


// ─── Aggregates ──────────────────────────────────────────────────────────────

/// The position of the `)` that closes an aggregate, scanning from `i` at
/// bracket depth `depth`.
pub open spec fn close_paren_from(s: Seq<char>, i: int, depth: int) -> Option<int>
    decreases s.len() - i,
{
    if i < 0 || i >= s.len() {
        None
    } else if s[i] == '(' {
        close_paren_from(s, i + 1, depth + 1)
    } else if s[i] == ')' {
        if depth - 1 == 0 { Some(i) } else { close_paren_from(s, i + 1, depth - 1) }
    } else {
        close_paren_from(s, i + 1, depth)
    }
}

/// The aggregate function named by the prefix of `t`.
pub open spec fn agg_func_of(t: Seq<char>) -> Option<AggFunc> {
    if ci_prefix(t, "COUNT("@) { Some(AggFunc::Count) }
    else if ci_prefix(t, "SUM("@) { Some(AggFunc::Sum) }
    else if ci_prefix(t, "MIN("@) { Some(AggFunc::Min) }
    else if ci_prefix(t, "MAX("@) { Some(AggFunc::Max) }
    else if ci_prefix(t, "AVG("@) { Some(AggFunc::Avg) }
    else { None }
}

/// What [`try_parse_aggregate`] gives for `t`:
/// `FUNC(?aggVar WHERE s p o) = ?resultVar`.
pub open spec fn aggregate_spec(t: Seq<char>) -> Option<crate::datalog::AggregateV<ConstV>> {
    match agg_func_of(t) {
        None => None,
        Some(func) => {
            let ps = first_index(t, '(');
            let after = t.subrange(ps + 1, t.len() as int);
            let wp = crate::text::first_ci_occurrence(after, " WHERE "@);
            let av = trim(after.subrange(0, wp));
            if wp < 0 || !(av.len() > 0 && av[0] == '?') {
                None
            } else {
                let aw = after.subrange(wp + 7, after.len() as int);
                match close_paren_from(aw, 0, 1) {
                    None => None,
                    Some(cp) => match parse_atom_spec(trim(aw.subrange(0, cp))) {
                        Err(_) => None,
                        Ok(atom) => {
                            let ac = trim(aw.subrange(cp + 1, aw.len() as int));
                            let r1 = trim(ac.drop_first());
                            if !(ac.len() > 0 && ac[0] == '=') || !(r1.len() > 0 && r1[0] == '?') {
                                None
                            } else {
                                Some(
                                    crate::datalog::AggregateV {
                                        func,
                                        agg_var: av.drop_first(),
                                        atom,
                                        result_var: trim(r1.drop_first()),
                                    },
                                )
                            }
                        },
                    },
                }
            }
        },
    }
}

fn close_paren(s: &Vec<char>) -> (r: Option<usize>)
    requires
        s@.len() < 0x7FFF_FFFF_FFFF_FFFF,
    ensures
        match r {
            Some(p) => close_paren_from(s@, 0, 1) == Some(p as int) && p < s@.len(),
            None => close_paren_from(s@, 0, 1) is None,
        },
{
    let mut depth: i64 = 1;
    let mut i: usize = 0;
    while i < s.len()
        invariant
            i <= s@.len(),
            s@.len() < 0x7FFF_FFFF_FFFF_FFFF,
            1 <= depth <= i + 1,
            close_paren_from(s@, 0, 1) == close_paren_from(s@, i as int, depth as int),
        decreases s.len() - i,
    {
        if s[i] == '(' {
            depth = depth + 1;
        } else if s[i] == ')' {
            if depth - 1 == 0 {
                return Some(i);
            }
            depth = depth - 1;
        }
        i = i + 1;
    }
    None
}

/// Tries to parse an aggregate literal.
pub fn try_parse_aggregate(t: &Vec<char>) -> (r: Option<AggregateLiteral<ConstText>>)
    requires
        t@.len() < 0x7FFF_FFFF_FFFF_FFFF,
    ensures
        match r {
            Some(a) => aggregate_spec(t@) == Some(a.deep_view()),
            None => aggregate_spec(t@) is None,
        },
{
    proof {
        reveal_strlit("COUNT(");
        reveal_strlit("SUM(");
        reveal_strlit("MIN(");
        reveal_strlit("MAX(");
        reveal_strlit("AVG(");
        reveal_strlit(" WHERE ");
    }
    let func = if ci_starts_with(t, "COUNT(") {
        AggFunc::Count
    } else if ci_starts_with(t, "SUM(") {
        AggFunc::Sum
    } else if ci_starts_with(t, "MIN(") {
        AggFunc::Min
    } else if ci_starts_with(t, "MAX(") {
        AggFunc::Max
    } else if ci_starts_with(t, "AVG(") {
        AggFunc::Avg
    } else {
        return None;
    };
    let ps = find_char(t, '(');
    if ps < 0 {
        proof {
            assert(ascii_upper(t@[3]) == '(' || ascii_upper(t@[5]) == '(');
        }
        return None;
    }
    let after = sub_chars(t, (ps + 1) as usize, t.len());
    let wp = crate::text::find_ci(&after, " WHERE ");
    if wp < 0 {
        return None;
    }
    proof {
        let j = choose|j: int| crate::text::is_first_ci_occurrence(after@, " WHERE "@, j);
        assert(crate::text::is_first_ci_occurrence(after@, " WHERE "@, j));
    }
    let av0 = sub_chars(&after, 0, wp as usize);
    let av = trimmed(&av0);
    if !(av.len() > 0 && av[0] == '?') {
        return None;
    }
    let aw = sub_chars(&after, (wp + 7) as usize, after.len());
    let cp = match close_paren(&aw) {
        Some(p) => p,
        None => return None,
    };
    let atom_text0 = sub_chars(&aw, 0, cp);
    let atom_text = trimmed(&atom_text0);
    let atom = match parse_atom(&atom_text) {
        Ok(a) => a,
        Err(_) => return None,
    };
    let ac0 = sub_chars(&aw, cp + 1, aw.len());
    let ac = trimmed(&ac0);
    if !(ac.len() > 0 && ac[0] == '=') {
        return None;
    }
    let r0 = sub_chars(&ac, 1, ac.len());
    assert(r0@ =~= ac@.drop_first());
    let r1 = trimmed(&r0);
    if !(r1.len() > 0 && r1[0] == '?') {
        return None;
    }
    let r2 = sub_chars(&r1, 1, r1.len());
    assert(r2@ =~= r1@.drop_first());
    let v = sub_chars(&av, 1, av.len());
    assert(v@ =~= av@.drop_first());
    Some(AggregateLiteral {
        func,
        agg_var: string_from_chars(&v),
        atom,
        result_var: trimmed_string(&r2),
    })
}

// ─── String built-ins ────────────────────────────────────────────────────────

/// `rest` read as `OP rhs`: the operator before the first white space and the
/// trimmed text after it.
pub open spec fn op_rest_spec(rest: Seq<char>) -> Option<(CompareOp, Seq<char>)> {
    match crate::text::split_once_ws(rest) {
        None => None,
        Some((a, b)) => match compare_op_spec(a) {
            None => None,
            Some(op) => Some((op, trim(b))),
        },
    }
}

/// Reads `OP rhs`.
pub fn parse_compare_op_rest(rest: &Vec<char>) -> (r: Option<(CompareOp, Vec<char>)>)
    ensures
        match r {
            Some((op, rhs)) => op_rest_spec(rest@) == Some((op, rhs@)),
            None => op_rest_spec(rest@) is None,
        },
{
    match crate::text::split_once_whitespace(rest) {
        None => None,
        Some((a, b)) => match compare_op(&a) {
            None => None,
            Some(op) => Some((op, trimmed(&b))),
        },
    }
}

/// `s` with leading and trailing `"` removed (`trim_matches('"')`).
pub open spec fn strip_quotes(s: Seq<char>) -> Seq<char> {
    strip_trailing(strip_leading(s, '"'), '"')
}

/// The parts of a two-argument built-in `NAME(a, b) OP rhs` whose arguments
/// start at `k`.
#[verifier::opaque]
pub open spec fn two_arg_parts(t: Seq<char>, k: int) -> Option<(TermV<ConstV>, TermV<ConstV>, CompareOp, TermV<ConstV>)> {
    let after = t.subrange(k, t.len() as int);
    let ie0 = first_index(after, ')');
    if ie0 < 0 {
        None
    } else {
        let ie = ie0 + k;
        let parts = split_body_spec(t.subrange(k, ie));
        if parts.len() < 2 {
            None
        } else {
            match (term_of(trim(parts[0])), term_of(trim(parts[1])), op_rest_spec(trim(t.subrange(ie + 1, t.len() as int)))) {
                (Some(a), Some(b), Some((op, rs))) => match term_of(rs) {
                    Some(r) => Some((a, b, op, r)),
                    None => None,
                },
                _ => None,
            }
        }
    }
}

/// The parts of `pg:soundex(a) OP rhs`.
#[verifier::opaque]
pub open spec fn soundex_parts(t: Seq<char>) -> Option<(TermV<ConstV>, CompareOp, TermV<ConstV>)> {
    let after = t.subrange(11, t.len() as int);
    let ie0 = first_index(after, ')');
    if ie0 < 0 {
        None
    } else {
        let ie = ie0 + 11;
        match (term_of(trim(t.subrange(11, ie))), op_rest_spec(trim(t.subrange(ie + 1, t.len() as int)))) {
            (Some(a), Some((op, rs))) => match term_of(rs) {
                Some(r) => Some((a, op, r)),
                None => None,
            },
            _ => None,
        }
    }
}

/// The parts of `pg:metaphone(a, n) OP rhs`.
#[verifier::opaque]
pub open spec fn metaphone_parts(t: Seq<char>) -> Option<(TermV<ConstV>, i64, CompareOp, TermV<ConstV>)> {
    let after = t.subrange(13, t.len() as int);
    let ie0 = first_index(after, ')');
    if ie0 < 0 {
        None
    } else {
        let ie = ie0 + 13;
        let parts = split_body_spec(t.subrange(13, ie));
        if parts.len() < 2 {
            None
        } else {
            match (term_of(trim(parts[0])), parse_i64_spec(strip_quotes(trim(parts[1]))), op_rest_spec(trim(t.subrange(ie + 1, t.len() as int)))) {
                (Some(a), Some(n), Some((op, rs))) => match term_of(rs) {
                    Some(r) => Some((a, n as i64, op, r)),
                    None => None,
                },
                _ => None,
            }
        }
    }
}

/// The parts of `STRLEN(a) OP rhs`.
#[verifier::opaque]
pub open spec fn strlen_parts(t: Seq<char>) -> Option<(TermV<ConstV>, CompareOp, TermV<ConstV>)> {
    let ie = first_index(t, ')');
    if ie < 0 {
        None
    } else {
        match (term_of(trim(t.subrange(7, ie))), op_rest_spec(trim(t.subrange(ie + 1, t.len() as int)))) {
            (Some(a), Some((op, rs))) => match term_of(rs) {
                Some(r) => Some((a, op, r)),
                None => None,
            },
            _ => None,
        }
    }
}

/// The parts of `REGEX(a, "pattern")`.
#[verifier::opaque]
pub open spec fn regex_parts(t: Seq<char>) -> Option<(TermV<ConstV>, Seq<char>)> {
    let ie = crate::text::last_occurrence(t, seq![')']);
    if ie < 0 {
        None
    } else {
        let parts = split_body_spec(t.subrange(6, ie));
        if parts.len() < 2 {
            None
        } else {
            match term_of(trim(parts[0])) {
                Some(a) => Some((a, strip_quotes(trim(parts[1])))),
                None => None,
            }
        }
    }
}

/// What [`try_parse_string_builtin`] gives for `t`.
pub open spec fn string_builtin_spec(t: Seq<char>) -> Option<crate::datalog::BuiltinV<ConstV>> {
    if ci_prefix(t, "STRLEN("@) {
        match strlen_parts(t) {
            Some((a, op, r)) => Some(crate::datalog::BuiltinV::Strlen(a, op, r)),
            None => None,
        }
    } else if ci_prefix(t, "REGEX("@) {
        match regex_parts(t) {
            Some((a, p)) => Some(crate::datalog::BuiltinV::Regex(a, p)),
            None => None,
        }
    } else {
        pg_builtin_spec(t)
    }
}

/// What [`try_parse_string_builtin`] gives for a `pg:` similarity built-in.
pub open spec fn pg_builtin_spec(t: Seq<char>) -> Option<crate::datalog::BuiltinV<ConstV>> {
    if has_prefix(t, "pg:trigram_similarity("@) {
        match two_arg_parts(t, 22) {
            Some((a, b, op, r)) => Some(crate::datalog::BuiltinV::TrigramSimilarity(a, b, op, r)),
            None => None,
        }
    } else if has_prefix(t, "pg:levenshtein("@) {
        match two_arg_parts(t, 15) {
            Some((a, b, op, r)) => Some(crate::datalog::BuiltinV::Levenshtein(a, b, op, r)),
            None => None,
        }
    } else if has_prefix(t, "pg:soundex("@) {
        match soundex_parts(t) {
            Some((a, op, r)) => Some(crate::datalog::BuiltinV::Soundex(a, op, r)),
            None => None,
        }
    } else if has_prefix(t, "pg:metaphone("@) {
        match metaphone_parts(t) {
            Some((a, n, op, r)) => Some(crate::datalog::BuiltinV::Metaphone(a, n, op, r)),
            None => None,
        }
    } else if has_prefix(t, "pg:jaro_winkler("@) {
        match two_arg_parts(t, 16) {
            Some((a, b, op, r)) => Some(crate::datalog::BuiltinV::JaroWinkler(a, b, op, r)),
            None => None,
        }
    } else if has_prefix(t, "pg:dice_similarity("@) {
        match two_arg_parts(t, 19) {
            Some((a, b, op, r)) => Some(crate::datalog::BuiltinV::DiceSimilarity(a, b, op, r)),
            None => None,
        }
    } else {
        None
    }
}

pub fn strip_quotes_chars(s: &Vec<char>) -> (r: Vec<char>)
    ensures
        r@ == strip_quotes(s@),
{
    let a = strip_leading_chars(s, '"');
    strip_trailing_chars(&a, '"')
}

fn two_arg(t: &Vec<char>, k: usize) -> (r: Option<(Term<ConstText>, Term<ConstText>, CompareOp, Term<ConstText>)>)
    requires
        k <= t@.len() < 0x7FFF_FFFF_FFFF_FFFF,
    ensures
        match r {
            Some((a, b, op, c)) => two_arg_parts(t@, k as int) == Some((a.deep_view(), b.deep_view(), op, c.deep_view())),
            None => two_arg_parts(t@, k as int) is None,
        },
{
    proof {
        reveal(two_arg_parts);
    }
    let after = sub_chars(t, k, t.len());
    let ie0 = find_char(&after, ')');
    if ie0 < 0 {
        return None;
    }
    let ie = (ie0 as usize) + k;
    let inner = sub_chars(t, k, ie);
    let parts = split_body_chars(&inner);
    let ghost dv = parts.deep_view();
    if parts.len() < 2 {
        return None;
    }
    assert(dv[0] == parts@[0]@ && dv[1] == parts@[1]@);
    let p0 = trimmed(&parts[0]);
    let p1 = trimmed(&parts[1]);
    let rest0 = sub_chars(t, ie + 1, t.len());
    let rest = trimmed(&rest0);
    let a = term_opt(&p0);
    let b = term_opt(&p1);
    let orr = parse_compare_op_rest(&rest);
    match (a, b, orr) {
        (Some(a), Some(b), Some((op, rs))) => match term_opt(&rs) {
            Some(c) => Some((a, b, op, c)),
            None => None,
        },
        _ => None,
    }
}

fn strlen_builtin(t: &Vec<char>) -> (r: Option<(Term<ConstText>, CompareOp, Term<ConstText>)>)
    requires
        7 <= t@.len() < 0x7FFF_FFFF_FFFF_FFFF,
        ci_prefix(t@, "STRLEN("@),
    ensures
        match r {
            Some((a, op, c)) => strlen_parts(t@) == Some((a.deep_view(), op, c.deep_view())),
            None => strlen_parts(t@) is None,
        },
{
    proof {
        reveal(strlen_parts);
    }
    proof {
        reveal_strlit("STRLEN(");
    }
    let ie = find_char(t, ')');
    if ie < 0 {
        return None;
    }
    proof {
        let j = choose|j: int| crate::text::is_first_index(t@, ')', j);
        assert(crate::text::is_first_index(t@, ')', j));
        assert(ascii_upper(t@[6]) == '(');
        if ie < 7 {
            assert(ascii_upper(t@[ie as int]) == "STRLEN("@[ie as int]);
            assert(t@[ie as int] == ')');
            assert(false);
        }
    }
    let n = t.len();
    assert(7 <= ie < n);
    let inner0 = sub_chars(t, 7, ie as usize);
    let inner = trimmed(&inner0);
    let rest0 = sub_chars(t, (ie + 1) as usize, t.len());
    let rest = trimmed(&rest0);
    let a = term_opt(&inner);
    let orr = parse_compare_op_rest(&rest);
    match (a, orr) {
        (Some(a), Some((op, rs))) => match term_opt(&rs) {
            Some(c) => Some((a, op, c)),
            None => None,
        },
        _ => None,
    }
}

fn regex_builtin(t: &Vec<char>) -> (r: Option<(Term<ConstText>, Vec<char>)>)
    requires
        6 <= t@.len() < 0x7FFF_FFFF_FFFF_FFFF,
        ci_prefix(t@, "REGEX("@),
    ensures
        match r {
            Some((a, p)) => regex_parts(t@) == Some((a.deep_view(), p@)),
            None => regex_parts(t@) is None,
        },
{
    proof {
        reveal(regex_parts);
    }
    proof {
        reveal_strlit("REGEX(");
    }
    let close = vec![')'];
    assert(close@ =~= seq![')']);
    let ie = crate::text::rfind_chars(t, &close);
    if ie < 0 {
        return None;
    }
    proof {
        let j = choose|j: int| crate::text::is_last_occurrence(t@, seq![')'], j);
        assert(crate::text::is_last_occurrence(t@, seq![')'], j));
        assert(ascii_upper(t@[5]) == '(');
        assert(t@.subrange(ie as int, ie + 1)[0] == ')');
        if ie < 6 {
            assert(ascii_upper(t@[ie as int]) == "REGEX("@[ie as int]);
            assert(t@[ie as int] == ')');
            assert(false);
        }
    }
    let n = t.len();
    assert(6 <= ie < n);
    let inner = sub_chars(t, 6, ie as usize);
    let parts = split_body_chars(&inner);
    let ghost dv = parts.deep_view();
    if parts.len() < 2 {
        return None;
    }
    assert(dv[0] == parts@[0]@ && dv[1] == parts@[1]@);
    let p0 = trimmed(&parts[0]);
    let p1 = trimmed(&parts[1]);
    match term_opt(&p0) {
        Some(a) => Some((a, strip_quotes_chars(&p1))),
        None => None,
    }
}

fn soundex_builtin(t: &Vec<char>) -> (r: Option<(Term<ConstText>, CompareOp, Term<ConstText>)>)
    requires
        11 <= t@.len() < 0x7FFF_FFFF_FFFF_FFFF,
    ensures
        match r {
            Some((a, op, c)) => soundex_parts(t@) == Some((a.deep_view(), op, c.deep_view())),
            None => soundex_parts(t@) is None,
        },
{
    proof {
        reveal(soundex_parts);
    }
    let after = sub_chars(t, 11, t.len());
    let ie0 = find_char(&after, ')');
    if ie0 < 0 {
        return None;
    }
    let ie = (ie0 as usize) + 11;
    let inner0 = sub_chars(t, 11, ie);
    let inner = trimmed(&inner0);
    let rest0 = sub_chars(t, ie + 1, t.len());
    let rest = trimmed(&rest0);
    let a = term_opt(&inner);
    let orr = parse_compare_op_rest(&rest);
    match (a, orr) {
        (Some(a), Some((op, rs))) => match term_opt(&rs) {
            Some(c) => Some((a, op, c)),
            None => None,
        },
        _ => None,
    }
}

fn metaphone_builtin(t: &Vec<char>) -> (r: Option<(Term<ConstText>, i64, CompareOp, Term<ConstText>)>)
    requires
        13 <= t@.len() < 0x7FFF_FFFF_FFFF_FFFF,
    ensures
        match r {
            Some((a, n, op, c)) => metaphone_parts(t@) == Some((a.deep_view(), n, op, c.deep_view())),
            None => metaphone_parts(t@) is None,
        },
{
    proof {
        reveal(metaphone_parts);
    }
    let after = sub_chars(t, 13, t.len());
    let ie0 = find_char(&after, ')');
    if ie0 < 0 {
        return None;
    }
    let ie = (ie0 as usize) + 13;
    let inner = sub_chars(t, 13, ie);
    let parts = split_body_chars(&inner);
    let ghost dv = parts.deep_view();
    if parts.len() < 2 {
        return None;
    }
    assert(dv[0] == parts@[0]@ && dv[1] == parts@[1]@);
    let p0 = trimmed(&parts[0]);
    let p1 = trimmed(&parts[1]);
    let nq = strip_quotes_chars(&p1);
    let rest0 = sub_chars(t, ie + 1, t.len());
    let rest = trimmed(&rest0);
    let a = term_opt(&p0);
    let n = parse_i64(&nq);
    let orr = parse_compare_op_rest(&rest);
    match (a, n, orr) {
        (Some(a), Some(n), Some((op, rs))) => match term_opt(&rs) {
            Some(c) => Some((a, n, op, c)),
            None => None,
        },
        _ => None,
    }
}

fn pg_builtin(t: &Vec<char>) -> (r: Option<BodyLiteral<ConstText>>)
    requires
        t@.len() < 0x7FFF_FFFF_FFFF_FFFF,
    ensures
        match r {
            Some(l) => pg_builtin_spec(t@) matches Some(b) && l.deep_view() == LiteralV::StringBuiltin(b),
            None => pg_builtin_spec(t@) is None,
        },
{
    proof {
        reveal_strlit("pg:trigram_similarity(");
        reveal_strlit("pg:levenshtein(");
        reveal_strlit("pg:soundex(");
        reveal_strlit("pg:metaphone(");
        reveal_strlit("pg:jaro_winkler(");
        reveal_strlit("pg:dice_similarity(");
    }
    if starts_with_str(t, "pg:trigram_similarity(") {
        return match two_arg(t, 22) {
            Some((a, b, op, c)) => Some(BodyLiteral::StringBuiltin(StringBuiltin::TrigramSimilarity(a, b, op, c))),
            None => None,
        };
    }
    if starts_with_str(t, "pg:levenshtein(") {
        return match two_arg(t, 15) {
            Some((a, b, op, c)) => Some(BodyLiteral::StringBuiltin(StringBuiltin::Levenshtein(a, b, op, c))),
            None => None,
        };
    }
    if starts_with_str(t, "pg:soundex(") {
        return match soundex_builtin(t) {
            Some((a, op, c)) => Some(BodyLiteral::StringBuiltin(StringBuiltin::Soundex(a, op, c))),
            None => None,
        };
    }
    if starts_with_str(t, "pg:metaphone(") {
        return match metaphone_builtin(t) {
            Some((a, n, op, c)) => Some(BodyLiteral::StringBuiltin(StringBuiltin::Metaphone(a, n, op, c))),
            None => None,
        };
    }
    if starts_with_str(t, "pg:jaro_winkler(") {
        return match two_arg(t, 16) {
            Some((a, b, op, c)) => Some(BodyLiteral::StringBuiltin(StringBuiltin::JaroWinkler(a, b, op, c))),
            None => None,
        };
    }
    if starts_with_str(t, "pg:dice_similarity(") {
        return match two_arg(t, 19) {
            Some((a, b, op, c)) => Some(BodyLiteral::StringBuiltin(StringBuiltin::DiceSimilarity(a, b, op, c))),
            None => None,
        };
    }
    None
}

/// Tries to parse a string built-in (`STRLEN`, `REGEX`, `pg:…` similarity functions).
pub fn try_parse_string_builtin(t: &Vec<char>) -> (r: Option<BodyLiteral<ConstText>>)
    requires
        t@.len() < 0x7FFF_FFFF_FFFF_FFFF,
    ensures
        match r {
            Some(l) => string_builtin_spec(t@) matches Some(b) && l.deep_view() == LiteralV::StringBuiltin(b),
            None => string_builtin_spec(t@) is None,
        },
{
    proof {
        reveal_strlit("STRLEN(");
        reveal_strlit("REGEX(");
    }
    if ci_starts_with(t, "STRLEN(") {
        return match strlen_builtin(t) {
            Some((a, op, c)) => Some(BodyLiteral::StringBuiltin(StringBuiltin::Strlen(a, op, c))),
            None => None,
        };
    }
    if ci_starts_with(t, "REGEX(") {
        return match regex_builtin(t) {
            Some((a, p)) => Some(BodyLiteral::StringBuiltin(StringBuiltin::Regex(a, string_from_chars(&p)))),
            None => None,
        };
    }
    pg_builtin(t)
}


// ─── Body literals ───────────────────────────────────────────────────────────

/// What [`parse_body_literal`] gives for `s`: the first reading that applies,
/// in the order negation, temporal filter, aggregate, assignment, comparison,
/// string built-in, positive atom.
#[verifier::opaque]
pub open spec fn body_literal_spec(s: Seq<char>) -> Result<LiteralV<ConstV>, Seq<char>> {
    let t = trim(s);
    if has_prefix(t, "NOT"@) {
        match parse_atom_spec(trim_start(t.subrange(3, t.len() as int))) {
            Ok(a) => Ok(LiteralV::Negated(a)),
            Err(e) => Err(e),
        }
    } else if temporal_spec(t) is Some {
        Ok(LiteralV::TemporalFilter(temporal_spec(t)->0))
    } else if aggregate_spec(t) is Some {
        Ok(LiteralV::Aggregate(aggregate_spec(t)->0))
    } else if assign_spec(t) is Some {
        Ok(assign_spec(t)->0)
    } else if comparison_spec(t) is Some {
        Ok(comparison_spec(t)->0)
    } else if string_builtin_spec(t) is Some {
        Ok(LiteralV::StringBuiltin(string_builtin_spec(t)->0))
    } else {
        match parse_atom_spec(t) {
            Ok(a) => Ok(LiteralV::Positive(a)),
            Err(e) => Err(e),
        }
    }
}

/// Parses one body literal.
pub fn parse_body_literal(s: &Vec<char>) -> (r: Result<BodyLiteral<ConstText>, String>)
    requires
        s@.len() < 0x7FFF_FFFF_FFFF_FFFF,
    ensures
        match r {
            Ok(l) => body_literal_spec(s@) == Ok::<_, Seq<char>>(l.deep_view()),
            Err(e) => body_literal_spec(s@) == Err::<LiteralV<ConstV>, _>(e@),
        },
{
    proof {
        reveal_strlit("NOT");
        reveal(body_literal_spec);
    }
    let t = trimmed(s);
    if starts_with_str(&t, "NOT") {
        let rest0 = sub_chars(&t, 3, t.len());
        let rest = trimmed_start(&rest0);
        return match parse_atom(&rest) {
            Ok(a) => Ok(BodyLiteral::Negated(a)),
            Err(e) => Err(e),
        };
    }
    if let Some(f) = try_parse_temporal_filter(&t) {
        return Ok(BodyLiteral::TemporalFilter(f));
    }
    if let Some(a) = try_parse_aggregate(&t) {
        return Ok(BodyLiteral::Aggregate(a));
    }
    if let Some(l) = try_parse_assign(&t) {
        return Ok(l);
    }
    if let Some(l) = try_parse_comparison(&t) {
        return Ok(l);
    }
    if let Some(l) = try_parse_string_builtin(&t) {
        return Ok(l);
    }
    proof {
        lemma_trim_idempotent(s@);
    }
    match parse_atom(&t) {
        Ok(a) => Ok(BodyLiteral::Positive(a)),
        Err(e) => Err(e),
    }
}

/// The literals of the body parts `parts`, in order, empty parts skipped;
/// the error of the first part that does not parse.
pub open spec fn literals_of(parts: Seq<Seq<char>>) -> Result<Seq<LiteralV<ConstV>>, Seq<char>>
    decreases parts.len(),
{
    if parts.len() == 0 {
        Ok(Seq::empty())
    } else {
        match literals_of(parts.drop_last()) {
            Err(e) => Err(e),
            Ok(ls) => {
                let p = trim(parts.last());
                if p.len() == 0 {
                    Ok(ls)
                } else {
                    match body_literal_spec(p) {
                        Ok(l) => Ok(ls.push(l)),
                        Err(e) => Err(e),
                    }
                }
            },
        }
    }
}

/// What [`parse_body`] gives for `s`.
pub open spec fn body_spec(s: Seq<char>) -> Result<Seq<LiteralV<ConstV>>, Seq<char>> {
    literals_of(split_body_spec(s))
}

/// Parses a rule body: comma-separated literals.
pub fn parse_body(s: &Vec<char>) -> (r: Result<Vec<BodyLiteral<ConstText>>, String>)
    requires
        s@.len() < 0x7FFF_FFFF_FFFF_FFFF,
    ensures
        match r {
            Ok(b) => body_spec(s@) == Ok::<_, Seq<char>>(b.deep_view()),
            Err(e) => body_spec(s@) == Err::<Seq<LiteralV<ConstV>>, _>(e@),
        },
{
    let parts = split_body_chars(s);
    let ghost dv = parts.deep_view();
    let mut body: Vec<BodyLiteral<ConstText>> = Vec::new();
    let mut i: usize = 0;
    assert(dv.subrange(0, 0) =~= Seq::<Seq<char>>::empty());
    assert(body.deep_view() =~= Seq::<LiteralV<ConstV>>::empty());
    assert(literals_of(dv.subrange(0, 0)) == Ok::<_, Seq<char>>(Seq::<LiteralV<ConstV>>::empty()));
    while i < parts.len()
        invariant
            i <= parts@.len(),
            s@.len() < 0x7FFF_FFFF_FFFF_FFFF,
            dv == parts.deep_view(),
            dv == split_body_spec(s@),
            forall|k: int| 0 <= k < parts@.len() ==> #[trigger] parts@[k]@.len() <= s@.len(),
            literals_of(dv.subrange(0, i as int)) == Ok::<_, Seq<char>>(body.deep_view()),
        decreases parts.len() - i,
    {
        let ghost pre = dv.subrange(0, i as int);
        assert(dv.subrange(0, i + 1).drop_last() =~= pre);
        assert(dv[i as int] == parts@[i as int]@);
        let p = trimmed(&parts[i]);
        if p.len() > 0 {
            match parse_body_literal(&p) {
                Ok(l) => {
                    let ghost old_b = body.deep_view();
                    body.push(l);
                    assert(body.deep_view() =~= old_b.push(l.deep_view()));
                },
                Err(e) => {
                    proof {
                        lemma_trim_idempotent(parts@[i as int]@);
                        lemma_literals_err_prefix(dv, i as int + 1);
                    }
                    return Err(e);
                },
            }
        }
        proof {
            lemma_trim_idempotent(parts@[i as int]@);
        }
        i = i + 1;
    }
    assert(dv.subrange(0, dv.len() as int) =~= dv);
    Ok(body)
}

/// An error among the first `n` parts is the error of all of them.
proof fn lemma_literals_err_prefix(parts: Seq<Seq<char>>, n: int)
    requires
        0 <= n <= parts.len(),
        literals_of(parts.subrange(0, n)) is Err,
    ensures
        literals_of(parts) == literals_of(parts.subrange(0, n)),
    decreases parts.len() - n,
{
    if n < parts.len() {
        lemma_literals_err_prefix_step(parts, n);
        lemma_literals_err_prefix(parts, n + 1);
    } else {
        assert(parts.subrange(0, n) =~= parts);
    }
}

proof fn lemma_literals_err_prefix_step(parts: Seq<Seq<char>>, n: int)
    requires
        0 <= n < parts.len(),
        literals_of(parts.subrange(0, n)) is Err,
    ensures
        literals_of(parts.subrange(0, n + 1)) == literals_of(parts.subrange(0, n)),
{
    assert(parts.subrange(0, n + 1).drop_last() =~= parts.subrange(0, n));
}


// ─── Rules ───────────────────────────────────────────────────────────────────

/// A rule text split into the text before its last `@weight(` and the
/// trimmed text between that `@weight(` and the next `)`; the whole text
/// and no weight when there is no such annotation.
pub open spec fn weight_split(s: Seq<char>) -> (Seq<char>, Option<Seq<char>>) {
    let pos = last_occurrence(s, "@weight("@);
    if pos < 0 {
        (s, None)
    } else {
        let ann = s.subrange(pos, s.len() as int);
        let end = first_index(ann, ')');
        if end < 0 {
            (s, None)
        } else {
            (s.subrange(0, pos), Some(trim(ann.subrange(8, end))))
        }
    }
}

/// Splits an `@weight(...)` annotation off a rule text.
pub fn extract_weight_annotation(s: &Vec<char>) -> (r: (Vec<char>, Option<Vec<char>>))
    requires
        s@.len() < 0x7FFF_FFFF_FFFF_FFFF,
    ensures
        r.0@ == weight_split(s@).0,
        r.0@.len() <= s@.len(),
        match r.1 {
            Some(w) => weight_split(s@).1 == Some(w@),
            None => weight_split(s@).1 is None,
        },
{
    proof {
        reveal_strlit("@weight(");
    }
    let pat = str_chars("@weight(");
    let pos = rfind_chars(s, &pat);
    assert(s@.subrange(0, s@.len() as int) =~= s@);
    if pos < 0 {
        return (sub_chars(s, 0, s.len()), None);
    }
    proof {
        let j = choose|j: int| crate::text::is_last_occurrence(s@, "@weight("@, j);
        assert(crate::text::is_last_occurrence(s@, "@weight("@, j));
    }
    let ann = sub_chars(s, pos as usize, s.len());
    let end = find_char(&ann, ')');
    if end < 0 {
        return (sub_chars(s, 0, s.len()), None);
    }
    proof {
        let j = choose|j: int| crate::text::is_first_index(ann@, ')', j);
        assert(crate::text::is_first_index(ann@, ')', j));
        assert(s@.subrange(pos as int, pos + 8) == "@weight("@);
        if end < 8 {
            assert(ann@[end as int] == s@.subrange(pos as int, pos + 8)[end as int]);
        }
    }
    let inner = sub_chars(&ann, 8, end as usize);
    (sub_chars(s, 0, pos as usize), Some(trimmed(&inner)))
}

/// What [`parse_rule`] gives for `s`: a constraint when the text (weight
/// annotation removed) starts with `:-`, else a head atom and a body either
/// side of the first `:-`.
#[verifier::opaque]
pub open spec fn parse_rule_spec(s: Seq<char>) -> Result<RuleV<ConstV>, Seq<char>> {
    let body = weight_split(s).0;
    let weight = weight_split(s).1;
    let rule_text = trim(body) + " ."@;
    let ts = trim_start(body);
    if has_prefix(ts, ":-"@) {
        match body_spec(trim(ts.subrange(2, ts.len() as int))) {
            Ok(b) => Ok(RuleV { head: None, body: b, rule_text, weight }),
            Err(e) => Err(e),
        }
    } else {
        match find_neck_spec(body) {
            None => Err(missing_neck_message(body)),
            Some(sep) => match parse_atom_spec(trim(body.subrange(0, sep))) {
                Err(e) => Err(e),
                Ok(h) => match body_spec(trim(body.subrange(sep + 2, body.len() as int))) {
                    Err(e) => Err(e),
                    Ok(b) => Ok(RuleV { head: Some(h), body: b, rule_text, weight }),
                },
            },
        }
    }
}

/// Parses one rule (its text without the closing `.`).
pub fn parse_rule(s: &Vec<char>) -> (r: Result<Rule<ConstText>, String>)
    requires
        s@.len() < 0x7FFF_FFFF_FFFF_FFFF,
    ensures
        match r {
            Ok(rule) => parse_rule_spec(s@) == Ok::<_, Seq<char>>(rule.deep_view()),
            Err(e) => parse_rule_spec(s@) == Err::<RuleV<ConstV>, _>(e@),
        },
{
    proof {
        reveal(parse_rule_spec);
        reveal_strlit(" .");
        reveal_strlit(":-");
    }
    let (body, weight) = extract_weight_annotation(s);
    let wt = match weight {
        Some(w) => Some(string_from_chars(&w)),
        None => None,
    };
    let mut rule_text = string_from_chars(&trimmed(&body));
    rule_text.append(" .");
    let ts = trimmed_start(&body);
    if starts_with_str(&ts, ":-") {
        let bt0 = sub_chars(&ts, 2, ts.len());
        let bt = trimmed(&bt0);
        return match parse_body(&bt) {
            Ok(b) => Ok(Rule { head: None, body: b, rule_text, weight: wt }),
            Err(e) => Err(e),
        };
    }
    let sep = match find_neck_chars(&body) {
        Some(p) => p,
        None => return Err(message_with("missing ':-' in rule: ", &body)),
    };
    let n = body.len();
    assert(sep + 2 <= n);
    let ht0 = sub_chars(&body, 0, sep);
    let ht = trimmed(&ht0);
    let bt0 = sub_chars(&body, sep + 2, body.len());
    let bt = trimmed(&bt0);
    let head = match parse_atom(&ht) {
        Ok(h) => h,
        Err(e) => return Err(e),
    };
    match parse_body(&bt) {
        Ok(b) => Ok(Rule { head: Some(head), body: b, rule_text, weight: wt }),
        Err(e) => Err(e),
    }
}

/// `parts` joined with `sep` between them.
pub open spec fn join_with(parts: Seq<Seq<char>>, sep: Seq<char>) -> Seq<char>
    decreases parts.len(),
{
    if parts.len() == 0 {
        Seq::empty()
    } else if parts.len() == 1 {
        parts[0]
    } else {
        join_with(parts.drop_last(), sep) + sep + parts.last()
    }
}

/// The rules parsed from the rule texts `lines`, and the errors, each as
/// `line N: message` with `N` counted from 1; blank texts and those starting
/// with `#` skipped.
pub open spec fn rules_acc(lines: Seq<Seq<char>>) -> (Seq<RuleV<ConstV>>, Seq<Seq<char>>)
    decreases lines.len(),
{
    if lines.len() == 0 {
        (Seq::empty(), Seq::empty())
    } else {
        let prev = rules_acc(lines.drop_last());
        let line = trim(lines.last());
        if line.len() == 0 || line[0] == '#' {
            prev
        } else {
            match parse_rule_spec(line) {
                Ok(r) => (prev.0.push(r), prev.1),
                Err(e) => (prev.0, prev.1.push("line "@ + int_decimal(lines.len() as int) + ": "@ + e)),
            }
        }
    }
}

/// What [`parse_rules`] gives: every rule of the text, or all errors joined
/// with `; `.
pub open spec fn parse_rules_spec(text: Seq<char>, name: Seq<char>) -> Result<RuleSetV<ConstV>, Seq<char>> {
    let (rs, es) = rules_acc(tokenize_rules_spec(text));
    if es.len() > 0 {
        Err(join_with(es, "; "@))
    } else {
        Ok(RuleSetV { name, rules: rs })
    }
}

/// Parses Datalog rule text into a rule set named `rule_set_name`.
pub fn parse_rules(text: &str, rule_set_name: &str) -> (r: Result<RuleSet<ConstText>, String>)
    requires
        text@.len() < 0x7FFF_FFFF_FFFF_FFFF,
    ensures
        match r {
            Ok(rs) => parse_rules_spec(text@, rule_set_name@) == Ok::<_, Seq<char>>(rs.deep_view()),
            Err(e) => parse_rules_spec(text@, rule_set_name@) == Err::<RuleSetV<ConstV>, _>(e@),
        },
{
    let lines = tokenize_rules(text);
    let ghost dv = lines.deep_view();
    let mut rules: Vec<Rule<ConstText>> = Vec::new();
    let mut errors: Vec<String> = Vec::new();
    let mut i: usize = 0;
    assert(dv.subrange(0, 0) =~= Seq::<Seq<char>>::empty());
    assert(rules.deep_view() =~= Seq::<RuleV<ConstV>>::empty());
    assert(errors.deep_view() =~= Seq::<Seq<char>>::empty());
    while i < lines.len()
        invariant
            i <= lines@.len(),
            dv == lines.deep_view(),
            dv == tokenize_rules_spec(text@),
            text@.len() < 0x7FFF_FFFF_FFFF_FFFF,
            forall|k: int| 0 <= k < dv.len() ==> #[trigger] dv[k].len() <= text@.len(),
            rules_acc(dv.subrange(0, i as int)) == (rules.deep_view(), errors.deep_view()),
        decreases lines.len() - i,
    {
        assert(dv.subrange(0, i + 1).drop_last() =~= dv.subrange(0, i as int));
        assert(dv[i as int] == lines@[i as int]@);
        let cs = str_chars(lines[i].as_str());
        let line = trimmed(&cs);
        if line.len() == 0 || line[0] == '#' {
        } else {
            match parse_rule(&line) {
                Ok(rule) => {
                    let ghost old_r = rules.deep_view();
                    rules.push(rule);
                    assert(rules.deep_view() =~= old_r.push(rule.deep_view()));
                },
                Err(e) => {
                    let mut m = String::from_str("line ");
                    push_u64_digits(&mut m, (i + 1) as u64);
                    m.append(": ");
                    m.append(e.as_str());
                    proof {
                        reveal_strlit("line ");
                        reveal_strlit(": ");
                        assert(m@ =~= "line "@ + int_decimal((i + 1) as int) + ": "@ + e@);
                    }
                    push_string(&mut errors, m);
                },
            }
        }
        i = i + 1;
    }
    assert(dv.subrange(0, dv.len() as int) =~= dv);
    if errors.len() > 0 {
        return Err(join_strings(&errors, "; "));
    }
    Ok(RuleSet { name: String::from_str(rule_set_name), rules })
}

/// The strings of `parts` joined with `sep`.
pub fn join_strings(parts: &Vec<String>, sep: &str) -> (r: String)
    ensures
        r@ == join_with(parts.deep_view(), sep@),
{
    let ghost dv = parts.deep_view();
    let mut out = String::new();
    let mut i: usize = 0;
    assert(out@ =~= join_with(dv.subrange(0, 0), sep@));
    while i < parts.len()
        invariant
            i <= parts@.len(),
            dv == parts.deep_view(),
            out@ == join_with(dv.subrange(0, i as int), sep@),
        decreases parts.len() - i,
    {
        assert(dv.subrange(0, i + 1).drop_last() =~= dv.subrange(0, i as int));
        assert(dv[i as int] == parts@[i as int]@);
        if i > 0 {
            out.append(sep);
        }
        out.append(parts[i].as_str());
        proof {
            if i == 0 {
                assert(dv.subrange(0, 1)[0] == dv[0]);
            }
        }
        i = i + 1;
    }
    assert(dv.subrange(0, dv.len() as int) =~= dv);
    out
}

// ─── Bare numbers ────────────────────────────────────────────────────────────

proof fn lemma_trim_digits(t: Seq<char>)
    requires
        t.len() > 0,
        crate::text::is_digit(t[0]),
        crate::text::is_digit(t.last()),
    ensures
        trim(t) == t,
{
    assert(!crate::text::is_ws(t[0]));
    assert(!crate::text::is_ws(t.last()));
    assert(crate::text::trim_start(t) == t);
    assert(crate::text::trim_end(t) == t);
}

/// A bare run of decimal digits is an `xsd:integer` literal with that text.
pub proof fn law_bare_integer_is_xsd_integer(t: Seq<char>)
    requires
        t.len() > 0,
        forall|k: int| 0 <= k < t.len() ==> '0' <= #[trigger] t[k] <= '9',
    ensures
        parse_term_spec(t) == Ok::<TermV<ConstV>, Seq<char>>(
            TermV::Const(ConstV::Number(t, "http://www.w3.org/2001/XMLSchema#integer"@)),
        ),
{
    lemma_trim_digits(t);
    assert(strip_signs(t) == t);
    assert(!has_prefix(t, seq!['_', ':']));
    assert(!t.contains('.')) by {
        if t.contains('.') {
            let k = choose|k: int| 0 <= k < t.len() && t[k] == '.';
            assert('0' <= t[k] <= '9');
        }
    }
    assert(!t.contains(' ')) by {
        if t.contains(' ') {
            let k = choose|k: int| 0 <= k < t.len() && t[k] == ' ';
            assert('0' <= t[k] <= '9');
        }
    }
}

/// Digits, a `.`, and digits again form an `xsd:decimal` literal with that
/// text.
pub proof fn law_bare_decimal_is_xsd_decimal(whole: Seq<char>, frac: Seq<char>)
    requires
        whole.len() > 0,
        frac.len() > 0,
        forall|k: int| 0 <= k < whole.len() ==> '0' <= #[trigger] whole[k] <= '9',
        forall|k: int| 0 <= k < frac.len() ==> '0' <= #[trigger] frac[k] <= '9',
    ensures
        parse_term_spec(whole + seq!['.'] + frac) == Ok::<TermV<ConstV>, Seq<char>>(
            TermV::Const(ConstV::Number(whole + seq!['.'] + frac, "http://www.w3.org/2001/XMLSchema#decimal"@)),
        ),
{
    let t = whole + seq!['.'] + frac;
    assert(t[0] == whole[0]);
    assert(t.last() == frac.last());
    assert(frac.last() == frac[frac.len() - 1]);
    lemma_trim_digits(t);
    assert(strip_signs(t) == t);
    assert(!has_prefix(t, seq!['_', ':']));
    assert(t[whole.len() as int] == '.');
    assert(t.contains('.'));
    assert(!t.contains(' ')) by {
        if t.contains(' ') {
            let k = choose|k: int| 0 <= k < t.len() && t[k] == ' ';
            if k < whole.len() {
                assert(t[k] == whole[k]);
            } else if k > whole.len() {
                assert(t[k] == frac[k - whole.len() - 1]);
            }
        }
    }
    assert forall|k: int| 0 <= k < strip_signs(t).len() implies crate::text::is_digit(
        #[trigger] strip_signs(t)[k],
    ) || strip_signs(t)[k] == '.' by {
        if k < whole.len() {
            assert(t[k] == whole[k]);
        } else if k > whole.len() {
            assert(t[k] == frac[k - whole.len() - 1]);
        }
    }
}

} // verus!
