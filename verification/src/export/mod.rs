//! Serialisation of stored triples to N-Triples, N-Quads and Turtle.
//!
//! The caller reads the triples and decodes their dictionary IDs into
//! N-Triples term text; this module validates blank-node labels, groups the
//! triples and writes the documents.

pub mod jsonld;
pub mod turtle;

use vstd::prelude::*;
use crate::text::{
    digit_char, has_prefix, lines_spec, nat_digits, push_u64_digits, split_lines, str_chars, string_from_chars,
    string_views, sub_chars,
};

verus! {

// ─── Blank node labels ───────────────────────────────────────────────────────

/// The XXH3 64-bit hash of the UTF-8 bytes of `s`.
pub uninterp spec fn xxh3_of(s: Seq<char>) -> u64;

/// Hashes the UTF-8 bytes of `s` with `xxhash_rust::xxh3::xxh3_64`.
#[verifier::external_body]
pub(crate) fn xxh3_64_of_str(s: &str) -> (h: u64)
    ensures
        h == xxh3_of(s@),
{
    xxhash_rust::xxh3::xxh3_64(s.as_bytes())
}

/// An ASCII letter or digit.
pub open spec fn is_ascii_alnum(c: char) -> bool {
    ('a' <= c && c <= 'z') || ('A' <= c && c <= 'Z') || ('0' <= c && c <= '9')
}

/// `label` matches `[A-Za-z0-9_][A-Za-z0-9_.\-]*`.
pub open spec fn is_valid_bnode_label(label: Seq<char>) -> bool {
    &&& label.len() > 0
    &&& (is_ascii_alnum(label[0]) || label[0] == '_')
    &&& forall|i: int| 1 <= i < label.len() ==> is_ascii_alnum(#[trigger] label[i]) || label[i] == '_'
        || label[i] == '.' || label[i] == '-'
}

/// A blank node `_:label` with a conformant label unchanged, else `_:b` and
/// the hash of the label (of the whole term for an empty label).
pub open spec fn bnode_spec(nt: Seq<char>) -> Seq<char> {
    let label = nt.subrange(2, nt.len() as int);
    if label.len() == 0 {
        "_:b"@ + nat_digits(xxh3_of(nt) as nat)
    } else if is_valid_bnode_label(label) {
        nt
    } else {
        "_:b"@ + nat_digits(xxh3_of(label) as nat)
    }
}

fn is_label_char(c: char, first: bool) -> (b: bool)
    ensures
        b == (is_ascii_alnum(c) || c == '_' || (!first && (c == '.' || c == '-'))),
{
    ('a' <= c && c <= 'z') || ('A' <= c && c <= 'Z') || ('0' <= c && c <= '9') || c == '_' || (!first && (
    c == '.' || c == '-'))
}

/// Checks a blank node label against the N-Triples `BLANK_NODE_LABEL`
/// production and replaces a non-conformant one by a hash-based label.
pub fn validate_bnode_label(nt: &str) -> (r: String)
    requires
        has_prefix(nt@, "_:"@),
    ensures
        r@ == bnode_spec(nt@),
{
    proof {
        reveal_strlit("_:");
    }
    let s = str_chars(nt);
    let lab = sub_chars(&s, 2, s.len());
    let label = string_from_chars(&lab);
    if lab.len() == 0 {
        let mut m = String::from_str("_:b");
        push_u64_digits(&mut m, xxh3_64_of_str(nt));
        return m;
    }
    let mut ok = is_label_char(lab[0], true);
    let mut i: usize = 1;
    while i < lab.len() && ok
        invariant
            1 <= i <= lab@.len(),
            label@ == lab@,
            lab@ == nt@.subrange(2, nt@.len() as int),
            ok == (is_ascii_alnum(lab@[0]) || lab@[0] == '_'),
            forall|j: int| 1 <= j < i ==> is_ascii_alnum(#[trigger] lab@[j]) || lab@[j] == '_' || lab@[j] == '.'
                || lab@[j] == '-',
        decreases lab.len() - i,
    {
        if !is_label_char(lab[i], false) {
            proof {
                assert(!is_valid_bnode_label(lab@));
            }
            let mut m = String::from_str("_:b");
            push_u64_digits(&mut m, xxh3_64_of_str(label.as_str()));
            return m;
        }
        i = i + 1;
    }
    if ok {
        string_from_chars(&s)
    } else {
        let mut m = String::from_str("_:b");
        push_u64_digits(&mut m, xxh3_64_of_str(label.as_str()));
        m
    }
}

proof fn lemma_digits_ascii(n: nat)
    ensures
        forall|i: int| 0 <= i < nat_digits(n).len() ==> '0' <= #[trigger] nat_digits(n)[i] <= '9',
    decreases n,
{
    let d = digit_char(n % 10);
    assert('0' <= d <= '9');
    if n >= 10 {
        lemma_digits_ascii(n / 10);
        let p = nat_digits(n / 10);
        assert forall|i: int| 0 <= i < nat_digits(n).len() implies '0' <= #[trigger] nat_digits(n)[i] <= '9' by {
            if i < p.len() {
                assert(nat_digits(n)[i] == p[i]);
            }
        }
    }
}

/// A label the dictionary encoder writes, `b` and decimal digits, passes
/// the check unchanged.
pub proof fn law_encoder_labels_unchanged(n: nat)
    ensures
        bnode_spec("_:b"@ + nat_digits(n)) == "_:b"@ + nat_digits(n),
{
    reveal_strlit("_:b");
    lemma_digits_ascii(n);
    let t = "_:b"@ + nat_digits(n);
    assert(t.subrange(2, t.len() as int) =~= seq!['b'] + nat_digits(n));
}

/// Every blank node the check lets through has a conformant label, and the
/// check leaves its own output unchanged.
pub proof fn law_bnode_output_conformant(nt: Seq<char>)
    requires
        has_prefix(nt, "_:"@),
    ensures
        has_prefix(bnode_spec(nt), "_:"@),
        is_valid_bnode_label(bnode_spec(nt).subrange(2, bnode_spec(nt).len() as int)),
        bnode_spec(bnode_spec(nt)) == bnode_spec(nt),
{
    reveal_strlit("_:");
    reveal_strlit("_:b");
    let label = nt.subrange(2, nt.len() as int);
    if label.len() != 0 && is_valid_bnode_label(label) {
        assert(nt.subrange(0, 2) =~= "_:"@);
    } else {
        let h = if label.len() == 0 { xxh3_of(nt) as nat } else { xxh3_of(label) as nat };
        law_encoder_labels_unchanged(h);
        lemma_digits_ascii(h);
        let t = "_:b"@ + nat_digits(h);
        assert(t.subrange(0, 2) =~= "_:"@);
        assert(t.subrange(2, t.len() as int) =~= seq!['b'] + nat_digits(h));
    }
}

/// An N-Triples term as exported: blank nodes through [`validate_bnode_label`].
pub open spec fn safe_term_spec(raw: Seq<char>) -> Seq<char> {
    if has_prefix(raw, "_:"@) { bnode_spec(raw) } else { raw }
}

/// Formats a decoded N-Triples term for export, validating blank-node labels.
pub fn safe_nt_term(raw: &str) -> (r: String)
    ensures
        r@ == safe_term_spec(raw@),
{
    let s = str_chars(raw);
    let p = str_chars("_:");
    if crate::text::starts_with(&s, &p) {
        validate_bnode_label(raw)
    } else {
        string_from_chars(&s)
    }
}

/// Converts an N-Triples term to Turtle: IRIs, blank nodes, literals and
/// quoted triples are all written the same way in both.
pub fn nt_term_to_turtle(nt: &str) -> (r: String)
    ensures
        r@ == nt@,
{
    String::from_str(nt)
}

/// A graph argument without its angle brackets, when it has both.
pub open spec fn graph_iri_spec(g: Seq<char>) -> Seq<char> {
    if g.len() >= 2 && g[0] == '<' && g.last() == '>' { g.subrange(1, g.len() - 1) } else { g }
}

/// The IRI named by a graph argument `<iri>` or `iri`.
pub fn graph_iri(g: &str) -> (r: String)
    ensures
        r@ == graph_iri_spec(g@),
{
    let s = str_chars(g);
    let n = s.len();
    if n >= 2 && s[0] == '<' && s[n - 1] == '>' {
        let inner = sub_chars(&s, 1, n - 1);
        return string_from_chars(&inner);
    }
    string_from_chars(&s)
}

// ─── N-Triples and N-Quads ───────────────────────────────────────────────────

/// A triple with its terms decoded to N-Triples text.
#[derive(Debug)]
pub struct TripleText {
    pub s: String,
    pub p: String,
    pub o: String,
}

/// A quad with its terms decoded; `g` is the graph term's text, used when
/// `g_id` names a graph (is positive).
#[derive(Debug)]
pub struct QuadText {
    pub s: String,
    pub p: String,
    pub o: String,
    pub g_id: i64,
    pub g: String,
}

/// One N-Triples line.
pub open spec fn ntriples_line(s: Seq<char>, p: Seq<char>, o: Seq<char>) -> Seq<char> {
    safe_term_spec(s) + " "@ + p + " "@ + safe_term_spec(o) + " .\n"@
}

/// The N-Triples document of `rows`.
pub open spec fn ntriples_doc(rows: Seq<(Seq<char>, Seq<char>, Seq<char>)>) -> Seq<char>
    decreases rows.len(),
{
    if rows.len() == 0 {
        Seq::empty()
    } else {
        ntriples_doc(rows.drop_last()) + ntriples_line(rows.last().0, rows.last().1, rows.last().2)
    }
}

/// One N-Quads line: the graph term follows when the graph is a named one.
pub open spec fn nquads_line(s: Seq<char>, p: Seq<char>, o: Seq<char>, g_id: i64, g: Seq<char>) -> Seq<char> {
    safe_term_spec(s) + " "@ + p + " "@ + safe_term_spec(o) + (if g_id > 0 { " "@ + g } else { Seq::empty() })
        + " .\n"@
}

/// The N-Quads document of `rows`.
pub open spec fn nquads_doc(rows: Seq<(Seq<char>, Seq<char>, Seq<char>, i64, Seq<char>)>) -> Seq<char>
    decreases rows.len(),
{
    if rows.len() == 0 {
        Seq::empty()
    } else {
        nquads_doc(rows.drop_last()) + nquads_line(
            rows.last().0,
            rows.last().1,
            rows.last().2,
            rows.last().3,
            rows.last().4,
        )
    }
}

/// The rows as text triples.
pub open spec fn triple_views(rows: Seq<TripleText>) -> Seq<(Seq<char>, Seq<char>, Seq<char>)> {
    Seq::new(rows.len(), |i: int| (rows[i].s@, rows[i].p@, rows[i].o@))
}

/// The rows as text quads.
pub open spec fn quad_views(rows: Seq<QuadText>) -> Seq<(Seq<char>, Seq<char>, Seq<char>, i64, Seq<char>)> {
    Seq::new(rows.len(), |i: int| (rows[i].s@, rows[i].p@, rows[i].o@, rows[i].g_id, rows[i].g@))
}

/// Writes triples as N-Triples, one line each.
pub fn export_ntriples(rows: &Vec<TripleText>) -> (r: String)
    ensures
        r@ == ntriples_doc(triple_views(rows@)),
{
    let mut out = String::new();
    let mut i: usize = 0;
    while i < rows.len()
        invariant
            i <= rows@.len(),
            out@ == ntriples_doc(triple_views(rows@).subrange(0, i as int)),
        decreases rows.len() - i,
    {
        let row = &rows[i];
        let s = safe_nt_term(row.s.as_str());
        let o = safe_nt_term(row.o.as_str());
        out.append(s.as_str());
        out.append(" ");
        out.append(row.p.as_str());
        out.append(" ");
        out.append(o.as_str());
        out.append(" .\n");
        proof {
            let v = triple_views(rows@);
            assert(v.subrange(0, i + 1).drop_last() =~= v.subrange(0, i as int));
            assert(v.subrange(0, i + 1).last() == (row.s@, row.p@, row.o@));
        }
        i = i + 1;
    }
    assert(triple_views(rows@).subrange(0, rows@.len() as int) =~= triple_views(rows@));
    out
}

/// The N-Quads line of one quad.
fn nquads_line_of(row: &QuadText) -> (r: String)
    ensures
        r@ == nquads_line(row.s@, row.p@, row.o@, row.g_id, row.g@),
{
    let mut out = safe_nt_term(row.s.as_str());
    let o = safe_nt_term(row.o.as_str());
    out.append(" ");
    out.append(row.p.as_str());
    out.append(" ");
    out.append(o.as_str());
    if row.g_id > 0 {
        out.append(" ");
        out.append(row.g.as_str());
    }
    out.append(" .\n");
    out
}

/// Writes quads as N-Quads, one line each; the graph term is written for
/// named graphs only.
pub fn export_nquads(rows: &Vec<QuadText>) -> (r: String)
    ensures
        r@ == nquads_doc(quad_views(rows@)),
{
    let mut out = String::new();
    let mut i: usize = 0;
    while i < rows.len()
        invariant
            i <= rows@.len(),
            out@ == nquads_doc(quad_views(rows@).subrange(0, i as int)),
        decreases rows.len() - i,
    {
        let line = nquads_line_of(&rows[i]);
        out.append(line.as_str());
        proof {
            let v = quad_views(rows@);
            assert(v.subrange(0, i + 1).drop_last() =~= v.subrange(0, i as int));
        }
        i = i + 1;
    }
    assert(quad_views(rows@).subrange(0, rows@.len() as int) =~= quad_views(rows@));
    out
}

// ─── Turtle prefixes and the streaming Turtle export ─────────────────────────

/// One `@prefix` declaration.
pub open spec fn prefix_line(prefix: Seq<char>, expansion: Seq<char>) -> Seq<char> {
    "@prefix "@ + prefix + ": <"@ + expansion + "> .\n"@
}

/// The declarations of `ps`, in order.
pub open spec fn prefix_lines(ps: Seq<(Seq<char>, Seq<char>)>) -> Seq<char>
    decreases ps.len(),
{
    if ps.len() == 0 {
        Seq::empty()
    } else {
        prefix_lines(ps.drop_last()) + prefix_line(ps.last().0, ps.last().1)
    }
}

/// The prefix block of a Turtle document: the declarations, then an empty
/// line when there is at least one.
pub open spec fn prefix_block(ps: Seq<(Seq<char>, Seq<char>)>) -> Seq<char> {
    prefix_lines(ps) + (if ps.len() > 0 { "\n"@ } else { Seq::empty() })
}

/// The registry rows `(prefix, expansion)` as text pairs.
pub open spec fn prefix_views(ps: Seq<(String, String)>) -> Seq<(Seq<char>, Seq<char>)> {
    Seq::new(ps.len(), |i: int| (ps[i].0@, ps[i].1@))
}

/// Writes the `@prefix` declarations for the registry rows `prefixes`
/// (ordered by prefix by the caller).
pub fn emit_turtle_prefixes(prefixes: &Vec<(String, String)>) -> (r: String)
    ensures
        r@ == prefix_block(prefix_views(prefixes@)),
{
    let mut out = String::new();
    let mut i: usize = 0;
    while i < prefixes.len()
        invariant
            i <= prefixes@.len(),
            out@ == prefix_lines(prefix_views(prefixes@).subrange(0, i as int)),
        decreases prefixes.len() - i,
    {
        let (p, e) = &prefixes[i];
        out.append("@prefix ");
        out.append(p.as_str());
        out.append(": <");
        out.append(e.as_str());
        out.append("> .\n");
        proof {
            let v = prefix_views(prefixes@);
            assert(v.subrange(0, i + 1).drop_last() =~= v.subrange(0, i as int));
        }
        i = i + 1;
    }
    assert(prefix_views(prefixes@).subrange(0, prefixes@.len() as int) =~= prefix_views(prefixes@));
    if prefixes.len() > 0 {
        out.append("\n");
    }
    out
}

/// One triple of the streaming Turtle export.
pub open spec fn turtle_stream_line(s: Seq<char>, p: Seq<char>, o: Seq<char>) -> Seq<char> {
    s + " "@ + p + " "@ + o + " ."@
}

/// The streaming Turtle lines of `rows`.
pub open spec fn turtle_stream_lines(rows: Seq<(Seq<char>, Seq<char>, Seq<char>)>) -> Seq<Seq<char>> {
    Seq::new(rows.len(), |i: int| turtle_stream_line(rows[i].0, rows[i].1, rows[i].2))
}

/// Streaming Turtle export: the lines of the prefix block, then one
/// `s p o .` line per triple.
pub fn export_turtle_stream(prefixes: &Vec<(String, String)>, rows: &Vec<TripleText>) -> (r: Vec<String>)
    ensures
        string_views(r@) == lines_spec(prefix_block(prefix_views(prefixes@))) + turtle_stream_lines(
            triple_views(rows@),
        ),
{
    let block = emit_turtle_prefixes(prefixes);
    let mut lines = split_lines(block.as_str());
    let ghost head = string_views(lines@);
    let mut i: usize = 0;
    while i < rows.len()
        invariant
            i <= rows@.len(),
            string_views(lines@) == head + turtle_stream_lines(triple_views(rows@)).subrange(0, i as int),
        decreases rows.len() - i,
    {
        let row = &rows[i];
        let mut line = nt_term_to_turtle(row.s.as_str());
        line.append(" ");
        line.append(nt_term_to_turtle(row.p.as_str()).as_str());
        line.append(" ");
        line.append(nt_term_to_turtle(row.o.as_str()).as_str());
        line.append(" .");
        let ghost before = string_views(lines@);
        lines.push(line);
        proof {
            assert(string_views(lines@) =~= before.push(line@));
            let t = turtle_stream_lines(triple_views(rows@));
            assert(t.subrange(0, i + 1) =~= t.subrange(0, i as int).push(line@));
            assert(head + t.subrange(0, i + 1) =~= (head + t.subrange(0, i as int)).push(line@));
        }
        i = i + 1;
    }
    assert(turtle_stream_lines(triple_views(rows@)).subrange(0, rows@.len() as int) =~= turtle_stream_lines(
        triple_views(rows@),
    ));
    lines
}

} // verus!
