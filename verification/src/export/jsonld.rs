//! JSON-LD (expanded form) of N-Triples rows.
//!
//! A document is one node object per subject, in text order of the subjects;
//! within a node, one property per predicate in text order, holding the value
//! objects of that subject and predicate in row order.  The nodes are built
//! here as plain values; turning them into JSON text is the caller's part.

use vstd::prelude::*;
use super::turtle::{
    id_lt, insert_id, keyed_views, lemma_ordered_keys_members, lemma_with_predicate_nonempty,
    lemma_with_subject_nonempty, predicate_ids, ranked_rows, ranked_views, rows_with_subject, sorted_ids,
    sorted_subject_ids, subject_ids, text_triples, with_predicate, with_subject, KeyedTriple, KeyedView,
};
use crate::text::{replace_all, replace_chars, str_chars, string_from_chars, sub_chars};

verus! {

/// A JSON-LD value object.
#[derive(Debug)]
pub enum JsonLdValue {
    /// `{"@id": iri}`: an IRI or a blank node.
    Id(String),
    /// `{"@value": value}`, with `"@type"` and `"@language"` where present.
    Literal { value: String, datatype: Option<String>, language: Option<String> },
}

/// View of a [`JsonLdValue`].
pub enum JsonLdValueV {
    Id(Seq<char>),
    Literal(Seq<char>, Option<Seq<char>>, Option<Seq<char>>),
}

/// One node object: its `@id`, then its properties with their values.
#[derive(Debug)]
pub struct JsonLdNode {
    pub id: String,
    pub properties: Vec<(String, Vec<JsonLdValue>)>,
}

/// View of a [`JsonLdNode`].
pub struct JsonLdNodeV {
    pub id: Seq<char>,
    pub properties: Seq<(Seq<char>, Seq<JsonLdValueV>)>,
}

/// The text of an optional string.
pub open spec fn opt_text(o: Option<String>) -> Option<Seq<char>> {
    match o {
        Some(s) => Some(s@),
        None => None,
    }
}

impl DeepView for JsonLdValue {
    type V = JsonLdValueV;

    open spec fn deep_view(&self) -> JsonLdValueV {
        match self {
            JsonLdValue::Id(i) => JsonLdValueV::Id(i@),
            JsonLdValue::Literal { value, datatype, language } => JsonLdValueV::Literal(
                value@,
                opt_text(*datatype),
                opt_text(*language),
            ),
        }
    }
}

impl DeepView for JsonLdNode {
    type V = JsonLdNodeV;

    open spec fn deep_view(&self) -> JsonLdNodeV {
        JsonLdNodeV { id: self.id@, properties: self.properties.deep_view() }
    }
}

// ─── One term as a value object ──────────────────────────────────────────────

/// The position that ends the quoted part of a literal scanned from `i`: the
/// first unescaped `"`, or past the end; a backslash skips the next
/// character.
pub open spec fn quote_end(s: Seq<char>, i: int) -> int
    decreases s.len() + 1 - i,
    when i >= 0
{
    if i >= s.len() {
        i
    } else if s[i] == '\\' {
        quote_end(s, i + 2)
    } else if s[i] == '"' {
        i
    } else {
        quote_end(s, i + 1)
    }
}

/// A literal's value with the escapes `\"`, `\\`, `\n`, `\r`, `\t` undone, in
/// that order, each over the whole text.
pub open spec fn unescape_value(raw: Seq<char>) -> Seq<char> {
    replace_all(
        replace_all(
            replace_all(
                replace_all(replace_all(raw, seq!['\\', '"'], seq!['"']), seq!['\\', '\\'], seq!['\\']),
                seq!['\\', 'n'],
                seq!['\n'],
            ),
            seq!['\\', 'r'],
            seq!['\r'],
        ),
        seq!['\\', 't'],
        seq!['\t'],
    )
}

/// `s` up to its first `c`, or all of it.
pub open spec fn upto_char(s: Seq<char>, c: char) -> Seq<char>
    decreases s.len(),
{
    if s.len() == 0 {
        Seq::empty()
    } else if s[0] == c {
        Seq::empty()
    } else {
        seq![s[0]] + upto_char(s.drop_first(), c)
    }
}

/// A term text that is an IRI in angle brackets.
pub open spec fn is_bracketed(t: Seq<char>) -> bool {
    t.len() > 0 && t[0] == '<' && t.last() == '>'
}

/// A term text without its angle brackets, if it has them.
pub open spec fn strip_angles(t: Seq<char>) -> Seq<char> {
    if is_bracketed(t) {
        t.subrange(1, t.len() - 1)
    } else {
        t
    }
}

/// A literal term text whose quoted part runs past its end (an escaping
/// backslash as its last character): the one term that has no value object.
pub open spec fn overruns(nt: Seq<char>) -> bool {
    nt.len() > 0 && nt[0] == '"' && quote_end(nt, 1) > nt.len()
}

/// The value object of an N-Triples term: a quoted triple as a string value
/// of type `rdf:Statement`; an IRI or blank node as `@id`; a literal as its
/// unescaped value with its datatype or language; anything else as a plain
/// value.
pub open spec fn jsonld_value_spec(nt: Seq<char>) -> JsonLdValueV {
    if nt.len() >= 2 && nt[0] == '<' && nt[1] == '<' {
        JsonLdValueV::Literal(nt, Some(seq!['r', 'd', 'f', ':', 'S', 't', 'a', 't', 'e', 'm', 'e', 'n', 't']), None)
    } else if is_bracketed(nt) {
        JsonLdValueV::Id(nt.subrange(1, nt.len() - 1))
    } else if nt.len() >= 2 && nt[0] == '_' && nt[1] == ':' {
        JsonLdValueV::Id(nt)
    } else if nt.len() > 0 && nt[0] == '"' {
        let e = quote_end(nt, 1);
        let value = unescape_value(nt.subrange(1, e));
        let rest = if e + 1 < nt.len() {
            nt.subrange(e + 1, nt.len() as int)
        } else {
            Seq::empty()
        };
        if rest.len() >= 3 && rest[0] == '^' && rest[1] == '^' && rest[2] == '<' {
            JsonLdValueV::Literal(value, Some(upto_char(rest.subrange(3, rest.len() as int), '>')), None)
        } else if rest.len() >= 1 && rest[0] == '@' {
            JsonLdValueV::Literal(value, None, Some(rest.subrange(1, rest.len() as int)))
        } else {
            JsonLdValueV::Literal(value, None, None)
        }
    } else {
        JsonLdValueV::Literal(nt, None, None)
    }
}

fn quote_end_exec(s: &Vec<char>) -> (e: usize)
    requires
        s@.len() > 0,
        quote_end(s@, 1) <= s@.len(),
    ensures
        e == quote_end(s@, 1),
        1 <= e <= s@.len(),
{
    let mut i: usize = 1;
    while i < s.len() && s[i] != '"'
        invariant
            1 <= i,
            quote_end(s@, i as int) == quote_end(s@, 1),
            quote_end(s@, 1) <= s@.len(),
            i <= s@.len(),
        decreases s@.len() - i,
    {
        if s[i] == '\\' {
            if i + 1 >= s.len() {
                assert(quote_end(s@, i + 2) == i + 2);
                assert(false);
            }
            i = i + 2;
        } else {
            i = i + 1;
        }
    }
    i
}

fn upto_char_exec(s: &Vec<char>, from: usize, c: char) -> (r: Vec<char>)
    requires
        from <= s@.len(),
    ensures
        r@ == upto_char(s@.subrange(from as int, s@.len() as int), c),
{
    let mut i: usize = from;
    while i < s.len() && s[i] != c
        invariant
            from <= i <= s@.len(),
            forall|k: int| from <= k < i ==> s@[k] != c,
        decreases s@.len() - i,
    {
        i = i + 1;
    }
    proof {
        lemma_upto_char(s@, from as int, i as int, c);
    }
    sub_chars(s, from, i)
}

proof fn lemma_upto_char(s: Seq<char>, from: int, i: int, c: char)
    requires
        0 <= from <= i <= s.len(),
        forall|k: int| from <= k < i ==> s[k] != c,
        i == s.len() || s[i] == c,
    ensures
        upto_char(s.subrange(from, s.len() as int), c) == s.subrange(from, i),
    decreases i - from,
{
    let t = s.subrange(from, s.len() as int);
    if from == i {
        assert(s.subrange(from, i) =~= Seq::<char>::empty());
    } else {
        lemma_upto_char(s, from + 1, i, c);
        assert(t.drop_first() =~= s.subrange(from + 1, s.len() as int));
        assert(s.subrange(from, i) =~= seq![s[from]] + s.subrange(from + 1, i));
    }
}

fn unescape_value_exec(raw: &Vec<char>) -> (r: Vec<char>)
    ensures
        r@ == unescape_value(raw@),
{
    let p1 = vec!['\\', '"'];
    let r1 = vec!['"'];
    let p2 = vec!['\\', '\\'];
    let r2 = vec!['\\'];
    let p3 = vec!['\\', 'n'];
    let r3 = vec!['\n'];
    let p4 = vec!['\\', 'r'];
    let r4 = vec!['\r'];
    let p5 = vec!['\\', 't'];
    let r5 = vec!['\t'];
    assert(p1@ =~= seq!['\\', '"'] && r1@ =~= seq!['"']);
    assert(p2@ =~= seq!['\\', '\\'] && r2@ =~= seq!['\\']);
    assert(p3@ =~= seq!['\\', 'n'] && r3@ =~= seq!['\n']);
    assert(p4@ =~= seq!['\\', 'r'] && r4@ =~= seq!['\r']);
    assert(p5@ =~= seq!['\\', 't'] && r5@ =~= seq!['\t']);
    let a = replace_chars(raw, &p1, &r1);
    let b = replace_chars(&a, &p2, &r2);
    let c = replace_chars(&b, &p3, &r3);
    let d = replace_chars(&c, &p4, &r4);
    replace_chars(&d, &p5, &r5)
}

/// The JSON-LD value object of an N-Triples term.
pub fn nt_term_to_jsonld_value(nt: &str) -> (r: JsonLdValue)
    requires
        !overruns(nt@),
    ensures
        r.deep_view() == jsonld_value_spec(nt@),
{
    let s = str_chars(nt);
    let n = s.len();
    if n >= 2 && s[0] == '<' && s[1] == '<' {
        let mut ty = String::new();
        ty.append("rdf:Statement");
        proof {
            reveal_strlit("rdf:Statement");
        }
        assert(ty@ =~= seq!['r', 'd', 'f', ':', 'S', 't', 'a', 't', 'e', 'm', 'e', 'n', 't']);
        return JsonLdValue::Literal { value: nt.to_string(), datatype: Some(ty), language: None };
    }
    if n > 0 && s[0] == '<' && s[n - 1] == '>' {
        return JsonLdValue::Id(string_from_chars(&sub_chars(&s, 1, n - 1)));
    }
    if n >= 2 && s[0] == '_' && s[1] == ':' {
        return JsonLdValue::Id(nt.to_string());
    }
    if n > 0 && s[0] == '"' {
        let e = quote_end_exec(&s);
        let value = string_from_chars(&unescape_value_exec(&sub_chars(&s, 1, e)));
        let rest: Vec<char> = if n - e > 1 {
            sub_chars(&s, e + 1, n)
        } else {
            Vec::new()
        };
        let m = rest.len();
        if m >= 3 && rest[0] == '^' && rest[1] == '^' && rest[2] == '<' {
            let dt = string_from_chars(&upto_char_exec(&rest, 3, '>'));
            return JsonLdValue::Literal { value, datatype: Some(dt), language: None };
        } else if m >= 1 && rest[0] == '@' {
            let lang = string_from_chars(&sub_chars(&rest, 1, m));
            return JsonLdValue::Literal { value, datatype: None, language: Some(lang) };
        } else {
            return JsonLdValue::Literal { value, datatype: None, language: None };
        }
    }
    JsonLdValue::Literal { value: nt.to_string(), datatype: None, language: None }
}


/// Whether `nt` has a value object: every term but a literal whose quoted
/// part runs past its end.
pub fn has_value_object(nt: &str) -> (b: bool)
    ensures
        b == !overruns(nt@),
{
    let s = str_chars(nt);
    if s.len() == 0 || s[0] != '"' {
        return true;
    }
    let mut i: usize = 1;
    while i < s.len() && s[i] != '"'
        invariant
            1 <= i <= s@.len(),
            quote_end(s@, i as int) == quote_end(s@, 1),
            s@ == nt@,
            s@[0] == '"',
        decreases s@.len() - i,
    {
        if s[i] == '\\' {
            if i + 1 >= s.len() {
                assert(quote_end(s@, i + 2) == i + 2);
                assert(quote_end(s@, i as int) == quote_end(s@, i + 2));
                return false;
            }
            i = i + 2;
        } else {
            i = i + 1;
        }
    }
    true
}

// ─── Grouping rows into nodes ────────────────────────────────────────────────

/// The value objects of a group of rows, in row order.
pub open spec fn jsonld_objects(g: Seq<KeyedView>) -> Seq<JsonLdValueV> {
    Seq::new(g.len(), |k: int| jsonld_value_spec(g[k].4))
}

/// The property of one predicate's rows: its key (the predicate without
/// angle brackets) and its value objects.
pub open spec fn jsonld_property(g: Seq<KeyedView>) -> (Seq<char>, Seq<JsonLdValueV>) {
    (strip_angles(g[0].3), jsonld_objects(g))
}

/// The node of one subject's rows: its `@id` (the subject without angle
/// brackets) and one property per predicate in ascending key order.
pub open spec fn jsonld_node(f: Seq<KeyedView>) -> JsonLdNodeV {
    let pks = sorted_ids(predicate_ids(f));
    JsonLdNodeV {
        id: strip_angles(f[0].1),
        properties: Seq::new(pks.len(), |j: int| jsonld_property(with_predicate(f, pks[j]))),
    }
}

/// The document of keyed rows: one node per subject in ascending key order.
pub open spec fn jsonld_document(rv: Seq<KeyedView>) -> Seq<JsonLdNodeV> {
    let sks = sorted_ids(subject_ids(rv));
    Seq::new(sks.len(), |i: int| jsonld_node(with_subject(rv, sks[i])))
}

/// No object of the rows overruns its quotes.
pub open spec fn objects_convertible(rv: Seq<KeyedView>) -> bool {
    forall|i: int| 0 <= i < rv.len() ==> !overruns(#[trigger] rv[i].4)
}

fn strip_angles_exec(t: &str) -> (r: String)
    ensures
        r@ == strip_angles(t@),
{
    let s = str_chars(t);
    let n = s.len();
    if n > 0 && s[0] == '<' && s[n - 1] == '>' {
        string_from_chars(&sub_chars(&s, 1, n - 1))
    } else {
        t.to_string()
    }
}

fn property_of(rows: &Vec<KeyedTriple>, sel: &Vec<usize>, Ghost(f): Ghost<Seq<KeyedView>>, pk: i64) -> (r: (
    String,
    Vec<JsonLdValue>,
))
    requires
        sel@.len() == f.len(),
        forall|j: int|
            0 <= j < sel@.len() ==> (#[trigger] sel@[j]) < rows@.len() && keyed_views(rows@)[sel@[j] as int]
                == f[j],
        with_predicate(f, pk).len() > 0,
        objects_convertible(f),
    ensures
        r.deep_view() == jsonld_property(with_predicate(f, pk)),
{
    let mut objs: Vec<JsonLdValue> = Vec::new();
    let mut key = String::new();
    let mut j: usize = 0;
    while j < sel.len()
        invariant
            j <= sel@.len(),
            sel@.len() == f.len(),
            forall|q: int|
                0 <= q < sel@.len() ==> (#[trigger] sel@[q]) < rows@.len() && keyed_views(rows@)[sel@[q] as int]
                    == f[q],
            objects_convertible(f),
            objs.deep_view() == jsonld_objects(with_predicate(f.take(j as int), pk)),
            objs.deep_view().len() > 0 ==> key@ == strip_angles(with_predicate(f.take(j as int), pk)[0].3),
        decreases sel.len() - j,
    {
        let ghost g = with_predicate(f.take(j as int), pk);
        proof {
            assert(f.take(j + 1).drop_last() =~= f.take(j as int));
            assert(f.take(j + 1).last() == f[j as int]);
        }
        let row = &rows[sel[j]];
        if row.p_id == pk {
            let ghost g1 = with_predicate(f.take(j + 1), pk);
            assert(g1 == g.push(f[j as int]));
            if objs.len() == 0 {
                key = strip_angles_exec(row.p.as_str());
            }
            assert(!overruns(f[j as int].4));
            let v = nt_term_to_jsonld_value(row.o.as_str());
            let ghost before = objs.deep_view();
            objs.push(v);
            assert(objs.deep_view() =~= before.push(v.deep_view()));
            assert(jsonld_objects(g1) =~= jsonld_objects(g).push(jsonld_value_spec(f[j as int].4)));
        } else {
            assert(with_predicate(f.take(j + 1), pk) =~= g);
        }
        j = j + 1;
    }
    assert(f.take(sel@.len() as int) =~= f);
    (key, objs)
}

fn node_of(rows: &Vec<KeyedTriple>, k: i64) -> (r: JsonLdNode)
    requires
        with_subject(keyed_views(rows@), k).len() > 0,
        objects_convertible(keyed_views(rows@)),
    ensures
        r.deep_view() == jsonld_node(with_subject(keyed_views(rows@), k)),
{
    let ghost rv = keyed_views(rows@);
    let ghost f = with_subject(rv, k);
    let ghost ids = predicate_ids(f);
    let sel = rows_with_subject(rows, k);
    proof {
        assert forall|q: int| 0 <= q < f.len() implies !overruns(#[trigger] f[q].4) by {
            assert(rv[sel@[q] as int] == f[q]);
        }
    }
    let mut pks: Vec<i64> = Vec::new();
    let mut j: usize = 0;
    while j < sel.len()
        invariant
            j <= sel@.len(),
            sel@.len() == f.len(),
            forall|q: int|
                0 <= q < sel@.len() ==> (#[trigger] sel@[q]) < rows@.len() && keyed_views(rows@)[sel@[q] as int]
                    == f[q],
            ids == predicate_ids(f),
            pks@ == sorted_ids(ids.take(j as int)),
        decreases sel.len() - j,
    {
        insert_id(&mut pks, rows[sel[j]].p_id);
        proof {
            assert(ids.take(j + 1).drop_last() =~= ids.take(j as int));
            assert(ids.take(j + 1).last() == f[j as int].2);
        }
        j = j + 1;
    }
    assert(ids.take(sel@.len() as int) =~= ids);
    let id = strip_angles_exec(rows[sel[0]].s.as_str());
    proof {
        lemma_ordered_keys_members(ids, id_lt());
    }
    let mut props: Vec<(String, Vec<JsonLdValue>)> = Vec::new();
    let mut m: usize = 0;
    while m < pks.len()
        invariant
            m <= pks@.len(),
            sel@.len() == f.len(),
            f.len() > 0,
            forall|q: int|
                0 <= q < sel@.len() ==> (#[trigger] sel@[q]) < rows@.len() && keyed_views(rows@)[sel@[q] as int]
                    == f[q],
            objects_convertible(f),
            ids == predicate_ids(f),
            pks@ == sorted_ids(ids),
            forall|x: i64| #[trigger] pks@.contains(x) <==> ids.contains(x),
            props.deep_view() == Seq::new(m as nat, |q: int| jsonld_property(with_predicate(f, pks@[q]))),
        decreases pks.len() - m,
    {
        proof {
            assert(pks@.contains(pks@[m as int]));
            lemma_with_predicate_nonempty(f, pks@[m as int]);
        }
        let e = property_of(rows, &sel, Ghost(f), pks[m]);
        let ghost before = props.deep_view();
        props.push(e);
        assert(props.deep_view() =~= before.push(e.deep_view()));
        assert(Seq::new(m as nat + 1, |q: int| jsonld_property(with_predicate(f, pks@[q]))) =~= before.push(
            jsonld_property(with_predicate(f, pks@[m as int])),
        ));
        m = m + 1;
    }
    JsonLdNode { id, properties: props }
}

/// The JSON-LD document (expanded form) of `(s, p, o)` rows of N-Triples
/// terms: one node per subject in text order, its properties in text order
/// of the predicates, each predicate's values in row order.
pub fn triples_to_jsonld(triples: &[(String, String, String)]) -> (r: Vec<JsonLdNode>)
    requires
        triples@.len() <= i64::MAX,
        forall|i: int| 0 <= i < triples@.len() ==> !overruns(#[trigger] triples@[i].2@),
    ensures
        r.deep_view() == jsonld_document(ranked_views(text_triples(triples@))),
{
    let rows = ranked_rows(triples);
    let ghost rv = keyed_views(rows@);
    proof {
        assert forall|i: int| 0 <= i < rv.len() implies !overruns(#[trigger] rv[i].4) by {
            assert(rv[i].4 == text_triples(triples@)[i].2);
        }
    }
    let sks = sorted_subject_ids(&rows);
    proof {
        lemma_ordered_keys_members(subject_ids(rv), id_lt());
    }
    let mut out: Vec<JsonLdNode> = Vec::new();
    let mut m: usize = 0;
    while m < sks.len()
        invariant
            m <= sks@.len(),
            rv == keyed_views(rows@),
            objects_convertible(rv),
            sks@ == sorted_ids(subject_ids(rv)),
            forall|x: i64| #[trigger] sks@.contains(x) <==> subject_ids(rv).contains(x),
            out.deep_view() == Seq::new(m as nat, |q: int| jsonld_node(with_subject(rv, sks@[q]))),
        decreases sks.len() - m,
    {
        proof {
            assert(sks@.contains(sks@[m as int]));
            lemma_with_subject_nonempty(rv, sks@[m as int]);
        }
        let node = node_of(&rows, sks[m]);
        let ghost before = out.deep_view();
        out.push(node);
        assert(out.deep_view() =~= before.push(node.deep_view()));
        assert(Seq::new(m as nat + 1, |q: int| jsonld_node(with_subject(rv, sks@[q]))) =~= before.push(
            jsonld_node(with_subject(rv, sks@[m as int])),
        ));
        m = m + 1;
    }
    out
}

} // verus!
