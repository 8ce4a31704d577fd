//! N-Triples text of dictionary entries.
//!
//! The dictionary maps every IRI, blank node and literal to an `i64` ID;
//! looking an ID up is the caller's part, formatting the entry is here.

use vstd::prelude::*;
use crate::inline::{format_inline, format_inline_spec, inline_value, type_code, TYPE_DATE};
use crate::inline::{
    encode_boolean_spec, encode_date_spec, encode_datetime_spec, encode_integer_spec, try_encode_boolean, try_encode_date,
    try_encode_datetime, try_encode_integer,
};
use crate::text::str_eq;
use crate::text::{int_decimal, push_char, push_i64_decimal, str_chars};
use unicode_normalization::UnicodeNormalization;
use vstd::utf8::encode_utf8;

verus! {

/// An IRI.
pub const KIND_IRI: i16 = 0;
/// A blank node.
pub const KIND_BLANK: i16 = 1;
/// A plain literal.
pub const KIND_LITERAL: i16 = 2;
/// A literal with a datatype.
pub const KIND_TYPED_LITERAL: i16 = 3;
/// A literal with a language tag.
pub const KIND_LANG_LITERAL: i16 = 4;
/// An RDF-star quoted triple.
pub const KIND_QUOTED_TRIPLE: i16 = 5;

/// One character of a literal's N-Triples text: `"`, `\` and the line
/// breaks and tab escaped with a backslash.
pub open spec fn escape_char(c: char) -> Seq<char> {
    if c == '"' {
        seq!['\\', '"']
    } else if c == '\\' {
        seq!['\\', '\\']
    } else if c == '\n' {
        seq!['\\', 'n']
    } else if c == '\r' {
        seq!['\\', 'r']
    } else if c == '\t' {
        seq!['\\', 't']
    } else {
        seq![c]
    }
}

/// A literal's value as N-Triples text.
pub open spec fn escape_spec(s: Seq<char>) -> Seq<char>
    decreases s.len(),
{
    if s.len() == 0 {
        Seq::empty()
    } else {
        escape_spec(s.drop_last()) + escape_char(s.last())
    }
}

/// Escapes a literal's value for N-Triples.
pub fn escape_literal(s: &str) -> (r: String)
    ensures
        r@ == escape_spec(s@),
{
    let v = str_chars(s);
    let mut out = String::new();
    let mut i: usize = 0;
    while i < v.len()
        invariant
            i <= v@.len(),
            v@ == s@,
            out@ == escape_spec(v@.take(i as int)),
        decreases v.len() - i,
    {
        let c = v[i];
        let ghost before = out@;
        if c == '"' {
            push_char(&mut out, '\\');
            push_char(&mut out, '"');
        } else if c == '\\' {
            push_char(&mut out, '\\');
            push_char(&mut out, '\\');
        } else if c == '\n' {
            push_char(&mut out, '\\');
            push_char(&mut out, 'n');
        } else if c == '\r' {
            push_char(&mut out, '\\');
            push_char(&mut out, 'r');
        } else if c == '\t' {
            push_char(&mut out, '\\');
            push_char(&mut out, 't');
        } else {
            push_char(&mut out, c);
        }
        proof {
            assert(v@.take(i + 1).drop_last() =~= v@.take(i as int));
            assert(v@.take(i + 1).last() == c);
            assert(out@ =~= before + escape_char(c));
        }
        i = i + 1;
    }
    assert(v@.take(v@.len() as int) =~= v@);
    out
}

/// The N-Triples text of a dictionary entry: `<iri>`, `_:b{id}`, a quoted
/// literal with its datatype (`xsd:string` when missing) or language tag
/// (`und` when missing), or a quoted triple's stored text; an unknown kind
/// is written as a plain literal.
pub open spec fn ntriples_term_spec(
    value: Seq<char>,
    kind: i16,
    datatype: Option<Seq<char>>,
    lang: Option<Seq<char>>,
    fallback_id: i64,
) -> Seq<char> {
    if kind == KIND_IRI {
        "<"@ + value + ">"@
    } else if kind == KIND_BLANK {
        "_:b"@ + int_decimal(fallback_id as int)
    } else if kind == KIND_LITERAL {
        "\""@ + escape_spec(value) + "\""@
    } else if kind == KIND_TYPED_LITERAL {
        "\""@ + escape_spec(value) + "\"^^<"@ + (match datatype {
            Some(d) => d,
            None => "http://www.w3.org/2001/XMLSchema#string"@,
        }) + ">"@
    } else if kind == KIND_LANG_LITERAL {
        "\""@ + escape_spec(value) + "\"@"@ + (match lang {
            Some(l) => l,
            None => "und"@,
        })
    } else if kind == KIND_QUOTED_TRIPLE {
        value
    } else {
        "\""@ + escape_spec(value) + "\""@
    }
}

/// Formats a dictionary entry from its components.
pub fn format_ntriples_term(value: &str, kind: i16, datatype: Option<&str>, lang: Option<&str>, fallback_id: i64) -> (r:
    String)
    ensures
        r@ == ntriples_term_spec(value@, kind, match datatype {
            Some(d) => Some(d@),
            None => None,
        }, match lang {
            Some(l) => Some(l@),
            None => None,
        }, fallback_id),
{
    if kind == KIND_IRI {
        let mut out = String::from_str("<");
        out.append(value);
        out.append(">");
        out
    } else if kind == KIND_BLANK {
        let mut out = String::from_str("_:b");
        push_i64_decimal(&mut out, fallback_id);
        out
    } else if kind == KIND_TYPED_LITERAL {
        let mut out = String::from_str("\"");
        out.append(escape_literal(value).as_str());
        out.append("\"^^<");
        match datatype {
            Some(d) => out.append(d),
            None => out.append("http://www.w3.org/2001/XMLSchema#string"),
        }
        out.append(">");
        out
    } else if kind == KIND_LANG_LITERAL {
        let mut out = String::from_str("\"");
        out.append(escape_literal(value).as_str());
        out.append("\"@");
        match lang {
            Some(l) => out.append(l),
            None => out.append("und"),
        }
        out
    } else if kind == KIND_QUOTED_TRIPLE {
        String::from_str(value)
    } else {
        let mut out = String::from_str("\"");
        out.append(escape_literal(value).as_str());
        out.append("\"");
        out
    }
}

/// A dictionary entry as the dictionary table stores it.
#[derive(Debug)]
pub struct TermInfo {
    pub value: String,
    pub kind: i16,
    pub datatype: Option<String>,
    pub lang: Option<String>,
}

/// The N-Triples text of ID `id`: an inline value formatted from its bits;
/// else the entry `decoded` found for it, or `<unknown:{id}>` without one.
pub open spec fn format_ntriples_spec(id: i64, decoded: Option<(Seq<char>, i16, Option<Seq<char>>, Option<Seq<char>>)>) -> Seq<char> {
    if id < 0 {
        format_inline_spec(id)
    } else {
        match decoded {
            None => "<unknown:"@ + int_decimal(id as int) + ">"@,
            Some(t) => ntriples_term_spec(t.0, t.1, t.2, t.3, id),
        }
    }
}

/// The components of a looked-up entry.
pub open spec fn term_info_view(t: Option<&TermInfo>) -> Option<(Seq<char>, i16, Option<Seq<char>>, Option<Seq<char>>)> {
    match t {
        Some(t) => Some((t.value@, t.kind, match t.datatype {
            Some(d) => Some(d@),
            None => None,
        }, match t.lang {
            Some(l) => Some(l@),
            None => None,
        })),
        None => None,
    }
}

/// Formats dictionary ID `id`; `decoded` is the dictionary's entry for it
/// (unused for inline IDs).
pub fn format_ntriples(id: i64, decoded: Option<&TermInfo>) -> (r: String)
    requires
        id < 0 && type_code(id) == TYPE_DATE ==> -106_751_991_167 <= inline_value(id) <= 106_751_991_167,
    ensures
        r@ == format_ntriples_spec(id, term_info_view(decoded)),
{
    if id < 0 {
        return format_inline(id);
    }
    match decoded {
        None => {
            let mut out = String::from_str("<unknown:");
            push_i64_decimal(&mut out, id);
            out.append(">");
            out
        },
        Some(t) => {
            let d = match &t.datatype {
                Some(d) => Some(d.as_str()),
                None => None,
            };
            let l = match &t.lang {
                Some(l) => Some(l.as_str()),
                None => None,
            };
            format_ntriples_term(t.value.as_str(), t.kind, d, l, id)
        },
    }
}

// ─── Hash keys ───────────────────────────────────────────────────────────────

/// What `xxhash_rust::xxh3::xxh3_128` returns for the bytes `b`.
pub uninterp spec fn xxh3_128_of(b: Seq<u8>) -> u128;

/// Hashes `b` with `xxhash_rust::xxh3::xxh3_128`; the result is that
/// function of the bytes alone.
#[verifier::external_body]
fn xxh3_128_of_bytes(b: &[u8]) -> (h: u128)
    ensures
        h == xxh3_128_of(b@),
{
    xxhash_rust::xxh3::xxh3_128(b)
}

/// What Unicode Normalization Form C makes of `s`, as
/// `unicode_normalization` computes it.
pub uninterp spec fn nfc_of(s: Seq<char>) -> Seq<char>;

/// `s` in Normalization Form C, through `UnicodeNormalization::nfc` of the
/// `unicode_normalization` crate; the result is that function of `s` alone.
#[verifier::external_body]
fn nfc_string(s: &str) -> (r: String)
    ensures
        r@ == nfc_of(s@),
{
    s.nfc().collect::<String>()
}

/// The text under which a term is stored: IRIs and blank nodes in
/// Normalization Form C when normalisation is switched on, anything else
/// as given.
pub open spec fn stored_term(term: Seq<char>, kind: i16, normalize_iris: bool) -> Seq<char> {
    if (kind == KIND_IRI || kind == KIND_BLANK) && normalize_iris {
        nfc_of(term)
    } else {
        term
    }
}

/// The text under which `term` of `kind` is stored, so that IRIs written
/// with different Unicode representations meet in one dictionary entry.
pub fn normalize_term(term: &str, kind: i16, normalize_iris: bool) -> (r: String)
    ensures
        r@ == stored_term(term@, kind, normalize_iris),
{
    if (kind == KIND_IRI || kind == KIND_BLANK) && normalize_iris {
        nfc_string(term)
    } else {
        term.to_string()
    }
}

/// The two little-endian bytes of `x`.
pub open spec fn le16(x: i16) -> Seq<u8> {
    seq![(x as u16) as u8, ((x as u16) >> 8u16) as u8]
}

/// The eight little-endian bytes of `x`.
pub open spec fn le64(x: i64) -> Seq<u8> {
    Seq::new(8, |k: int| ((x as u64) >> ((8 * k) as u64)) as u8)
}

fn push_le16(buf: &mut Vec<u8>, x: i16)
    ensures
        final(buf)@ == old(buf)@ + le16(x),
{
    let u = x as u16;
    buf.push(u as u8);
    buf.push((u >> 8u16) as u8);
    assert(final(buf)@ =~= old(buf)@ + le16(x));
}

fn push_le64(buf: &mut Vec<u8>, x: i64)
    ensures
        final(buf)@ == old(buf)@ + le64(x),
{
    let ghost start = buf@;
    let u = x as u64;
    let mut k: u64 = 0;
    while k < 8
        invariant
            k <= 8,
            u == x as u64,
            buf@ == start + le64(x).subrange(0, k as int),
        decreases 8 - k,
    {
        let ghost before = buf@;
        buf.push((u >> (8 * k)) as u8);
        assert(le64(x).subrange(0, k as int + 1) =~= le64(x).subrange(0, k as int).push(le64(x)[k as int]));
        assert(buf@ =~= before.push(le64(x)[k as int]));
        k = k + 1;
    }
    assert(le64(x).subrange(0, 8) =~= le64(x));
}

/// The 128-bit hash of a term: XXH3-128 over the kind's two little-endian
/// bytes followed by the term's UTF-8 bytes, so that one text under two
/// kinds gives two keys.
pub fn term_hash(term: &str, kind: i16) -> (h: u128)
    ensures
        h == xxh3_128_of(le16(kind) + encode_utf8(term@)),
{
    let mut buf: Vec<u8> = Vec::new();
    push_le16(&mut buf, kind);
    let bytes = term.as_bytes();
    let mut i: usize = 0;
    let ghost start = buf@;
    while i < bytes.len()
        invariant
            i <= bytes@.len(),
            buf@ == start + bytes@.subrange(0, i as int),
        decreases bytes.len() - i,
    {
        buf.push(bytes[i]);
        assert(bytes@.subrange(0, i as int + 1) =~= bytes@.subrange(0, i as int).push(bytes@[i as int]));
        i = i + 1;
    }
    assert(bytes@.subrange(0, bytes@.len() as int) =~= bytes@);
    xxh3_128_of_bytes(buf.as_slice())
}

/// The 128-bit hash of a quoted triple: XXH3-128 over the quoted-triple
/// kind's two little-endian bytes and the three IDs' eight each, so that a
/// triple never shares a key with an IRI or a literal.
pub fn quoted_triple_hash(s_id: i64, p_id: i64, o_id: i64) -> (h: u128)
    ensures
        h == xxh3_128_of(le16(KIND_QUOTED_TRIPLE) + le64(s_id) + le64(p_id) + le64(o_id)),
{
    let mut buf: Vec<u8> = Vec::new();
    push_le16(&mut buf, KIND_QUOTED_TRIPLE);
    push_le64(&mut buf, s_id);
    push_le64(&mut buf, p_id);
    push_le64(&mut buf, o_id);
    xxh3_128_of_bytes(buf.as_slice())
}

/// A 128-bit hash as the two `i64` columns it is stored in: the high half,
/// then the low half, each read as two's complement.
pub fn hash_halves(h: u128) -> (r: (i64, i64))
    ensures
        r == (((h >> 64u128) as u64) as i64, (h as u64) as i64),
{
    (((h >> 64u128) as u64) as i64, (h as u64) as i64)
}

// ─── Typed literals stored inline ────────────────────────────────────────────

/// The XSD integer types whose values are stored inline.
pub open spec fn is_inline_integer_type(dt: Seq<char>) -> bool {
    ||| dt == "http://www.w3.org/2001/XMLSchema#integer"@
    ||| dt == "http://www.w3.org/2001/XMLSchema#long"@
    ||| dt == "http://www.w3.org/2001/XMLSchema#int"@
    ||| dt == "http://www.w3.org/2001/XMLSchema#short"@
    ||| dt == "http://www.w3.org/2001/XMLSchema#byte"@
    ||| dt == "http://www.w3.org/2001/XMLSchema#nonNegativeInteger"@
    ||| dt == "http://www.w3.org/2001/XMLSchema#positiveInteger"@
    ||| dt == "http://www.w3.org/2001/XMLSchema#negativeInteger"@
    ||| dt == "http://www.w3.org/2001/XMLSchema#nonPositiveInteger"@
}

/// The inline ID of a typed literal: integers, booleans, date-times and
/// dates whose value fits, by their datatype; none for anything else.
pub open spec fn inline_typed_spec(value: Seq<char>, dt: Seq<char>) -> Option<int> {
    if is_inline_integer_type(dt) {
        encode_integer_spec(value)
    } else if dt == "http://www.w3.org/2001/XMLSchema#boolean"@ {
        encode_boolean_spec(value)
    } else if dt == "http://www.w3.org/2001/XMLSchema#dateTime"@ {
        encode_datetime_spec(value)
    } else if dt == "http://www.w3.org/2001/XMLSchema#date"@ {
        encode_date_spec(value)
    } else {
        None
    }
}

fn is_integer_type(dt: &str) -> (b: bool)
    ensures
        b == is_inline_integer_type(dt@),
{
    str_eq(dt, "http://www.w3.org/2001/XMLSchema#integer") || str_eq(dt, "http://www.w3.org/2001/XMLSchema#long")
        || str_eq(dt, "http://www.w3.org/2001/XMLSchema#int") || str_eq(dt, "http://www.w3.org/2001/XMLSchema#short")
        || str_eq(dt, "http://www.w3.org/2001/XMLSchema#byte") || str_eq(
        dt,
        "http://www.w3.org/2001/XMLSchema#nonNegativeInteger",
    ) || str_eq(dt, "http://www.w3.org/2001/XMLSchema#positiveInteger") || str_eq(
        dt,
        "http://www.w3.org/2001/XMLSchema#negativeInteger",
    ) || str_eq(dt, "http://www.w3.org/2001/XMLSchema#nonPositiveInteger")
}

/// The inline ID of the typed literal `"value"^^<datatype>`, when its
/// datatype is stored inline and its value fits; `None` sends it to the
/// dictionary.
pub fn inline_typed_literal(value: &str, datatype: &str) -> (r: Option<i64>)
    requires
        value@.len() < 0x7FFF_FFFF_FFFF_FFFF,
    ensures
        r matches Some(id) ==> inline_typed_spec(value@, datatype@) == Some(id as int),
        r is None ==> inline_typed_spec(value@, datatype@) is None,
{
    if is_integer_type(datatype) {
        try_encode_integer(value)
    } else if str_eq(datatype, "http://www.w3.org/2001/XMLSchema#boolean") {
        try_encode_boolean(value)
    } else if str_eq(datatype, "http://www.w3.org/2001/XMLSchema#dateTime") {
        try_encode_datetime(value)
    } else if str_eq(datatype, "http://www.w3.org/2001/XMLSchema#date") {
        try_encode_date(value)
    } else {
        None
    }
}

/// The text a typed literal is hashed under: `"value"^^<datatype>`.
pub fn typed_literal_key(value: &str, datatype: &str) -> (r: String)
    ensures
        r@ == "\""@ + value@ + "\"^^<"@ + datatype@ + ">"@,
{
    let mut s = String::new();
    s.append("\"");
    s.append(value);
    s.append("\"^^<");
    s.append(datatype);
    s.append(">");
    s
}

/// The text a language-tagged literal is hashed under: `"value"@lang`.
pub fn lang_literal_key(value: &str, lang: &str) -> (r: String)
    ensures
        r@ == "\""@ + value@ + "\"@"@ + lang@,
{
    let mut s = String::new();
    s.append("\"");
    s.append(value);
    s.append("\"@");
    s.append(lang);
    s
}

/// The N-Triples-star text of a quoted triple from its three terms' texts.
pub fn quoted_triple_text(s_nt: &str, p_nt: &str, o_nt: &str) -> (r: String)
    ensures
        r@ == "<< "@ + s_nt@ + " "@ + p_nt@ + " "@ + o_nt@ + " >>"@,
{
    let mut s = String::new();
    s.append("<< ");
    s.append(s_nt);
    s.append(" ");
    s.append(p_nt);
    s.append(" ");
    s.append(o_nt);
    s.append(" >>");
    s
}

// ─── Literals read back ──────────────────────────────────────────────────────

/// Every literal that `format_ntriples_term` writes reads back through the
/// rule parser's literal reader: the value comes back unchanged, followed
/// by nothing for a plain literal, `^^<datatype>` for a typed one and
/// `@lang` for a language-tagged one.
pub proof fn law_formatted_literals_read_back(value: Seq<char>, datatype: Seq<char>, lang: Seq<char>, id: i64)
    ensures
        crate::datalog::parser::split_literal_spec(ntriples_term_spec(value, KIND_LITERAL, None, None, id))
            == Some((value, Seq::<char>::empty())),
        crate::datalog::parser::split_literal_spec(
            ntriples_term_spec(value, KIND_TYPED_LITERAL, Some(datatype), None, id),
        ) == Some((value, seq!['^', '^', '<'] + datatype + seq!['>'])),
        crate::datalog::parser::split_literal_spec(
            ntriples_term_spec(value, KIND_LANG_LITERAL, None, Some(lang), id),
        ) == Some((value, seq!['@'] + lang)),
{
    reveal_strlit("\"");
    reveal_strlit("\"^^<");
    reveal_strlit(">");
    reveal_strlit("\"@");
    let e = escape_spec(value);
    let q = seq!['"'];
    crate::datalog::parser::law_split_literal_roundtrip(value, Seq::<char>::empty());
    assert(ntriples_term_spec(value, KIND_LITERAL, None, None, id) =~= q + e + q + Seq::<char>::empty());
    let rt = seq!['^', '^', '<'] + datatype + seq!['>'];
    crate::datalog::parser::law_split_literal_roundtrip(value, rt);
    assert(ntriples_term_spec(value, KIND_TYPED_LITERAL, Some(datatype), None, id) =~= q + e + q + rt);
    let rl = seq!['@'] + lang;
    crate::datalog::parser::law_split_literal_roundtrip(value, rl);
    assert(ntriples_term_spec(value, KIND_LANG_LITERAL, None, Some(lang), id) =~= q + e + q + rl);
}

} // verus!
