use pg_ripple::dictionary::{
    escape_literal, format_ntriples, format_ntriples_term, TermInfo, KIND_BLANK, KIND_IRI, KIND_LANG_LITERAL,
    KIND_LITERAL, KIND_QUOTED_TRIPLE, KIND_TYPED_LITERAL,
};
use pg_ripple::inline::try_encode_integer;

#[test]
fn literal_escapes() {
    assert_eq!(escape_literal("a\"b\\c\nd\re\tf"), "a\\\"b\\\\c\\nd\\re\\tf");
    assert_eq!(escape_literal("plain é"), "plain é");
}

#[test]
fn term_kinds() {
    assert_eq!(format_ntriples_term("http://ex.org/a", KIND_IRI, None, None, 7), "<http://ex.org/a>");
    assert_eq!(format_ntriples_term("ignored", KIND_BLANK, None, None, 7), "_:b7");
    assert_eq!(format_ntriples_term("say \"hi\"", KIND_LITERAL, None, None, 7), "\"say \\\"hi\\\"\"");
    assert_eq!(
        format_ntriples_term("5", KIND_TYPED_LITERAL, Some("http://www.w3.org/2001/XMLSchema#int"), None, 7),
        "\"5\"^^<http://www.w3.org/2001/XMLSchema#int>"
    );
    assert_eq!(
        format_ntriples_term("5", KIND_TYPED_LITERAL, None, None, 7),
        "\"5\"^^<http://www.w3.org/2001/XMLSchema#string>"
    );
    assert_eq!(format_ntriples_term("chat", KIND_LANG_LITERAL, None, Some("fr"), 7), "\"chat\"@fr");
    assert_eq!(format_ntriples_term("chat", KIND_LANG_LITERAL, None, None, 7), "\"chat\"@und");
    assert_eq!(format_ntriples_term("<< <a> <b> <c> >>", KIND_QUOTED_TRIPLE, None, None, 7), "<< <a> <b> <c> >>");
    assert_eq!(format_ntriples_term("x", 42, None, None, 7), "\"x\"");
}

#[test]
fn ids_inline_known_and_unknown() {
    let id = try_encode_integer("42").unwrap();
    assert_eq!(format_ntriples(id, None), "\"42\"^^<http://www.w3.org/2001/XMLSchema#integer>");
    assert_eq!(format_ntriples(12, None), "<unknown:12>");
    let t = TermInfo { value: "http://ex.org/a".into(), kind: KIND_IRI, datatype: None, lang: None };
    assert_eq!(format_ntriples(12, Some(&t)), "<http://ex.org/a>");
}

use pg_ripple::dictionary::{hash_halves, normalize_term, quoted_triple_hash, term_hash};

#[test]
fn term_hash_prefixes_the_kind() {
    let mut buf = 3i16.to_le_bytes().to_vec();
    buf.extend_from_slice("hello".as_bytes());
    assert_eq!(term_hash("hello", 3), xxhash_rust::xxh3::xxh3_128(&buf));
    assert_ne!(term_hash("x", KIND_IRI), term_hash("x", KIND_LITERAL));
    let mut neg = (-2i16).to_le_bytes().to_vec();
    neg.extend_from_slice("é".as_bytes());
    assert_eq!(term_hash("é", -2), xxhash_rust::xxh3::xxh3_128(&neg));
}

#[test]
fn quoted_triple_hash_layout() {
    let mut buf = [0u8; 26];
    buf[0..2].copy_from_slice(&5i16.to_le_bytes());
    buf[2..10].copy_from_slice(&1i64.to_le_bytes());
    buf[10..18].copy_from_slice(&(-2i64).to_le_bytes());
    buf[18..26].copy_from_slice(&i64::MAX.to_le_bytes());
    assert_eq!(quoted_triple_hash(1, -2, i64::MAX), xxhash_rust::xxh3::xxh3_128(&buf));
}

#[test]
fn hash_split_into_columns() {
    let h: u128 = (0xFFFF_FFFF_FFFF_FFFEu128 << 64) | 7;
    assert_eq!(hash_halves(h), (-2, 7));
}

#[test]
fn iris_are_normalized_when_asked() {
    let decomposed = "http://example.org/cafe\u{0301}";
    assert_eq!(normalize_term(decomposed, KIND_IRI, true), "http://example.org/caf\u{00e9}");
    assert_eq!(normalize_term(decomposed, KIND_BLANK, true), "http://example.org/caf\u{00e9}");
    assert_eq!(normalize_term(decomposed, KIND_IRI, false), decomposed);
    assert_eq!(normalize_term(decomposed, KIND_LITERAL, true), decomposed);
}

use pg_ripple::dictionary::{inline_typed_literal, lang_literal_key, quoted_triple_text, typed_literal_key};
use pg_ripple::inline::try_encode_boolean;

#[test]
fn inline_typed_literals_by_datatype() {
    let xsd = |t: &str| format!("http://www.w3.org/2001/XMLSchema#{t}");
    assert_eq!(inline_typed_literal("42", &xsd("int")), try_encode_integer("42"));
    assert!(inline_typed_literal("42", &xsd("nonNegativeInteger")).is_some());
    assert_eq!(inline_typed_literal("true", &xsd("boolean")), try_encode_boolean("true"));
    assert!(inline_typed_literal("2024-01-02", &xsd("date")).is_some());
    assert_eq!(inline_typed_literal("42", &xsd("decimal")), None);
    assert_eq!(inline_typed_literal("forty", &xsd("integer")), None);
}

#[test]
fn canonical_literal_keys() {
    assert_eq!(typed_literal_key("3.5", "http://www.w3.org/2001/XMLSchema#decimal"), "\"3.5\"^^<http://www.w3.org/2001/XMLSchema#decimal>");
    assert_eq!(lang_literal_key("chat", "fr"), "\"chat\"@fr");
    assert_eq!(quoted_triple_text("<a>", "<b>", "\"c\""), "<< <a> <b> \"c\" >>");
}
