//! Inline value encoding for common `xsd:` datatypes.
//!
//! An inline ID carries its value in the 64-bit key itself:
//!
//! ```text
//! Bit 63        → 1 (inline flag; dictionary IDs have bit 63 = 0)
//! Bits 62–56    → 7-bit type code
//! Bits 55–0     → value, offset by 2^55 so that the signed order is kept
//! ```
//!
//! As a signed integer an inline ID with type code `t` and value bits `b`
//! equals `t·2^56 + b − 2^63`; see [`inline_id`].

use vstd::prelude::*;
use crate::text::{
    find_char, first_index, int_decimal, last_sign_index, parse_i64, parse_i64_spec, push_i64_decimal,
    rfind_sign, str_chars, string_from_chars, sub_chars, tail_equals, trim, trim_bounds, nat_digits,
    digit_char, digits_value, all_digits, is_digit, is_ws, trim_start, trim_end,
};

verus! {

/// Bit 63: set on every inline ID.
pub const INLINE_FLAG: u64 = 0x8000_0000_0000_0000;
/// Bits 55–0: the value field.
pub const VALUE_MASK: u64 = 0x00FF_FFFF_FFFF_FFFF;
/// The offset added to a signed value before it is stored (2^55).
pub const INTEGER_OFFSET: i64 = 0x0080_0000_0000_0000;

/// Type code of `xsd:integer` inline IDs.
pub const TYPE_INTEGER: u64 = 0;
/// Type code of `xsd:boolean` inline IDs.
pub const TYPE_BOOLEAN: u64 = 1;
/// Type code of `xsd:dateTime` inline IDs.
pub const TYPE_DATETIME: u64 = 2;
/// Type code of `xsd:date` inline IDs.
pub const TYPE_DATE: u64 = 3;

/// The signed value of the inline ID with type code `t` and value bits `bits`.
pub open spec fn inline_id(t: int, bits: int) -> int {
    t * 0x0100_0000_0000_0000 + bits - 0x8000_0000_0000_0000
}

/// The 7-bit type code stored in `id`.
pub open spec fn type_code(id: i64) -> u64 {
    ((id as u64) >> 56u64) & 0x7Fu64
}

/// The 56 value bits stored in `id`.
pub open spec fn value_bits(id: i64) -> u64 {
    (id as u64) & 0x00FF_FFFF_FFFF_FFFFu64
}

/// The signed value that `id` carries: its value bits minus the offset.
pub open spec fn inline_value(id: i64) -> int {
    value_bits(id) as int - 0x0080_0000_0000_0000
}

proof fn lemma_pack_bits(t: u64, b: u64)
    requires
        t < 128,
        b < 0x0100_0000_0000_0000,
    ensures
        ((0x8000_0000_0000_0000u64 | (t << 56u64) | b) as i64) as int == inline_id(t as int, b as int),
        type_code((0x8000_0000_0000_0000u64 | (t << 56u64) | b) as i64) == t,
        value_bits((0x8000_0000_0000_0000u64 | (t << 56u64) | b) as i64) == b,
{
    assert(((0x8000_0000_0000_0000u64 | (t << 56u64) | b) as i64) as int == t * 0x0100_0000_0000_0000
        + b - 0x8000_0000_0000_0000) by (bit_vector)
        requires
            t < 128,
            b < 0x0100_0000_0000_0000,
    ;
    assert(((((0x8000_0000_0000_0000u64 | (t << 56u64) | b) as i64) as u64) >> 56u64) & 0x7Fu64 == t)
        by (bit_vector)
        requires
            t < 128,
            b < 0x0100_0000_0000_0000,
    ;
    assert((((0x8000_0000_0000_0000u64 | (t << 56u64) | b) as i64) as u64) & 0x00FF_FFFF_FFFF_FFFFu64
        == b) by (bit_vector)
        requires
            t < 128,
            b < 0x0100_0000_0000_0000,
    ;
}

/// Packs a type code and value bits into an inline ID.
pub fn pack(type_code_in: u64, bits: u64) -> (id: i64)
    requires
        type_code_in < 128,
    ensures
        id as int == inline_id(type_code_in as int, (bits & VALUE_MASK) as int),
        type_code(id) == type_code_in,
        value_bits(id) == bits & VALUE_MASK,
{
    let b = bits & VALUE_MASK;
    assert(b < 0x0100_0000_0000_0000) by (bit_vector)
        requires
            b == bits & 0x00FF_FFFF_FFFF_FFFFu64,
    ;
    proof {
        lemma_pack_bits(type_code_in, b);
    }
    (INLINE_FLAG | (type_code_in << 56u64) | b) as i64
}

/// The type code stored in `id`.
pub fn unpack_type(id: i64) -> (t: u64)
    ensures
        t == type_code(id),
        t < 128,
{
    let t = ((id as u64) >> 56u64) & 0x7Fu64;
    assert(t < 128) by (bit_vector)
        requires
            t == ((id as u64) >> 56u64) & 0x7Fu64,
    ;
    t
}

/// The value bits stored in `id`.
pub fn unpack_value_bits(id: i64) -> (b: u64)
    ensures
        b == value_bits(id),
        b < 0x0100_0000_0000_0000,
{
    let b = (id as u64) & VALUE_MASK;
    assert(b < 0x0100_0000_0000_0000) by (bit_vector)
        requires
            b == (id as u64) & 0x00FF_FFFF_FFFF_FFFFu64,
    ;
    b
}

/// Returns `true` if `id` is an inline-encoded value rather than a dictionary ID.
///
/// Dictionary IDs are non-negative; inline IDs have bit 63 set and are negative.
pub fn is_inline(id: i64) -> (b: bool)
    ensures
        b == (id < 0),
{
    id < 0
}

/// The 7-bit type code of an inline ID.
pub fn inline_type(id: i64) -> (t: u64)
    ensures
        t == type_code(id),
        t < 128,
{
    unpack_type(id)
}

/// The inline ID of `xsd:integer` value `v`, when `v` lies in `[-2^55, 2^55)`.
pub open spec fn integer_id(v: int) -> Option<int> {
    if -0x0080_0000_0000_0000 <= v < 0x0080_0000_0000_0000 {
        Some(inline_id(TYPE_INTEGER as int, v + 0x0080_0000_0000_0000))
    } else {
        None
    }
}

/// What [`try_encode_integer`] returns for the lexical form `s`.
pub open spec fn encode_integer_spec(s: Seq<char>) -> Option<int> {
    match parse_i64_spec(trim(s)) {
        Some(v) => integer_id(v),
        None => None,
    }
}

fn pack_signed(t: u64, v: i64) -> (id: i64)
    requires
        t < 128,
        -0x0080_0000_0000_0000 <= v < 0x0080_0000_0000_0000,
    ensures
        id as int == inline_id(t as int, v + 0x0080_0000_0000_0000),
        type_code(id) == t,
        inline_value(id) == v as int,
{
    let bits = (v + INTEGER_OFFSET) as u64;
    assert(bits & 0x00FF_FFFF_FFFF_FFFFu64 == bits) by (bit_vector)
        requires
            bits < 0x0100_0000_0000_0000u64,
    ;
    pack(t, bits)
}

/// Encodes an `xsd:integer` lexical form to an inline ID.
///
/// Returns `None` when the text is not an integer or lies outside `[-2^55, 2^55)`.
pub fn try_encode_integer(lexical: &str) -> (r: Option<i64>)
    ensures
        r matches Some(id) ==> encode_integer_spec(lexical@) == Some(id as int),
        r is None ==> encode_integer_spec(lexical@) is None,
{
    let chars = str_chars(lexical);
    let (a, b) = trim_bounds(&chars, 0, chars.len());
    let digits = sub_chars(&chars, a, b);
    proof {
        assert(chars@.subrange(0, chars@.len() as int) =~= chars@);
    }
    let v = match parse_i64(&digits) {
        Some(v) => v,
        None => return None,
    };
    if v < -INTEGER_OFFSET || v > INTEGER_OFFSET - 1 {
        return None;
    }
    Some(pack_signed(TYPE_INTEGER, v))
}

/// The characters of `true`.
pub open spec fn true_text() -> Seq<char> {
    seq!['t', 'r', 'u', 'e']
}

/// The characters of `false`.
pub open spec fn false_text() -> Seq<char> {
    seq!['f', 'a', 'l', 's', 'e']
}

/// What [`try_encode_boolean`] returns for the lexical form `s`: value bit 1
/// for `true`/`1`, 0 for `false`/`0`.
pub open spec fn encode_boolean_spec(s: Seq<char>) -> Option<int> {
    let t = trim(s);
    if t == true_text() || t == seq!['1'] {
        Some(inline_id(TYPE_BOOLEAN as int, 1))
    } else if t == false_text() || t == seq!['0'] {
        Some(inline_id(TYPE_BOOLEAN as int, 0))
    } else {
        None
    }
}

/// Encodes an `xsd:boolean` lexical form (`true`, `false`, `1`, `0`) to an inline ID.
pub fn try_encode_boolean(lexical: &str) -> (r: Option<i64>)
    ensures
        r matches Some(id) ==> encode_boolean_spec(lexical@) == Some(id as int),
        r is None ==> encode_boolean_spec(lexical@) is None,
{
    let chars = str_chars(lexical);
    let (a, b) = trim_bounds(&chars, 0, chars.len());
    let t = sub_chars(&chars, a, b);
    proof {
        assert(chars@.subrange(0, chars@.len() as int) =~= chars@);
    }
    let is_true = (t.len() == 4 && t[0] == 't' && t[1] == 'r' && t[2] == 'u' && t[3] == 'e')
        || (t.len() == 1 && t[0] == '1');
    let is_false = (t.len() == 5 && t[0] == 'f' && t[1] == 'a' && t[2] == 'l' && t[3] == 's'
        && t[4] == 'e') || (t.len() == 1 && t[0] == '0');
    proof {
        if t@ == true_text() {
            assert(t@[0] == 't' && t@[1] == 'r' && t@[2] == 'u' && t@[3] == 'e');
        }
        if t@ == false_text() {
            assert(t@[0] == 'f' && t@[1] == 'a' && t@[2] == 'l' && t@[3] == 's' && t@[4] == 'e');
        }
        if t@ == seq!['1'] || t@ == seq!['0'] {
            assert(t@[0] == seq!['1'][0] || t@[0] == seq!['0'][0]);
        }
        if is_true {
            assert(t@ =~= true_text() || t@ =~= seq!['1']);
        }
        if is_false {
            assert(t@ =~= false_text() || t@ =~= seq!['0']);
        }
    }
    assert(1u64 & 0x00FF_FFFF_FFFF_FFFFu64 == 1u64) by (bit_vector);
    assert(0u64 & 0x00FF_FFFF_FFFF_FFFFu64 == 0u64) by (bit_vector);
    if is_true {
        Some(pack(TYPE_BOOLEAN, 1))
    } else if is_false {
        Some(pack(TYPE_BOOLEAN, 0))
    } else {
        None
    }
}

/// Decodes an inline `xsd:integer` ID to its signed value.
pub fn decode_integer(id: i64) -> (v: i64)
    ensures
        v as int == inline_value(id),
{
    let bits = unpack_value_bits(id) as i64;
    bits - INTEGER_OFFSET
}

/// Decodes an inline `xsd:boolean` ID: `true` when its value bits are non-zero.
pub fn decode_boolean(id: i64) -> (b: bool)
    ensures
        b == (value_bits(id) != 0),
{
    unpack_value_bits(id) != 0
}

/// Decodes an inline `xsd:dateTime` ID to microseconds since the Unix epoch.
pub fn decode_datetime_micros(id: i64) -> (v: i64)
    ensures
        v as int == inline_value(id),
{
    let bits = unpack_value_bits(id) as i64;
    bits - INTEGER_OFFSET
}

/// Decodes an inline `xsd:date` ID to days since the Unix epoch.
pub fn decode_date_days(id: i64) -> (v: i64)
    ensures
        v as int == inline_value(id),
{
    let bits = unpack_value_bits(id) as i64;
    bits - INTEGER_OFFSET
}

// ─── Calendar values (parsed and printed by chrono) ───────────────────────

/// The microseconds since the Unix epoch of the UTC date-time that chrono's
/// `DateTime<Utc>` parser reads from `s`, or `None` when it rejects `s`.
pub uninterp spec fn chrono_utc_micros(s: Seq<char>) -> Option<i64>;

/// The day number counted from 0001-01-01 (day 1) of the date that chrono's
/// `NaiveDate` parser reads from `s`, or `None` when it rejects `s`.
pub uninterp spec fn chrono_date_days_from_ce(s: Seq<char>) -> Option<i32>;

/// The text `%Y-%m-%dT%H:%M:%S%.6fZ` that chrono writes for the UTC instant
/// `micros` microseconds after the epoch, or `None` when chrono has no such instant.
pub uninterp spec fn chrono_datetime_text(micros: i64) -> Option<Seq<char>>;

/// The text `%Y-%m-%d` that chrono writes for the date `days` days after
/// 1970-01-01, or `None` when that date is outside chrono's calendar.
pub uninterp spec fn chrono_date_text(days: i64) -> Option<Seq<char>>;

/// `chrono::DateTime::<Utc>::from_str` followed by `timestamp_micros`.
/// Claims only that the result is a function of the text.
#[verifier::external_body]
fn parse_utc_micros(s: &str) -> (r: Option<i64>)
    ensures
        r == chrono_utc_micros(s@),
{
    match s.parse::<chrono::DateTime<chrono::Utc>>() {
        Ok(dt) => Some(dt.timestamp_micros()),
        Err(_) => None,
    }
}

/// `chrono::NaiveDate::from_str` followed by `Datelike::num_days_from_ce`.
/// Claims only that the result is a function of the text.
#[verifier::external_body]
fn parse_date_days_from_ce(s: &str) -> (r: Option<i32>)
    ensures
        r == chrono_date_days_from_ce(s@),
{
    match s.parse::<chrono::NaiveDate>() {
        Ok(d) => Some(chrono::Datelike::num_days_from_ce(&d)),
        Err(_) => None,
    }
}

/// `chrono::DateTime::<Utc>::from_timestamp_micros` followed by `format`.
/// Claims only that the result is a function of `micros`.
#[verifier::external_body]
fn format_utc_micros(micros: i64) -> (r: Option<String>)
    ensures
        match r {
            Some(t) => chrono_datetime_text(micros) == Some(t@),
            None => chrono_datetime_text(micros) is None,
        },
{
    match chrono::DateTime::<chrono::Utc>::from_timestamp_micros(micros) {
        Some(t) => Some(t.format("%Y-%m-%dT%H:%M:%S%.6fZ").to_string()),
        None => None,
    }
}

/// `chrono::NaiveDate::checked_add_signed` of `TimeDelta::days(days)` to
/// 1970-01-01, followed by `format`.  `TimeDelta::days` panics beyond
/// ±106 751 991 167 days, so such inputs are excluded.  Claims only that the
/// result is a function of `days`.
#[verifier::external_body]
fn format_epoch_days(days: i64) -> (r: Option<String>)
    requires
        -106_751_991_167 <= days <= 106_751_991_167,
    ensures
        match r {
            Some(t) => chrono_date_text(days) == Some(t@),
            None => chrono_date_text(days) is None,
        },
{
    match chrono::NaiveDate::from_ymd_opt(1970, 1, 1) {
        Some(epoch) => match epoch.checked_add_signed(chrono::TimeDelta::days(days)) {
            Some(d) => Some(d.format("%Y-%m-%d").to_string()),
            None => None,
        },
        None => None,
    }
}

/// The text `+00:00`.
pub open spec fn utc_plus() -> Seq<char> {
    seq!['+', '0', '0', ':', '0', '0']
}

/// The text `-00:00`.
pub open spec fn utc_minus() -> Seq<char> {
    seq!['-', '0', '0', ':', '0', '0']
}

/// Whether the (trimmed) date-time text `t` carries a non-UTC offset: its last
/// `+`/`-` lies more than three characters after the `T` separator and the
/// text from there on is neither `+00:00` nor `-00:00`.
pub open spec fn has_nonzero_offset(t: Seq<char>) -> bool {
    let pos = last_sign_index(t);
    let tpos = first_index(t, 'T');
    pos >= 0 && tpos >= 0 && pos > tpos + 3 && t.subrange(pos, t.len() as int) != utc_plus()
        && t.subrange(pos, t.len() as int) != utc_minus()
}

/// The inline ID for a signed value of the given type, when it fits.
pub open spec fn signed_id(t: int, v: int) -> Option<int> {
    if -0x0080_0000_0000_0000 <= v < 0x0080_0000_0000_0000 {
        Some(inline_id(t, v + 0x0080_0000_0000_0000))
    } else {
        None
    }
}

/// What [`try_encode_datetime`] returns for the lexical form `s`.
pub open spec fn encode_datetime_spec(s: Seq<char>) -> Option<int> {
    let t = trim(s);
    if has_nonzero_offset(t) {
        None
    } else {
        match chrono_utc_micros(t) {
            Some(m) => signed_id(TYPE_DATETIME as int, m as int),
            None => None,
        }
    }
}

/// Encodes an `xsd:dateTime` lexical form to an inline ID.
///
/// Date-times with a non-UTC offset are not inlined, so that the dictionary
/// keeps their offset; text chrono rejects, or instants outside ±2^55 µs,
/// give `None` too.
pub fn try_encode_datetime(lexical: &str) -> (r: Option<i64>)
    requires
        lexical@.len() < 0x7FFF_FFFF_FFFF_FFFF,
    ensures
        r matches Some(id) ==> encode_datetime_spec(lexical@) == Some(id as int),
        r is None ==> encode_datetime_spec(lexical@) is None,
{
    let chars = str_chars(lexical);
    let (a, b) = trim_bounds(&chars, 0, chars.len());
    let t = sub_chars(&chars, a, b);
    proof {
        assert(chars@.subrange(0, chars@.len() as int) =~= chars@);
    }
    let pos = rfind_sign(&t);
    let tpos = find_char(&t, 'T');
    if pos >= 0 && tpos >= 0 && pos - tpos > 3 {
        let plus = vec!['+', '0', '0', ':', '0', '0'];
        let minus = vec!['-', '0', '0', ':', '0', '0'];
        assert(plus@ =~= utc_plus());
        assert(minus@ =~= utc_minus());
        if !tail_equals(&t, pos as usize, &plus) && !tail_equals(&t, pos as usize, &minus) {
            return None;
        }
    }
    let text = string_from_chars(&t);
    let micros = match parse_utc_micros(text.as_str()) {
        Some(m) => m,
        None => return None,
    };
    if micros < -INTEGER_OFFSET || micros > INTEGER_OFFSET - 1 {
        return None;
    }
    Some(pack_signed(TYPE_DATETIME, micros))
}

/// Day number (from 0001-01-01 as day 1) of 1970-01-01.
pub const EPOCH_DAYS_FROM_CE: i64 = 719_163;

/// What [`try_encode_date`] returns for the lexical form `s`.
pub open spec fn encode_date_spec(s: Seq<char>) -> Option<int> {
    match chrono_date_days_from_ce(trim(s)) {
        Some(d) => signed_id(TYPE_DATE as int, d as int - EPOCH_DAYS_FROM_CE),
        None => None,
    }
}

/// Encodes an `xsd:date` lexical form (`YYYY-MM-DD`) to an inline ID holding
/// the days since 1970-01-01.
pub fn try_encode_date(lexical: &str) -> (r: Option<i64>)
    ensures
        r matches Some(id) ==> encode_date_spec(lexical@) == Some(id as int),
        r is None ==> encode_date_spec(lexical@) is None,
{
    let chars = str_chars(lexical);
    let (a, b) = trim_bounds(&chars, 0, chars.len());
    let t = sub_chars(&chars, a, b);
    proof {
        assert(chars@.subrange(0, chars@.len() as int) =~= chars@);
    }
    let text = string_from_chars(&t);
    let ce = match parse_date_days_from_ce(text.as_str()) {
        Some(d) => d,
        None => return None,
    };
    let days: i64 = (ce as i64) - EPOCH_DAYS_FROM_CE;
    Some(pack_signed(TYPE_DATE, days))
}

/// The N-Triples typed literal that [`format_inline`] writes for `id`.
pub open spec fn format_inline_spec(id: i64) -> Seq<char> {
    let t = type_code(id);
    let v = inline_value(id);
    if t == TYPE_INTEGER {
        "\""@ + int_decimal(v) + "\"^^<http://www.w3.org/2001/XMLSchema#integer>"@
    } else if t == TYPE_BOOLEAN {
        "\""@ + (if value_bits(id) != 0 { "true"@ } else { "false"@ })
            + "\"^^<http://www.w3.org/2001/XMLSchema#boolean>"@
    } else if t == TYPE_DATETIME {
        "\""@ + (match chrono_datetime_text(v as i64) {
            Some(x) => x,
            None => "invalid_dt:"@ + int_decimal(v),
        }) + "\"^^<http://www.w3.org/2001/XMLSchema#dateTime>"@
    } else if t == TYPE_DATE {
        "\""@ + (match chrono_date_text(v as i64) {
            Some(x) => x,
            None => "invalid_date:"@ + int_decimal(v),
        }) + "\"^^<http://www.w3.org/2001/XMLSchema#date>"@
    } else {
        "\"inline:"@ + int_decimal(t as int) + ":"@ + int_decimal(v)
            + "\"^^<urn:pg_ripple:inline>"@
    }
}

/// Formats an inline ID as an N-Triples typed literal, such as
/// `"42"^^<http://www.w3.org/2001/XMLSchema#integer>`.
///
/// A date further than ±106 751 991 167 days from the epoch is outside what
/// chrono's day arithmetic accepts and is excluded.
pub fn format_inline(id: i64) -> (s: String)
    requires
        id < 0,
        type_code(id) == TYPE_DATE ==> -106_751_991_167 <= inline_value(id) <= 106_751_991_167,
    ensures
        s@ == format_inline_spec(id),
{
    let t = inline_type(id);
    let mut out = String::new();
    if t == TYPE_INTEGER {
        out.append("\"");
        push_i64_decimal(&mut out, decode_integer(id));
        out.append("\"^^<http://www.w3.org/2001/XMLSchema#integer>");
    } else if t == TYPE_BOOLEAN {
        out.append("\"");
        if decode_boolean(id) {
            out.append("true");
        } else {
            out.append("false");
        }
        out.append("\"^^<http://www.w3.org/2001/XMLSchema#boolean>");
    } else if t == TYPE_DATETIME {
        let micros = decode_datetime_micros(id);
        out.append("\"");
        match format_utc_micros(micros) {
            Some(text) => out.append(text.as_str()),
            None => {
                out.append("invalid_dt:");
                push_i64_decimal(&mut out, micros);
            },
        }
        out.append("\"^^<http://www.w3.org/2001/XMLSchema#dateTime>");
    } else if t == TYPE_DATE {
        let days = decode_date_days(id);
        out.append("\"");
        match format_epoch_days(days) {
            Some(text) => out.append(text.as_str()),
            None => {
                out.append("invalid_date:");
                push_i64_decimal(&mut out, days);
            },
        }
        out.append("\"^^<http://www.w3.org/2001/XMLSchema#date>");
    } else {
        out.append("\"inline:");
        push_i64_decimal(&mut out, t as i64);
        out.append(":");
        push_i64_decimal(&mut out, decode_integer(id));
        out.append("\"^^<urn:pg_ripple:inline>");
    }
    proof {
        assert(out@ =~= format_inline_spec(id));
    }
    out
}

// ─── Laws ──────────────────────────────────────────────────────────────────

/// An integer in `[-2^55, 2^55)` encodes to a negative (inline) ID of type
/// `xsd:integer` that decodes back to the same integer.
pub proof fn law_integer_roundtrip(v: int)
    requires
        -0x0080_0000_0000_0000 <= v < 0x0080_0000_0000_0000,
    ensures
        integer_id(v) matches Some(id) && i64::MIN <= id < 0 && type_code(id as i64)
            == TYPE_INTEGER && inline_value(id as i64) == v,
{
    let b = (v + 0x0080_0000_0000_0000) as u64;
    lemma_pack_bits(0, b);
    assert(0u64 << 56u64 == 0u64) by (bit_vector);
    assert((0x8000_0000_0000_0000u64 | 0u64 | b) == (0x8000_0000_0000_0000u64 | (0u64 << 56u64) | b));
}

/// Encoding preserves the order of integers: a smaller integer gets a smaller ID.
pub proof fn law_integer_order_preserved(v1: int, v2: int)
    requires
        -0x0080_0000_0000_0000 <= v1 < v2 < 0x0080_0000_0000_0000,
    ensures
        integer_id(v1)->0 < integer_id(v2)->0,
{
}

/// `true` and `false` encode to inline IDs of type `xsd:boolean` that decode
/// to the value written.
pub proof fn law_boolean_roundtrip(bit: u64)
    requires
        bit <= 1,
    ensures
        i64::MIN <= inline_id(TYPE_BOOLEAN as int, bit as int) < 0,
        type_code(inline_id(TYPE_BOOLEAN as int, bit as int) as i64) == TYPE_BOOLEAN,
        (value_bits(inline_id(TYPE_BOOLEAN as int, bit as int) as i64) != 0) == (bit == 1),
{
    lemma_pack_bits(1, bit);
}

/// The decimal digits of `n` are digits, at least one, and read back as `n`.
proof fn lemma_nat_digits(n: nat)
    ensures
        crate::text::nat_digits(n).len() > 0,
        crate::text::all_digits(crate::text::nat_digits(n)),
        crate::text::digits_value(crate::text::nat_digits(n)) == n,
    decreases n,
{
    if n < 10 {
        assert(is_digit(digit_char(n)));
        assert(crate::text::digit_value(digit_char(n)) == n);
        assert(nat_digits(n).drop_last() =~= Seq::<char>::empty());
        assert(digits_value(Seq::<char>::empty()) == 0);
        assert(digits_value(nat_digits(n)) == 0 * 10 + crate::text::digit_value(digit_char(n)));
    } else {
        lemma_nat_digits(n / 10);
        let d = nat_digits(n);
        let p = nat_digits(n / 10);
        assert(d.drop_last() =~= p);
        assert(is_digit(digit_char(n % 10)));
        assert(crate::text::digit_value(digit_char(n % 10)) == n % 10);
        assert(digits_value(d) == digits_value(p) * 10 + (n % 10) as int);
        assert((n / 10) * 10 + n % 10 == n);
        assert forall|k: int| 0 <= k < d.len() implies is_digit(#[trigger] d[k]) by {
            if k < p.len() {
                assert(d[k] == p[k]);
            }
        }
    }
}

/// The decimal text of an integer in `[-2^55, 2^55)` encodes to that
/// integer's inline ID: `try_encode_integer(&v.to_string())` is
/// `integer_id(v)`.
pub proof fn law_integer_text_encodes(v: int)
    requires
        -0x0080_0000_0000_0000 <= v < 0x0080_0000_0000_0000,
    ensures
        encode_integer_spec(int_decimal(v)) == integer_id(v),
{
    let t = int_decimal(v);
    let m: nat = if v < 0 { (-v) as nat } else { v as nat };
    lemma_nat_digits(m);
    let d = nat_digits(m);
    if v < 0 {
        assert(t.drop_first() =~= d);
        assert(t.last() == d.last());
    } else {
        assert(t == d);
    }
    assert(crate::text::is_digit(d[0]) && crate::text::is_digit(d.last()));
    assert(!is_ws(t[0]));
    assert(!is_ws(t.last()));
    assert(trim_start(t) == t);
    assert(trim_end(t) == t);
    assert(trim(t) == t);
}

/// Encoding the decimal texts of two integers in `[-2^55, 2^55)` keeps their
/// order: the smaller integer gets the smaller ID.
pub proof fn law_integer_text_order(v1: int, v2: int)
    requires
        -0x0080_0000_0000_0000 <= v1 < v2 < 0x0080_0000_0000_0000,
    ensures
        encode_integer_spec(int_decimal(v1))->0 < encode_integer_spec(int_decimal(v2))->0,
{
    law_integer_text_encodes(v1);
    law_integer_text_encodes(v2);
    law_integer_order_preserved(v1, v2);
}

/// The decimal text of an integer in `[-2^55, 2^55)` encodes to an ID that
/// `decode_integer` reads back as the same integer.
pub proof fn law_integer_text_roundtrip(v: int)
    requires
        -0x0080_0000_0000_0000 <= v < 0x0080_0000_0000_0000,
    ensures
        encode_integer_spec(int_decimal(v)) matches Some(id) && i64::MIN <= id < 0 && type_code(id as i64)
            == TYPE_INTEGER && inline_value(id as i64) == v,
{
    law_integer_text_encodes(v);
    law_integer_roundtrip(v);
}

} // verus!
