//! Character-level helpers shared by the parsers and serialisers.

use vstd::prelude::*;

verus! {

/// The decimal digit character for `d` (`0 <= d < 10`).
pub open spec fn digit_char(d: nat) -> char {
    if d == 0 { '0' }
    else if d == 1 { '1' }
    else if d == 2 { '2' }
    else if d == 3 { '3' }
    else if d == 4 { '4' }
    else if d == 5 { '5' }
    else if d == 6 { '6' }
    else if d == 7 { '7' }
    else if d == 8 { '8' }
    else { '9' }
}

/// Decimal digits of a natural number, most significant first, no leading zeros.
pub open spec fn nat_digits(n: nat) -> Seq<char>
    decreases n,
{
    if n < 10 {
        seq![digit_char(n)]
    } else {
        nat_digits(n / 10).push(digit_char(n % 10))
    }
}

/// The decimal text of an integer, as Rust's `Display` for integers writes it.
pub open spec fn int_decimal(v: int) -> Seq<char> {
    if v < 0 {
        seq!['-'] + nat_digits((-v) as nat)
    } else {
        nat_digits(v as nat)
    }
}

fn digit_of(d: u64) -> (c: char)
    requires
        d < 10,
    ensures
        c == digit_char(d as nat),
{
    if d == 0 { '0' }
    else if d == 1 { '1' }
    else if d == 2 { '2' }
    else if d == 3 { '3' }
    else if d == 4 { '4' }
    else if d == 5 { '5' }
    else if d == 6 { '6' }
    else if d == 7 { '7' }
    else if d == 8 { '8' }
    else { '9' }
}

/// Appends one character to a `String` (`String::push`).
#[verifier::external_body]
pub(crate) fn push_char(s: &mut String, c: char)
    ensures
        final(s)@ == old(s)@.push(c),
{
    s.push(c);
}

/// Appends the decimal digits of `n` to `out`.
pub fn push_u64_digits(out: &mut String, n: u64)
    ensures
        final(out)@ == old(out)@ + nat_digits(n as nat),
    decreases n,
{
    if n >= 10 {
        push_u64_digits(out, n / 10);
    }
    push_char(out, digit_of(n % 10));
    proof {
        if n < 10 {
            assert(nat_digits(n as nat) == seq![digit_char(n as nat)]);
        }
    }
}

/// Appends the decimal text of `v` to `out`.
pub fn push_i64_decimal(out: &mut String, v: i64)
    ensures
        final(out)@ == old(out)@ + int_decimal(v as int),
{
    if v < 0 {
        push_char(out, '-');
        let n: u64 = ((-(v + 1)) as u64) + 1;
        push_u64_digits(out, n);
        assert(final(out)@ =~= old(out)@ + int_decimal(v as int));
    } else {
        push_u64_digits(out, v as u64);
    }
}

/// The decimal text of `v`.
pub fn i64_to_string(v: i64) -> (s: String)
    ensures
        s@ == int_decimal(v as int),
{
    let mut s = String::new();
    push_i64_decimal(&mut s, v);
    assert(s@ =~= int_decimal(v as int));
    s
}


/// Unicode `White_Space`, the set that `str::trim` removes.
pub open spec fn is_ws(c: char) -> bool {
    ||| c == ' ' || c == '\t' || c == '\n' || c == '\r' || c == '\x0B' || c == '\x0C'
    ||| c == '\u{85}' || c == '\u{A0}' || c == '\u{1680}'
    ||| ('\u{2000}' <= c && c <= '\u{200A}')
    ||| c == '\u{2028}' || c == '\u{2029}' || c == '\u{202F}' || c == '\u{205F}'
    ||| c == '\u{3000}'
}

/// Whether `c` is Unicode white space.
pub fn is_whitespace(c: char) -> (b: bool)
    ensures
        b == is_ws(c),
{
    c == ' ' || c == '\t' || c == '\n' || c == '\r' || c == '\x0B' || c == '\x0C'
        || c == '\u{85}' || c == '\u{A0}' || c == '\u{1680}'
        || ('\u{2000}' <= c && c <= '\u{200A}')
        || c == '\u{2028}' || c == '\u{2029}' || c == '\u{202F}' || c == '\u{205F}'
        || c == '\u{3000}'
}

/// `s` without leading white space.
pub open spec fn trim_start(s: Seq<char>) -> Seq<char>
    decreases s.len(),
{
    if s.len() > 0 && is_ws(s[0]) {
        trim_start(s.drop_first())
    } else {
        s
    }
}

/// `s` without trailing white space.
pub open spec fn trim_end(s: Seq<char>) -> Seq<char>
    decreases s.len(),
{
    if s.len() > 0 && is_ws(s.last()) {
        trim_end(s.drop_last())
    } else {
        s
    }
}

/// `s` without leading and trailing white space (`str::trim`).
pub open spec fn trim(s: Seq<char>) -> Seq<char> {
    trim_end(trim_start(s))
}

proof fn lemma_trim_start_shape(s: Seq<char>)
    ensures
        trim_start(s).len() == 0 || !is_ws(trim_start(s)[0]),
    decreases s.len(),
{
    if s.len() > 0 && is_ws(s[0]) {
        lemma_trim_start_shape(s.drop_first());
    }
}

proof fn lemma_trim_end_shape(s: Seq<char>)
    ensures
        trim_end(s).len() <= s.len(),
        trim_end(s) == s.subrange(0, trim_end(s).len() as int),
        trim_end(s).len() == 0 || !is_ws(trim_end(s).last()),
    decreases s.len(),
{
    if s.len() > 0 && is_ws(s.last()) {
        lemma_trim_end_shape(s.drop_last());
        assert(s.drop_last().subrange(0, trim_end(s).len() as int) =~= s.subrange(
            0,
            trim_end(s).len() as int,
        ));
    } else {
        assert(s.subrange(0, s.len() as int) =~= s);
    }
}

/// Trimming twice is trimming once.
pub proof fn lemma_trim_idempotent(s: Seq<char>)
    ensures
        trim(trim(s)) == trim(s),
{
    let u = trim_start(s);
    let v = trim_end(u);
    lemma_trim_start_shape(s);
    lemma_trim_end_shape(u);
    if v.len() > 0 {
        assert(v[0] == u[0]);
    }
    assert(trim_start(v) == v);
    assert(trim_end(v) == v);
}

/// The characters of `s`, in order.
pub fn str_chars(s: &str) -> (v: Vec<char>)
    ensures
        v@ == s@,
{
    let n = s.unicode_len();
    let mut v: Vec<char> = Vec::new();
    let mut i: usize = 0;
    while i < n
        invariant
            n == s@.len(),
            i <= n,
            v@ == s@.subrange(0, i as int),
        decreases n - i,
    {
        let c = s.get_char(i);
        v.push(c);
        i = i + 1;
        assert(v@ =~= s@.subrange(0, i as int));
    }
    assert(v@ =~= s@);
    v
}

/// The characters of `s[lo..hi]` as a new vector.
pub fn sub_chars(s: &Vec<char>, lo: usize, hi: usize) -> (v: Vec<char>)
    requires
        lo <= hi <= s@.len(),
    ensures
        v@ == s@.subrange(lo as int, hi as int),
{
    let mut v: Vec<char> = Vec::new();
    let mut i: usize = lo;
    while i < hi
        invariant
            lo <= i <= hi <= s@.len(),
            v@ == s@.subrange(lo as int, i as int),
        decreases hi - i,
    {
        v.push(s[i]);
        i = i + 1;
        assert(v@ =~= s@.subrange(lo as int, i as int));
    }
    v
}

proof fn lemma_trim_start_sub(s: Seq<char>, i: int)
    requires
        0 <= i <= s.len(),
        forall|k: int| 0 <= k < i ==> is_ws(#[trigger] s[k]),
    ensures
        trim_start(s) == trim_start(s.subrange(i, s.len() as int)),
    decreases i,
{
    if i > 0 {
        assert(is_ws(s[0]));
        assert(trim_start(s) == trim_start(s.drop_first()));
        assert forall|k: int| 0 <= k < i - 1 implies is_ws(#[trigger] s.drop_first()[k]) by {
            assert(s.drop_first()[k] == s[k + 1]);
        }
        lemma_trim_start_sub(s.drop_first(), i - 1);
        assert(s.drop_first().subrange(i - 1, s.drop_first().len() as int) =~= s.subrange(
            i,
            s.len() as int,
        ));
    } else {
        assert(s.subrange(0, s.len() as int) =~= s);
    }
}

proof fn lemma_trim_end_sub(s: Seq<char>, j: int)
    requires
        0 <= j <= s.len(),
        forall|k: int| j <= k < s.len() ==> is_ws(#[trigger] s[k]),
    ensures
        trim_end(s) == trim_end(s.subrange(0, j)),
    decreases s.len() - j,
{
    if j < s.len() {
        lemma_trim_end_sub(s.drop_last(), j);
        assert(s.drop_last().subrange(0, j) =~= s.subrange(0, j));
    } else {
        assert(s.subrange(0, j) =~= s);
    }
}

/// `v` without its leading white space.
pub fn trimmed_start(v: &Vec<char>) -> (r: Vec<char>)
    ensures
        r@ == trim_start(v@),
        r@.len() <= v@.len(),
{
    let mut a: usize = 0;
    while a < v.len() && is_whitespace(v[a])
        invariant
            a <= v@.len(),
            forall|k: int| 0 <= k < a ==> is_ws(#[trigger] v@[k]),
        decreases v.len() - a,
    {
        a = a + 1;
    }
    proof {
        lemma_trim_start_sub(v@, a as int);
        let u = v@.subrange(a as int, v@.len() as int);
        if a < v@.len() {
            assert(u[0] == v@[a as int]);
        }
        assert(trim_start(u) == u);
    }
    sub_chars(v, a, v.len())
}

/// The bounds `(a, b)` of the trimmed part of `s[lo..hi]`.
pub fn trim_bounds(s: &Vec<char>, lo: usize, hi: usize) -> (r: (usize, usize))
    requires
        lo <= hi <= s@.len(),
    ensures
        lo <= r.0 <= r.1 <= hi,
        s@.subrange(r.0 as int, r.1 as int) == trim(s@.subrange(lo as int, hi as int)),
{
    let ghost t = s@.subrange(lo as int, hi as int);
    let mut a = lo;
    while a < hi && is_whitespace(s[a])
        invariant
            lo <= a <= hi <= s@.len(),
            t == s@.subrange(lo as int, hi as int),
            forall|k: int| lo <= k < a ==> is_ws(#[trigger] s@[k]),
        decreases hi - a,
    {
        a = a + 1;
    }
    proof {
        assert forall|k: int| 0 <= k < a - lo implies is_ws(#[trigger] t[k]) by {
            assert(t[k] == s@[lo + k]);
        }
        lemma_trim_start_sub(t, a - lo);
        assert(t.subrange(a - lo, t.len() as int) =~= s@.subrange(a as int, hi as int));
        let u = s@.subrange(a as int, hi as int);
        if a < hi {
            assert(u[0] == s@[a as int]);
            assert(trim_start(u) == u);
        } else {
            assert(u.len() == 0);
        }
    }
    let mut b = hi;
    while b > a && is_whitespace(s[b - 1])
        invariant
            lo <= a <= b <= hi <= s@.len(),
            forall|k: int| b <= k < hi ==> is_ws(#[trigger] s@[k]),
        decreases b - a,
    {
        b = b - 1;
    }
    proof {
        let u = s@.subrange(a as int, hi as int);
        assert forall|k: int| b - a <= k < u.len() implies is_ws(#[trigger] u[k]) by {
            assert(u[k] == s@[a + k]);
        }
        lemma_trim_end_sub(u, b - a);
        let w = u.subrange(0, b - a);
        assert(w =~= s@.subrange(a as int, b as int));
        if b > a {
            assert(w.last() == s@[b - 1]);
        }
        assert(trim_end(w) == w);
    }
    (a, b)
}

/// Whether `c` is an ASCII decimal digit.
pub open spec fn is_digit(c: char) -> bool {
    '0' <= c && c <= '9'
}

/// The value of a decimal digit character.
pub open spec fn digit_value(c: char) -> int {
    (c as int) - ('0' as int)
}

/// The value of a run of decimal digits, most significant first.
pub open spec fn digits_value(s: Seq<char>) -> int
    decreases s.len(),
{
    if s.len() == 0 {
        0
    } else {
        digits_value(s.drop_last()) * 10 + digit_value(s.last())
    }
}

/// Whether every character of `s` is a decimal digit.
pub open spec fn all_digits(s: Seq<char>) -> bool {
    forall|k: int| 0 <= k < s.len() ==> is_digit(#[trigger] s[k])
}

/// The value `str::parse::<i64>` gives for `s`: an optional sign followed by
/// at least one decimal digit, within the range of `i64`.
pub open spec fn parse_i64_spec(s: Seq<char>) -> Option<int> {
    let neg = s.len() > 0 && s[0] == '-';
    let signed = s.len() > 0 && (s[0] == '-' || s[0] == '+');
    let digits = if signed { s.drop_first() } else { s };
    if digits.len() == 0 || !all_digits(digits) {
        None
    } else {
        let v = if neg { -digits_value(digits) } else { digits_value(digits) };
        if i64::MIN <= v <= i64::MAX { Some(v) } else { None }
    }
}

proof fn lemma_digits_value_nonneg(s: Seq<char>)
    requires
        all_digits(s),
    ensures
        digits_value(s) >= 0,
    decreases s.len(),
{
    if s.len() > 0 {
        lemma_digits_value_nonneg(s.drop_last());
    }
}

proof fn lemma_digits_value_mono(s: Seq<char>, i: int)
    requires
        all_digits(s),
        0 <= i <= s.len(),
    ensures
        digits_value(s.subrange(0, i)) <= digits_value(s),
    decreases s.len() - i,
{
    if i < s.len() {
        let t = s.subrange(0, i + 1);
        lemma_digits_value_mono(s, i + 1);
        assert(t.drop_last() =~= s.subrange(0, i));
        assert(all_digits(t.drop_last()));
        lemma_digits_value_nonneg(t.drop_last());
    } else {
        assert(s.subrange(0, i) =~= s);
    }
}

/// Parses `s` as `str::parse::<i64>` does.
pub fn parse_i64(s: &Vec<char>) -> (r: Option<i64>)
    ensures
        r matches Some(v) ==> parse_i64_spec(s@) == Some(v as int),
        r is None ==> parse_i64_spec(s@) is None,
{
    let n = s.len();
    let neg = n > 0 && s[0] == '-';
    let start: usize = if n > 0 && (s[0] == '-' || s[0] == '+') { 1 } else { 0 };
    let ghost digits = if start == 1 { s@.drop_first() } else { s@ };
    assert(digits =~= s@.subrange(start as int, n as int));
    if start == n {
        return None;
    }
    let mut acc: u64 = 0;
    let mut i: usize = start;
    while i < n
        invariant
            start <= i <= n,
            n == s@.len(),
            1 >= start,
            digits =~= s@.subrange(start as int, n as int),
            digits == (if s@.len() > 0 && (s@[0] == '-' || s@[0] == '+') {
                s@.drop_first()
            } else {
                s@
            }),
            all_digits(digits.subrange(0, i - start)),
            acc as int == digits_value(digits.subrange(0, i - start)),
            acc <= 0x8000_0000_0000_0000u64,
        decreases n - i,
    {
        let c = s[i];
        if !('0' <= c && c <= '9') {
            proof {
                assert(digits[i - start] == c);
                assert(!is_digit(digits[i - start]));
                assert(!all_digits(digits));
                assert(digits.len() > 0);
            }
            return None;
        }
        let d: u64 = ((c as u32) - ('0' as u32)) as u64;
        let ghost pre = digits.subrange(0, i - start);
        let ghost nxt = digits.subrange(0, i + 1 - start);
        proof {
            assert(nxt.drop_last() =~= pre);
            assert(nxt.last() == c);
            assert(all_digits(nxt));
        }
        if acc > 922_337_203_685_477_580u64 || (acc == 922_337_203_685_477_580u64 && d > 8) {
            proof {
                assert(digits_value(nxt) == digits_value(pre) * 10 + digit_value(c));
                assert(digits_value(nxt) > 0x8000_0000_0000_0000);
                assert(digits.len() > 0);
                if all_digits(digits) {
                    lemma_digits_value_mono(digits, i + 1 - start);
                    assert(digits_value(digits) > 0x8000_0000_0000_0000);
                }
            }
            return None;
        }
        acc = acc * 10 + d;
        i = i + 1;
    }
    assert(digits.subrange(0, n - start) =~= digits);
    if neg {
        if acc == 0x8000_0000_0000_0000u64 {
            Some(i64::MIN)
        } else {
            Some(-(acc as i64))
        }
    } else {
        if acc > 0x7FFF_FFFF_FFFF_FFFFu64 {
            None
        } else {
            Some(acc as i64)
        }
    }
}


/// A `String` holding exactly the characters `v`.
pub fn string_from_chars(v: &Vec<char>) -> (s: String)
    ensures
        s@ == v@,
{
    let mut s = String::new();
    let mut i: usize = 0;
    while i < v.len()
        invariant
            i <= v@.len(),
            s@ == v@.subrange(0, i as int),
        decreases v.len() - i,
    {
        push_char(&mut s, v[i]);
        i = i + 1;
        assert(s@ =~= v@.subrange(0, i as int));
    }
    assert(v@.subrange(0, v@.len() as int) =~= v@);
    s
}


/// `i` is the first position of `c` in `s`.
pub open spec fn is_first_index(s: Seq<char>, c: char, i: int) -> bool {
    0 <= i < s.len() && s[i] == c && forall|k: int| 0 <= k < i ==> s[k] != c
}

/// The first position of `c` in `s` (`str::find`), or -1 when `c` is absent.
pub open spec fn first_index(s: Seq<char>, c: char) -> int {
    if exists|i: int| is_first_index(s, c, i) {
        choose|i: int| is_first_index(s, c, i)
    } else {
        -1
    }
}

/// The position of the first `c` in `s`, or -1.
pub fn find_char(s: &Vec<char>, c: char) -> (r: i64)
    requires
        s@.len() < 0x7FFF_FFFF_FFFF_FFFF,
    ensures
        r as int == first_index(s@, c),
        -1 <= r < s@.len(),
        r == -1 ==> forall|k: int| 0 <= k < s@.len() ==> s@[k] != c,
{
    let mut i: usize = 0;
    while i < s.len()
        invariant
            i <= s@.len(),
            s@.len() < 0x7FFF_FFFF_FFFF_FFFF,
            forall|k: int| 0 <= k < i ==> s@[k] != c,
        decreases s.len() - i,
    {
        if s[i] == c {
            proof {
                assert(is_first_index(s@, c, i as int));
                let j = choose|j: int| is_first_index(s@, c, j);
                assert(j == i) by {
                    if j < i {
                        assert(s@[j] != c);
                    } else if j > i {
                        assert(s@[i as int] != c);
                    }
                }
            }
            return i as i64;
        }
        i = i + 1;
    }
    proof {
        assert(!exists|j: int| is_first_index(s@, c, j));
    }
    -1
}

/// `i` is the last position of a `+` or `-` in `s`.
pub open spec fn is_last_sign_index(s: Seq<char>, i: int) -> bool {
    0 <= i < s.len() && (s[i] == '+' || s[i] == '-') && forall|k: int|
        i < k < s.len() ==> s[k] != '+' && s[k] != '-'
}

/// The last position of `+` or `-` in `s` (`str::rfind(['+', '-'])`), or -1.
pub open spec fn last_sign_index(s: Seq<char>) -> int {
    if exists|i: int| is_last_sign_index(s, i) {
        choose|i: int| is_last_sign_index(s, i)
    } else {
        -1
    }
}

/// The position of the last `+` or `-` in `s`, or -1.
pub fn rfind_sign(s: &Vec<char>) -> (r: i64)
    requires
        s@.len() < 0x7FFF_FFFF_FFFF_FFFF,
    ensures
        r as int == last_sign_index(s@),
{
    let mut i: usize = s.len();
    while i > 0
        invariant
            i <= s@.len(),
            s@.len() < 0x7FFF_FFFF_FFFF_FFFF,
            forall|k: int| i <= k < s@.len() ==> s@[k] != '+' && s@[k] != '-',
        decreases i,
    {
        if s[i - 1] == '+' || s[i - 1] == '-' {
            proof {
                let p = i - 1;
                assert(is_last_sign_index(s@, p));
                let j = choose|j: int| is_last_sign_index(s@, j);
                assert(j == p) by {
                    if j < p {
                        assert(s@[p] != '+' && s@[p] != '-');
                    } else if j > p {
                        assert(s@[j] != '+' && s@[j] != '-');
                    }
                }
            }
            return (i - 1) as i64;
        }
        i = i - 1;
    }
    proof {
        assert(!exists|j: int| is_last_sign_index(s@, j));
    }
    -1
}

/// Whether `s[from..]` equals `lit` exactly.
pub fn tail_equals(s: &Vec<char>, from: usize, lit: &Vec<char>) -> (b: bool)
    requires
        from <= s@.len(),
    ensures
        b == (s@.subrange(from as int, s@.len() as int) == lit@),
{
    if s.len() - from != lit.len() {
        proof {
            assert(s@.subrange(from as int, s@.len() as int).len() != lit@.len());
        }
        return false;
    }
    let mut i: usize = 0;
    while i < lit.len()
        invariant
            from <= s@.len(),
            s@.len() == s.len(),
            s@.len() - from == lit@.len(),
            i <= lit@.len(),
            forall|k: int| 0 <= k < i ==> s@[from + k] == lit@[k],
        decreases lit.len() - i,
    {
        if s[from + i] != lit[i] {
            proof {
                assert(s@.subrange(from as int, s@.len() as int)[i as int] != lit@[i as int]);
            }
            return false;
        }
        i = i + 1;
    }
    assert(s@.subrange(from as int, s@.len() as int) =~= lit@);
    true
}


/// Whether the two vectors hold the same characters.
pub fn chars_eq(a: &Vec<char>, b: &Vec<char>) -> (r: bool)
    ensures
        r == (a@ == b@),
{
    if a.len() != b.len() {
        return false;
    }
    let mut i: usize = 0;
    while i < a.len()
        invariant
            a@.len() == b@.len(),
            i <= a@.len(),
            forall|k: int| 0 <= k < i ==> a@[k] == b@[k],
        decreases a.len() - i,
    {
        if a[i] != b[i] {
            return false;
        }
        i = i + 1;
    }
    assert(a@ =~= b@);
    true
}

/// Whether the two strings hold the same characters.
pub fn str_eq(a: &str, b: &str) -> (r: bool)
    ensures
        r == (a@ == b@),
{
    let va = str_chars(a);
    let vb = str_chars(b);
    chars_eq(&va, &vb)
}


/// Whether `s` begins with `p`.
pub open spec fn has_prefix(s: Seq<char>, p: Seq<char>) -> bool {
    p.len() <= s.len() && s.subrange(0, p.len() as int) == p
}

/// Whether `s` ends with `p`.
pub open spec fn has_suffix(s: Seq<char>, p: Seq<char>) -> bool {
    p.len() <= s.len() && s.subrange(s.len() - p.len(), s.len() as int) == p
}

/// Whether `v` begins with `p`.
pub fn starts_with(v: &Vec<char>, p: &Vec<char>) -> (b: bool)
    ensures
        b == has_prefix(v@, p@),
{
    if p.len() > v.len() {
        return false;
    }
    let mut i: usize = 0;
    while i < p.len()
        invariant
            p@.len() <= v@.len(),
            i <= p@.len(),
            forall|k: int| 0 <= k < i ==> v@[k] == p@[k],
        decreases p.len() - i,
    {
        if v[i] != p[i] {
            proof {
                assert(v@.subrange(0, p@.len() as int)[i as int] != p@[i as int]);
            }
            return false;
        }
        i = i + 1;
    }
    assert(v@.subrange(0, p@.len() as int) =~= p@);
    true
}

/// Whether `v` begins with the characters of `p`.
pub fn starts_with_str(v: &Vec<char>, p: &str) -> (b: bool)
    ensures
        b == has_prefix(v@, p@),
{
    let pc = str_chars(p);
    starts_with(v, &pc)
}

/// Whether `c` occurs in `s`.
pub fn contains_char(s: &Vec<char>, c: char) -> (b: bool)
    ensures
        b == s@.contains(c),
{
    let mut i: usize = 0;
    while i < s.len()
        invariant
            i <= s@.len(),
            forall|k: int| 0 <= k < i ==> s@[k] != c,
        decreases s.len() - i,
    {
        if s[i] == c {
            assert(s@[i as int] == c);
            return true;
        }
        i = i + 1;
    }
    false
}

/// ASCII upper-casing of one character.
pub open spec fn ascii_upper(c: char) -> char {
    if 'a' <= c && c <= 'z' { ((c as u8) - 32) as char } else { c }
}

/// Whether the first characters of `s`, upper-cased as ASCII, spell `kw`.
pub open spec fn ci_prefix(s: Seq<char>, kw: Seq<char>) -> bool {
    kw.len() <= s.len() && forall|k: int| 0 <= k < kw.len() ==> ascii_upper(#[trigger] s[k]) == kw[k]
}

/// ASCII upper-casing of one character.
pub fn to_ascii_upper(c: char) -> (r: char)
    ensures
        r == ascii_upper(c),
{
    if 'a' <= c && c <= 'z' {
        ((c as u8) - 32) as char
    } else {
        c
    }
}

/// Whether `s` begins with keyword `kw`, ignoring ASCII case.
pub fn ci_starts_with(s: &Vec<char>, kw: &str) -> (b: bool)
    ensures
        b == ci_prefix(s@, kw@),
{
    let k = str_chars(kw);
    if k.len() > s.len() {
        return false;
    }
    let mut i: usize = 0;
    while i < k.len()
        invariant
            k@ == kw@,
            k@.len() <= s@.len(),
            i <= k@.len(),
            forall|j: int| 0 <= j < i ==> ascii_upper(#[trigger] s@[j]) == k@[j],
        decreases k.len() - i,
    {
        if to_ascii_upper(s[i]) != k[i] {
            return false;
        }
        i = i + 1;
    }
    true
}

/// `s` with every non-overlapping occurrence of `pat` (found left to right)
/// replaced by `rep` (`str::replace`).
pub open spec fn replace_all(s: Seq<char>, pat: Seq<char>, rep: Seq<char>) -> Seq<char>
    decreases s.len(),
{
    if s.len() == 0 {
        Seq::empty()
    } else if pat.len() > 0 && has_prefix(s, pat) {
        rep + replace_all(s.subrange(pat.len() as int, s.len() as int), pat, rep)
    } else {
        seq![s[0]] + replace_all(s.drop_first(), pat, rep)
    }
}

/// Whether `s[i..]` begins with `p`.
fn starts_with_at(s: &Vec<char>, i: usize, p: &Vec<char>) -> (b: bool)
    requires
        i <= s@.len(),
    ensures
        b == has_prefix(s@.subrange(i as int, s@.len() as int), p@),
{
    let ghost t = s@.subrange(i as int, s@.len() as int);
    if p.len() > s.len() - i {
        return false;
    }
    let mut k: usize = 0;
    while k < p.len()
        invariant
            i <= s@.len(),
            s@.len() == s.len(),
            t == s@.subrange(i as int, s@.len() as int),
            p@.len() <= t.len(),
            k <= p@.len(),
            forall|j: int| 0 <= j < k ==> t[j] == p@[j],
        decreases p.len() - k,
    {
        if s[i + k] != p[k] {
            proof {
                assert(t[k as int] == s@[i + k]);
                assert(t.subrange(0, p@.len() as int)[k as int] != p@[k as int]);
            }
            return false;
        }
        proof {
            assert(t[k as int] == s@[i + k]);
        }
        k = k + 1;
    }
    assert(t.subrange(0, p@.len() as int) =~= p@);
    true
}

/// Replaces every occurrence of `pat` in `s` by `rep`.
pub fn replace_chars(s: &Vec<char>, pat: &Vec<char>, rep: &Vec<char>) -> (r: Vec<char>)
    ensures
        r@ == replace_all(s@, pat@, rep@),
{
    let mut out: Vec<char> = Vec::new();
    let mut i: usize = 0;
    assert(s@.subrange(0, s@.len() as int) =~= s@);
    while i < s.len()
        invariant
            i <= s@.len(),
            replace_all(s@, pat@, rep@) == out@ + replace_all(
                s@.subrange(i as int, s@.len() as int),
                pat@,
                rep@,
            ),
        decreases s.len() - i,
    {
        let ghost t = s@.subrange(i as int, s@.len() as int);
        if pat.len() > 0 && starts_with_at(s, i, pat) {
            let mut k: usize = 0;
            let ghost out0 = out@;
            while k < rep.len()
                invariant
                    k <= rep@.len(),
                    out@ == out0 + rep@.subrange(0, k as int),
                decreases rep.len() - k,
            {
                out.push(rep[k]);
                k = k + 1;
                assert(out@ =~= out0 + rep@.subrange(0, k as int));
            }
            assert(rep@.subrange(0, rep@.len() as int) =~= rep@);
            assert(t.subrange(pat@.len() as int, t.len() as int) =~= s@.subrange(
                i + pat@.len(),
                s@.len() as int,
            ));
            assert(out@ + replace_all(t.subrange(pat@.len() as int, t.len() as int), pat@, rep@)
                =~= out0 + (rep@ + replace_all(t.subrange(pat@.len() as int, t.len() as int), pat@, rep@)));
            i = i + pat.len();
        } else {
            let ghost out0 = out@;
            out.push(s[i]);
            assert(t.drop_first() =~= s@.subrange(i + 1, s@.len() as int));
            assert(t[0] == s@[i as int]);
            assert(out@ + replace_all(t.drop_first(), pat@, rep@) =~= out0 + (seq![t[0]] + replace_all(
                t.drop_first(),
                pat@,
                rep@,
            )));
            i = i + 1;
        }
    }
    assert(s@.subrange(i as int, s@.len() as int) =~= Seq::<char>::empty());
    assert(out@ =~= out@ + Seq::<char>::empty());
    out
}


/// `i` is the start of the last occurrence of `pat` in `s`.
pub open spec fn is_last_occurrence(s: Seq<char>, pat: Seq<char>, i: int) -> bool {
    0 <= i && i + pat.len() <= s.len() && s.subrange(i, i + pat.len()) == pat && forall|j: int|
        i < j && j + pat.len() <= s.len() ==> #[trigger] s.subrange(j, j + pat.len()) != pat
}

/// The start of the last occurrence of `pat` in `s` (`str::rfind`), or -1.
pub open spec fn last_occurrence(s: Seq<char>, pat: Seq<char>) -> int {
    if exists|i: int| is_last_occurrence(s, pat, i) {
        choose|i: int| is_last_occurrence(s, pat, i)
    } else {
        -1
    }
}

/// The start of the last occurrence of `pat` in `s`, or -1.
pub fn rfind_chars(s: &Vec<char>, pat: &Vec<char>) -> (r: i64)
    requires
        s@.len() < 0x7FFF_FFFF_FFFF_FFFF,
    ensures
        r as int == last_occurrence(s@, pat@),
        -1 <= r,
        r >= 0 ==> r + pat@.len() <= s@.len() && s@.subrange(r as int, r + pat@.len()) == pat@,
{
    if pat.len() > s.len() {
        proof {
            assert(!exists|i: int| is_last_occurrence(s@, pat@, i));
        }
        return -1;
    }
    if pat.len() == 0 {
        proof {
            let n = s@.len() as int;
            assert(s@.subrange(n, n) =~= pat@);
            assert(is_last_occurrence(s@, pat@, n));
            let j = choose|j: int| is_last_occurrence(s@, pat@, j);
            assert(j == n) by {
                if j < n {
                    assert(s@.subrange(n, n) =~= pat@);
                }
            }
        }
        return s.len() as i64;
    }
    let mut i: usize = s.len() - pat.len() + 1;
    while i > 0
        invariant
            pat@.len() <= s@.len() < 0x7FFF_FFFF_FFFF_FFFF,
            i <= s@.len() - pat@.len() + 1,
            forall|j: int| i <= j && j + pat@.len() <= s@.len() ==> #[trigger] s@.subrange(j, j + pat@.len()) != pat@,
        decreases i,
    {
        let k = i - 1;
        if starts_with_at(s, k, pat) {
            proof {
                assert(s@.subrange(k as int, s@.len() as int).subrange(0, pat@.len() as int) =~= s@.subrange(
                    k as int,
                    k + pat@.len(),
                ));
                assert(is_last_occurrence(s@, pat@, k as int));
                let j = choose|j: int| is_last_occurrence(s@, pat@, j);
                assert(j == k) by {
                    if j < k {
                        assert(s@.subrange(k as int, k + pat@.len()) != pat@);
                    } else if j > k {
                        assert(s@.subrange(j, j + pat@.len()) != pat@);
                    }
                }
            }
            return k as i64;
        }
        proof {
            assert(s@.subrange(k as int, s@.len() as int).subrange(0, pat@.len() as int) =~= s@.subrange(
                k as int,
                k + pat@.len(),
            ));
        }
        i = k;
    }
    proof {
        assert(!exists|j: int| is_last_occurrence(s@, pat@, j));
    }
    -1
}

/// `i` is the start of the first occurrence of `pat` in `s`.
pub open spec fn is_first_occurrence(s: Seq<char>, pat: Seq<char>, i: int) -> bool {
    0 <= i && i + pat.len() <= s.len() && s.subrange(i, i + pat.len()) == pat && forall|j: int|
        0 <= j < i ==> #[trigger] s.subrange(j, j + pat.len()) != pat
}

/// The start of the first occurrence of `pat` in `s` (`str::find`), or -1.
pub open spec fn first_occurrence(s: Seq<char>, pat: Seq<char>) -> int {
    if exists|i: int| is_first_occurrence(s, pat, i) {
        choose|i: int| is_first_occurrence(s, pat, i)
    } else {
        -1
    }
}

/// The start of the first occurrence of `pat` in `s`, or -1.
pub fn find_chars(s: &Vec<char>, pat: &Vec<char>) -> (r: i64)
    requires
        s@.len() < 0x7FFF_FFFF_FFFF_FFFF,
    ensures
        r as int == first_occurrence(s@, pat@),
        -1 <= r,
        r >= 0 ==> r + pat@.len() <= s@.len() && s@.subrange(r as int, r + pat@.len()) == pat@,
{
    if pat.len() > s.len() {
        proof {
            assert(!exists|i: int| is_first_occurrence(s@, pat@, i));
        }
        return -1;
    }
    if pat.len() == 0 {
        proof {
            assert(s@.subrange(0, 0) =~= pat@);
            assert(is_first_occurrence(s@, pat@, 0));
            let j = choose|j: int| is_first_occurrence(s@, pat@, j);
            assert(j == 0) by {
                if j > 0 {
                    assert(s@.subrange(0, 0) =~= pat@);
                }
            }
        }
        return 0;
    }
    let mut i: usize = 0;
    while i <= s.len() - pat.len()
        invariant
            1 <= pat@.len() <= s@.len() < 0x7FFF_FFFF_FFFF_FFFF,
            i <= s@.len() - pat@.len() + 1,
            forall|j: int| 0 <= j < i ==> #[trigger] s@.subrange(j, j + pat@.len()) != pat@,
        decreases s@.len() - pat@.len() + 1 - i,
    {
        if starts_with_at(s, i, pat) {
            proof {
                assert(s@.subrange(i as int, s@.len() as int).subrange(0, pat@.len() as int) =~= s@.subrange(
                    i as int,
                    i + pat@.len(),
                ));
                assert(is_first_occurrence(s@, pat@, i as int));
                let j = choose|j: int| is_first_occurrence(s@, pat@, j);
                assert(j == i) by {
                    if j < i {
                        assert(s@.subrange(j, j + pat@.len()) != pat@);
                    } else if j > i {
                        assert(s@.subrange(i as int, i + pat@.len()) != pat@);
                    }
                }
            }
            return i as i64;
        }
        proof {
            assert(s@.subrange(i as int, s@.len() as int).subrange(0, pat@.len() as int) =~= s@.subrange(
                i as int,
                i + pat@.len(),
            ));
        }
        i = i + 1;
    }
    proof {
        assert(!exists|j: int| is_first_occurrence(s@, pat@, j));
    }
    -1
}

/// `i` is the start of the first occurrence of keyword `kw` in `s`,
/// ignoring ASCII case.
pub open spec fn is_first_ci_occurrence(s: Seq<char>, kw: Seq<char>, i: int) -> bool {
    0 <= i && i + kw.len() <= s.len() && ci_prefix(s.subrange(i, s.len() as int), kw) && forall|j: int|
        0 <= j < i ==> !ci_prefix(#[trigger] s.subrange(j, s.len() as int), kw)
}

/// The start of the first ASCII-case-insensitive occurrence of `kw` in `s`, or -1.
pub open spec fn first_ci_occurrence(s: Seq<char>, kw: Seq<char>) -> int {
    if exists|i: int| is_first_ci_occurrence(s, kw, i) {
        choose|i: int| is_first_ci_occurrence(s, kw, i)
    } else {
        -1
    }
}

/// The start of the first occurrence of keyword `kw` in `s`, ignoring ASCII case, or -1.
pub fn find_ci(s: &Vec<char>, kw: &str) -> (r: i64)
    requires
        s@.len() < 0x7FFF_FFFF_FFFF_FFFF,
    ensures
        r as int == first_ci_occurrence(s@, kw@),
{
    let mut i: usize = 0;
    while i <= s.len()
        invariant
            s@.len() < 0x7FFF_FFFF_FFFF_FFFF,
            i <= s@.len() + 1,
            forall|j: int| 0 <= j < i ==> !ci_prefix(#[trigger] s@.subrange(j, s@.len() as int), kw@),
        decreases s@.len() + 1 - i,
    {
        let t = sub_chars(s, i, s.len());
        if ci_starts_with(&t, kw) {
            proof {
                assert(is_first_ci_occurrence(s@, kw@, i as int));
                let j = choose|j: int| is_first_ci_occurrence(s@, kw@, j);
                assert(j == i) by {
                    if j < i {
                        assert(!ci_prefix(s@.subrange(j, s@.len() as int), kw@));
                    } else if j > i {
                        assert(!ci_prefix(s@.subrange(i as int, s@.len() as int), kw@));
                    }
                }
            }
            return i as i64;
        }
        if i == s.len() {
            proof {
                assert forall|j: int| !is_first_ci_occurrence(s@, kw@, j) by {
                    if 0 <= j && j + kw@.len() <= s@.len() {
                        assert(!ci_prefix(s@.subrange(j, s@.len() as int), kw@));
                    }
                }
            }
            return -1;
        }
        i = i + 1;
    }
    proof {
        assert forall|j: int| !is_first_ci_occurrence(s@, kw@, j) by {
            if 0 <= j && j + kw@.len() <= s@.len() {
                assert(!ci_prefix(s@.subrange(j, s@.len() as int), kw@));
            }
        }
    }
    -1
}

/// The maximal runs of non-white-space characters of `s` from position `i`
/// (`str::split_whitespace`).
pub open spec fn words_from(s: Seq<char>, i: int, words: Seq<Seq<char>>, cur: Seq<char>) -> Seq<Seq<char>>
    decreases s.len() - i,
{
    if i < 0 || i >= s.len() {
        if cur.len() > 0 { words.push(cur) } else { words }
    } else if is_ws(s[i]) {
        if cur.len() > 0 {
            words_from(s, i + 1, words.push(cur), Seq::empty())
        } else {
            words_from(s, i + 1, words, cur)
        }
    } else {
        words_from(s, i + 1, words, cur.push(s[i]))
    }
}

/// The white-space-separated words of `s`.
pub open spec fn split_whitespace_spec(s: Seq<char>) -> Seq<Seq<char>> {
    words_from(s, 0, Seq::empty(), Seq::empty())
}

/// Splits `s` into its white-space-separated words.
pub fn split_whitespace(s: &Vec<char>) -> (r: Vec<Vec<char>>)
    ensures
        r.deep_view() == split_whitespace_spec(s@),
{
    let mut words: Vec<Vec<char>> = Vec::new();
    let mut cur: Vec<char> = Vec::new();
    let mut i: usize = 0;
    assert(words.deep_view() =~= Seq::<Seq<char>>::empty());
    assert(cur@ =~= Seq::<char>::empty());
    while i < s.len()
        invariant
            i <= s@.len(),
            split_whitespace_spec(s@) == words_from(s@, i as int, words.deep_view(), cur@),
        decreases s.len() - i,
    {
        if is_whitespace(s[i]) {
            if cur.len() > 0 {
                let ghost old_dv = words.deep_view();
                let ghost cv = cur@;
                words.push(cur);
                assert(words@[words@.len() - 1].deep_view() =~= cv);
                assert(words.deep_view() =~= old_dv.push(cv));
                cur = Vec::new();
                assert(cur@ =~= Seq::<char>::empty());
            }
        } else {
            cur.push(s[i]);
        }
        i = i + 1;
    }
    if cur.len() > 0 {
        let ghost old_dv = words.deep_view();
        let ghost cv = cur@;
        words.push(cur);
        assert(words@[words@.len() - 1].deep_view() =~= cv);
        assert(words.deep_view() =~= old_dv.push(cv));
    }
    words
}

/// `s` split at its first white-space character into the text before it and
/// the text after it (`str::splitn(2, char::is_whitespace)` with two parts).
pub open spec fn split_once_ws(s: Seq<char>) -> Option<(Seq<char>, Seq<char>)> {
    if exists|i: int| 0 <= i < s.len() && is_ws(s[i]) {
        let i = choose|i: int| 0 <= i < s.len() && is_ws(s[i]) && forall|k: int| 0 <= k < i ==> !is_ws(s[k]);
        Some((s.subrange(0, i), s.subrange(i + 1, s.len() as int)))
    } else {
        None
    }
}

/// Splits `s` at its first white-space character.
pub fn split_once_whitespace(s: &Vec<char>) -> (r: Option<(Vec<char>, Vec<char>)>)
    ensures
        match r {
            Some((a, b)) => split_once_ws(s@) == Some((a@, b@)),
            None => split_once_ws(s@) is None,
        },
{
    let mut i: usize = 0;
    while i < s.len()
        invariant
            i <= s@.len(),
            forall|k: int| 0 <= k < i ==> !is_ws(s@[k]),
        decreases s.len() - i,
    {
        if is_whitespace(s[i]) {
            proof {
                let j = choose|j: int| 0 <= j < s@.len() && is_ws(s@[j]) && forall|k: int| 0 <= k < j ==> !is_ws(s@[k]);
                assert(j == i) by {
                    if j < i {
                        assert(!is_ws(s@[j]));
                    } else if j > i {
                        assert(!is_ws(s@[i as int]));
                    }
                }
            }
            let a = sub_chars(s, 0, i);
            let b = sub_chars(s, i + 1, s.len());
            return Some((a, b));
        }
        i = i + 1;
    }
    None
}


/// A line without the `\r` of a `\r\n` ending.
pub open spec fn strip_cr(l: Seq<char>) -> Seq<char> {
    if l.len() > 0 && l.last() == '\r' { l.drop_last() } else { l }
}

/// The lines of `s[i..]` as `str::lines` yields them, `cur` being the part
/// of the current line read so far: lines end at `\n` (a `\r` before it
/// is dropped), and a final empty line is not yielded.
pub open spec fn lines_from(s: Seq<char>, i: int, cur: Seq<char>) -> Seq<Seq<char>>
    decreases s.len() - i,
{
    if i >= s.len() {
        if cur.len() == 0 { Seq::empty() } else { seq![cur] }
    } else if s[i] == '\n' {
        seq![strip_cr(cur)] + lines_from(s, i + 1, Seq::empty())
    } else {
        lines_from(s, i + 1, cur.push(s[i]))
    }
}

/// The lines of `s`.
pub open spec fn lines_spec(s: Seq<char>) -> Seq<Seq<char>> {
    lines_from(s, 0, Seq::empty())
}

/// The views of a vector of strings.
pub open spec fn string_views(v: Seq<String>) -> Seq<Seq<char>> {
    Seq::new(v.len(), |i: int| v[i]@)
}

/// Splits `s` into lines as `str::lines` does.
pub fn split_lines(s: &str) -> (r: Vec<String>)
    ensures
        string_views(r@) == lines_spec(s@),
{
    let v = str_chars(s);
    let mut out: Vec<String> = Vec::new();
    let mut cur: Vec<char> = Vec::new();
    let mut i: usize = 0;
    while i < v.len()
        invariant
            i <= v@.len(),
            v@ == s@,
            string_views(out@) + lines_from(v@, i as int, cur@) == lines_spec(s@),
        decreases v.len() - i,
    {
        let c = v[i];
        if c == '\n' {
            let mut n = cur.len();
            if n > 0 && cur[n - 1] == '\r' {
                n = n - 1;
            }
            let line = sub_chars(&cur, 0, n);
            assert(line@ == strip_cr(cur@));
            let ghost before = string_views(out@);
            out.push(string_from_chars(&line));
            proof {
                assert(string_views(out@) =~= before.push(strip_cr(cur@)));
                assert(lines_from(v@, i as int, cur@) == seq![strip_cr(cur@)] + lines_from(v@, i + 1, Seq::empty()));
                assert(before + lines_from(v@, i as int, cur@) =~= before.push(strip_cr(cur@)) + lines_from(v@, i + 1, Seq::empty()));
            }
            cur = Vec::new();
        } else {
            cur.push(c);
        }
        i = i + 1;
    }
    if cur.len() > 0 {
        let ghost before = string_views(out@);
        out.push(string_from_chars(&cur));
        assert(string_views(out@) =~= before + seq![cur@]);
    } else {
        assert(string_views(out@) + lines_from(v@, i as int, cur@) =~= string_views(out@));
    }
    out
}

/// The position of the first `x` in `s` (`s.len()` when there is none).
pub open spec fn first_pos<K>(s: Seq<K>, x: K) -> int
    decreases s.len(),
{
    if s.len() == 0 {
        0
    } else if s[0] == x {
        0
    } else {
        1 + first_pos(s.drop_first(), x)
    }
}

/// `first_pos` finds the first occurrence.
pub proof fn lemma_first_pos<K>(s: Seq<K>, x: K, j: int)
    requires
        0 <= j < s.len(),
        s[j] == x,
        forall|q: int| 0 <= q < j ==> s[q] != x,
    ensures
        first_pos(s, x) == j,
    decreases j,
{
    if j > 0 {
        assert(s[0] != x);
        let t = s.drop_first();
        assert forall|q: int| 0 <= q < j - 1 implies t[q] != x by {
            assert(t[q] == s[q + 1]);
        }
        lemma_first_pos(t, x, j - 1);
    }
}

/// Without an occurrence, `first_pos` is the length.
pub proof fn lemma_first_pos_absent<K>(s: Seq<K>, x: K)
    requires
        forall|q: int| 0 <= q < s.len() ==> s[q] != x,
    ensures
        first_pos(s, x) == s.len(),
    decreases s.len(),
{
    if s.len() > 0 {
        let t = s.drop_first();
        assert forall|q: int| 0 <= q < t.len() implies t[q] != x by {
            assert(t[q] == s[q + 1]);
        }
        lemma_first_pos_absent(t, x);
    }
}

/// The start of the first occurrence of `pat` in `s`, if any.
pub fn find_first(s: &Vec<char>, pat: &Vec<char>) -> (r: Option<usize>)
    ensures
        match r {
            Some(i) => i as int == first_occurrence(s@, pat@) && i + pat@.len() <= s@.len(),
            None => first_occurrence(s@, pat@) == -1,
        },
{
    if pat.len() > s.len() {
        proof {
            assert(!exists|i: int| is_first_occurrence(s@, pat@, i));
        }
        return None;
    }
    let lim = s.len() - pat.len();
    let mut i: usize = 0;
    loop
        invariant
            pat@.len() <= s@.len(),
            lim == s@.len() - pat@.len(),
            i <= lim,
            forall|j: int| 0 <= j < i ==> #[trigger] s@.subrange(j, j + pat@.len()) != pat@,
        decreases lim - i,
    {
        proof {
            assert(s@.subrange(i as int, s@.len() as int).subrange(0, pat@.len() as int) =~= s@.subrange(
                i as int,
                i + pat@.len(),
            ));
        }
        if starts_with_at(s, i, pat) {
            proof {
                assert(is_first_occurrence(s@, pat@, i as int));
                let j = choose|j: int| is_first_occurrence(s@, pat@, j);
                assert(j == i) by {
                    if j < i {
                        assert(s@.subrange(j, j + pat@.len()) != pat@);
                    } else if j > i {
                        assert(s@.subrange(i as int, i + pat@.len()) != pat@);
                    }
                }
            }
            return Some(i);
        }
        if i == lim {
            proof {
                assert(!exists|j: int| is_first_occurrence(s@, pat@, j));
            }
            return None;
        }
        i = i + 1;
    }
}

/// `s` with the first occurrence of `pat` replaced by `rep`
/// (`str::replacen(pat, rep, 1)`).
pub open spec fn replace_first(s: Seq<char>, pat: Seq<char>, rep: Seq<char>) -> Seq<char> {
    let i = first_occurrence(s, pat);
    if i < 0 { s } else { s.subrange(0, i) + rep + s.subrange(i + pat.len(), s.len() as int) }
}

/// Replaces the first occurrence of `pat` in `s` by `rep`.
pub fn replace_first_chars(s: &Vec<char>, pat: &Vec<char>, rep: &Vec<char>) -> (r: Vec<char>)
    ensures
        r@ == replace_first(s@, pat@, rep@),
{
    match find_first(s, pat) {
        None => sub_chars(s, 0, s.len()),
        Some(i) => {
            let n = s.len();
            let m = pat.len();
            assert(i + m <= n);
            let tail = sub_chars(s, i + m, n);
            let mut out = sub_chars(s, 0, i);
            let mut k: usize = 0;
            let ghost o0 = out@;
            while k < rep.len()
                invariant
                    k <= rep@.len(),
                    out@ == o0 + rep@.subrange(0, k as int),
                decreases rep.len() - k,
            {
                out.push(rep[k]);
                k = k + 1;
                assert(out@ =~= o0 + rep@.subrange(0, k as int));
            }
            let ghost o1 = out@;
            let mut j: usize = 0;
            while j < tail.len()
                invariant
                    j <= tail@.len(),
                    out@ == o1 + tail@.subrange(0, j as int),
                decreases tail.len() - j,
            {
                out.push(tail[j]);
                j = j + 1;
                assert(out@ =~= o1 + tail@.subrange(0, j as int));
            }
            assert(rep@.subrange(0, rep@.len() as int) =~= rep@);
            assert(tail@.subrange(0, tail@.len() as int) =~= tail@);
            out
        },
    }
}

} // verus!
