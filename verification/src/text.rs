//! Decimal number text and timestamp text: the spec-level grammars used by
//! the wire codec, with the few std calls that produce or read such text.

use vstd::prelude::*;

verus! {

/// ASCII decimal digit.
pub open spec fn is_digit(c: char) -> bool {
    '0' <= c && c <= '9'
}

/// Numeric value of a decimal digit character.
pub open spec fn digit_val(c: char) -> int {
    if c == '0' {
        0
    } else if c == '1' {
        1
    } else if c == '2' {
        2
    } else if c == '3' {
        3
    } else if c == '4' {
        4
    } else if c == '5' {
        5
    } else if c == '6' {
        6
    } else if c == '7' {
        7
    } else if c == '8' {
        8
    } else {
        9
    }
}

/// The decimal digit character for `d` in `0..10`.
pub open spec fn digit_char(d: int) -> char {
    if d == 0 {
        '0'
    } else if d == 1 {
        '1'
    } else if d == 2 {
        '2'
    } else if d == 3 {
        '3'
    } else if d == 4 {
        '4'
    } else if d == 5 {
        '5'
    } else if d == 6 {
        '6'
    } else if d == 7 {
        '7'
    } else if d == 8 {
        '8'
    } else {
        '9'
    }
}

pub open spec fn all_digits(s: Seq<char>) -> bool {
    forall|i: int| 0 <= i < s.len() ==> is_digit(#[trigger] s[i])
}

/// Value of a digit string, most significant first.
pub open spec fn digits_val(s: Seq<char>) -> int
    decreases s,
{
    if s.len() == 0 {
        0
    } else {
        digits_val(s.drop_last()) * 10 + digit_val(s.last())
    }
}

/// Canonical decimal representation of a non-negative integer.
pub open spec fn dec_rep(n: int) -> Seq<char>
    recommends
        n >= 0,
    decreases n,
{
    if n < 10 {
        seq![digit_char(n)]
    } else {
        dec_rep(n / 10).push(digit_char(n % 10))
    }
}

/// Canonical decimal representation of a signed integer.
pub open spec fn int_text(v: int) -> Seq<char> {
    if v < 0 {
        seq!['-'] + dec_rep(-v)
    } else {
        dec_rep(v)
    }
}

/// Integer literal text: an optional sign followed by one or more digits.
pub open spec fn is_int_text(s: Seq<char>) -> bool {
    if s.len() > 0 && (s[0] == '-' || s[0] == '+') {
        s.len() >= 2 && all_digits(s.skip(1))
    } else {
        s.len() >= 1 && all_digits(s)
    }
}

/// The integer an integer literal denotes.
pub open spec fn int_text_val(s: Seq<char>) -> int
    recommends
        is_int_text(s),
{
    if s.len() > 0 && s[0] == '-' {
        -digits_val(s.skip(1))
    } else if s.len() > 0 && s[0] == '+' {
        digits_val(s.skip(1))
    } else {
        digits_val(s)
    }
}

pub proof fn lemma_dec_rep(n: int)
    requires
        n >= 0,
    ensures
        dec_rep(n).len() >= 1,
        all_digits(dec_rep(n)),
        digits_val(dec_rep(n)) == n,
    decreases n,
{
    if n < 10 {
        assert(dec_rep(n) =~= seq![digit_char(n)]);
        assert(dec_rep(n).drop_last() =~= Seq::<char>::empty());
        assert(digit_val(digit_char(n)) == n);
        assert(dec_rep(n).last() == digit_char(n));
        assert(digits_val(dec_rep(n)) == digits_val(dec_rep(n).drop_last()) * 10 + digit_val(
            dec_rep(n).last(),
        ));
        assert(digits_val(Seq::<char>::empty()) == 0);
    } else {
        lemma_dec_rep(n / 10);
        vstd::arithmetic::div_mod::lemma_fundamental_div_mod(n, 10);
        vstd::arithmetic::div_mod::lemma_mod_division_less_than_divisor(n, 10);
        let s = dec_rep(n / 10);
        let d = n % 10;
        let c = digit_char(d);
        assert(0 <= d < 10);
        assert(digit_val(c) == d);
        assert(s.push(c).drop_last() =~= s);
        assert(s.push(c).last() == c);
        assert(digits_val(s.push(c)) == digits_val(s) * 10 + digit_val(c));
        assert(forall|i: int|
            0 <= i < s.push(c).len() ==> is_digit(#[trigger] s.push(c)[i]));
    }
}

/// The canonical text of an integer is integer text denoting that integer.
pub proof fn lemma_int_text_round(v: int)
    ensures
        is_int_text(int_text(v)),
        int_text_val(int_text(v)) == v,
{
    if v < 0 {
        lemma_dec_rep(-v);
        assert((seq!['-'] + dec_rep(-v)).skip(1) =~= dec_rep(-v));
    } else {
        lemma_dec_rep(v);
        assert(int_text(v)[0] != '-' && int_text(v)[0] != '+');
    }
}

/// One scan of a double literal body: digits with at most one decimal
/// point.
pub open spec fn double_body_ok(b: Seq<char>, i: int, seen_dot: bool) -> bool
    decreases b.len() - i,
{
    if i < 0 || i >= b.len() {
        true
    } else if b[i] == '.' {
        !seen_dot && double_body_ok(b, i + 1, true)
    } else {
        is_digit(b[i]) && double_body_ok(b, i + 1, seen_dot)
    }
}

/// A double literal's body: the text after any leading sign.
pub open spec fn double_body(s: Seq<char>) -> Seq<char> {
    if s.len() > 0 && (s[0] == '-' || s[0] == '+') {
        s.skip(1)
    } else {
        s
    }
}

/// Double literal text: an optional sign, then digits with at most one
/// decimal point, which may stand neither first nor last.
pub open spec fn is_double_text(s: Seq<char>) -> bool {
    &&& double_body(s).len() > 0
    &&& double_body(s)[0] != '.'
    &&& double_body(s)[double_body(s).len() - 1] != '.'
    &&& double_body_ok(double_body(s), 0, false)
}

/// Decides the double literal grammar.
pub fn is_valid_double(s: &str) -> (r: bool)
    ensures
        r == is_double_text(s@),
{
    let cs = chars_of(s);
    let n = cs.len();
    let ghost b = double_body(s@);
    let start: usize = if n > 0 && (cs[0] == '-' || cs[0] == '+') {
        1
    } else {
        0
    };
    proof {
        assert(forall|k: int| 0 <= k < b.len() ==> b[k] == s@[k + start]);
    }
    if n == start {
        return false;
    }
    if cs[start] == '.' || cs[n - 1] == '.' {
        return false;
    }
    let mut i = start;
    let mut seen_dot = false;
    while i < n
        invariant
            start <= i <= n,
            n == s@.len(),
            cs@ == s@,
            start <= 1,
            n > start,
            b == double_body(s@),
            b.len() == n - start,
            forall|k: int| 0 <= k < b.len() ==> b[k] == s@[k + start],
            double_body_ok(b, 0, false) == double_body_ok(b, i - start, seen_dot),
        decreases n - i,
    {
        let c = cs[i];
        proof {
            assert(b[i - start] == s@[i as int]);
        }
        if c == '.' {
            if seen_dot {
                proof {
                    assert(!double_body_ok(b, i - start, true));
                }
                return false;
            }
            seen_dot = true;
        } else if !('0' <= c && c <= '9') {
            proof {
                assert(!is_digit(b[i - start]) && b[i - start] != '.');
                assert(!double_body_ok(b, i - start, seen_dot));
            }
            return false;
        }
        proof {
            assert(double_body_ok(b, i - start, if c == '.' {
                false
            } else {
                seen_dot
            }) == double_body_ok(b, i + 1 - start, if c == '.' {
                true
            } else {
                seen_dot
            }));
        }
        i += 1;
    }
    proof {
        assert(b[0] == s@[start as int]);
        assert(b[b.len() - 1] == s@[n - 1]);
        assert(double_body_ok(b, n - start, seen_dot));
    }
    true
}

/// The fixed timestamp text: four-digit year, two-digit month and day, a
/// literal `T`, then colon-separated two-digit clock fields.  No timezone, no
/// sub-second part.
pub open spec fn dt_text(d: crate::values::DateTime) -> Seq<char> {
    let y = d.year as int;
    let mo = d.month as int;
    let da = d.day as int;
    let h = d.hour as int;
    let mi = d.minute as int;
    let se = d.second as int;
    seq![
        digit_char(y / 1000),
        digit_char(y / 100 % 10),
        digit_char(y / 10 % 10),
        digit_char(y % 10),
        digit_char(mo / 10),
        digit_char(mo % 10),
        digit_char(da / 10),
        digit_char(da % 10),
        'T',
        digit_char(h / 10),
        digit_char(h % 10),
        ':',
        digit_char(mi / 10),
        digit_char(mi % 10),
        ':',
        digit_char(se / 10),
        digit_char(se % 10),
    ]
}

/// Shape check for timestamp text: digits and separators in fixed positions.
pub open spec fn dt_shape_ok(s: Seq<char>) -> bool {
    &&& s.len() == 17
    &&& forall|i: int|
        (0 <= i < 8 || i == 9 || i == 10 || i == 12 || i == 13 || i == 15 || i == 16) ==> is_digit(
            #[trigger] s[i],
        )
    &&& s[8] == 'T'
    &&& s[11] == ':'
    &&& s[14] == ':'
}

/// Deterministic reading of timestamp text.
pub open spec fn spec_parse_dt(s: Seq<char>) -> Option<crate::values::DateTime> {
    if dt_shape_ok(s) {
        let y = digit_val(s[0]) * 1000 + digit_val(s[1]) * 100 + digit_val(s[2]) * 10 + digit_val(
            s[3],
        );
        let mo = digit_val(s[4]) * 10 + digit_val(s[5]);
        let da = digit_val(s[6]) * 10 + digit_val(s[7]);
        let h = digit_val(s[9]) * 10 + digit_val(s[10]);
        let mi = digit_val(s[12]) * 10 + digit_val(s[13]);
        let se = digit_val(s[15]) * 10 + digit_val(s[16]);
        let d = crate::values::DateTime {
            year: y as u16,
            month: mo as u8,
            day: da as u8,
            hour: h as u8,
            minute: mi as u8,
            second: se as u8,
        };
        if d.wf() {
            Some(d)
        } else {
            None
        }
    } else {
        None
    }
}

/// A number below 10000 is recomposed from its four decimal digits.
proof fn lemma_recompose4(y: int)
    requires
        0 <= y <= 9999,
    ensures
        0 <= y / 1000 < 10,
        0 <= y / 100 % 10 < 10,
        0 <= y / 10 % 10 < 10,
        0 <= y % 10 < 10,
        (y / 1000) * 1000 + (y / 100 % 10) * 100 + (y / 10 % 10) * 10 + y % 10 == y,
{
    vstd::arithmetic::div_mod::lemma_fundamental_div_mod(y, 10);
    vstd::arithmetic::div_mod::lemma_fundamental_div_mod(y / 10, 10);
    vstd::arithmetic::div_mod::lemma_fundamental_div_mod(y / 100, 10);
    vstd::arithmetic::div_mod::lemma_mod_division_less_than_divisor(y, 10);
    vstd::arithmetic::div_mod::lemma_mod_division_less_than_divisor(y / 10, 10);
    vstd::arithmetic::div_mod::lemma_mod_division_less_than_divisor(y / 100, 10);
    vstd::arithmetic::div_mod::lemma_div_denominator(y, 10, 10);
    vstd::arithmetic::div_mod::lemma_div_denominator(y, 100, 10);
    vstd::arithmetic::div_mod::lemma_div_is_ordered(y, 9999, 1000);
    vstd::arithmetic::div_mod::lemma_div_pos_is_pos(y, 1000);
}

/// A number below 100 is recomposed from its two decimal digits.
proof fn lemma_recompose2(y: int)
    requires
        0 <= y <= 99,
    ensures
        0 <= y / 10 < 10,
        0 <= y % 10 < 10,
        (y / 10) * 10 + y % 10 == y,
{
    vstd::arithmetic::div_mod::lemma_fundamental_div_mod(y, 10);
    vstd::arithmetic::div_mod::lemma_mod_division_less_than_divisor(y, 10);
    vstd::arithmetic::div_mod::lemma_div_is_ordered(y, 99, 10);
    vstd::arithmetic::div_mod::lemma_div_pos_is_pos(y, 10);
}

/// A digit character reads back as its digit.
proof fn lemma_digit_inverse(x: int)
    requires
        0 <= x < 10,
    ensures
        is_digit(digit_char(x)),
        digit_val(digit_char(x)) == x,
{
}

/// Reading back the text of a well-formed timestamp yields that timestamp.
#[verifier::rlimit(100)]
pub proof fn lemma_dt_round(d: crate::values::DateTime)
    requires
        d.wf(),
    ensures
        dt_text(d).len() == 17,
        spec_parse_dt(dt_text(d)) == Some(d),
{
    let s = dt_text(d);
    lemma_recompose4(d.year as int);
    lemma_recompose2(d.month as int);
    lemma_recompose2(d.day as int);
    lemma_recompose2(d.hour as int);
    lemma_recompose2(d.minute as int);
    lemma_recompose2(d.second as int);
    lemma_digit_inverse(d.year as int / 1000);
    lemma_digit_inverse(d.year as int / 100 % 10);
    lemma_digit_inverse(d.year as int / 10 % 10);
    lemma_digit_inverse(d.year as int % 10);
    lemma_digit_inverse(d.month as int / 10);
    lemma_digit_inverse(d.month as int % 10);
    lemma_digit_inverse(d.day as int / 10);
    lemma_digit_inverse(d.day as int % 10);
    lemma_digit_inverse(d.hour as int / 10);
    lemma_digit_inverse(d.hour as int % 10);
    lemma_digit_inverse(d.minute as int / 10);
    lemma_digit_inverse(d.minute as int % 10);
    lemma_digit_inverse(d.second as int / 10);
    lemma_digit_inverse(d.second as int % 10);
    assert(dt_shape_ok(s));
    assert(digit_val(s[0]) * 1000 + digit_val(s[1]) * 100 + digit_val(s[2]) * 10 + digit_val(s[3])
        == d.year as int);
    assert(digit_val(s[4]) * 10 + digit_val(s[5]) == d.month as int);
    assert(digit_val(s[6]) * 10 + digit_val(s[7]) == d.day as int);
    assert(digit_val(s[9]) * 10 + digit_val(s[10]) == d.hour as int);
    assert(digit_val(s[12]) * 10 + digit_val(s[13]) == d.minute as int);
    assert(digit_val(s[15]) * 10 + digit_val(s[16]) == d.second as int);
}

/// Exec digit-to-character table.
pub fn digit_to_char(d: u16) -> (c: char)
    requires
        d < 10,
    ensures
        c == digit_char(d as int),
{
    if d == 0 {
        '0'
    } else if d == 1 {
        '1'
    } else if d == 2 {
        '2'
    } else if d == 3 {
        '3'
    } else if d == 4 {
        '4'
    } else if d == 5 {
        '5'
    } else if d == 6 {
        '6'
    } else if d == 7 {
        '7'
    } else if d == 8 {
        '8'
    } else {
        '9'
    }
}

/// Exec character-to-digit table.
pub fn char_digit(c: char) -> (r: u16)
    requires
        is_digit(c),
    ensures
        r < 10,
        r as int == digit_val(c),
{
    if c == '0' {
        0
    } else if c == '1' {
        1
    } else if c == '2' {
        2
    } else if c == '3' {
        3
    } else if c == '4' {
        4
    } else if c == '5' {
        5
    } else if c == '6' {
        6
    } else if c == '7' {
        7
    } else if c == '8' {
        8
    } else {
        9
    }
}

/// Writes a well-formed timestamp in the fixed wire format.
#[verifier::rlimit(100)]
pub fn fmt_datetime(d: &crate::values::DateTime) -> (r: Vec<char>)
    requires
        d.wf(),
    ensures
        r@ == dt_text(*d),
{
    let mut r: Vec<char> = Vec::new();
    r.push(digit_to_char(d.year / 1000));
    r.push(digit_to_char(d.year / 100 % 10));
    r.push(digit_to_char(d.year / 10 % 10));
    r.push(digit_to_char(d.year % 10));
    r.push(digit_to_char((d.month / 10) as u16));
    r.push(digit_to_char((d.month % 10) as u16));
    r.push(digit_to_char((d.day / 10) as u16));
    r.push(digit_to_char((d.day % 10) as u16));
    r.push('T');
    r.push(digit_to_char((d.hour / 10) as u16));
    r.push(digit_to_char((d.hour % 10) as u16));
    r.push(':');
    r.push(digit_to_char((d.minute / 10) as u16));
    r.push(digit_to_char((d.minute % 10) as u16));
    r.push(':');
    r.push(digit_to_char((d.second / 10) as u16));
    r.push(digit_to_char((d.second % 10) as u16));
    proof {
        assert(r@ =~= dt_text(*d));
    }
    r
}

/// Reads timestamp text, accepting exactly the fixed wire format with
/// in-range calendar and clock fields.
pub fn parse_datetime(s: &Vec<char>) -> (r: Option<crate::values::DateTime>)
    ensures
        r == spec_parse_dt(s@),
{
    if s.len() != 17 {
        return None;
    }
    let mut i: usize = 0;
    while i < 17
        invariant
            i <= 17,
            s@.len() == 17,
            forall|k: int|
                0 <= k < i && (k < 8 || k == 9 || k == 10 || k == 12 || k == 13 || k == 15 || k
                    == 16) ==> is_digit(#[trigger] s@[k]),
        decreases 17 - i,
    {
        if i != 8 && i != 11 && i != 14 {
            let c = s[i];
            if !('0' <= c && c <= '9') {
                assert(!dt_shape_ok(s@));
                return None;
            }
        }
        i += 1;
    }
    if !(s[8] == 'T' && s[11] == ':' && s[14] == ':') {
        return None;
    }
    assert(dt_shape_ok(s@));
    let y: u16 = char_digit(s[0]) * 1000 + char_digit(s[1]) * 100 + char_digit(s[2]) * 10
        + char_digit(s[3]);
    let mo: u8 = (char_digit(s[4]) * 10 + char_digit(s[5])) as u8;
    let da: u8 = (char_digit(s[6]) * 10 + char_digit(s[7])) as u8;
    let h: u8 = (char_digit(s[9]) * 10 + char_digit(s[10])) as u8;
    let mi: u8 = (char_digit(s[12]) * 10 + char_digit(s[13])) as u8;
    let se: u8 = (char_digit(s[15]) * 10 + char_digit(s[16])) as u8;
    crate::values::DateTime::new(y, mo, da, h, mi, se)
}

/// Relies on `Display for i32`: formats the value in signed decimal.
#[verifier::external_body]
pub fn fmt_i32(n: i32) -> (r: String)
    ensures
        r@ == int_text(n as int),
{
    format!("{}", n)
}

/// Relies on `Display for i64`: formats the value in signed decimal.
#[verifier::external_body]
pub fn fmt_i64(n: i64) -> (r: String)
    ensures
        r@ == int_text(n as int),
{
    format!("{}", n)
}

/// Relies on `Display for usize`: formats the value in decimal.
#[verifier::external_body]
pub fn fmt_usize(n: usize) -> (r: String)
    ensures
        r@ == dec_rep(n as int),
{
    format!("{}", n)
}

/// Relies on `FromStr for i32`: accepts an optional sign followed by one or
/// more decimal digits, rejecting anything else and out-of-range values.
#[verifier::external_body]
pub fn parse_i32(s: &str) -> (r: Option<i32>)
    ensures
        r == (if is_int_text(s@) && i32::MIN <= int_text_val(s@) <= i32::MAX {
            Some(int_text_val(s@) as i32)
        } else {
            None::<i32>
        }),
{
    s.parse::<i32>().ok()
}

/// Relies on `FromStr for i64`: accepts an optional sign followed by one or
/// more decimal digits, rejecting anything else and out-of-range values.
#[verifier::external_body]
pub fn parse_i64(s: &str) -> (r: Option<i64>)
    ensures
        r == (if is_int_text(s@) && i64::MIN <= int_text_val(s@) <= i64::MAX {
            Some(int_text_val(s@) as i64)
        } else {
            None::<i64>
        }),
{
    s.parse::<i64>().ok()
}

/// Relies on `str::chars` collected into a `Vec`: yields the characters of
/// the string in order.
#[verifier::external_body]
pub fn chars_of(s: &str) -> (r: Vec<char>)
    ensures
        r@ == s@,
{
    s.chars().collect()
}

/// Relies on `FromIterator<char> for String`: builds the string holding
/// exactly these characters in order.
#[verifier::external_body]
pub fn string_from_chars(v: &Vec<char>) -> (r: String)
    ensures
        r@ == v@,
{
    v.iter().collect()
}

} // verus!
