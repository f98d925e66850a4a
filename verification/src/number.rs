//! Numbers written as text.

use crate::text;
use crate::text::CharSet;
use vstd::prelude::*;

verus! {

/// Whether every character of `s` is a decimal digit.
pub open spec fn all_digits(s: Seq<char>) -> bool {
    forall|i: int| 0 <= i < s.len() ==> text::is_digit(#[trigger] s[i])
}

/// The number that a sequence of decimal digits stands for.
pub open spec fn decimal(s: Seq<char>) -> int
    decreases s.len(),
{
    if s.len() == 0 {
        0
    } else {
        decimal(s.drop_last()) * 10 + (s.last() as int - '0' as int)
    }
}

/// The value of one or more decimal digits.
pub open spec fn digits_value(s: Seq<char>) -> Option<int> {
    if s.len() > 0 && all_digits(s) {
        Some(decimal(s))
    } else {
        None
    }
}

/// The value of an optional plus sign followed by one or more decimal digits.
pub open spec fn natural_value(s: Seq<char>) -> Option<int> {
    if s.len() > 0 && s[0] == '+' {
        digits_value(s.skip(1))
    } else {
        digits_value(s)
    }
}

/// The value of an optional sign followed by one or more decimal digits.
pub open spec fn integer_value(s: Seq<char>) -> Option<int> {
    if s.len() > 0 && s[0] == '-' {
        match digits_value(s.skip(1)) {
            Some(v) => Some(-v),
            None => None,
        }
    } else {
        natural_value(s)
    }
}

/// The `u64` that `s` stands for, where it is written correctly and in range.
pub open spec fn u64_value(s: Seq<char>) -> Option<u64> {
    match natural_value(s) {
        Some(v) if v <= u64::MAX => Some(v as u64),
        _ => None,
    }
}

/// The `i32` that `s` stands for, where it is written correctly and in range.
pub open spec fn i32_value(s: Seq<char>) -> Option<i32> {
    match integer_value(s) {
        Some(v) if i32::MIN <= v <= i32::MAX => Some(v as i32),
        _ => None,
    }
}

/// More digits never make a smaller number.
proof fn lemma_decimal_grows(s: Seq<char>, n: int)
    requires
        all_digits(s),
        0 <= n <= s.len(),
    ensures
        0 <= decimal(s.take(n)) <= decimal(s),
    decreases s.len(),
{
    if n == s.len() {
        assert(s.take(n) =~= s);
        if n > 0 {
            lemma_decimal_grows(s.drop_last(), 0);
            lemma_decimal_grows(s.drop_last(), n - 1);
            assert(text::is_digit(s[n - 1]));
        }
    } else {
        let shorter = s.drop_last();
        assert(shorter.take(n) =~= s.take(n));
        lemma_decimal_grows(shorter, n);
        assert(text::is_digit(s[s.len() - 1]));
    }
}

/// The value of the digits of `s`, where it fits.
fn parse_digits(s: &str) -> (value: Option<u64>)
    ensures
        match value {
            Some(v) => digits_value(s@) == Some(v as int),
            None => match digits_value(s@) {
                Some(v) => v > u64::MAX,
                None => true,
            },
        },
{
    let chars = text::chars_of(s);
    if chars.len() == 0 {
        return None;
    }
    let mut value: u64 = 0;
    let mut i: usize = 0;
    while i < chars.len()
        invariant
            chars@ == s@,
            i <= chars@.len(),
            forall|j: int| 0 <= j < i ==> text::is_digit(#[trigger] s@[j]),
            value == decimal(s@.take(i as int)),
        decreases chars@.len() - i,
    {
        let c = chars[i];
        if c < '0' || c > '9' {
            assert(!text::is_digit(s@[i as int]));
            return None;
        }
        let digit: u64 = c as u64 - '0' as u64;
        assert(s@.take(i + 1).drop_last() =~= s@.take(i as int));
        if value > (u64::MAX - digit) / 10 {
            assert(decimal(s@.take(i + 1)) > u64::MAX);
            proof {
                if all_digits(s@) {
                    lemma_decimal_grows(s@, i + 1);
                }
            }
            return None;
        }
        value = value * 10 + digit;
        i = i + 1;
    }
    assert(s@.take(i as int) =~= s@);
    Some(value)
}

/// Reads an optional plus sign and decimal digits as a `u64`.
pub fn parse_u64(s: &str) -> (value: Option<u64>)
    ensures
        value == u64_value(s@),
{
    if !s.is_empty() && s.get_char(0) == '+' {
        parse_digits(text::after(s, 1))
    } else {
        parse_digits(s)
    }
}

/// Reads an optional sign and decimal digits as an `i32`.
pub fn parse_i32(s: &str) -> (value: Option<i32>)
    ensures
        value == i32_value(s@),
{
    proof {
        if let Some(v) = digits_value(s@) {
            lemma_decimal_grows(s@, 0);
        }
        if let Some(v) = digits_value(s@.skip(1)) {
            lemma_decimal_grows(s@.skip(1), 0);
        }
    }
    if !s.is_empty() && s.get_char(0) == '-' {
        match parse_digits(text::after(s, 1)) {
            Some(v) if v <= 0x8000_0000 => Some((-(v as i64)) as i32),
            _ => None,
        }
    } else {
        match parse_u64(s) {
            Some(v) if v <= 0x7fff_ffff => Some(v as i32),
            _ => None,
        }
    }
}

/// `s` without one sign at its start.
pub open spec fn unsigned(s: Seq<char>) -> Seq<char> {
    if s.len() > 0 && (s[0] == '+' || s[0] == '-') {
        s.skip(1)
    } else {
        s
    }
}

/// Nothing, or a decimal exponent: `e` or `E`, an optional sign and one or more digits.
pub open spec fn is_exponent(s: Seq<char>) -> bool {
    s.len() == 0 || ((s[0] == 'e' || s[0] == 'E') && digits_value(unsigned(s.skip(1))) is Some)
}

/// Digits with at most one point among them, at least one digit in all, and an optional exponent.
pub open spec fn is_number(s: Seq<char>) -> bool {
    let whole = text::first_in(s, CharSet::NotDigit);
    if whole < s.len() && s[whole] == '.' {
        let tail = s.skip(whole + 1);
        let fraction = text::first_in(tail, CharSet::NotDigit);
        whole + fraction > 0 && is_exponent(tail.skip(fraction))
    } else {
        whole > 0 && is_exponent(s.skip(whole))
    }
}

/// The values that are written as words, in any case.
pub open spec fn is_named_value(s: Seq<char>) -> bool {
    ||| text::lowered(s) == "inf"@
    ||| text::lowered(s) == "infinity"@
    ||| text::lowered(s) == "nan"@
}

/// Whether `s` is the text of a floating-point number: an optional sign, then a number or a named
/// value.
pub open spec fn is_float_literal(s: Seq<char>) -> bool {
    is_number(unsigned(s)) || is_named_value(unsigned(s))
}

/// `s` without one sign at its start.
fn strip_sign(s: &str) -> (rest: &str)
    ensures
        rest@ == unsigned(s@),
{
    if s.is_empty() {
        return s;
    }
    let first = s.get_char(0);
    if first == '+' || first == '-' {
        text::after(s, 1)
    } else {
        s
    }
}

/// Whether `s` is nothing or a decimal exponent.
fn exponent(s: &str) -> (yes: bool)
    ensures
        yes == is_exponent(s@),
{
    if s.is_empty() {
        return true;
    }
    let mark = s.get_char(0);
    if mark != 'e' && mark != 'E' {
        return false;
    }
    let digits = strip_sign(text::after(s, 1));
    let end = text::position(digits, CharSet::NotDigit);
    let len = digits.unicode_len();
    proof {
        text::lemma_first_in(digits@, CharSet::NotDigit);
        if end < len {
            assert(!text::is_digit(digits@[end as int]));
        }
    }
    len > 0 && end == len
}

/// Whether `s` is a number without a sign.
fn number(s: &str) -> (yes: bool)
    ensures
        yes == is_number(s@),
{
    let whole = text::position(s, CharSet::NotDigit);
    if whole < s.unicode_len() && s.get_char(whole) == '.' {
        let tail = text::after(s, whole + 1);
        let fraction = text::position(tail, CharSet::NotDigit);
        (whole > 0 || fraction > 0) && exponent(text::after(tail, fraction))
    } else {
        whole > 0 && exponent(text::after(s, whole))
    }
}

/// Whether `s` is the text of a floating-point number.
pub fn float_literal(s: &str) -> (yes: bool)
    ensures
        yes == is_float_literal(s@),
{
    let rest = strip_sign(s);
    proof {
        reveal_strlit("inf");
        reveal_strlit("infinity");
        reveal_strlit("nan");
        assert(text::lowered("inf"@) =~= "inf"@);
        assert(text::lowered("infinity"@) =~= "infinity"@);
        assert(text::lowered("nan"@) =~= "nan"@);
    }
    number(rest) || text::same_but_for_case(rest, "inf") || text::same_but_for_case(
        rest,
        "infinity",
    ) || text::same_but_for_case(rest, "nan")
}

/// One or more digits, or a point with digits on at least one side.
pub open spec fn is_mantissa(s: Seq<char>) -> bool {
    ||| digits_value(s) is Some
    ||| exists|point: int|
        0 <= point < s.len() && #[trigger] s[point] == '.' && all_digits(s.take(point))
            && all_digits(s.skip(point + 1)) && s.len() > 1
}

/// A number is exactly a mantissa followed by an optional exponent.
pub proof fn lemma_number_grammar(s: Seq<char>)
    ensures
        is_number(s) <==> exists|end: int|
            0 <= end <= s.len() && is_mantissa(#[trigger] s.take(end)) && is_exponent(s.skip(end)),
{
    text::lemma_first_in(s, CharSet::NotDigit);
    let whole = text::first_in(s, CharSet::NotDigit);
    if whole < s.len() && s[whole] == '.' {
        let tail = s.skip(whole + 1);
        text::lemma_first_in(tail, CharSet::NotDigit);
        let fraction = text::first_in(tail, CharSet::NotDigit);
        if is_number(s) {
            let end = whole + 1 + fraction;
            let m = s.take(end);
            assert(s.skip(end) =~= tail.skip(fraction));
            assert(m[whole] == '.');
            assert(all_digits(m.take(whole)));
            assert forall|i: int| 0 <= i < m.skip(whole + 1).len() implies text::is_digit(
                #[trigger] m.skip(whole + 1)[i],
            ) by {
                assert(m.skip(whole + 1)[i] == tail[i]);
            }
            assert(is_mantissa(s.take(end)));
        }
    } else if is_number(s) {
        assert(all_digits(s.take(whole)));
        assert(is_mantissa(s.take(whole)));
    }
    assert forall|end: int|
        0 <= end <= s.len() && is_mantissa(#[trigger] s.take(end)) && is_exponent(
            s.skip(end),
        ) implies is_number(s) by {
        lemma_number_from_parts(s, end);
    }
}

/// A mantissa followed by an optional exponent is a number.
proof fn lemma_number_from_parts(s: Seq<char>, end: int)
    requires
        0 <= end <= s.len(),
        is_mantissa(s.take(end)),
        is_exponent(s.skip(end)),
    ensures
        is_number(s),
{
    let m = s.take(end);
    if end < s.len() {
        assert(s.skip(end)[0] == s[end]);
    }
    if digits_value(m) is Some {
        assert forall|i: int| 0 <= i < end implies !CharSet::NotDigit.has(#[trigger] s[i]) by {
            assert(m[i] == s[i]);
        }
        text::lemma_first_in_unique(s, CharSet::NotDigit, end);
    } else {
        let point = choose|point: int|
            0 <= point < m.len() && #[trigger] m[point] == '.' && all_digits(m.take(point))
                && all_digits(m.skip(point + 1)) && m.len() > 1;
        assert forall|i: int| 0 <= i < point implies !CharSet::NotDigit.has(#[trigger] s[i]) by {
            assert(m.take(point)[i] == s[i]);
        }
        text::lemma_first_in_unique(s, CharSet::NotDigit, point);
        let tail = s.skip(point + 1);
        let fraction = end - point - 1;
        assert forall|i: int| 0 <= i < fraction implies !CharSet::NotDigit.has(
            #[trigger] tail[i],
        ) by {
            assert(m.skip(point + 1)[i] == tail[i]);
        }
        if fraction < tail.len() {
            assert(tail[fraction] == s[end]);
        }
        text::lemma_first_in_unique(tail, CharSet::NotDigit, fraction);
        assert(tail.skip(fraction) =~= s.skip(end));
    }
}

/// The characters that the text of a number is made of.
pub open spec fn is_literal_char(c: char) -> bool {
    text::is_digit(c) || c == '+' || c == '-' || c == '.' || 'a' <= c <= 'z' || 'A' <= c <= 'Z'
}

/// The text of a number is not empty and holds digits, signs, points and ASCII letters only; in
/// particular no white space.
pub proof fn lemma_float_literal_chars(s: Seq<char>)
    requires
        is_float_literal(s),
    ensures
        s.len() > 0,
        forall|i: int| 0 <= i < s.len() ==> is_literal_char(#[trigger] s[i]),
{
    let u = unsigned(s);
    if is_number(u) {
        lemma_number_grammar(u);
        let end = choose|end: int|
            0 <= end <= u.len() && is_mantissa(#[trigger] u.take(end)) && is_exponent(u.skip(end));
        assert forall|i: int| 0 <= i < u.len() implies is_literal_char(#[trigger] u[i]) by {
            if i < end {
                lemma_mantissa_char(u.take(end), i);
            } else {
                lemma_exponent_char(u.skip(end), i - end);
            }
        }
    } else {
        reveal_strlit("inf");
        reveal_strlit("infinity");
        reveal_strlit("nan");
        assert("inf"@ =~= seq!['i', 'n', 'f']);
        assert("infinity"@ =~= seq!['i', 'n', 'f', 'i', 'n', 'i', 't', 'y']);
        assert("nan"@ =~= seq!['n', 'a', 'n']);
        assert forall|i: int| 0 <= i < u.len() implies is_literal_char(#[trigger] u[i]) by {
            let l = text::lowered(u);
            assert(l[i] == text::ascii_lower(u[i]));
            assert('a' <= l[i] <= 'z');
        }
        assert(text::lowered(u).len() == u.len());
    }
    assert forall|i: int| 0 <= i < s.len() implies is_literal_char(#[trigger] s[i]) by {
        if u.len() < s.len() && i > 0 {
            assert(s[i] == u[i - 1]);
        }
    }
}

proof fn lemma_mantissa_char(m: Seq<char>, i: int)
    requires
        is_mantissa(m),
        0 <= i < m.len(),
    ensures
        is_literal_char(m[i]),
{
    if digits_value(m) is None {
        let point = choose|point: int|
            0 <= point < m.len() && #[trigger] m[point] == '.' && all_digits(m.take(point))
                && all_digits(m.skip(point + 1)) && m.len() > 1;
        if i < point {
            assert(text::is_digit(m.take(point)[i]));
        } else if i > point {
            assert(text::is_digit(m.skip(point + 1)[i - point - 1]));
        }
    }
}

proof fn lemma_exponent_char(e: Seq<char>, i: int)
    requires
        is_exponent(e),
        0 <= i < e.len(),
    ensures
        is_literal_char(e[i]),
{
    let behind = e.skip(1);
    let digits = unsigned(behind);
    let signs = behind.len() - digits.len();
    if i > signs {
        assert(digits[i - 1 - signs] == e[i]);
    } else if i == 1 {
        assert(behind[0] == e[1]);
    }
}

/// A number is read digit by digit: each further digit makes it ten times as large and adds the
/// digit, and nothing is read any more once the number does not fit, or once a character is no
/// digit. A plus sign may stand in front, but not alone.
pub proof fn lemma_u64_digit_by_digit(s: Seq<char>, c: char)
    ensures
        u64_value(Seq::empty()) is None,
        u64_value(seq!['+']) is None,
        '0' <= c <= '9' ==> u64_value(seq![c]) == Some((c as int - '0' as int) as u64),
        '0' <= c <= '9' ==> u64_value(seq!['+'].push(c)) == Some((c as int - '0' as int) as u64),
        !('0' <= c <= '9') ==> u64_value(s.push(c)) is None,
        s.len() > 0 && s != seq!['+'] && u64_value(s) is None ==> u64_value(s.push(c)) is None,
        '0' <= c <= '9' ==> (u64_value(s) matches Some(v) ==> u64_value(s.push(c)) == if v * 10 + (
        c as int - '0' as int) <= u64::MAX {
            Some((v * 10 + (c as int - '0' as int)) as u64)
        } else {
            None
        }),
{
    reveal_with_fuel(decimal, 3);
    let one = seq![c];
    let signed = seq!['+'].push(c);
    assert(one.drop_last() =~= Seq::empty());
    assert(signed.skip(1) =~= one);
    assert(seq!['+'].skip(1) =~= Seq::<char>::empty());
    if text::is_digit(c) {
        assert(all_digits(one));
    }
    let longer = s.push(c);
    assert(longer.drop_last() =~= s);
    lemma_digits_pushed(s, c);
    if s.len() > 0 {
        assert(longer[0] == s[0]);
        lemma_digits_pushed(s.skip(1), c);
        assert(longer.skip(1) =~= s.skip(1).push(c));
        if s[0] == '+' && s.len() == 1 {
            assert(s =~= seq!['+']);
        }
    } else {
        assert(longer =~= one);
        assert(longer.skip(1) =~= Seq::<char>::empty());
    }
}

proof fn lemma_digits_pushed(s: Seq<char>, c: char)
    ensures
        digits_value(s.push(c)) == if s.len() > 0 && digits_value(s) is None || !text::is_digit(c) {
            None
        } else {
            Some(decimal(s) * 10 + (c as int - '0' as int))
        },
        all_digits(s) ==> decimal(s) >= 0,
{
    let longer = s.push(c);
    assert(longer.drop_last() =~= s);
    assert(longer[s.len() as int] == c);
    if all_digits(longer) {
        assert forall|i: int| 0 <= i < s.len() implies text::is_digit(#[trigger] s[i]) by {
            assert(longer[i] == s[i]);
        }
    }
    if all_digits(s) {
        lemma_decimal_grows(s, 0);
    }
}

/// A signed number is read as one without a sign, within its own bounds: a minus sign in front of
/// it turns its sign, and only digits may follow that.
pub proof fn lemma_i32_by_sign(s: Seq<char>)
    ensures
        s.len() == 0 || s[0] != '-' ==> i32_value(s) == match u64_value(s) {
            Some(v) if v <= 0x7fff_ffff => Some(v as i32),
            _ => None,
        },
        s.len() > 0 && s[0] == '+' ==> i32_value(seq!['-'] + s) is None,
        s.len() == 0 || s[0] != '+' ==> i32_value(seq!['-'] + s) == match u64_value(s) {
            Some(v) if v <= 0x8000_0000 => Some((0 - v) as i32),
            _ => None,
        },
{
    let signed = seq!['-'] + s;
    assert(signed.skip(1) =~= s);
    if digits_value(s) is Some {
        lemma_decimal_grows(s, 0);
    }
    if s.len() > 0 && s[0] == '+' && digits_value(s.skip(1)) is Some {
        lemma_decimal_grows(s.skip(1), 0);
    }
    if s.len() > 0 && s[0] == '+' {
        assert(!text::is_digit(s[0]));
    }
}

/// `n` written in decimal digits, without leading zeros.
pub open spec fn numeral(n: nat) -> Seq<char>
    decreases n,
{
    if n < 10 {
        seq![('0' as int + n) as char]
    } else {
        numeral(n / 10).push(('0' as int + n % 10) as char)
    }
}

/// Every number that fits is read back from its decimal digits, one that does not fit is not read,
/// and a minus sign in front of the digits is the sign of what is read.
pub proof fn lemma_numeral_read_back(n: nat)
    ensures
        numeral(n).len() > 0,
        forall|i: int| 0 <= i < numeral(n).len() ==> '0' <= #[trigger] numeral(n)[i] <= '9',
        n <= u64::MAX ==> u64_value(numeral(n)) == Some(n as u64),
        n > u64::MAX ==> u64_value(numeral(n)) is None,
        n <= 0x7fff_ffff ==> i32_value(numeral(n)) == Some(n as i32),
        n > 0x7fff_ffff ==> i32_value(numeral(n)) is None,
        n <= 0x8000_0000 ==> i32_value(seq!['-'] + numeral(n)) == Some((0 - n) as i32),
        n > 0x8000_0000 ==> i32_value(seq!['-'] + numeral(n)) is None,
        is_float_literal(numeral(n)),
{
    lemma_numeral_u64(n);
    lemma_i32_by_sign(numeral(n));
    assert('0' <= numeral(n)[0] <= '9');
    lemma_digits_are_literal(numeral(n));
}

proof fn lemma_numeral_u64(n: nat)
    ensures
        numeral(n).len() > 0,
        forall|i: int| 0 <= i < numeral(n).len() ==> '0' <= #[trigger] numeral(n)[i] <= '9',
        n <= u64::MAX ==> u64_value(numeral(n)) == Some(n as u64),
        n > u64::MAX ==> u64_value(numeral(n)) is None,
    decreases n,
{
    let digit = ('0' as int + n % 10) as char;
    if n < 10 {
        lemma_u64_digit_by_digit(Seq::empty(), digit);
    } else {
        lemma_numeral_u64(n / 10);
        lemma_u64_digit_by_digit(numeral(n / 10), digit);
        assert('0' <= numeral(n / 10)[0] <= '9');
        assert(numeral(n / 10) != seq!['+']);
    }
}

/// One or more decimal digits are the text of a number.
pub proof fn lemma_digits_are_literal(s: Seq<char>)
    requires
        s.len() > 0,
        forall|i: int| 0 <= i < s.len() ==> '0' <= #[trigger] s[i] <= '9',
    ensures
        is_float_literal(s),
{
    let none = Seq::<char>::empty();
    lemma_written_number(none, s, none, none, none, none, none);
    assert(none + s + none + none + none + none + none =~= s);
}

/// The parts of a number as it may be written: an optional sign, digits, an optional point with
/// digits behind it, and an optional exponent with a sign of its own. There is a digit before or
/// behind the point, and one in the exponent.
pub open spec fn are_number_parts(
    sign: Seq<char>,
    whole: Seq<char>,
    point: Seq<char>,
    fraction: Seq<char>,
    mark: Seq<char>,
    power_sign: Seq<char>,
    power: Seq<char>,
) -> bool {
    &&& sign.len() == 0 || sign == seq!['+'] || sign == seq!['-']
    &&& forall|i: int| 0 <= i < whole.len() ==> '0' <= #[trigger] whole[i] <= '9'
    &&& point == seq!['.'] || (point.len() == 0 && fraction.len() == 0)
    &&& forall|i: int| 0 <= i < fraction.len() ==> '0' <= #[trigger] fraction[i] <= '9'
    &&& whole.len() + fraction.len() > 0
    &&& power_sign.len() == 0 || power_sign == seq!['+'] || power_sign == seq!['-']
    &&& forall|i: int| 0 <= i < power.len() ==> '0' <= #[trigger] power[i] <= '9'
    &&& ((mark == seq!['e'] || mark == seq!['E']) && power.len() > 0) || (mark.len() == 0
        && power_sign.len() == 0 && power.len() == 0)
}

proof fn lemma_regrouped(
    a: Seq<char>,
    b: Seq<char>,
    c: Seq<char>,
    d: Seq<char>,
    e: Seq<char>,
    f: Seq<char>,
    g: Seq<char>,
)
    ensures
        a + b + c + d + e + f + g == a + ((b + c + d) + (e + f + g)),
{
    let front = b + c + d;
    let back = e + f + g;
    text::lemma_joined(a, b, c);
    text::lemma_joined(a, b + c, d);
    text::lemma_joined(a + front, e, f);
    text::lemma_joined(a + front, e + f, g);
    text::lemma_joined(a, front, back);
}

/// Every number that is put together from its parts is the text of a number.
pub proof fn lemma_written_number(
    sign: Seq<char>,
    whole: Seq<char>,
    point: Seq<char>,
    fraction: Seq<char>,
    mark: Seq<char>,
    power_sign: Seq<char>,
    power: Seq<char>,
)
    requires
        are_number_parts(sign, whole, point, fraction, mark, power_sign, power),
    ensures
        is_float_literal(sign + whole + point + fraction + mark + power_sign + power),
{
    let s = sign + whole + point + fraction + mark + power_sign + power;
    let m = whole + point + fraction;
    let e = mark + power_sign + power;
    let body = m + e;
    lemma_regrouped(sign, whole, point, fraction, mark, power_sign, power);
    let end = m.len() as int;
    assert(body.take(end) =~= m);
    assert(body.skip(end) =~= e);
    assert(is_exponent(e)) by {
        if mark.len() > 0 {
            assert(e[0] == mark[0]);
            let behind = e.skip(1);
            assert(behind =~= power_sign + power);
            if power_sign.len() > 0 {
                assert(behind[0] == power_sign[0]);
                assert(behind.skip(1) =~= power);
            } else {
                assert(behind =~= power);
                assert(text::is_digit(power[0]));
            }
            assert(all_digits(power));
        }
    }
    assert(is_mantissa(m)) by {
        if point.len() == 0 {
            assert(m =~= whole);
            assert(all_digits(m));
        } else {
            let at = whole.len() as int;
            assert(m[at] == '.');
            assert(m.take(at) =~= whole);
            assert(m.skip(at + 1) =~= fraction);
            assert(all_digits(whole) && all_digits(fraction));
        }
    }
    lemma_number_from_parts(body, end);
    if sign.len() > 0 {
        assert(s[0] == sign[0]);
        assert(s.skip(1) =~= body);
    } else {
        assert(s =~= body);
        if whole.len() > 0 {
            assert(s[0] == whole[0]);
        } else {
            assert(s[0] == '.');
        }
    }
}

/// Infinity and what is not a number are written as words, in any mixture of cases and with an
/// optional sign.
pub proof fn lemma_written_name(sign: Seq<char>, name: Seq<char>)
    requires
        sign.len() == 0 || sign == seq!['+'] || sign == seq!['-'],
        is_spelled(name, "inf"@, "INF"@) || is_spelled(name, "infinity"@, "INFINITY"@)
            || is_spelled(name, "nan"@, "NAN"@),
    ensures
        is_float_literal(sign + name),
{
    let s = sign + name;
    lemma_spelled(name);
    assert(name[0] != '+' && name[0] != '-') by {
        reveal_strlit("inf");
        reveal_strlit("INF");
        reveal_strlit("infinity");
        reveal_strlit("INFINITY");
        reveal_strlit("nan");
        reveal_strlit("NAN");
    }
    if sign.len() > 0 {
        assert(s[0] == sign[0]);
        assert(s.skip(1) =~= name);
    } else {
        assert(s =~= name);
    }
}

/// Whether each letter of `word` is that of `low` or that of `high`.
pub open spec fn is_spelled(word: Seq<char>, low: Seq<char>, high: Seq<char>) -> bool {
    word.len() == low.len() && forall|i: int|
        0 <= i < word.len() ==> #[trigger] word[i] == low[i] || word[i] == high[i]
}

proof fn lemma_spelled(name: Seq<char>)
    ensures
        is_named_value(name) <==> is_spelled(name, "inf"@, "INF"@) || is_spelled(
            name,
            "infinity"@,
            "INFINITY"@,
        ) || is_spelled(name, "nan"@, "NAN"@),
        is_named_value(name) ==> name.len() > 0,
{
    reveal_strlit("inf");
    reveal_strlit("INF");
    reveal_strlit("infinity");
    reveal_strlit("INFINITY");
    reveal_strlit("nan");
    reveal_strlit("NAN");
    lemma_spelled_lowered(name, "inf"@, "INF"@);
    lemma_spelled_lowered(name, "infinity"@, "INFINITY"@);
    lemma_spelled_lowered(name, "nan"@, "NAN"@);
}

/// A word is spelled with the letters of two words, which are the same one in lower and in upper
/// case, exactly where it is the first of them in lower case.
pub proof fn lemma_spelled_lowered(name: Seq<char>, low: Seq<char>, high: Seq<char>)
    requires
        low.len() == high.len(),
        low.len() > 0,
        forall|i: int|
            0 <= i < low.len() ==> 'a' <= #[trigger] low[i] <= 'z' && high[i] as int + 32
                == low[i] as int,
    ensures
        text::lowered(name) == low <==> is_spelled(name, low, high),
        is_spelled(name, low, high) ==> name.len() > 0,
{
    let lowered = text::lowered(name);
    assert(lowered.len() == name.len());
    if lowered == low {
        assert forall|i: int| 0 <= i < name.len() implies #[trigger] name[i] == low[i] || name[i]
            == high[i] by {
            let c = name[i];
            text::lemma_ascii_lower(c);
            assert(lowered[i] == text::ascii_lower(c));
            assert(lowered[i] == low[i]);
            assert('A' <= c <= 'Z' ==> c as int + 32 == low[i] as int);
        }
    }
    if is_spelled(name, low, high) {
        assert forall|i: int| 0 <= i < name.len() implies lowered[i] == low[i] by {
            text::lemma_ascii_lower(name[i]);
            assert(lowered[i] == text::ascii_lower(name[i]));
            assert(name[i] == low[i] || name[i] == high[i]);
            assert('a' <= low[i] <= 'z');
        }
        assert(lowered =~= low);
    }
}

/// The text of a number is put together from the parts of one, or is an optional sign and one of
/// the words for infinity and for what is not a number. Nothing else is taken for a number.
pub proof fn lemma_literal_parts(s: Seq<char>)
    requires
        is_float_literal(s),
    ensures
        (exists|
            sign: Seq<char>,
            whole: Seq<char>,
            point: Seq<char>,
            fraction: Seq<char>,
            mark: Seq<char>,
            power_sign: Seq<char>,
            power: Seq<char>,
        |
            #[trigger] are_number_parts(sign, whole, point, fraction, mark, power_sign, power) && s
                == sign + whole + point + fraction + mark + power_sign + power) || (exists|
            sign: Seq<char>,
            name: Seq<char>,
        |
            s == #[trigger] (sign + name) && (sign.len() == 0 || sign == seq!['+'] || sign
                == seq!['-']) && (is_spelled(name, "inf"@, "INF"@) || is_spelled(
                name,
                "infinity"@,
                "INFINITY"@,
            ) || is_spelled(name, "nan"@, "NAN"@))),
{
    let body = unsigned(s);
    let sign = s.take(s.len() - body.len());
    assert(s =~= sign + body);
    if sign.len() > 0 {
        assert(sign =~= seq!['+'] || sign =~= seq!['-']);
    }
    if is_number(body) {
        lemma_number_grammar(body);
        let end = choose|end: int|
            0 <= end <= body.len() && is_mantissa(#[trigger] body.take(end)) && is_exponent(
                body.skip(end),
            );
        let m = body.take(end);
        let e = body.skip(end);
        let (whole, point, fraction) = lemma_mantissa_parts(m);
        let (mark, power_sign, power) = lemma_exponent_parts(e);
        assert(body =~= m + e);
        assert(are_number_parts(sign, whole, point, fraction, mark, power_sign, power));
        lemma_regrouped(sign, whole, point, fraction, mark, power_sign, power);
    } else {
        lemma_spelled(body);
    }
}

proof fn lemma_mantissa_parts(m: Seq<char>) -> (parts: (Seq<char>, Seq<char>, Seq<char>))
    requires
        is_mantissa(m),
    ensures
        m == parts.0 + parts.1 + parts.2,
        forall|i: int| 0 <= i < parts.0.len() ==> '0' <= #[trigger] parts.0[i] <= '9',
        forall|i: int| 0 <= i < parts.2.len() ==> '0' <= #[trigger] parts.2[i] <= '9',
        parts.1 == seq!['.'] || (parts.1.len() == 0 && parts.2.len() == 0),
        parts.0.len() + parts.2.len() > 0,
{
    let none = Seq::<char>::empty();
    if digits_value(m) is Some {
        assert(m =~= m + none + none);
        assert forall|i: int| 0 <= i < m.len() implies '0' <= #[trigger] m[i] <= '9' by {
            assert(text::is_digit(m[i]));
        }
        (m, none, none)
    } else {
        let point = choose|point: int|
            0 <= point < m.len() && #[trigger] m[point] == '.' && all_digits(m.take(point))
                && all_digits(m.skip(point + 1)) && m.len() > 1;
        let whole = m.take(point);
        let fraction = m.skip(point + 1);
        assert(m =~= whole + seq!['.'] + fraction);
        assert forall|i: int| 0 <= i < whole.len() implies '0' <= #[trigger] whole[i] <= '9' by {
            assert(text::is_digit(whole[i]));
        }
        assert forall|i: int| 0 <= i < fraction.len() implies '0' <= #[trigger] fraction[i]
            <= '9' by {
            assert(text::is_digit(fraction[i]));
        }
        (whole, seq!['.'], fraction)
    }
}

proof fn lemma_exponent_parts(e: Seq<char>) -> (parts: (Seq<char>, Seq<char>, Seq<char>))
    requires
        is_exponent(e),
    ensures
        e == parts.0 + parts.1 + parts.2,
        parts.1.len() == 0 || parts.1 == seq!['+'] || parts.1 == seq!['-'],
        forall|i: int| 0 <= i < parts.2.len() ==> '0' <= #[trigger] parts.2[i] <= '9',
        ((parts.0 == seq!['e'] || parts.0 == seq!['E']) && parts.2.len() > 0) || (parts.0.len()
            == 0 && parts.1.len() == 0 && parts.2.len() == 0),
{
    let none = Seq::<char>::empty();
    if e.len() == 0 {
        assert(e =~= none + none + none);
        (none, none, none)
    } else {
        let mark = e.take(1);
        let behind = e.skip(1);
        let power = unsigned(behind);
        let sign = behind.take(behind.len() - power.len());
        assert(mark =~= seq!['e'] || mark =~= seq!['E']);
        if sign.len() > 0 {
            assert(sign =~= seq!['+'] || sign =~= seq!['-']);
        }
        assert(e =~= mark + sign + power);
        assert forall|i: int| 0 <= i < power.len() implies '0' <= #[trigger] power[i] <= '9' by {
            assert(text::is_digit(power[i]));
        }
        (mark, sign, power)
    }
}

} // verus!
