//! Reading single fields out of a JSON text by searching for their keys.

use crate::number;
use crate::text;
use crate::text::CharSet;
use vstd::prelude::*;

verus! {

/// `key` between double quotes.
pub open spec fn quoted(key: Seq<char>) -> Seq<char> {
    seq!['"'] + key + seq!['"']
}

/// What follows the first occurrence of the quoted key.
pub open spec fn after_key(json: Seq<char>, key: Seq<char>) -> Option<Seq<char>> {
    match text::occurrence(json, quoted(key)) {
        Some(at) => Some(json.skip(at + quoted(key).len())),
        None => None,
    }
}

/// What follows the first colon of `s` and the white space behind it.
pub open spec fn after_colon(s: Seq<char>) -> Option<Seq<char>> {
    let colon = text::first_in(s, CharSet::Only(':'));
    if colon < s.len() {
        Some(text::trimmed_start(s.skip(colon + 1)))
    } else {
        None
    }
}

/// What stands between a double quote at the start of `s` and the next one.
pub open spec fn string_at(s: Seq<char>) -> Option<Seq<char>> {
    let body = s.skip(1);
    let end = text::first_in(body, CharSet::Only('"'));
    if s.len() > 0 && s[0] == '"' && end < body.len() {
        Some(body.take(end))
    } else {
        None
    }
}

/// The text at the start of `s` up to a comma, a closing brace or a closing bracket, without white
/// space around it, where it is that of a number.
pub open spec fn number_at(s: Seq<char>) -> Option<Seq<char>> {
    let value = text::trimmed(s.take(text::first_in(s, CharSet::ValueEnd)));
    if s.len() > 0 && s[0] == '"' {
        None
    } else if number::is_float_literal(value) {
        Some(value)
    } else {
        None
    }
}

/// The string behind the first occurrence of the key.
pub open spec fn string_field(json: Seq<char>, key: Seq<char>) -> Option<Seq<char>> {
    match after_key(json, key) {
        Some(rest) => string_behind(rest),
        None => None,
    }
}

/// The string behind the first colon of `s`.
pub open spec fn string_behind(s: Seq<char>) -> Option<Seq<char>> {
    match after_colon(s) {
        Some(value) => string_at(value),
        None => None,
    }
}

/// The number behind the first colon of `s`.
pub open spec fn number_behind(s: Seq<char>) -> Option<Seq<char>> {
    match after_colon(s) {
        Some(value) => number_at(value),
        None => None,
    }
}

/// The number behind the first occurrence of the key that has one behind it. The search for the
/// next occurrence starts behind the one before.
pub open spec fn number_field(json: Seq<char>, key: Seq<char>) -> Option<Seq<char>>
    decreases json.len(),
{
    match after_key(json, key) {
        Some(rest) => {
            proof {
                text::lemma_occurrence(json, quoted(key));
            }
            match number_behind(rest) {
                Some(value) => Some(value),
                None => number_field(rest, key),
            }
        },
        None => None,
    }
}

/// `key` between double quotes.
fn quote(key: &str) -> (pattern: String)
    ensures
        pattern@ == quoted(key@),
{
    let mut pattern = String::new();
    pattern.append("\"");
    pattern.append(key);
    pattern.append("\"");
    proof {
        reveal_strlit("\"");
        assert("\""@ =~= seq!['"']);
        assert(pattern@ =~= quoted(key@));
    }
    pattern
}

/// What follows the first occurrence of `pattern` in `s`.
fn skip_past<'a>(s: &'a str, pattern: &str) -> (rest: Option<&'a str>)
    ensures
        text::of_str(rest) == match text::occurrence(s@, pattern@) {
            Some(at) => Some(s@.skip(at + pattern@.len())),
            None => None,
        },
        rest matches Some(rest) ==> rest@.len() + pattern@.len() <= s@.len(),
{
    match text::find(s, pattern) {
        Some(at) => {
            let found = text::after(s, at);
            let rest = text::after(found, pattern.unicode_len());
            assert(rest@ =~= s@.skip(at + pattern@.len()));
            Some(rest)
        },
        None => None,
    }
}

/// What follows the first colon of `s` and the white space behind it.
fn skip_colon(s: &str) -> (value: Option<&str>)
    ensures
        text::of_str(value) == after_colon(s@),
{
    let colon = text::position(s, CharSet::Only(':'));
    if colon < s.unicode_len() {
        Some(text::trim_start(text::after(s, colon + 1)))
    } else {
        None
    }
}

/// The number behind the first colon of `s`.
fn number_behind_colon(s: &str) -> (value: Option<&str>)
    ensures
        text::of_str(value) == number_behind(s@),
{
    match skip_colon(s) {
        Some(start) => {
            if !start.is_empty() && start.get_char(0) == '"' {
                return None;
            }
            let end = text::position(start, CharSet::ValueEnd);
            let value = text::trim(text::before(start, end));
            if number::float_literal(value) {
                Some(value)
            } else {
                None
            }
        },
        None => None,
    }
}

/// The text of the number that `json` gives for `key`. Where the key occurs more than once, the
/// first occurrence with a number behind it counts: a forecast names its units as strings under
/// the same keys that hold the measured numbers further on.
pub fn extract_number<'a>(json: &'a str, key: &str) -> (value: Option<&'a str>)
    ensures
        text::of_str(value) == number_field(json@, key@),
{
    let pattern = quote(key);
    let mut rest = json;
    loop
        invariant
            pattern@ == quoted(key@),
            number_field(json@, key@) == number_field(rest@, key@),
        decreases rest@.len(),
    {
        match skip_past(rest, pattern.as_str()) {
            Some(behind) => {
                if let Some(value) = number_behind_colon(behind) {
                    return Some(value);
                }
                rest = behind;
            },
            None => {
                return None;
            },
        }
    }
}

/// The string that `json` gives for `key`, as it stands between its quotes.
pub fn extract_string<'a>(json: &'a str, key: &str) -> (value: Option<&'a str>)
    ensures
        text::of_str(value) == string_field(json@, key@),
{
    let pattern = quote(key);
    let rest = skip_past(json, pattern.as_str())?;
    let start = skip_colon(rest)?;
    if start.is_empty() || start.get_char(0) != '"' {
        return None;
    }
    let body = text::after(start, 1);
    let end = text::position(body, CharSet::Only('"'));
    if end < body.unicode_len() {
        Some(text::before(body, end))
    } else {
        None
    }
}

/// What follows each occurrence of the quoted key, in order, where the search for the next
/// occurrence starts behind the one before.
pub open spec fn occurrences(json: Seq<char>, key: Seq<char>) -> Seq<Seq<char>>
    decreases json.len(),
{
    match after_key(json, key) {
        Some(rest) => {
            proof {
                text::lemma_occurrence(json, quoted(key));
            }
            seq![rest] + occurrences(rest, key)
        },
        None => Seq::empty(),
    }
}

/// The number found for a key is the one behind its first occurrence that has a number behind it,
/// and none is found only where no occurrence has one.
pub proof fn lemma_number_field_is_first(json: Seq<char>, key: Seq<char>)
    ensures
        match number_field(json, key) {
            Some(value) => exists|i: int|
                0 <= i < occurrences(json, key).len() && number_behind(
                    #[trigger] occurrences(json, key)[i],
                ) == Some(value) && forall|j: int|
                    0 <= j < i ==> number_behind(#[trigger] occurrences(json, key)[j]) is None,
            None => forall|i: int|
                0 <= i < occurrences(json, key).len() ==> number_behind(
                    #[trigger] occurrences(json, key)[i],
                ) is None,
        },
    decreases json.len(),
{
    if let Some(rest) = after_key(json, key) {
        text::lemma_occurrence(json, quoted(key));
        let all = occurrences(json, key);
        let others = occurrences(rest, key);
        assert(all[0] == rest);
        assert(forall|i: int| 0 < i < all.len() ==> #[trigger] all[i] == others[i - 1]);
        if number_behind(rest) is None {
            lemma_number_field_is_first(rest, key);
            if let Some(value) = number_field(rest, key) {
                let i = choose|i: int|
                    0 <= i < others.len() && number_behind(#[trigger] others[i]) == Some(value)
                        && forall|j: int|
                        0 <= j < i ==> number_behind(#[trigger] others[j]) is None;
                assert(all[i + 1] == others[i]);
            }
        }
    }
}

/// Where the value behind the first occurrence of a key is a string, the number is looked for
/// behind that occurrence.
pub proof fn lemma_number_field_skips_strings(json: Seq<char>, key: Seq<char>)
    requires
        string_field(json, key) is Some,
    ensures
        number_field(json, key) == number_field(after_key(json, key)->0, key),
{
    text::lemma_occurrence(json, quoted(key));
}

/// Whether `part` stands somewhere in `s`.
pub open spec fn stands_in(s: Seq<char>, part: Seq<char>) -> bool {
    exists|at: int| text::occurs_at(s, part, at)
}

/// What stands in a part of a text that starts at `from` stands in the text.
proof fn lemma_stands_in_skip(s: Seq<char>, from: int, part: Seq<char>)
    requires
        0 <= from <= s.len(),
        stands_in(s.skip(from), part),
    ensures
        stands_in(s, part),
{
    let at = choose|at: int| text::occurs_at(s.skip(from), part, at);
    assert(s.subrange(from + at, from + at + part.len()) =~= s.skip(from).subrange(
        at,
        at + part.len(),
    ));
    assert(text::occurs_at(s, part, from + at));
}

/// A string found for a key stands in the text between double quotes and holds none itself.
pub proof fn lemma_string_field_stands_quoted(json: Seq<char>, key: Seq<char>)
    ensures
        string_field(json, key) matches Some(value) ==> stands_in(json, quoted(value))
            && !value.contains('"'),
{
    if let Some(value) = string_field(json, key) {
        text::lemma_occurrence(json, quoted(key));
        let rest = after_key(json, key)->0;
        text::lemma_first_in(rest, CharSet::Only(':'));
        let colon = text::first_in(rest, CharSet::Only(':'));
        let behind = rest.skip(colon + 1);
        text::lemma_first_in(behind, CharSet::NotWhite);
        let blank = text::first_in(behind, CharSet::NotWhite);
        let start = behind.skip(blank);
        let body = start.skip(1);
        text::lemma_first_in(body, CharSet::Only('"'));
        let end = text::first_in(body, CharSet::Only('"'));
        assert(start.subrange(0, end + 2) =~= quoted(value)) by {
            assert(body[end] == '"');
            assert(start[end + 1] == body[end]);
        }
        assert(text::occurs_at(start, quoted(value), 0));
        lemma_stands_in_skip(behind, blank, quoted(value));
        lemma_stands_in_skip(rest, colon + 1, quoted(value));
        let at = text::occurrence(json, quoted(key))->0;
        lemma_stands_in_skip(json, at + quoted(key).len(), quoted(value));
        assert forall|i: int| 0 <= i < value.len() implies value[i] != '"' by {
            assert(value[i] == body[i]);
        }
    }
}

/// A number found for a key is the text of a number, and it stands in the text that was searched.
pub proof fn lemma_number_field_stands(json: Seq<char>, key: Seq<char>)
    ensures
        number_field(json, key) matches Some(value) ==> number::is_float_literal(value)
            && stands_in(json, value),
    decreases json.len(),
{
    if let Some(rest) = after_key(json, key) {
        text::lemma_occurrence(json, quoted(key));
        let at = text::occurrence(json, quoted(key))->0 + quoted(key).len();
        if let Some(value) = number_behind(rest) {
            text::lemma_first_in(rest, CharSet::Only(':'));
            let colon = text::first_in(rest, CharSet::Only(':'));
            let behind = rest.skip(colon + 1);
            text::lemma_first_in(behind, CharSet::NotWhite);
            let blank = text::first_in(behind, CharSet::NotWhite);
            let start = behind.skip(blank);
            text::lemma_first_in(start, CharSet::ValueEnd);
            let end = text::first_in(start, CharSet::ValueEnd);
            let span = start.take(end);
            text::lemma_trimmed_is_part(span);
            let from = choose|from: int| text::occurs_at(span, text::trimmed(span), from);
            assert(start.subrange(from, from + value.len()) =~= span.subrange(
                from,
                from + value.len(),
            ));
            assert(text::occurs_at(start, value, from));
            lemma_stands_in_skip(behind, blank, value);
            lemma_stands_in_skip(rest, colon + 1, value);
            lemma_stands_in_skip(json, at, value);
        } else {
            lemma_number_field_stands(rest, key);
            if let Some(value) = number_field(rest, key) {
                lemma_stands_in_skip(json, at, value);
            }
        }
    }
}

/// Whether `s` is white space only.
pub open spec fn is_blank(s: Seq<char>) -> bool {
    forall|i: int| 0 <= i < s.len() ==> text::is_white(#[trigger] s[i])
}

/// A string written behind the first occurrence of a quoted key is read back: what may stand
/// around the colon is anything without a colon before it and white space behind it, and the
/// string itself may hold anything but a double quote.
pub proof fn lemma_string_read_back(
    json: Seq<char>,
    key: Seq<char>,
    gap: Seq<char>,
    blank: Seq<char>,
    value: Seq<char>,
    tail: Seq<char>,
)
    requires
        after_key(json, key) == Some(gap + seq![':'] + blank + quoted(value) + tail),
        !gap.contains(':'),
        is_blank(blank),
        !value.contains('"'),
    ensures
        string_field(json, key) == Some(value),
{
    let rest = gap + seq![':'] + blank + quoted(value) + tail;
    let start = quoted(value) + tail;
    lemma_after_colon(rest, gap, blank, start);
    let body = start.skip(1);
    assert forall|i: int| 0 <= i < value.len() implies !CharSet::Only('"').has(
        #[trigger] body[i],
    ) by {
        assert(body[i] == value[i]);
    }
    assert(body[value.len() as int] == '"');
    text::lemma_first_in_unique(body, CharSet::Only('"'), value.len() as int);
    assert(body.take(value.len() as int) =~= value);
}

/// What stands behind a colon and white space.
proof fn lemma_after_colon(
    rest: Seq<char>,
    gap: Seq<char>,
    blank: Seq<char>,
    start: Seq<char>,
)
    requires
        rest =~= gap + seq![':'] + blank + start,
        !gap.contains(':'),
        is_blank(blank),
        start.len() > 0,
        !text::is_white(start[0]),
    ensures
        after_colon(rest) == Some(start),
{
    let colon = gap.len() as int;
    assert forall|i: int| 0 <= i < colon implies !CharSet::Only(':').has(#[trigger] rest[i]) by {
        assert(rest[i] == gap[i]);
        assert(gap.contains(gap[i]));
    }
    text::lemma_first_in_unique(rest, CharSet::Only(':'), colon);
    let behind = rest.skip(colon + 1);
    assert(behind =~= blank + start);
    assert forall|i: int| 0 <= i < blank.len() implies !CharSet::NotWhite.has(
        #[trigger] behind[i],
    ) by {
        assert(behind[i] == blank[i]);
    }
    text::lemma_first_in_unique(behind, CharSet::NotWhite, blank.len() as int);
    assert(behind.skip(blank.len() as int) =~= start);
}

/// A number written behind an occurrence of a quoted key is read back where no occurrence before it
/// has a number behind it: up to the comma, brace or bracket that closes it, or the end of the
/// text, and without the white space around it.
pub proof fn lemma_number_read_back(
    json: Seq<char>,
    key: Seq<char>,
    i: int,
    gap: Seq<char>,
    blank: Seq<char>,
    value: Seq<char>,
    pad: Seq<char>,
    tail: Seq<char>,
)
    requires
        0 <= i < occurrences(json, key).len(),
        forall|j: int| 0 <= j < i ==> number_behind(#[trigger] occurrences(json, key)[j]) is None,
        occurrences(json, key)[i] == gap + seq![':'] + blank + value + pad + tail,
        !gap.contains(':'),
        is_blank(blank),
        number::is_float_literal(value),
        is_blank(pad),
        tail.len() == 0 || CharSet::ValueEnd.has(tail[0]),
    ensures
        number_field(json, key) == Some(value),
{
    number::lemma_float_literal_chars(value);
    let rest = gap + seq![':'] + blank + value + pad + tail;
    let start = value + pad + tail;
    assert(rest =~= gap + seq![':'] + blank + start);
    lemma_after_colon(rest, gap, blank, start);
    let end = value.len() + pad.len();
    assert forall|k: int| 0 <= k < end implies !CharSet::ValueEnd.has(#[trigger] start[k]) by {
        if k < value.len() {
            assert(start[k] == value[k]);
        } else {
            assert(start[k] == pad[k - value.len()]);
        }
    }
    if tail.len() > 0 {
        assert(start[end as int] == tail[0]);
    }
    text::lemma_first_in_unique(start, CharSet::ValueEnd, end as int);
    assert(start.take(end as int) =~= value + pad);
    text::lemma_trimmed(Seq::empty(), value, pad);
    assert(Seq::<char>::empty() + value + pad =~= value + pad);
    assert(number_behind(rest) == Some(value));
    lemma_number_field_is_first(json, key);
    assert(number_behind(occurrences(json, key)[i]) is Some);
}

/// What follows a quoted key is found wherever in the text the key is written, provided that the
/// quoted key does not stand at an earlier position.
pub proof fn lemma_key_found(pre: Seq<char>, key: Seq<char>, rest: Seq<char>)
    requires
        forall|i: int|
            0 <= i < pre.len() ==> !#[trigger] text::occurs_at(
                pre + (seq!['"'] + key + seq!['"']) + rest,
                seq!['"'] + key + seq!['"'],
                i,
            ),
    ensures
        after_key(pre + (seq!['"'] + key + seq!['"']) + rest, key) == Some(rest),
{
    let pattern = seq!['"'] + key + seq!['"'];
    let json = pre + pattern + rest;
    text::lemma_found_where_written(pre, pattern, rest);
    assert(json.skip((pre.len() + pattern.len()) as int) =~= rest);
}

/// A key is missing only where it stands quoted nowhere in the text, and then it has neither a
/// string nor a number.
pub proof fn lemma_key_missing(json: Seq<char>, key: Seq<char>)
    ensures
        after_key(json, key) is None <==> forall|i: int|
            !#[trigger] text::occurs_at(json, seq!['"'] + key + seq!['"'], i),
        (forall|i: int| !#[trigger] text::occurs_at(json, seq!['"'] + key + seq!['"'], i))
            ==> string_field(json, key) is None && number_field(json, key) is None,
{
    text::lemma_occurrence(json, quoted(key));
}

/// The string written behind the first occurrence of its quoted key is read back, in a text of any
/// length: anything without a colon may stand before the colon, white space behind it, and anything
/// behind the string, which holds no double quote itself.
pub proof fn lemma_written_string(
    pre: Seq<char>,
    key: Seq<char>,
    gap: Seq<char>,
    blank: Seq<char>,
    value: Seq<char>,
    tail: Seq<char>,
)
    requires
        forall|i: int|
            0 <= i < pre.len() ==> !#[trigger] text::occurs_at(
                pre + (seq!['"'] + key + seq!['"']) + (gap + seq![':'] + blank + (seq!['"'] + value
                    + seq!['"']) + tail),
                seq!['"'] + key + seq!['"'],
                i,
            ),
        !gap.contains(':'),
        forall|i: int| 0 <= i < blank.len() ==> text::is_white(#[trigger] blank[i]),
        !value.contains('"'),
    ensures
        string_field(
            pre + (seq!['"'] + key + seq!['"']) + (gap + seq![':'] + blank + (seq!['"'] + value
                + seq!['"']) + tail),
            key,
        ) == Some(value),
{
    let rest = gap + seq![':'] + blank + (seq!['"'] + value + seq!['"']) + tail;
    let json = pre + (seq!['"'] + key + seq!['"']) + rest;
    lemma_key_found(pre, key, rest);
    lemma_string_read_back(json, key, gap, blank, value, tail);
}

/// A string is read only where it is written: behind the first occurrence of the quoted key, the
/// first colon that follows and white space, between double quotes.
#[verifier::rlimit(40)]
pub proof fn lemma_string_found(json: Seq<char>, key: Seq<char>)
    ensures
        string_field(json, key) matches Some(value) ==> exists|
            pre: Seq<char>,
            gap: Seq<char>,
            blank: Seq<char>,
            tail: Seq<char>,
        |
            json == #[trigger] (pre + (seq!['"'] + key + seq!['"']) + (gap + seq![':'] + blank + (
            seq!['"'] + value + seq!['"']) + tail)) && !gap.contains(':') && !value.contains('"') && (
            forall|i: int| 0 <= i < blank.len() ==> text::is_white(#[trigger] blank[i])) && (forall|
                i: int,
            |
                0 <= i < pre.len() ==> !#[trigger] text::occurs_at(
                    json,
                    seq!['"'] + key + seq!['"'],
                    i,
                )),
{
    if let Some(value) = string_field(json, key) {
        let pattern = seq!['"'] + key + seq!['"'];
        text::lemma_occurrence(json, pattern);
        let at = text::occurrence(json, pattern)->0;
        let pre = json.take(at);
        let rest = json.skip(at + pattern.len());
        assert(json =~= pre + pattern + rest) by {
            assert(json.subrange(at, at + pattern.len()) == pattern);
            assert(json =~= pre + json.subrange(at, at + pattern.len()) + rest);
        }
        text::lemma_first_in(rest, CharSet::Only(':'));
        let colon = text::first_in(rest, CharSet::Only(':'));
        let gap = rest.take(colon);
        let behind = rest.skip(colon + 1);
        text::lemma_first_in(behind, CharSet::NotWhite);
        let n = text::first_in(behind, CharSet::NotWhite);
        let blank = behind.take(n);
        let start = behind.skip(n);
        let body = start.skip(1);
        text::lemma_first_in(body, CharSet::Only('"'));
        let end = text::first_in(body, CharSet::Only('"'));
        let tail = body.skip(end + 1);
        assert(start =~= (seq!['"'] + value + seq!['"']) + tail);
        assert(behind =~= blank + start);
        assert(rest =~= gap + seq![':'] + behind);
        text::lemma_joined(gap + seq![':'], blank, start);
        text::lemma_joined(gap + seq![':'] + blank, seq!['"'] + value + seq!['"'], tail);
        assert forall|i: int| 0 <= i < gap.len() implies gap[i] != ':' by {
            assert(gap[i] == rest[i]);
        }
        assert forall|i: int| 0 <= i < value.len() implies value[i] != '"' by {
            assert(value[i] == body[i]);
        }
        assert forall|i: int| 0 <= i < blank.len() implies text::is_white(#[trigger] blank[i]) by {
            assert(blank[i] == behind[i]);
        }
    }
}

/// What stands between the colon behind a quoted key and the comma, brace or bracket that follows,
/// or the end of the text, decides: where it is a number with white space around it, that number
/// is the key's; where it is anything else, the key is looked for again in what follows it.
pub proof fn lemma_number_by_span(
    pre: Seq<char>,
    key: Seq<char>,
    gap: Seq<char>,
    span: Seq<char>,
    tail: Seq<char>,
)
    requires
        forall|i: int|
            0 <= i < pre.len() ==> !#[trigger] text::occurs_at(
                pre + (seq!['"'] + key + seq!['"']) + (gap + seq![':'] + span + tail),
                seq!['"'] + key + seq!['"'],
                i,
            ),
        !gap.contains(':'),
        forall|i: int|
            0 <= i < span.len() ==> #[trigger] span[i] != ',' && span[i] != '}' && span[i] != ']',
        tail.len() == 0 || tail[0] == ',' || tail[0] == '}' || tail[0] == ']',
    ensures
        number_field(
            pre + (seq!['"'] + key + seq!['"']) + (gap + seq![':'] + span + tail),
            key,
        ) == if number::is_float_literal(text::trimmed(span)) {
            Some(text::trimmed(span))
        } else {
            number_field(gap + seq![':'] + span + tail, key)
        },
{
    let rest = gap + seq![':'] + span + tail;
    lemma_key_found(pre, key, rest);
    lemma_number_behind(gap, span, tail);
    text::lemma_occurrence(pre + (seq!['"'] + key + seq!['"']) + rest, quoted(key));
}

proof fn lemma_number_behind(gap: Seq<char>, span: Seq<char>, tail: Seq<char>)
    requires
        !gap.contains(':'),
        forall|i: int|
            0 <= i < span.len() ==> #[trigger] span[i] != ',' && span[i] != '}' && span[i] != ']',
        tail.len() == 0 || tail[0] == ',' || tail[0] == '}' || tail[0] == ']',
    ensures
        number_behind(gap + seq![':'] + span + tail) == if number::is_float_literal(
            text::trimmed(span),
        ) {
            Some(text::trimmed(span))
        } else {
            None
        },
{
    let none = Seq::<char>::empty();
    let rest = gap + seq![':'] + span + tail;
    let colon = gap.len() as int;
    assert forall|i: int| 0 <= i < colon implies !CharSet::Only(':').has(#[trigger] rest[i]) by {
        assert(rest[i] == gap[i]);
        assert(gap.contains(gap[i]));
    }
    assert(rest[colon] == ':');
    text::lemma_first_in_unique(rest, CharSet::Only(':'), colon);
    let behind = rest.skip(colon + 1);
    assert(behind =~= span + tail);
    text::lemma_first_in(span, CharSet::NotWhite);
    let n = text::first_in(span, CharSet::NotWhite);
    let lead = span.take(n);
    let core = span.skip(n);
    assert(span =~= lead + core);
    assert forall|i: int| 0 <= i < lead.len() implies text::is_white(#[trigger] lead[i]) by {
        assert(lead[i] == span[i]);
    }
    let start = core + tail;
    assert(behind =~= lead + start);
    if n < span.len() {
        assert(start[0] == span[n]);
        assert(core[0] == span[n]);
    } else if tail.len() > 0 {
        assert(start[0] == tail[0]);
    }
    text::lemma_trimmed_start(lead, start);
    assert(after_colon(rest) == Some(start));
    assert forall|i: int| 0 <= i < core.len() implies !CharSet::ValueEnd.has(#[trigger] start[i]) by {
        assert(start[i] == span[n + i]);
    }
    if tail.len() > 0 {
        assert(start[core.len() as int] == tail[0]);
    }
    text::lemma_first_in_unique(start, CharSet::ValueEnd, core.len() as int);
    assert(start.take(core.len() as int) =~= core);
    text::lemma_trimmed_start(lead, core);
    text::lemma_trimmed_start(none, core);
    assert(none + core =~= core);
    assert(text::trimmed(core) == text::trimmed(span));
    let value = text::trimmed(span);
    text::lemma_trimmed_end_is_prefix(core);
    if number::is_float_literal(value) {
        number::lemma_float_literal_chars(value);
        assert(number::is_literal_char(value[0]));
        assert(value[0] == core[0]);
        assert(start[0] == core[0]);
    }
}

/// The number written behind the first occurrence of its quoted key is read back, in a text of any
/// length, with white space around it and up to the comma, brace or bracket that closes it or the
/// end of the text.
pub proof fn lemma_written_number_is_read(
    pre: Seq<char>,
    key: Seq<char>,
    gap: Seq<char>,
    lead: Seq<char>,
    value: Seq<char>,
    trail: Seq<char>,
    tail: Seq<char>,
)
    requires
        forall|i: int|
            0 <= i < pre.len() ==> !#[trigger] text::occurs_at(
                pre + (seq!['"'] + key + seq!['"']) + (gap + seq![':'] + (lead + value + trail)
                    + tail),
                seq!['"'] + key + seq!['"'],
                i,
            ),
        !gap.contains(':'),
        forall|i: int| 0 <= i < lead.len() ==> text::is_white(#[trigger] lead[i]),
        number::is_float_literal(value),
        forall|i: int| 0 <= i < trail.len() ==> text::is_white(#[trigger] trail[i]),
        tail.len() == 0 || tail[0] == ',' || tail[0] == '}' || tail[0] == ']',
    ensures
        number_field(
            pre + (seq!['"'] + key + seq!['"']) + (gap + seq![':'] + (lead + value + trail) + tail),
            key,
        ) == Some(value),
{
    let span = lead + value + trail;
    number::lemma_float_literal_chars(value);
    assert(number::is_literal_char(value[0]) && number::is_literal_char(value[value.len() - 1]));
    text::lemma_trimmed(lead, value, trail);
    assert forall|i: int| 0 <= i < span.len() implies #[trigger] span[i] != ',' && span[i] != '}'
        && span[i] != ']' by {
        if i < lead.len() {
            assert(span[i] == lead[i]);
        } else if i < lead.len() + value.len() {
            assert(span[i] == value[i - lead.len()]);
        } else {
            assert(span[i] == trail[i - lead.len() - value.len()]);
        }
    }
    lemma_number_by_span(pre, key, gap, span, tail);
}

/// Where a string stands behind the first occurrence of a quoted key, its number is looked for in
/// what follows that occurrence, as if the text began there.
pub proof fn lemma_number_behind_string(
    pre: Seq<char>,
    key: Seq<char>,
    gap: Seq<char>,
    blank: Seq<char>,
    more: Seq<char>,
)
    requires
        forall|i: int|
            0 <= i < pre.len() ==> !#[trigger] text::occurs_at(
                pre + (seq!['"'] + key + seq!['"']) + (gap + seq![':'] + blank + seq!['"'] + more),
                seq!['"'] + key + seq!['"'],
                i,
            ),
        !gap.contains(':'),
        forall|i: int| 0 <= i < blank.len() ==> text::is_white(#[trigger] blank[i]),
    ensures
        number_field(
            pre + (seq!['"'] + key + seq!['"']) + (gap + seq![':'] + blank + seq!['"'] + more),
            key,
        ) == number_field(gap + seq![':'] + blank + seq!['"'] + more, key),
{
    let rest = gap + seq![':'] + blank + seq!['"'] + more;
    let start = seq!['"'] + more;
    lemma_key_found(pre, key, rest);
    assert(rest =~= gap + seq![':'] + blank + start);
    assert(start[0] == '"');
    lemma_after_colon(rest, gap, blank, start);
    text::lemma_occurrence(pre + (seq!['"'] + key + seq!['"']) + rest, quoted(key));
}

/// Where no colon follows the first occurrence of a quoted key, it has neither a string nor a
/// number.
pub proof fn lemma_no_value_without_colon(pre: Seq<char>, key: Seq<char>, rest: Seq<char>)
    requires
        forall|i: int|
            0 <= i < pre.len() ==> !#[trigger] text::occurs_at(
                pre + (seq!['"'] + key + seq!['"']) + rest,
                seq!['"'] + key + seq!['"'],
                i,
            ),
        !rest.contains(':'),
    ensures
        string_field(pre + (seq!['"'] + key + seq!['"']) + rest, key) is None,
        number_field(pre + (seq!['"'] + key + seq!['"']) + rest, key) is None,
{
    lemma_key_found(pre, key, rest);
    lemma_no_number_without_colon(rest, key);
    lemma_no_colon(rest);
    text::lemma_occurrence(pre + (seq!['"'] + key + seq!['"']) + rest, quoted(key));
}

proof fn lemma_no_colon(s: Seq<char>)
    requires
        !s.contains(':'),
    ensures
        after_colon(s) is None,
{
    text::lemma_first_in(s, CharSet::Only(':'));
    let colon = text::first_in(s, CharSet::Only(':'));
    if colon < s.len() {
        assert(s.contains(s[colon]));
    }
}

proof fn lemma_no_number_without_colon(s: Seq<char>, key: Seq<char>)
    requires
        !s.contains(':'),
    ensures
        number_field(s, key) is None,
    decreases s.len(),
{
    if let Some(rest) = after_key(s, key) {
        text::lemma_occurrence(s, quoted(key));
        let from = text::occurrence(s, quoted(key))->0 + quoted(key).len();
        assert forall|i: int| 0 <= i < rest.len() implies rest[i] != ':' by {
            assert(rest[i] == s[from + i]);
            assert(s.contains(s[from + i]));
        }
        lemma_no_colon(rest);
        lemma_no_number_without_colon(rest, key);
    }
}

} // verus!
