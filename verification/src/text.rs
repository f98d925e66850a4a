use vstd::prelude::*;

verus! {

/// The characters with the Unicode property `White_Space`.
pub open spec fn is_white(c: char) -> bool {
    ||| '\u{9}' <= c <= '\u{d}'
    ||| c == ' '
    ||| c == '\u{85}'
    ||| c == '\u{a0}'
    ||| c == '\u{1680}'
    ||| '\u{2000}' <= c <= '\u{200a}'
    ||| c == '\u{2028}'
    ||| c == '\u{2029}'
    ||| c == '\u{202f}'
    ||| c == '\u{205f}'
    ||| c == '\u{3000}'
}

/// The ASCII decimal digits.
pub open spec fn is_digit(c: char) -> bool {
    '0' <= c <= '9'
}

/// A set of characters that a scan can look for.
pub enum CharSet {
    /// One character.
    Only(char),
    /// White space.
    White,
    /// Everything but white space.
    NotWhite,
    /// Everything but decimal digits.
    NotDigit,
    /// The characters that close a bare value in a JSON text: a comma, a brace or a bracket.
    ValueEnd,
}

impl CharSet {
    pub open spec fn has(self, c: char) -> bool {
        match self {
            CharSet::Only(x) => c == x,
            CharSet::White => is_white(c),
            CharSet::NotWhite => !is_white(c),
            CharSet::NotDigit => !is_digit(c),
            CharSet::ValueEnd => c == ',' || c == '}' || c == ']',
        }
    }

    /// Whether `c` is in the set.
    pub fn contains(&self, c: char) -> (found: bool)
        ensures
            found == self.has(c),
    {
        match self {
            CharSet::Only(x) => c == *x,
            CharSet::White => white(c),
            CharSet::NotWhite => !white(c),
            CharSet::NotDigit => !('0' <= c && c <= '9'),
            CharSet::ValueEnd => c == ',' || c == '}' || c == ']',
        }
    }
}

/// Whether `c` is white space.
pub fn white(c: char) -> (w: bool)
    ensures
        w == is_white(c),
{
    ('\u{9}' <= c && c <= '\u{d}') || c == ' ' || c == '\u{85}' || c == '\u{a0}' || c == '\u{1680}'
        || ('\u{2000}' <= c && c <= '\u{200a}') || c == '\u{2028}' || c == '\u{2029}'
        || c == '\u{202f}' || c == '\u{205f}' || c == '\u{3000}'
}

/// The characters of `s`, in order.
pub fn chars_of(s: &str) -> (chars: Vec<char>)
    ensures
        chars@ == s@,
{
    let mut chars: Vec<char> = Vec::new();
    for c in it: s.chars()
        invariant
            it.seq() == s@,
            chars@ == it.seq().take(it.index() as int),
    {
        chars.push(c);
    }
    chars
}

/// The position of the first character of `s` that is in `set`, or the length of `s` where there
/// is none.
pub open spec fn first_in(s: Seq<char>, set: CharSet) -> int
    decreases s.len(),
{
    if s.len() == 0 || set.has(s[0]) {
        0
    } else {
        1 + first_in(s.drop_first(), set)
    }
}

/// The position of the first occurrence of `pattern` in `s`.
pub open spec fn occurrence(s: Seq<char>, pattern: Seq<char>) -> Option<int>
    decreases s.len(),
{
    if s.len() < pattern.len() {
        None
    } else if s.take(pattern.len() as int) == pattern {
        Some(0)
    } else if s.len() == 0 {
        None
    } else {
        match occurrence(s.drop_first(), pattern) {
            Some(i) => Some(i + 1),
            None => None,
        }
    }
}

/// `s` without its leading white space.
pub open spec fn trimmed_start(s: Seq<char>) -> Seq<char> {
    s.skip(first_in(s, CharSet::NotWhite))
}

/// `s` without its trailing white space.
pub open spec fn trimmed_end(s: Seq<char>) -> Seq<char>
    decreases s.len(),
{
    if s.len() > 0 && is_white(s.last()) {
        trimmed_end(s.drop_last())
    } else {
        s
    }
}

/// `s` without white space at either end.
pub open spec fn trimmed(s: Seq<char>) -> Seq<char> {
    trimmed_end(trimmed_start(s))
}

/// `s` without one carriage return at its end.
pub open spec fn without_cr(s: Seq<char>) -> Seq<char> {
    if s.len() > 0 && s.last() == '\r' {
        s.drop_last()
    } else {
        s
    }
}

/// The lines of `s`. A line ends with a line feed or with a carriage return and a line feed, which
/// do not belong to it; the ending of the last line may be missing.
pub open spec fn lines(s: Seq<char>) -> Seq<Seq<char>>
    decreases s.len(),
{
    let end = first_in(s, CharSet::Only('\n'));
    if s.len() == 0 {
        Seq::empty()
    } else if 0 <= end < s.len() {
        seq![without_cr(s.take(end))] + lines(s.skip(end + 1))
    } else {
        seq![s]
    }
}

/// The words of `s`: its longest runs of characters other than white space.
pub open spec fn words(s: Seq<char>) -> Seq<Seq<char>>
    decreases s.len(),
{
    let start = trimmed_start(s);
    let end = first_in(start, CharSet::White);
    if start.len() == 0 {
        Seq::empty()
    } else {
        proof {
            lemma_first_in(s, CharSet::NotWhite);
            lemma_first_in(start, CharSet::White);
        }
        seq![start.take(end)] + words(start.skip(end))
    }
}

/// `first_in` is within the sequence, nothing before it is in the set, and what stands at it is.
pub proof fn lemma_first_in(s: Seq<char>, set: CharSet)
    ensures
        0 <= first_in(s, set) <= s.len(),
        forall|i: int| 0 <= i < first_in(s, set) ==> !set.has(#[trigger] s[i]),
        first_in(s, set) < s.len() ==> set.has(s[first_in(s, set)]),
    decreases s.len(),
{
    if s.len() == 0 || set.has(s[0]) {
    } else {
        let rest = s.drop_first();
        lemma_first_in(rest, set);
        assert forall|i: int| 0 <= i < first_in(s, set) implies !set.has(#[trigger] s[i]) by {
            if i > 0 {
                assert(s[i] == rest[i - 1]);
            }
        }
    }
}

/// Only one position has the properties of `first_in`.
pub proof fn lemma_first_in_unique(s: Seq<char>, set: CharSet, at: int)
    requires
        0 <= at <= s.len(),
        forall|i: int| 0 <= i < at ==> !set.has(#[trigger] s[i]),
        at < s.len() ==> set.has(s[at]),
    ensures
        first_in(s, set) == at,
{
    lemma_first_in(s, set);
    let first = first_in(s, set);
    if first < at {
        assert(!set.has(s[first]));
    } else if at < first {
        assert(!set.has(s[at]));
    }
}

/// Whether `pattern` stands in `s` at `at`.
pub open spec fn occurs_at(s: Seq<char>, pattern: Seq<char>, at: int) -> bool {
    0 <= at && at + pattern.len() <= s.len() && s.subrange(at, at + pattern.len()) == pattern
}

/// `occurrence` is a position at which the pattern stands, and it is the least; where there is no
/// such position it is `None`.
pub proof fn lemma_occurrence(s: Seq<char>, pattern: Seq<char>)
    ensures
        match occurrence(s, pattern) {
            Some(at) => occurs_at(s, pattern, at) && forall|i: int|
                i < at ==> !#[trigger] occurs_at(s, pattern, i),
            None => forall|i: int| !#[trigger] occurs_at(s, pattern, i),
        },
    decreases s.len(),
{
    let n = pattern.len() as int;
    if s.len() < pattern.len() {
    } else if s.take(n) == pattern {
        assert(s.subrange(0, n) == pattern);
    } else if s.len() == 0 {
        assert(s.take(n) == pattern);
    } else {
        let rest = s.drop_first();
        lemma_occurrence(rest, pattern);
        assert forall|i: int| occurs_at(s, pattern, i) implies i > 0 && occurs_at(
            rest,
            pattern,
            i - 1,
        ) by {
            if i == 0 {
                assert(s.subrange(0, n) == s.take(n));
            } else {
                assert(rest.subrange(i - 1, i - 1 + n) == s.subrange(i, i + n));
            }
        }
        if let Some(at) = occurrence(rest, pattern) {
            assert(rest.subrange(at, at + n) == s.subrange(at + 1, at + 1 + n));
        }
    }
}

/// Only the least position at which the pattern stands is its `occurrence`.
pub proof fn lemma_occurrence_unique(s: Seq<char>, pattern: Seq<char>, at: int)
    requires
        occurs_at(s, pattern, at),
        forall|i: int| 0 <= i < at ==> !#[trigger] occurs_at(s, pattern, i),
    ensures
        occurrence(s, pattern) == Some(at),
{
    lemma_occurrence(s, pattern);
}

/// The position of the first character of `s` that is in `set`, or the number of its characters
/// where there is none.
pub fn position(s: &str, set: CharSet) -> (at: usize)
    ensures
        at == first_in(s@, set),
        at <= s@.len(),
{
    let chars = chars_of(s);
    let mut at: usize = 0;
    while at < chars.len() && !set.contains(chars[at])
        invariant
            chars@ == s@,
            at <= chars@.len(),
            forall|i: int| 0 <= i < at ==> !set.has(#[trigger] s@[i]),
        decreases chars@.len() - at,
    {
        at = at + 1;
    }
    proof {
        lemma_first_in_unique(s@, set, at as int);
    }
    at
}

/// Whether the characters of `chars` from `at` on begin with `pattern`.
fn stands_at(chars: &Vec<char>, pattern: &Vec<char>, at: usize) -> (found: bool)
    requires
        at + pattern@.len() <= chars@.len(),
    ensures
        found == occurs_at(chars@, pattern@, at as int),
{
    let len: usize = chars.len();
    let mut i: usize = 0;
    while i < pattern.len()
        invariant
            at + pattern@.len() <= len,
            len == chars@.len(),
            i <= pattern@.len(),
            forall|j: int| 0 <= j < i ==> chars@[at + j] == #[trigger] pattern@[j],
        decreases pattern@.len() - i,
    {
        if chars[at + i] != pattern[i] {
            assert(chars@.subrange(at as int, at + pattern@.len())[i as int] != pattern@[i as int]);
            return false;
        }
        i = i + 1;
    }
    assert(chars@.subrange(at as int, at + pattern@.len()) =~= pattern@);
    true
}

/// The position, counted in characters, of the first occurrence of `pattern` in `s`.
pub fn find(s: &str, pattern: &str) -> (found: Option<usize>)
    ensures
        match found {
            Some(at) => occurrence(s@, pattern@) == Some(at as int) && at + pattern@.len()
                <= s@.len(),
            None => occurrence(s@, pattern@) is None,
        },
{
    let chars = chars_of(s);
    let wanted = chars_of(pattern);
    if chars.len() < wanted.len() {
        return None;
    }
    let last: usize = chars.len() - wanted.len();
    let mut at: usize = 0;
    loop
        invariant
            chars@ == s@,
            wanted@ == pattern@,
            last + wanted@.len() == chars@.len(),
            at <= last,
            forall|i: int| 0 <= i < at ==> !#[trigger] occurs_at(s@, pattern@, i),
        decreases last - at,
    {
        if stands_at(&chars, &wanted, at) {
            proof {
                lemma_occurrence_unique(s@, pattern@, at as int);
            }
            return Some(at);
        }
        if at == last {
            proof {
                lemma_occurrence(s@, pattern@);
            }
            return None;
        }
        at = at + 1;
    }
}

/// What follows the first `n` characters of `s`.
pub fn after(s: &str, n: usize) -> (rest: &str)
    requires
        n <= s@.len(),
    ensures
        rest@ == s@.skip(n as int),
{
    let len = s.unicode_len();
    let rest = s.substring_char(n, len);
    assert(s@.subrange(n as int, len as int) =~= s@.skip(n as int));
    rest
}

/// The first `n` characters of `s`.
pub fn before(s: &str, n: usize) -> (start: &str)
    requires
        n <= s@.len(),
    ensures
        start@ == s@.take(n as int),
{
    let start = s.substring_char(0, n);
    assert(s@.subrange(0, n as int) =~= s@.take(n as int));
    start
}

/// `s` without its leading white space.
pub fn trim_start(s: &str) -> (rest: &str)
    ensures
        rest@ == trimmed_start(s@),
{
    after(s, position(s, CharSet::NotWhite))
}

/// `s` without its trailing white space.
pub fn trim_end(s: &str) -> (start: &str)
    ensures
        start@ == trimmed_end(s@),
{
    let chars = chars_of(s);
    let mut end: usize = chars.len();
    assert(s@.take(end as int) =~= s@);
    while end > 0 && white(chars[end - 1])
        invariant
            chars@ == s@,
            end <= chars@.len(),
            trimmed_end(s@) == trimmed_end(s@.take(end as int)),
        decreases end,
    {
        assert(s@.take(end as int).drop_last() =~= s@.take(end - 1));
        end = end - 1;
    }
    before(s, end)
}

/// `s` without white space at either end.
pub fn trim(s: &str) -> (inner: &str)
    ensures
        inner@ == trimmed(s@),
{
    trim_end(trim_start(s))
}

/// What a text holds, where there is one.
pub open spec fn of_str(s: Option<&str>) -> Option<Seq<char>> {
    match s {
        Some(s) => Some(s@),
        None => None,
    }
}

/// What an owned text holds, where there is one.
pub open spec fn of_string(s: Option<String>) -> Option<Seq<char>> {
    match s {
        Some(s) => Some(s@),
        None => None,
    }
}

/// What each of `parts` holds.
pub open spec fn views(parts: Seq<&str>) -> Seq<Seq<char>> {
    parts.map_values(|part: &str| part@)
}

/// The words of `s`, in order.
pub fn split_words(s: &str) -> (parts: Vec<&str>)
    ensures
        views(parts@) == words(s@),
{
    let mut parts: Vec<&str> = Vec::new();
    let mut rest = s;
    assert(views(parts@) + words(rest@) =~= words(s@));
    loop
        invariant
            views(parts@) + words(rest@) == words(s@),
        decreases rest@.len(),
    {
        let start = trim_start(rest);
        if start.is_empty() {
            assert(views(parts@) + words(rest@) =~= views(parts@));
            return parts;
        }
        let end = position(start, CharSet::White);
        proof {
            lemma_first_in(rest@, CharSet::NotWhite);
            lemma_first_in(start@, CharSet::White);
        }
        let word = before(start, end);
        let ghost done = views(parts@);
        parts.push(word);
        assert(views(parts@) =~= done.push(word@));
        rest = after(start, end);
        assert(done + (seq![word@] + words(rest@)) =~= done.push(word@) + words(rest@));
    }
}

/// The first line of `s`, and what follows it with its ending, where `s` is not empty.
fn next_line(s: &str) -> (split: Option<(&str, &str)>)
    ensures
        match split {
            Some((line, rest)) => lines(s@) == seq![line@] + lines(rest@) && rest@.len() < s@.len(),
            None => lines(s@) == Seq::<Seq<char>>::empty() && s@.len() == 0,
        },
{
    if s.is_empty() {
        return None;
    }
    let end = position(s, CharSet::Only('\n'));
    let len = s.unicode_len();
    if end == len {
        let rest = after(s, len);
        assert(lines(s@) =~= seq![s@] + lines(rest@));
        return Some((s, rest));
    }
    let line = before(s, end);
    let rest = after(s, end + 1);
    if end > 0 && line.get_char(end - 1) == '\r' {
        let shorter = before(line, end - 1);
        assert(shorter@ =~= line@.drop_last());
        Some((shorter, rest))
    } else {
        Some((line, rest))
    }
}

/// The first line of `s`.
pub fn first_line(s: &str) -> (line: Option<&str>)
    ensures
        of_str(line) == if lines(s@).len() > 0 {
            Some(lines(s@)[0])
        } else {
            None
        },
{
    match next_line(s) {
        Some((line, _)) => Some(line),
        None => None,
    }
}

/// The lines of `s`, in order.
pub fn split_lines(s: &str) -> (parts: Vec<&str>)
    ensures
        views(parts@) == lines(s@),
{
    let mut parts: Vec<&str> = Vec::new();
    let mut rest = s;
    assert(views(parts@) + lines(rest@) =~= lines(s@));
    loop
        invariant
            views(parts@) + lines(rest@) == lines(s@),
        decreases rest@.len(),
    {
        match next_line(rest) {
            Some((line, tail)) => {
                let ghost done = views(parts@);
                parts.push(line);
                assert(views(parts@) =~= done.push(line@));
                assert(done + (seq![line@] + lines(tail@)) =~= done.push(line@) + lines(tail@));
                rest = tail;
            },
            None => {
                assert(views(parts@) + lines(rest@) =~= views(parts@));
                return parts;
            },
        }
    }
}

/// Whether `s` begins with `prefix`.
pub open spec fn has_prefix(s: Seq<char>, prefix: Seq<char>) -> bool {
    prefix.len() <= s.len() && s.take(prefix.len() as int) == prefix
}

/// What follows `prefix` in `s`, where `s` begins with it.
pub fn strip_prefix<'a>(s: &'a str, prefix: &str) -> (rest: Option<&'a str>)
    ensures
        rest matches Some(rest) ==> s@ == prefix@ + rest@,
        rest is None ==> forall|tail: Seq<char>| s@ != #[trigger] (prefix@ + tail),
        of_str(rest) == if has_prefix(s@, prefix@) {
            Some(s@.skip(prefix@.len() as int))
        } else {
            None
        },
{
    let chars = chars_of(s);
    let wanted = chars_of(prefix);
    proof {
        lemma_prefix(s@, prefix@);
    }
    if wanted.len() > chars.len() {
        return None;
    }
    assert(s@.subrange(0, prefix@.len() as int) =~= s@.take(prefix@.len() as int));
    if stands_at(&chars, &wanted, 0) {
        Some(after(s, wanted.len()))
    } else {
        None
    }
}

/// Whether the two texts hold the same characters.
pub fn same(a: &str, b: &str) -> (equal: bool)
    ensures
        equal == (a@ == b@),
{
    let left = chars_of(a);
    let right = chars_of(b);
    if left.len() != right.len() {
        return false;
    }
    assert(a@.subrange(0, b@.len() as int) =~= a@);
    stands_at(&left, &right, 0)
}

/// `c` in lower case, where it is an upper case ASCII letter.
pub open spec fn ascii_lower(c: char) -> char {
    if 'A' <= c <= 'Z' {
        (c as u32 + 32) as char
    } else {
        c
    }
}

/// `s` with its upper case ASCII letters in lower case.
pub open spec fn lowered(s: Seq<char>) -> Seq<char> {
    s.map_values(|c: char| ascii_lower(c))
}

/// `c` in lower case, where it is an upper case ASCII letter.
pub fn lower(c: char) -> (l: char)
    ensures
        l == ascii_lower(c),
{
    if 'A' <= c && c <= 'Z' {
        (c as u8 + 32) as char
    } else {
        c
    }
}

/// Whether the two texts hold the same characters up to the case of ASCII letters.
pub fn same_but_for_case(a: &str, b: &str) -> (equal: bool)
    ensures
        equal == (lowered(a@) == lowered(b@)),
{
    let left = chars_of(a);
    let right = chars_of(b);
    if left.len() != right.len() {
        assert(lowered(a@).len() != lowered(b@).len());
        return false;
    }
    let mut i: usize = 0;
    while i < left.len()
        invariant
            left@ == a@,
            right@ == b@,
            left@.len() == right@.len(),
            i <= left@.len(),
            forall|j: int|
                0 <= j < i ==> ascii_lower(#[trigger] a@[j]) == ascii_lower(b@[j]),
        decreases left@.len() - i,
    {
        if lower(left[i]) != lower(right[i]) {
            assert(lowered(a@)[i as int] != lowered(b@)[i as int]);
            return false;
        }
        i = i + 1;
    }
    assert(lowered(a@) =~= lowered(b@));
    true
}

/// Trimming takes off exactly the white space around a text that neither begins nor ends with it.
pub proof fn lemma_trimmed(lead: Seq<char>, core: Seq<char>, trail: Seq<char>)
    requires
        forall|i: int| 0 <= i < lead.len() ==> is_white(#[trigger] lead[i]),
        core.len() > 0,
        !is_white(core[0]),
        !is_white(core.last()),
        forall|i: int| 0 <= i < trail.len() ==> is_white(#[trigger] trail[i]),
    ensures
        trimmed(lead + core + trail) == core,
{
    let s = lead + core + trail;
    assert forall|i: int| 0 <= i < lead.len() implies !CharSet::NotWhite.has(#[trigger] s[i]) by {
        assert(s[i] == lead[i]);
    }
    assert(s[lead.len() as int] == core[0]);
    lemma_first_in_unique(s, CharSet::NotWhite, lead.len() as int);
    assert(trimmed_start(s) =~= core + trail);
    lemma_trimmed_end(core, trail);
}

/// Trimming the end takes off exactly the white space behind a text that does not end with it.
pub proof fn lemma_trimmed_end(core: Seq<char>, trail: Seq<char>)
    requires
        core.len() > 0,
        !is_white(core.last()),
        forall|i: int| 0 <= i < trail.len() ==> is_white(#[trigger] trail[i]),
    ensures
        trimmed_end(core + trail) == core,
    decreases trail.len(),
{
    if trail.len() == 0 {
        assert(core + trail =~= core);
    } else {
        assert((core + trail).drop_last() =~= core + trail.drop_last());
        assert(is_white(trail[trail.len() - 1]));
        lemma_trimmed_end(core, trail.drop_last());
    }
}

/// What trimming leaves stands in the text.
pub proof fn lemma_trimmed_is_part(s: Seq<char>)
    ensures
        exists|from: int| occurs_at(s, trimmed(s), from),
{
    lemma_first_in(s, CharSet::NotWhite);
    let start = first_in(s, CharSet::NotWhite);
    let rest = trimmed_start(s);
    lemma_trimmed_end_is_prefix(rest);
    let inner = trimmed(s);
    assert(s.subrange(start, start + inner.len()) =~= rest.take(inner.len() as int));
    assert(occurs_at(s, inner, start));
}

/// Taking white space off the end of a text leaves a text that it begins with.
pub proof fn lemma_trimmed_end_is_prefix(s: Seq<char>)
    ensures
        has_prefix(s, trimmed_end(s)),
    decreases s.len(),
{
    if s.len() > 0 && is_white(s.last()) {
        lemma_trimmed_end_is_prefix(s.drop_last());
        let n = trimmed_end(s).len() as int;
        assert(s.take(n) =~= s.drop_last().take(n));
    } else {
        assert(s.take(s.len() as int) =~= s);
    }
}

/// Trimming keeps every character that is not white space.
pub proof fn lemma_trimmed_keeps(s: Seq<char>, at: int)
    requires
        0 <= at < s.len(),
        !is_white(s[at]),
    ensures
        trimmed(s).contains(s[at]),
{
    lemma_first_in(s, CharSet::NotWhite);
    let start = first_in(s, CharSet::NotWhite);
    if at < start {
        assert(!CharSet::NotWhite.has(s[at]));
    }
    assert(trimmed_start(s)[at - start] == s[at]);
    lemma_trimmed_end_keeps(trimmed_start(s), at - start);
}

proof fn lemma_trimmed_end_keeps(s: Seq<char>, at: int)
    requires
        0 <= at < s.len(),
        !is_white(s[at]),
    ensures
        trimmed_end(s).contains(s[at]),
    decreases s.len(),
{
    if is_white(s.last()) {
        lemma_trimmed_end_keeps(s.drop_last(), at);
    }
}

/// Whether no character of `s` is white space.
pub open spec fn no_white(s: Seq<char>) -> bool {
    forall|i: int| 0 <= i < s.len() ==> !is_white(#[trigger] s[i])
}

/// White space at the start of a text does not change its words.
pub proof fn lemma_words_lead(c: char, rest: Seq<char>)
    requires
        is_white(c),
    ensures
        words(seq![c] + rest) == words(rest),
{
    let s = seq![c] + rest;
    assert(s.drop_first() =~= rest);
    lemma_first_in(rest, CharSet::NotWhite);
    assert(trimmed_start(s) =~= trimmed_start(rest));
}

/// A run of characters other than white space at the start of a text is its first word, and what
/// follows the white space behind it gives the other words.
pub proof fn lemma_words_step(word: Seq<char>, c: char, rest: Seq<char>)
    requires
        word.len() > 0,
        no_white(word),
        is_white(c),
    ensures
        words(word + seq![c] + rest) == seq![word] + words(rest),
{
    let s = word + seq![c] + rest;
    assert(s[0] == word[0]);
    lemma_first_in_unique(s, CharSet::NotWhite, 0);
    assert(trimmed_start(s) =~= s);
    assert forall|i: int| 0 <= i < word.len() implies !CharSet::White.has(#[trigger] s[i]) by {
        assert(s[i] == word[i]);
    }
    assert(s[word.len() as int] == c);
    lemma_first_in_unique(s, CharSet::White, word.len() as int);
    assert(s.take(word.len() as int) =~= word);
    assert(s.skip(word.len() as int) =~= seq![c] + rest);
    lemma_words_lead(c, rest);
}

/// What the sets of characters hold, and which characters are white space: the tab up to the
/// carriage return, the space, the next line, the no-break space, and the spaces and separators
/// beyond Latin-1.
pub proof fn lemma_char_sets(c: char, x: char)
    ensures
        CharSet::Only(x).has(c) <==> c == x,
        CharSet::White.has(c) <==> is_white(c),
        CharSet::NotWhite.has(c) <==> !is_white(c),
        CharSet::NotDigit.has(c) <==> !('0' <= c <= '9'),
        CharSet::ValueEnd.has(c) <==> c == ',' || c == '}' || c == ']',
        is_white(c) <==> 9 <= c as u32 <= 13 || c as u32 == 32 || c as u32 == 133 || c as u32 == 160
            || c as u32 == 5760 || 8192 <= c as u32 <= 8202 || c as u32 == 8232 || c as u32 == 8233
            || c as u32 == 8239 || c as u32 == 8287 || c as u32 == 12288,
{
}

/// What is taken for the content of an optional text is that content.
pub proof fn lemma_contents(s: &str, owned: String, parts: Seq<&str>)
    ensures
        of_str(Some(s)) == Some(s@),
        of_str(None) is None,
        of_string(Some(owned)) == Some(owned@),
        of_string(None) is None,
        views(parts).len() == parts.len(),
        forall|i: int| 0 <= i < parts.len() ==> #[trigger] views(parts)[i] == parts[i]@,
{
}

/// A pattern stands in a text at a position exactly where the text is something as long as the
/// position says, the pattern, and something more.
pub proof fn lemma_occurs_at(s: Seq<char>, pattern: Seq<char>, at: int)
    ensures
        occurs_at(s, pattern, at) <==> exists|pre: Seq<char>, post: Seq<char>|
            pre.len() == at && s == #[trigger] (pre + pattern + post),
{
    if occurs_at(s, pattern, at) {
        let pre = s.take(at);
        let post = s.skip(at + pattern.len());
        assert(s.subrange(at, at + pattern.len()) == pattern);
        assert(s =~= pre + pattern + post) by {
            assert forall|i: int| 0 <= i < s.len() implies s[i] == (pre + pattern + post)[i] by {
                if at <= i < at + pattern.len() {
                    assert(s[i] == s.subrange(at, at + pattern.len())[i - at]);
                }
            }
        }
    }
    assert forall|pre: Seq<char>, post: Seq<char>|
        pre.len() == at && s == #[trigger] (pre + pattern + post) implies occurs_at(
        s,
        pattern,
        at,
    ) by {
        assert(s.subrange(at, at + pattern.len()) =~= pattern);
    }
}

/// A pattern is found where it is written, however far into a text of whatever length, provided
/// that it does not stand at an earlier position.
pub proof fn lemma_found_where_written(pre: Seq<char>, pattern: Seq<char>, post: Seq<char>)
    requires
        forall|i: int| 0 <= i < pre.len() ==> !#[trigger] occurs_at(pre + pattern + post, pattern, i),
    ensures
        occurrence(pre + pattern + post, pattern) == Some(pre.len() as int),
{
    let s = pre + pattern + post;
    assert(s.subrange(pre.len() as int, (pre.len() + pattern.len()) as int) =~= pattern);
    lemma_occurrence_unique(s, pattern, pre.len() as int);
}

/// A pattern that is written anywhere in a text is found.
pub proof fn lemma_written_is_found(pre: Seq<char>, pattern: Seq<char>, post: Seq<char>)
    ensures
        occurrence(pre + pattern + post, pattern) is Some,
{
    let s = pre + pattern + post;
    lemma_occurrence(s, pattern);
    assert(s.subrange(pre.len() as int, (pre.len() + pattern.len()) as int) =~= pattern);
    assert(occurs_at(s, pattern, pre.len() as int));
}

/// A text begins with a prefix exactly where it is the prefix and something more.
pub proof fn lemma_prefix(s: Seq<char>, prefix: Seq<char>)
    ensures
        has_prefix(s, prefix) <==> exists|tail: Seq<char>| s == #[trigger] (prefix + tail),
        has_prefix(s, prefix) ==> s == prefix + s.skip(prefix.len() as int),
        forall|tail: Seq<char>| s == #[trigger] (prefix + tail) ==> tail == s.skip(
            prefix.len() as int,
        ),
{
    if has_prefix(s, prefix) {
        assert(s =~= s.take(prefix.len() as int) + s.skip(prefix.len() as int));
    }
    assert forall|tail: Seq<char>| s == #[trigger] (prefix + tail) implies has_prefix(s, prefix)
        && tail == s.skip(prefix.len() as int) by {
        assert(s.take(prefix.len() as int) =~= prefix);
        assert(tail =~= s.skip(prefix.len() as int));
    }
}

/// Leading white space is taken off, and nothing else; a blank text leaves nothing.
pub proof fn lemma_trimmed_start(lead: Seq<char>, rest: Seq<char>)
    requires
        forall|i: int| 0 <= i < lead.len() ==> is_white(#[trigger] lead[i]),
        rest.len() == 0 || !is_white(rest[0]),
    ensures
        trimmed_start(lead + rest) == rest,
{
    let s = lead + rest;
    assert forall|i: int| 0 <= i < lead.len() implies !CharSet::NotWhite.has(#[trigger] s[i]) by {
        assert(s[i] == lead[i]);
    }
    if rest.len() > 0 {
        assert(s[lead.len() as int] == rest[0]);
    }
    lemma_first_in_unique(s, CharSet::NotWhite, lead.len() as int);
    assert(s.skip(lead.len() as int) =~= rest);
}

/// A blank text leaves nothing when it is trimmed, and has no words.
pub proof fn lemma_trimmed_blank(blank: Seq<char>)
    requires
        forall|i: int| 0 <= i < blank.len() ==> is_white(#[trigger] blank[i]),
    ensures
        trimmed(blank) == Seq::<char>::empty(),
        trimmed_end(blank) == Seq::<char>::empty(),
        words(blank) == Seq::<Seq<char>>::empty(),
    decreases blank.len(),
{
    let none = Seq::<char>::empty();
    lemma_trimmed_start(blank, none);
    assert(blank + none =~= blank);
    if blank.len() > 0 {
        assert(is_white(blank[blank.len() - 1]));
        lemma_trimmed_blank(blank.drop_last());
    } else {
        assert(blank =~= none);
    }
}

/// A run of characters other than white space is a word, wherever it stands: what is left of the
/// text behind the white space that ends it gives the other words, and white space before a word
/// gives none.
pub proof fn lemma_words(word: Seq<char>, c: char, rest: Seq<char>)
    requires
        word.len() > 0,
        forall|i: int| 0 <= i < word.len() ==> !is_white(#[trigger] word[i]),
        is_white(c),
    ensures
        words(word) == seq![word],
        words(word + seq![c] + rest) == seq![word] + words(rest),
        words(seq![c] + rest) == words(rest),
        words(seq![c] + word) == seq![word],
{
    lemma_words_end(word);
    lemma_words_step(word, c, rest);
    lemma_words_lead(c, rest);
    lemma_words_lead(c, word);
}

/// A run of characters other than white space at the end of a text is its last word.
pub proof fn lemma_words_end(word: Seq<char>)
    requires
        word.len() > 0,
        forall|i: int| 0 <= i < word.len() ==> !is_white(#[trigger] word[i]),
    ensures
        words(word) == seq![word],
{
    let none = Seq::<char>::empty();
    assert(!is_white(word[0]));
    lemma_trimmed_start(none, word);
    assert(none + word =~= word);
    lemma_first_in_unique(word, CharSet::White, word.len() as int);
    assert(word.take(word.len() as int) =~= word);
    assert(word.skip(word.len() as int) =~= none);
    lemma_trimmed_blank(none);
    assert(seq![word] + words(none) =~= seq![word]);
}

/// The lines of a text, however many: each ends at a line feed, before which one carriage return
/// does not count, and the last may do without.
pub proof fn lemma_lines(line: Seq<char>, rest: Seq<char>)
    requires
        !line.contains('\n'),
    ensures
        lines(Seq::empty()) == Seq::<Seq<char>>::empty(),
        line.len() > 0 ==> lines(line) == seq![line],
        line.len() == 0 || line.last() != '\r' ==> lines(line + seq!['\n'] + rest) == seq![line]
            + lines(rest),
        lines(line + seq!['\r'] + seq!['\n'] + rest) == seq![line] + lines(rest),
{
    let feed = CharSet::Only('\n');
    assert forall|i: int| 0 <= i < line.len() implies !feed.has(#[trigger] line[i]) by {
        assert(line.contains(line[i]));
    }
    lemma_first_in_unique(line, feed, line.len() as int);
    lemma_line_ended(line, rest);
    let longer = line + seq!['\r'];
    assert forall|i: int| 0 <= i < longer.len() implies longer[i] != '\n' by {
        if i < line.len() {
            assert(longer[i] == line[i]);
        }
    }
    lemma_line_ended(longer, rest);
    assert(longer.drop_last() =~= line);
}

proof fn lemma_line_ended(line: Seq<char>, rest: Seq<char>)
    requires
        !line.contains('\n'),
    ensures
        lines(line + seq!['\n'] + rest) == seq![without_cr(line)] + lines(rest),
{
    let feed = CharSet::Only('\n');
    let s = line + seq!['\n'] + rest;
    let end = line.len() as int;
    assert forall|i: int| 0 <= i < end implies !feed.has(#[trigger] s[i]) by {
        assert(s[i] == line[i]);
        assert(line.contains(line[i]));
    }
    assert(s[end] == '\n');
    lemma_first_in_unique(s, feed, end);
    assert(s.take(end) =~= line);
    assert(s.skip(end + 1) =~= rest);
}

/// Two texts are the same but for case exactly where they are as long as each other and their
/// characters, one by one, are equal or the two cases of one ASCII letter.
pub proof fn lemma_lowered(a: Seq<char>, b: Seq<char>)
    ensures
        lowered(a) == lowered(b) <==> a.len() == b.len() && forall|i: int|
            #![trigger a[i]]
            #![trigger b[i]]
            0 <= i < a.len() ==> a[i] == b[i] || ('A' <= a[i] <= 'Z' && b[i] as u32 == a[i] as u32
                + 32) || ('A' <= b[i] <= 'Z' && a[i] as u32 == b[i] as u32 + 32),
{
    let same = a.len() == b.len() && forall|i: int|
        #![trigger a[i]]
        #![trigger b[i]]
        0 <= i < a.len() ==> a[i] == b[i] || ('A' <= a[i] <= 'Z' && b[i] as u32 == a[i] as u32 + 32)
            || ('A' <= b[i] <= 'Z' && a[i] as u32 == b[i] as u32 + 32);
    assert(lowered(a).len() == a.len() && lowered(b).len() == b.len());
    if lowered(a) == lowered(b) {
        assert forall|i: int|
            #![trigger a[i]]
            #![trigger b[i]]
            0 <= i < a.len() implies a[i] == b[i] || ('A' <= a[i] <= 'Z' && b[i] as u32 == a[i] as u32
            + 32) || ('A' <= b[i] <= 'Z' && a[i] as u32 == b[i] as u32 + 32) by {
            assert(lowered(a)[i] == ascii_lower(a[i]));
            assert(lowered(b)[i] == ascii_lower(b[i]));
            lemma_ascii_lower(a[i]);
            lemma_ascii_lower(b[i]);
        }
    }
    if same {
        assert forall|i: int| 0 <= i < a.len() implies lowered(a)[i] == lowered(b)[i] by {
            lemma_ascii_lower(a[i]);
            lemma_ascii_lower(b[i]);
            let x = a[i];
            let y = b[i];
            if x != y {
                if 'A' <= x <= 'Z' && y as u32 == x as u32 + 32 {
                    assert(ascii_lower(y) == y);
                } else {
                    assert(ascii_lower(x) == x);
                }
            }
        }
        assert(lowered(a) =~= lowered(b));
    }
}

/// An upper case ASCII letter stands 32 before its lower case; nothing else has another.
pub proof fn lemma_ascii_lower(c: char)
    ensures
        'A' <= c <= 'Z' ==> ascii_lower(c) as u32 == c as u32 + 32,
        !('A' <= c <= 'Z') ==> ascii_lower(c) == c,
{
}

/// It does not matter which of three parts are joined first.
pub proof fn lemma_joined(a: Seq<char>, b: Seq<char>, c: Seq<char>)
    ensures
        a + b + c == a + (b + c),
{
    assert(a + b + c =~= a + (b + c));
}

/// The lines of two texts, of which the first is empty or ends a line, are the lines of the first
/// and then those of the second.
pub proof fn lemma_lines_joined(before: Seq<char>, after: Seq<char>)
    requires
        before.len() == 0 || before.last() == '\n',
    ensures
        lines(before + after) == lines(before) + lines(after),
    decreases before.len(),
{
    if before.len() == 0 {
        assert(before + after =~= after);
        assert(lines(before) + lines(after) =~= lines(after));
    } else {
        let feed = CharSet::Only('\n');
        lemma_first_in(before, feed);
        let end = first_in(before, feed);
        if end == before.len() {
            assert(!feed.has(before[before.len() - 1]));
        }
        let line = before.take(end);
        let others = before.skip(end + 1);
        assert forall|i: int| 0 <= i < line.len() implies line[i] != '\n' by {
            assert(line[i] == before[i]);
        }
        assert(before =~= line + seq!['\n'] + others);
        assert(before + after =~= line + seq!['\n'] + (others + after));
        if others.len() > 0 {
            assert(others.last() == before.last());
        }
        lemma_line_ended(line, others);
        lemma_line_ended(line, others + after);
        lemma_lines_joined(others, after);
        assert(seq![without_cr(line)] + (lines(others) + lines(after)) =~= seq![without_cr(line)]
            + lines(others) + lines(after));
    }
}

} // verus!
