//! Memory in use, out of what the kernel reports.

use crate::number;
use crate::text;
use vstd::prelude::*;

verus! {

/// The amount at the start of `s`: its first word, where that is a number.
pub open spec fn amount(s: Seq<char>) -> Option<u64> {
    if text::words(s).len() > 0 {
        number::u64_value(text::words(s)[0])
    } else {
        None
    }
}

/// The amount behind `name` on the last line that begins with it.
pub open spec fn field(lines: Seq<Seq<char>>, name: Seq<char>) -> Option<u64>
    decreases lines.len(),
{
    if lines.len() == 0 {
        None
    } else if text::has_prefix(lines.last(), name) {
        amount(lines.last().skip(name.len() as int))
    } else {
        field(lines.drop_last(), name)
    }
}

/// Amounts of memory, in one unit. The share in use is one less the available part of the total.
#[derive(Clone, Copy, PartialEq, Eq, Structural, Debug)]
pub struct MemUsage {
    pub total: u64,
    pub available: u64,
}

/// The total and the available memory that the kernel reports, where it reports both.
pub open spec fn mem_usage(meminfo: Seq<char>) -> Option<MemUsage> {
    match (
        field(text::lines(meminfo), "MemTotal:"@),
        field(text::lines(meminfo), "MemAvailable:"@),
    ) {
        (Some(total), Some(available)) => Some(MemUsage { total, available }),
        _ => None,
    }
}

/// The amount at the start of `s`.
fn read_amount(s: &str) -> (value: Option<u64>)
    ensures
        value == amount(s@),
{
    let words = text::split_words(s);
    if words.len() == 0 {
        None
    } else {
        assert(text::views(words@)[0] == words@[0]@);
        number::parse_u64(words[0])
    }
}

/// No line begins with both names.
proof fn lemma_names_differ(line: Seq<char>)
    ensures
        !(text::has_prefix(line, "MemTotal:"@) && text::has_prefix(line, "MemAvailable:"@)),
{
    reveal_strlit("MemTotal:");
    reveal_strlit("MemAvailable:");
    if text::has_prefix(line, "MemTotal:"@) && text::has_prefix(line, "MemAvailable:"@) {
        assert(line.take("MemTotal:"@.len() as int)[3] == line[3]);
        assert(line.take("MemAvailable:"@.len() as int)[3] == line[3]);
    }
}

/// The total and the available memory that the kernel reports.
pub fn read_mem_usage(meminfo: &str) -> (usage: Option<MemUsage>)
    ensures
        usage == mem_usage(meminfo@),
{
    let lines = text::split_lines(meminfo);
    let ghost all = text::lines(meminfo@);
    let mut total: Option<u64> = None;
    let mut available: Option<u64> = None;
    let mut i: usize = 0;
    while i < lines.len()
        invariant
            text::views(lines@) == all,
            i <= lines@.len(),
            total == field(all.take(i as int), "MemTotal:"@),
            available == field(all.take(i as int), "MemAvailable:"@),
        decreases lines@.len() - i,
    {
        let line = lines[i];
        assert(all[i as int] == line@);
        assert(all.take(i + 1).drop_last() =~= all.take(i as int));
        assert(all.take(i + 1).last() == line@);
        proof {
            lemma_names_differ(line@);
        }
        if let Some(rest) = text::strip_prefix(line, "MemTotal:") {
            total = read_amount(rest);
        } else if let Some(rest) = text::strip_prefix(line, "MemAvailable:") {
            available = read_amount(rest);
        }
        i = i + 1;
    }
    assert(all.take(i as int) =~= all);
    Some(MemUsage { total: total?, available: available? })
}

/// An amount is the first word, whatever white space stands before it and whatever follows it
/// behind further white space; there is none where there is no word.
pub proof fn lemma_amount(blank: Seq<char>, word: Seq<char>, rest: Seq<char>)
    requires
        forall|i: int| 0 <= i < blank.len() ==> text::is_white(#[trigger] blank[i]),
        forall|i: int| 0 <= i < word.len() ==> !text::is_white(#[trigger] word[i]),
        rest.len() == 0 || (word.len() > 0 && text::is_white(rest[0])),
    ensures
        word.len() > 0 ==> amount(blank + word + rest) == number::u64_value(word),
        word.len() == 0 ==> amount(blank + word + rest) is None,
    decreases blank.len(),
{
    let s = blank + word + rest;
    if word.len() == 0 {
        assert(s =~= blank);
        text::lemma_trimmed_blank(blank);
    } else if blank.len() > 0 {
        let c = blank[0];
        let others = blank.drop_first();
        assert(text::is_white(c));
        assert forall|i: int| 0 <= i < others.len() implies text::is_white(#[trigger] others[i]) by {
            assert(others[i] == blank[i + 1]);
        }
        lemma_amount(others, word, rest);
        assert(s =~= seq![c] + (others + word + rest));
        text::lemma_words_lead(c, others + word + rest);
    } else if rest.len() == 0 {
        assert(s =~= word);
        text::lemma_words(word, ' ', rest);
    } else {
        let more = rest.drop_first();
        assert(s =~= word + seq![rest[0]] + more);
        text::lemma_words(word, rest[0], more);
    }
}

/// The memory in use is what the last line that begins with `MemTotal:` and the last line that
/// begins with `MemAvailable:` say behind those names, whatever the other lines are.
pub proof fn lemma_mem_usage(
    meminfo: Seq<char>,
    i: int,
    total: Seq<char>,
    j: int,
    available: Seq<char>,
)
    requires
        0 <= i < text::lines(meminfo).len(),
        text::lines(meminfo)[i] == "MemTotal:"@ + total,
        forall|k: int|
            i < k < text::lines(meminfo).len() ==> !text::has_prefix(
                #[trigger] text::lines(meminfo)[k],
                "MemTotal:"@,
            ),
        0 <= j < text::lines(meminfo).len(),
        text::lines(meminfo)[j] == "MemAvailable:"@ + available,
        forall|k: int|
            j < k < text::lines(meminfo).len() ==> !text::has_prefix(
                #[trigger] text::lines(meminfo)[k],
                "MemAvailable:"@,
            ),
    ensures
        mem_usage(meminfo) == match (amount(total), amount(available)) {
            (Some(total), Some(available)) => Some(MemUsage { total, available }),
            _ => None,
        },
{
    lemma_field_last(text::lines(meminfo), "MemTotal:"@, i, total);
    lemma_field_last(text::lines(meminfo), "MemAvailable:"@, j, available);
}

/// Where one of the two names begins no line, the memory in use is not known.
pub proof fn lemma_mem_unknown(meminfo: Seq<char>)
    requires
        (forall|k: int|
            0 <= k < text::lines(meminfo).len() ==> !text::has_prefix(
                #[trigger] text::lines(meminfo)[k],
                "MemTotal:"@,
            )) || (forall|k: int|
            0 <= k < text::lines(meminfo).len() ==> !text::has_prefix(
                #[trigger] text::lines(meminfo)[k],
                "MemAvailable:"@,
            )),
    ensures
        mem_usage(meminfo) is None,
{
    let all = text::lines(meminfo);
    if forall|k: int|
        0 <= k < all.len() ==> !text::has_prefix(#[trigger] all[k], "MemTotal:"@) {
        lemma_field_missing(all, "MemTotal:"@);
    } else {
        lemma_field_missing(all, "MemAvailable:"@);
    }
}

/// Amounts written in digits behind the two names are read back, in a report in which each name
/// begins one line, at whatever places and among whatever other lines; a unit may follow.
pub proof fn lemma_written_memory(
    meminfo: Seq<char>,
    i: int,
    blank_total: Seq<char>,
    total: u64,
    unit_total: Seq<char>,
    j: int,
    blank_available: Seq<char>,
    available: u64,
    unit_available: Seq<char>,
)
    requires
        0 <= i < text::lines(meminfo).len(),
        text::lines(meminfo)[i] == "MemTotal:"@ + (blank_total + number::numeral(total as nat)
            + unit_total),
        forall|k: int|
            0 <= k < text::lines(meminfo).len() && k != i ==> !text::has_prefix(
                #[trigger] text::lines(meminfo)[k],
                "MemTotal:"@,
            ),
        0 <= j < text::lines(meminfo).len(),
        text::lines(meminfo)[j] == "MemAvailable:"@ + (blank_available + number::numeral(
            available as nat,
        ) + unit_available),
        forall|k: int|
            0 <= k < text::lines(meminfo).len() && k != j ==> !text::has_prefix(
                #[trigger] text::lines(meminfo)[k],
                "MemAvailable:"@,
            ),
        forall|k: int| 0 <= k < blank_total.len() ==> text::is_white(#[trigger] blank_total[k]),
        forall|k: int|
            0 <= k < blank_available.len() ==> text::is_white(#[trigger] blank_available[k]),
        unit_total.len() == 0 || text::is_white(unit_total[0]),
        unit_available.len() == 0 || text::is_white(unit_available[0]),
    ensures
        mem_usage(meminfo) == Some(MemUsage { total, available }),
{
    lemma_written_amount(blank_total, total, unit_total);
    lemma_written_amount(blank_available, available, unit_available);
    lemma_mem_usage(
        meminfo,
        i,
        blank_total + number::numeral(total as nat) + unit_total,
        j,
        blank_available + number::numeral(available as nat) + unit_available,
    );
}

proof fn lemma_written_amount(blank: Seq<char>, n: u64, unit: Seq<char>)
    requires
        forall|k: int| 0 <= k < blank.len() ==> text::is_white(#[trigger] blank[k]),
        unit.len() == 0 || text::is_white(unit[0]),
    ensures
        amount(blank + number::numeral(n as nat) + unit) == Some(n),
{
    let digits = number::numeral(n as nat);
    number::lemma_numeral_read_back(n as nat);
    assert forall|k: int| 0 <= k < digits.len() implies !text::is_white(#[trigger] digits[k]) by {
        assert('0' <= digits[k] <= '9');
    }
    lemma_amount(blank, digits, unit);
}

/// A line that begins with neither name can be put in or taken out anywhere without a change in
/// what is read.
pub proof fn lemma_other_lines_do_not_count(before: Seq<char>, line: Seq<char>, after: Seq<char>)
    requires
        before.len() == 0 || before.last() == '\n',
        !line.contains('\n'),
        !text::has_prefix(line, "MemTotal:"@),
        !text::has_prefix(line, "MemAvailable:"@),
    ensures
        mem_usage(before + (line + seq!['\n'] + after)) == mem_usage(before + after),
{
    let first = text::lines(before);
    let others = text::lines(after);
    text::lemma_lines_joined(before, after);
    text::lemma_lines_joined(before, line + seq!['\n'] + after);
    let kept = if line.len() > 0 && line.last() == '\r' {
        line.drop_last()
    } else {
        line
    };
    if kept.len() < line.len() {
        assert forall|i: int| 0 <= i < kept.len() implies kept[i] != '\n' by {
            assert(line.contains(line[i]));
        }
        assert(line =~= kept + seq!['\r']);
        text::lemma_lines(kept, after);
    } else {
        text::lemma_lines(line, after);
    }
    assert(kept =~= line.take(kept.len() as int));
    lemma_prefix_kept(line, kept, "MemTotal:"@);
    lemma_prefix_kept(line, kept, "MemAvailable:"@);
    let all = first + (seq![kept] + others);
    lemma_field_without(all, first.len() as int, "MemTotal:"@);
    lemma_field_without(all, first.len() as int, "MemAvailable:"@);
    assert(all.remove(first.len() as int) =~= first + others);
}

proof fn lemma_prefix_kept(line: Seq<char>, kept: Seq<char>, name: Seq<char>)
    requires
        kept.len() <= line.len(),
        kept == line.take(kept.len() as int),
        !text::has_prefix(line, name),
    ensures
        !text::has_prefix(kept, name),
{
    if text::has_prefix(kept, name) {
        assert(kept.take(name.len() as int) =~= line.take(name.len() as int));
    }
}

proof fn lemma_field_last(lines: Seq<Seq<char>>, name: Seq<char>, i: int, behind: Seq<char>)
    requires
        0 <= i < lines.len(),
        lines[i] == name + behind,
        forall|k: int| i < k < lines.len() ==> !text::has_prefix(#[trigger] lines[k], name),
    ensures
        field(lines, name) == amount(behind),
    decreases lines.len(),
{
    if i == lines.len() - 1 {
        text::lemma_prefix(lines[i], name);
    } else {
        assert(!text::has_prefix(lines[lines.len() - 1], name));
        let shorter = lines.drop_last();
        assert forall|k: int| i < k < shorter.len() implies !text::has_prefix(
            #[trigger] shorter[k],
            name,
        ) by {
            assert(shorter[k] == lines[k]);
        }
        lemma_field_last(shorter, name, i, behind);
    }
}

proof fn lemma_field_missing(lines: Seq<Seq<char>>, name: Seq<char>)
    requires
        forall|k: int| 0 <= k < lines.len() ==> !text::has_prefix(#[trigger] lines[k], name),
    ensures
        field(lines, name) is None,
    decreases lines.len(),
{
    if lines.len() > 0 {
        assert(!text::has_prefix(lines[lines.len() - 1], name));
        let shorter = lines.drop_last();
        assert forall|k: int| 0 <= k < shorter.len() implies !text::has_prefix(
            #[trigger] shorter[k],
            name,
        ) by {
            assert(shorter[k] == lines[k]);
        }
        lemma_field_missing(shorter, name);
    }
}

proof fn lemma_field_without(lines: Seq<Seq<char>>, k: int, name: Seq<char>)
    requires
        0 <= k < lines.len(),
        !text::has_prefix(lines[k], name),
    ensures
        field(lines, name) == field(lines.remove(k), name),
    decreases lines.len(),
{
    let fewer = lines.remove(k);
    if k == lines.len() - 1 {
        assert(fewer =~= lines.drop_last());
    } else {
        assert(fewer.last() == lines.last());
        lemma_field_without(lines.drop_last(), k, name);
        assert(fewer.drop_last() =~= lines.drop_last().remove(k));
    }
}

} // verus!
