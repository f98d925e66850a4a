//! Processor temperature and load, out of what the kernel reports.

use crate::number;
use crate::text;
use vstd::prelude::*;

verus! {

/// Temperatures from here on, in thousandths of a degree, are taken for a broken sensor.
pub const TEMP_LIMIT: i32 = 150_000;

/// The temperature that a thermal zone reports, in thousandths of a degree, where it is positive
/// and below the limit.
pub open spec fn zone_temp(report: Seq<char>) -> Option<i32> {
    match number::i32_value(text::trimmed(report)) {
        Some(temp) if 0 < temp < TEMP_LIMIT => Some(temp),
        _ => None,
    }
}

/// Whether `hottest` is the highest temperature among the reports, or `None` where no report has
/// one.
pub open spec fn is_hottest(reports: Seq<String>, hottest: Option<i32>) -> bool {
    match hottest {
        Some(temp) => {
            &&& exists|i: int| 0 <= i < reports.len() && zone_temp((#[trigger] reports[i])@) == hottest
            &&& forall|i: int|
                0 <= i < reports.len() ==> (zone_temp((#[trigger] reports[i])@) matches Some(other)
                    ==> other <= temp)
        },
        None => forall|i: int|
            0 <= i < reports.len() ==> zone_temp((#[trigger] reports[i])@) is None,
    }
}

/// The reports decide which temperature is the highest.
pub proof fn lemma_hottest_is_one(reports: Seq<String>, a: Option<i32>, b: Option<i32>)
    requires
        is_hottest(reports, a),
        is_hottest(reports, b),
    ensures
        a == b,
{
    if let Some(temp) = a {
        let i = choose|i: int|
            0 <= i < reports.len() && zone_temp((#[trigger] reports[i])@) == a;
        assert(zone_temp(reports[i]@) == a);
        assert(b is Some);
    }
}

/// The temperature that a thermal zone reports.
fn read_zone(report: &str) -> (temp: Option<i32>)
    ensures
        temp == zone_temp(report@),
{
    match number::parse_i32(text::trim(report)) {
        Some(temp) if 0 < temp && temp < TEMP_LIMIT => Some(temp),
        _ => None,
    }
}

/// The highest temperature, in thousandths of a degree, among the reports of the thermal zones.
/// Reports that are no number, or out of range, are passed over.
pub fn read_cpu_temp(reports: &Vec<String>) -> (hottest: Option<i32>)
    ensures
        is_hottest(reports@, hottest),
        hottest matches Some(temp) ==> exists|i: int|
            0 <= i < reports@.len() && zone_temp((#[trigger] reports@[i])@) == Some(temp),
        forall|i: int|
            0 <= i < reports@.len() ==> (zone_temp((#[trigger] reports@[i])@) matches Some(temp)
                ==> hottest is Some && temp <= hottest->0),
{
    let mut hottest: Option<i32> = None;
    let mut n: usize = 0;
    while n < reports.len()
        invariant
            n <= reports@.len(),
            is_hottest(reports@.take(n as int), hottest),
        decreases reports@.len() - n,
    {
        let temp = read_zone(reports[n].as_str());
        let ghost before = reports@.take(n as int);
        let ghost now = reports@.take(n + 1);
        assert(now[n as int] == reports@[n as int]);
        assert(forall|i: int| 0 <= i < n ==> #[trigger] now[i] == before[i]);
        let ghost old_hottest = hottest;
        if let Some(t) = temp {
            hottest =
            match hottest {
                Some(h) if h >= t => Some(h),
                _ => Some(t),
            };
        }
        proof {
            if hottest is Some && hottest == old_hottest {
                let i = choose|i: int|
                    0 <= i < before.len() && zone_temp((#[trigger] before[i])@) == hottest;
                assert(zone_temp(now[i]@) == hottest);
            }
        }
        n = n + 1;
    }
    assert(reports@.take(n as int) =~= reports@);
    hottest
}

/// The numbers among the words, in order. Words that are no numbers are left out.
pub open spec fn numbers_in(words: Seq<Seq<char>>) -> Seq<u64>
    decreases words.len(),
{
    if words.len() == 0 {
        Seq::empty()
    } else {
        match number::u64_value(words.last()) {
            Some(n) => numbers_in(words.drop_last()).push(n),
            None => numbers_in(words.drop_last()),
        }
    }
}

/// The tick counters on the first line of the kernel's statistics, behind the name that the line
/// begins with. The fourth counts idle ticks.
pub open spec fn tick_counters(stat: Seq<char>) -> Seq<u64> {
    if text::lines(stat).len() == 0 || text::words(text::lines(stat)[0]).len() == 0 {
        Seq::empty()
    } else {
        numbers_in(text::words(text::lines(stat)[0]).skip(1))
    }
}

/// The sum of the counters.
pub open spec fn sum(counters: Seq<u64>) -> int
    decreases counters.len(),
{
    if counters.len() == 0 {
        0
    } else {
        sum(counters.drop_last()) + counters.last()
    }
}

/// Whether the counters that are read out of the statistics can be added up.
pub open spec fn ticks_fit(stat: Seq<char>) -> bool {
    tick_counters(stat).len() >= 4 ==> sum(tick_counters(stat)) <= u64::MAX
}

/// The ticks that have passed between two samples.
#[derive(Clone, Copy, PartialEq, Eq, Structural, Debug)]
pub enum CpuLoad {
    /// There was no sample before, or no tick has passed since.
    Unmeasured,
    /// `idle` ticks out of `total`, which is not zero. The load is the share of the others.
    Measured { idle: u64, total: u64 },
}

/// `a` less `b`, or zero where that is negative.
pub open spec fn less(a: u64, b: u64) -> u64 {
    if a >= b {
        (a - b) as u64
    } else {
        0
    }
}

/// The load since the sample `prev` of idle and total ticks.
pub open spec fn load_since(prev: Option<(u64, u64)>, idle: u64, total: u64) -> CpuLoad {
    match prev {
        Some((old_idle, old_total)) => if total > old_total {
            CpuLoad::Measured { idle: less(idle, old_idle), total: less(total, old_total) }
        } else {
            CpuLoad::Unmeasured
        },
        None => CpuLoad::Unmeasured,
    }
}

/// The idle and total ticks in the kernel's statistics.
pub open spec fn tick_sample(stat: Seq<char>) -> Option<(u64, u64)> {
    if tick_counters(stat).len() >= 4 {
        Some((tick_counters(stat)[3], sum(tick_counters(stat)) as u64))
    } else {
        None
    }
}

/// A part of the counters adds up to no more than all of them.
proof fn lemma_sum_grows(counters: Seq<u64>, n: int)
    requires
        0 <= n <= counters.len(),
    ensures
        0 <= sum(counters.take(n)) <= sum(counters),
    decreases counters.len(),
{
    if n == counters.len() {
        assert(counters.take(n) =~= counters);
        if n > 0 {
            lemma_sum_grows(counters.drop_last(), 0);
            lemma_sum_grows(counters.drop_last(), n - 1);
        }
    } else {
        assert(counters.drop_last().take(n) =~= counters.take(n));
        lemma_sum_grows(counters.drop_last(), n);
    }
}

/// The tick counters in the kernel's statistics.
fn read_counters(stat: &str) -> (counters: Vec<u64>)
    ensures
        counters@ == tick_counters(stat@),
{
    let mut counters: Vec<u64> = Vec::new();
    let line = match text::first_line(stat) {
        Some(line) => line,
        None => {
            return counters;
        },
    };
    let words = text::split_words(line);
    if words.len() == 0 {
        return counters;
    }
    let ghost all = text::words(line@);
    let ghost values = all.skip(1);
    let mut i: usize = 1;
    assert(values.take(0) =~= Seq::empty());
    while i < words.len()
        invariant
            text::views(words@) == all,
            values == all.skip(1),
            1 <= i <= words@.len(),
            counters@ == numbers_in(values.take(i - 1)),
        decreases words@.len() - i,
    {
        assert(all[i as int] == words@[i as int]@);
        assert(values.take(i as int).drop_last() =~= values.take(i - 1));
        if let Some(n) = number::parse_u64(words[i]) {
            counters.push(n);
        }
        i = i + 1;
    }
    assert(values.take(i - 1) =~= values);
    counters
}

/// The sum of the counters, where it fits.
fn add_up(counters: &Vec<u64>) -> (total: Option<u64>)
    ensures
        match total {
            Some(total) => total == sum(counters@),
            None => sum(counters@) > u64::MAX,
        },
{
    let mut total: u64 = 0;
    let mut i: usize = 0;
    while i < counters.len()
        invariant
            i <= counters@.len(),
            total == sum(counters@.take(i as int)),
        decreases counters@.len() - i,
    {
        assert(counters@.take(i + 1).drop_last() =~= counters@.take(i as int));
        match total.checked_add(counters[i]) {
            Some(more) => {
                total = more;
            },
            None => {
                proof {
                    lemma_sum_grows(counters@, i + 1);
                }
                return None;
            },
        }
        i = i + 1;
    }
    assert(counters@.take(i as int) =~= counters@);
    Some(total)
}

/// Whether the tick counters in the kernel's statistics can be added up.
pub fn counters_fit(stat: &str) -> (fit: bool)
    ensures
        fit == ticks_fit(stat@),
{
    let counters = read_counters(stat);
    counters.len() < 4 || add_up(&counters).is_some()
}

/// The load since the sample in `prev`, out of the kernel's statistics, which become the next
/// sample. Statistics with fewer than four counters give nothing and leave the sample alone.
pub fn read_cpu_usage(prev: &mut Option<(u64, u64)>, stat: &str) -> (load: Option<CpuLoad>)
    requires
        ticks_fit(stat@),
    ensures
        match tick_sample(stat@) {
            Some((idle, total)) => load == Some(load_since(*old(prev), idle, total)) && *final(prev)
                == Some((idle, total)),
            None => load is None && *final(prev) == *old(prev),
        },
        load is None <==> tick_sample(stat@) is None,
        load is Some ==> *final(prev) == tick_sample(stat@),
        load == Some(CpuLoad::Unmeasured) ==> (*old(prev) matches Some((_, before)) ==> (
        *final(prev) matches Some((_, now)) ==> now <= before)),
        load matches Some(CpuLoad::Measured { idle, total }) ==> (*old(prev) matches Some(
            (idle_before, before),
        ) && *final(prev) matches Some((idle_now, now)) && total > 0 && total == now - before && (
        idle == idle_now - idle_before || (idle == 0 && idle_now < idle_before))),
{
    let counters = read_counters(stat);
    if counters.len() < 4 {
        return None;
    }
    let idle = counters[3];
    let total = add_up(&counters)?;
    let load = match *prev {
        Some((old_idle, old_total)) => {
            let idle_passed = idle.saturating_sub(old_idle);
            let passed = total.saturating_sub(old_total);
            if passed > 0 {
                CpuLoad::Measured { idle: idle_passed, total: passed }
            } else {
                CpuLoad::Unmeasured
            }
        },
        None => CpuLoad::Unmeasured,
    };
    *prev = Some((idle, total));
    Some(load)
}

/// Where no counter has gone back between two samples, no more idle ticks have passed than ticks
/// in all: the load lies between nothing and everything.
pub proof fn lemma_load_is_a_share(before: Seq<char>, now: Seq<char>)
    requires
        ticks_fit(before),
        ticks_fit(now),
        tick_counters(before).len() >= 4,
        tick_counters(before).len() == tick_counters(now).len(),
        forall|i: int|
            0 <= i < tick_counters(now).len() ==> tick_counters(before)[i] <= #[trigger] tick_counters(
                now,
            )[i],
    ensures
        tick_sample(now) matches Some((idle, total)) && (load_since(
            tick_sample(before),
            idle,
            total,
        ) matches CpuLoad::Measured { idle, total } ==> 0 < total && idle <= total),
{
    lemma_sums_apart(tick_counters(before), tick_counters(now), 3);
    lemma_sum_grows(tick_counters(before), 0);
    lemma_sum_grows(tick_counters(now), 0);
}

/// Where no counter is smaller, the sum has grown by at least as much as any one of them.
proof fn lemma_sums_apart(a: Seq<u64>, b: Seq<u64>, k: int)
    requires
        a.len() == b.len(),
        forall|i: int| 0 <= i < b.len() ==> a[i] <= #[trigger] b[i],
    ensures
        sum(a) <= sum(b),
        0 <= k < a.len() ==> b[k] - a[k] <= sum(b) - sum(a),
    decreases a.len(),
{
    if a.len() > 0 {
        lemma_sums_apart(a.drop_last(), b.drop_last(), k);
        assert(a[a.len() - 1] <= b[b.len() - 1]);
    }
}

/// Two samples of the same statistics measure no load.
pub proof fn lemma_no_load_without_ticks(stat: Seq<char>)
    requires
        ticks_fit(stat),
    ensures
        tick_sample(stat) matches Some((idle, total)) ==> load_since(
            tick_sample(stat),
            idle,
            total,
        ) == CpuLoad::Unmeasured,
{
}

/// A thermal zone's report is a number with white space around it, and the number is taken where
/// it lies between nothing and 150 degrees, the two excluded.
pub proof fn lemma_zone_report(lead: Seq<char>, core: Seq<char>, trail: Seq<char>)
    requires
        forall|i: int| 0 <= i < lead.len() ==> text::is_white(#[trigger] lead[i]),
        core.len() > 0 ==> !text::is_white(core[0]) && !text::is_white(core.last()),
        forall|i: int| 0 <= i < trail.len() ==> text::is_white(#[trigger] trail[i]),
    ensures
        zone_temp(lead + core + trail) == match number::i32_value(core) {
            Some(temp) if 0 < temp < 150_000 => Some(temp),
            _ => None,
        },
{
    if core.len() > 0 {
        text::lemma_trimmed(lead, core, trail);
    } else {
        let s = lead + core + trail;
        assert forall|i: int| 0 <= i < s.len() implies text::is_white(#[trigger] s[i]) by {
            if i < lead.len() {
                assert(s[i] == lead[i]);
            } else {
                assert(s[i] == trail[i - lead.len()]);
            }
        }
        text::lemma_trimmed_blank(s);
        assert(core =~= Seq::<char>::empty());
    }
}

/// Every temperature from one thousandth of a degree to just below 150 degrees is read back from
/// its digits and a line feed, and no other is.
pub proof fn lemma_written_temp(n: nat)
    ensures
        zone_temp(number::numeral(n) + seq!['\n']) == if 0 < n < 150_000 {
            Some(n as i32)
        } else {
            None
        },
        zone_temp(seq!['-'] + number::numeral(n) + seq!['\n']) is None,
{
    let none = Seq::<char>::empty();
    let digits = number::numeral(n);
    let signed = seq!['-'] + digits;
    number::lemma_numeral_read_back(n);
    assert('0' <= digits[0] <= '9' && '0' <= digits[digits.len() - 1] <= '9');
    assert(signed.last() == digits[digits.len() - 1]);
    assert(none + digits + seq!['\n'] =~= digits + seq!['\n']);
    assert(none + signed + seq!['\n'] =~= signed + seq!['\n']);
    lemma_zone_report(none, digits, seq!['\n']);
    lemma_zone_report(none, signed, seq!['\n']);
}

/// The samples are those of the numbers behind the first word of the first line: the fourth of
/// them and the sum of them all, however many there are. Words that are no numbers do not count,
/// and with fewer than four numbers there is no sample.
pub proof fn lemma_sample(stat: Seq<char>, name: Seq<char>, behind: Seq<Seq<char>>)
    requires
        text::lines(stat).len() > 0,
        text::words(text::lines(stat)[0]) == seq![name] + behind,
    ensures
        ({
            let counters = behind.filter(|word: Seq<char>| number::u64_value(word) is Some).map_values(
                |word: Seq<char>| number::u64_value(word)->0,
            );
            let total = counters.fold_left(0int, |total: int, n: u64| total + n);
            &&& ticks_fit(stat) <==> counters.len() < 4 || total <= u64::MAX
            &&& counters.len() < 4 ==> tick_sample(stat) is None
            &&& counters.len() >= 4 && total <= u64::MAX ==> tick_sample(stat) == Some(
                (counters[3], total as u64),
            )
        }),
{
    assert((seq![name] + behind).skip(1) =~= behind);
    lemma_numbers_filtered(behind);
    lemma_sum_folded(numbers_in(behind));
}

/// Without a first line, or with a blank one, there is no sample.
pub proof fn lemma_no_sample(stat: Seq<char>)
    requires
        text::lines(stat).len() == 0 || text::words(text::lines(stat)[0]).len() == 0,
    ensures
        tick_sample(stat) is None,
        ticks_fit(stat),
{
}

proof fn lemma_numbers_filtered(words: Seq<Seq<char>>)
    ensures
        numbers_in(words) == words.filter(
            |word: Seq<char>| number::u64_value(word) is Some,
        ).map_values(|word: Seq<char>| number::u64_value(word)->0),
    decreases words.len(),
{
    reveal(Seq::filter);
    let counts = |word: Seq<char>| number::u64_value(word) is Some;
    let value = |word: Seq<char>| number::u64_value(word)->0;
    if words.len() > 0 {
        lemma_numbers_filtered(words.drop_last());
        let before = words.drop_last().filter(counts);
        assert(before.push(words.last()).map_values(value) =~= before.map_values(value).push(
            value(words.last()),
        ));
    } else {
        assert(words.filter(counts).map_values(value) =~= numbers_in(words));
    }
}

proof fn lemma_sum_folded(counters: Seq<u64>)
    ensures
        sum(counters) == counters.fold_left(0int, |total: int, n: u64| total + n),
    decreases counters.len(),
{
    if counters.len() > 0 {
        lemma_sum_folded(counters.drop_last());
    }
}

/// The counters as the kernel writes them, each behind a space.
pub open spec fn written_counters(counters: Seq<u64>) -> Seq<char>
    decreases counters.len(),
{
    if counters.len() == 0 {
        Seq::empty()
    } else {
        seq![' '] + (number::numeral(counters[0] as nat) + written_counters(counters.drop_first()))
    }
}

/// Out of a first line of a name and counters, whatever follows it, a sample takes the fourth
/// counter for the idle ticks and the sum of all of them for the total, however many they are;
/// fewer than four give no sample.
pub proof fn lemma_written_sample(name: Seq<char>, counters: Seq<u64>, more: Seq<char>)
    requires
        name.len() > 0,
        forall|i: int| 0 <= i < name.len() ==> !text::is_white(#[trigger] name[i]),
    ensures
        ({
            let stat = name + written_counters(counters) + seq!['\n'] + more;
            let total = counters.fold_left(0int, |total: int, n: u64| total + n);
            &&& ticks_fit(stat) <==> counters.len() < 4 || total <= u64::MAX
            &&& counters.len() < 4 ==> tick_sample(stat) is None
            &&& counters.len() >= 4 && total <= u64::MAX ==> tick_sample(stat) == Some(
                (counters[3], total as u64),
            )
        }),
{
    let line = name + written_counters(counters);
    let stat = line + seq!['\n'] + more;
    lemma_written_words(name, counters);
    lemma_written_chars(name, counters);
    text::lemma_lines(line, more);
    assert(text::lines(stat)[0] == line);
    let numerals = counters.map_values(|n: u64| number::numeral(n as nat));
    assert((seq![name] + numerals).skip(1) =~= numerals);
    lemma_numbers_written(counters);
    lemma_sum_folded(counters);
}

proof fn lemma_written_words(name: Seq<char>, counters: Seq<u64>)
    requires
        name.len() > 0,
        forall|i: int| 0 <= i < name.len() ==> !text::is_white(#[trigger] name[i]),
    ensures
        text::words(name + written_counters(counters)) == seq![name] + counters.map_values(
            |n: u64| number::numeral(n as nat),
        ),
    decreases counters.len(),
{
    let line = name + written_counters(counters);
    let numerals = counters.map_values(|n: u64| number::numeral(n as nat));
    if counters.len() == 0 {
        assert(line =~= name);
        text::lemma_words_end(name);
        assert(seq![name] + numerals =~= seq![name]);
    } else {
        let first = number::numeral(counters[0] as nat);
        let others = counters.drop_first();
        let rest = first + written_counters(others);
        number::lemma_numeral_read_back(counters[0] as nat);
        assert forall|i: int| 0 <= i < first.len() implies !text::is_white(#[trigger] first[i]) by {
            assert('0' <= first[i] <= '9');
        }
        lemma_written_words(first, others);
        text::lemma_joined(name, seq![' '], rest);
        text::lemma_words(name, ' ', rest);
        assert(seq![first] + others.map_values(|n: u64| number::numeral(n as nat)) =~= numerals);
    }
}

proof fn lemma_written_chars(name: Seq<char>, counters: Seq<u64>)
    requires
        name.len() > 0,
        forall|i: int| 0 <= i < name.len() ==> !text::is_white(#[trigger] name[i]),
    ensures
        !(name + written_counters(counters)).contains('\n'),
        (name + written_counters(counters)).last() != '\r',
    decreases counters.len(),
{
    let line = name + written_counters(counters);
    if counters.len() == 0 {
        assert(line =~= name);
        assert forall|i: int| 0 <= i < line.len() implies line[i] != '\n' by {
            assert(!text::is_white(name[i]));
        }
        assert(!text::is_white(name[name.len() - 1]));
    } else {
        let first = number::numeral(counters[0] as nat);
        let others = counters.drop_first();
        let rest = first + written_counters(others);
        number::lemma_numeral_read_back(counters[0] as nat);
        assert forall|i: int| 0 <= i < first.len() implies !text::is_white(#[trigger] first[i]) by {
            assert('0' <= first[i] <= '9');
        }
        lemma_written_chars(first, others);
        assert(line =~= name + seq![' '] + rest);
        assert forall|i: int| 0 <= i < line.len() implies line[i] != '\n' by {
            if i < name.len() {
                assert(!text::is_white(name[i]));
            } else if i > name.len() {
                assert(line[i] == rest[i - name.len() - 1]);
                assert(rest.contains(rest[i - name.len() - 1]));
            }
        }
        assert(line.last() == rest.last());
    }
}

proof fn lemma_numbers_written(counters: Seq<u64>)
    ensures
        numbers_in(counters.map_values(|n: u64| number::numeral(n as nat))) == counters,
    decreases counters.len(),
{
    let numerals = counters.map_values(|n: u64| number::numeral(n as nat));
    if counters.len() > 0 {
        let shorter = counters.drop_last();
        lemma_numbers_written(shorter);
        assert(numerals.drop_last() =~= shorter.map_values(|n: u64| number::numeral(n as nat)));
        number::lemma_numeral_read_back(counters.last() as nat);
        assert(shorter.push(counters.last()) =~= counters);
    } else {
        assert(numbers_in(numerals) =~= counters);
    }
}

/// The load between two samples is that of the ticks by which the two have moved on; idle ticks
/// that have gone back count as none, and nothing is measured without a sample before or without
/// further ticks.
pub proof fn lemma_load_since(idle_before: u64, before: u64, idle: u64, total: u64)
    ensures
        load_since(None, idle, total) == CpuLoad::Unmeasured,
        total <= before ==> load_since(Some((idle_before, before)), idle, total)
            == CpuLoad::Unmeasured,
        total > before && idle >= idle_before ==> load_since(
            Some((idle_before, before)),
            idle,
            total,
        ) == (CpuLoad::Measured {
            idle: (idle - idle_before) as u64,
            total: (total - before) as u64,
        }),
        total > before && idle < idle_before ==> load_since(
            Some((idle_before, before)),
            idle,
            total,
        ) == (CpuLoad::Measured { idle: 0, total: (total - before) as u64 }),
{
}

/// Between two readings of which only the fourth counter differs, all ticks were idle; between two
/// that agree in the fourth counter, and of which the second has the larger sum, none was.
pub proof fn lemma_load_between(
    name: Seq<char>,
    before: Seq<u64>,
    now: Seq<u64>,
    more_before: Seq<char>,
    more_now: Seq<char>,
)
    requires
        name.len() > 0,
        forall|i: int| 0 <= i < name.len() ==> !text::is_white(#[trigger] name[i]),
        before.len() >= 4,
        now.len() >= 4,
        before.fold_left(0int, |total: int, n: u64| total + n) <= u64::MAX,
        now.fold_left(0int, |total: int, n: u64| total + n) <= u64::MAX,
    ensures
        ({
            let first = name + written_counters(before) + seq!['\n'] + more_before;
            let second = name + written_counters(now) + seq!['\n'] + more_now;
            let load = match tick_sample(second) {
                Some((idle, total)) => load_since(tick_sample(first), idle, total),
                None => CpuLoad::Unmeasured,
            };
            &&& tick_sample(first) is Some && tick_sample(second) is Some
            &&& now == before.update(3, now[3]) && now[3] > before[3] ==> load == (
            CpuLoad::Measured {
                idle: (now[3] - before[3]) as u64,
                total: (now[3] - before[3]) as u64,
            })
            &&& now[3] == before[3] && now.fold_left(0int, |total: int, n: u64| total + n)
                > before.fold_left(0int, |total: int, n: u64| total + n) ==> (load matches
                CpuLoad::Measured { idle, total } && idle == 0 && total == now.fold_left(
                0int,
                |total: int, n: u64| total + n,
            ) - before.fold_left(0int, |total: int, n: u64| total + n))
        }),
{
    lemma_written_sample(name, before, more_before);
    lemma_written_sample(name, now, more_now);
    lemma_sum_folded(before);
    lemma_sum_folded(now);
    if now == before.update(3, now[3]) {
        lemma_sum_updated(before, 3, now[3]);
    }
    lemma_sum_grows(before, 0);
    lemma_sum_grows(now, 0);
}

proof fn lemma_sum_updated(counters: Seq<u64>, k: int, n: u64)
    requires
        0 <= k < counters.len(),
    ensures
        sum(counters.update(k, n)) == sum(counters) - counters[k] + n,
    decreases counters.len(),
{
    let updated = counters.update(k, n);
    if k == counters.len() - 1 {
        assert(updated.drop_last() =~= counters.drop_last());
    } else {
        assert(updated.drop_last() =~= counters.drop_last().update(k, n));
        lemma_sum_updated(counters.drop_last(), k, n);
    }
}

} // verus!
