//! Load of the graphics processor, from whichever vendor's interface answers.

use crate::invocation::Invocation;
use crate::number;
use crate::text;
use crate::utf8;
use vstd::prelude::*;

verus! {

/// The vendors whose interfaces are probed.
#[derive(Clone, Copy, PartialEq, Eq, Structural, Debug)]
pub enum GpuVendor {
    Nvidia,
    Amd,
    Intel,
}

/// How far the search for a graphics processor has come.
#[derive(Clone, Copy, PartialEq, Eq, Structural, Debug)]
pub enum GpuSearch {
    /// This vendor's interface is the one to probe.
    Probe(GpuVendor),
    /// This vendor's interface has answered, and no other is probed.
    Found(GpuVendor),
    /// No interface has answered.
    Absent,
}

impl GpuSearch {
    /// The state after the interface to probe has or has not answered.
    pub open spec fn after(self, answered: bool) -> GpuSearch {
        match self {
            GpuSearch::Probe(vendor) => if answered {
                GpuSearch::Found(vendor)
            } else {
                match vendor {
                    GpuVendor::Nvidia => GpuSearch::Probe(GpuVendor::Amd),
                    GpuVendor::Amd => GpuSearch::Probe(GpuVendor::Intel),
                    GpuVendor::Intel => GpuSearch::Absent,
                }
            },
            _ => self,
        }
    }

    /// The state before any probe: NVIDIA comes first.
    pub fn start() -> (search: GpuSearch)
        ensures
            search == GpuSearch::Probe(GpuVendor::Nvidia),
    {
        GpuSearch::Probe(GpuVendor::Nvidia)
    }

    /// The state after the interface to probe has or has not answered: an answer ends the search,
    /// and otherwise AMD follows NVIDIA and Intel follows AMD.
    pub fn next(self, answered: bool) -> (search: GpuSearch)
        ensures
            search == self.after(answered),
            self !is Probe ==> search == self,
            self matches GpuSearch::Probe(vendor) ==> (answered ==> search == GpuSearch::Found(
                vendor,
            )),
            self == GpuSearch::Probe(GpuVendor::Nvidia) && !answered ==> search == GpuSearch::Probe(
                GpuVendor::Amd,
            ),
            self == GpuSearch::Probe(GpuVendor::Amd) && !answered ==> search == GpuSearch::Probe(
                GpuVendor::Intel,
            ),
            self == GpuSearch::Probe(GpuVendor::Intel) && !answered ==> search == GpuSearch::Absent,
    {
        match self {
            GpuSearch::Probe(vendor) => if answered {
                GpuSearch::Found(vendor)
            } else {
                match vendor {
                    GpuVendor::Nvidia => GpuSearch::Probe(GpuVendor::Amd),
                    GpuVendor::Amd => GpuSearch::Probe(GpuVendor::Intel),
                    GpuVendor::Intel => GpuSearch::Absent,
                }
            },
            _ => self,
        }
    }
}

/// The state in which a search ends, given which interfaces would answer.
pub open spec fn search_end(nvidia: bool, amd: bool, intel: bool) -> GpuSearch {
    let first = GpuSearch::Probe(GpuVendor::Nvidia).after(nvidia);
    let second = if first is Probe {
        first.after(amd)
    } else {
        first
    };
    if second is Probe {
        second.after(intel)
    } else {
        second
    }
}

/// A search finds the first vendor that answers, NVIDIA before AMD before Intel, and none only
/// where none answers; the reported name follows.
pub proof fn lemma_search_order(nvidia: bool, amd: bool, intel: bool)
    ensures
        gpu_label(search_end(nvidia, amd, intel)) == if nvidia {
            "NVIDIA"@
        } else if amd {
            "AMD"@
        } else if intel {
            "Intel"@
        } else {
            "necunoscut (0%)"@
        },
        search_end(nvidia, amd, intel) == if nvidia {
            GpuSearch::Found(GpuVendor::Nvidia)
        } else if amd {
            GpuSearch::Found(GpuVendor::Amd)
        } else if intel {
            GpuSearch::Found(GpuVendor::Intel)
        } else {
            GpuSearch::Absent
        },
{
}

/// A search that has ended stays as it is, so nothing is probed behind an answer.
pub proof fn lemma_search_settled(search: GpuSearch, answered: bool)
    requires
        search !is Probe,
    ensures
        search.after(answered) == search,
{
}

/// The name under which the graphics processor is reported.
pub open spec fn gpu_label(search: GpuSearch) -> Seq<char> {
    match search {
        GpuSearch::Found(GpuVendor::Nvidia) => "NVIDIA"@,
        GpuSearch::Found(GpuVendor::Amd) => "AMD"@,
        GpuSearch::Found(GpuVendor::Intel) => "Intel"@,
        _ => "necunoscut (0%)"@,
    }
}

/// The name under which the graphics processor that a search has found is reported.
pub fn detect_gpu_label(search: GpuSearch) -> (label: &'static str)
    ensures
        label@ == gpu_label(search),
        search == GpuSearch::Found(GpuVendor::Nvidia) ==> label@ == "NVIDIA"@,
        search == GpuSearch::Found(GpuVendor::Amd) ==> label@ == "AMD"@,
        search == GpuSearch::Found(GpuVendor::Intel) ==> label@ == "Intel"@,
        search !is Found ==> label@ == "necunoscut (0%)"@,
{
    match search {
        GpuSearch::Found(GpuVendor::Nvidia) => "NVIDIA",
        GpuSearch::Found(GpuVendor::Amd) => "AMD",
        GpuSearch::Found(GpuVendor::Intel) => "Intel",
        _ => "necunoscut (0%)",
    }
}

/// The number that a report holds, as text: the report without the white space around it, where
/// that is the text of a number.
pub open spec fn gauge(report: Seq<char>) -> Option<Seq<char>> {
    if number::is_float_literal(text::trimmed(report)) {
        Some(text::trimmed(report))
    } else {
        None
    }
}

/// The number that a report holds, as text.
pub fn read_gauge(report: &str) -> (value: Option<&str>)
    ensures
        text::of_str(value) == gauge(report@),
{
    let inner = text::trim(report);
    if number::float_literal(inner) {
        Some(inner)
    } else {
        None
    }
}

/// The question for the load of NVIDIA processors, in percent.
pub fn nvidia_query() -> (invocation: Invocation)
    ensures
        invocation@ == (
            "nvidia-smi"@,
            seq!["--query-gpu=utilization.gpu"@, "--format=csv,noheader,nounits"@],
        ),
{
    let invocation = Invocation::new("nvidia-smi").arg("--query-gpu=utilization.gpu").arg(
        "--format=csv,noheader,nounits",
    );
    assert(invocation@.1 =~= seq![
        "--query-gpu=utilization.gpu"@,
        "--format=csv,noheader,nounits"@,
    ]);
    invocation
}

/// The number on the first line of an answer.
pub open spec fn first_gauge(answer: Seq<char>) -> Option<Seq<char>> {
    if text::lines(answer).len() > 0 {
        gauge(text::lines(answer)[0])
    } else {
        None
    }
}

/// The number on the first line of an answer, as text.
pub fn read_first_gauge(answer: &str) -> (value: Option<&str>)
    ensures
        text::of_str(value) == first_gauge(answer@),
{
    let line = text::first_line(answer)?;
    read_gauge(line)
}

/// The load in percent, as text, that NVIDIA's program has printed for the first processor, where
/// the program has succeeded.
pub fn gpu_nvidia(success: bool, output: &[u8]) -> (value: Option<String>)
    ensures
        !success ==> value is None,
        success ==> text::of_string(value) == first_gauge(utf8::lossy_text(output@)),
        success && vstd::utf8::valid_utf8(output@) ==> text::of_string(value) == first_gauge(
            vstd::utf8::decode_utf8(output@),
        ),
{
    if !success {
        return None;
    }
    let answer = utf8::decode_lossy(output);
    match read_first_gauge(answer.as_str()) {
        Some(value) => Some(value.to_owned()),
        None => None,
    }
}

/// A search for the first AMD processor that reports its load.
pub struct AmdScan {
    /// The load in percent, as text, once a report has held it.
    pub found: Option<String>,
}

/// What a scan has found after one more report.
pub open spec fn amd_after(found: Option<Seq<char>>, report: Seq<char>) -> Option<Seq<char>> {
    match found {
        Some(value) => Some(value),
        None => gauge(report),
    }
}

/// What a scan has found after all of the reports.
pub open spec fn amd_after_all(found: Option<Seq<char>>, reports: Seq<Seq<char>>) -> Option<
    Seq<char>,
>
    decreases reports.len(),
{
    if reports.len() == 0 {
        found
    } else {
        amd_after_all(amd_after(found, reports[0]), reports.drop_first())
    }
}

impl AmdScan {
    /// What the scan has found.
    pub open spec fn value(self) -> Option<Seq<char>> {
        text::of_string(self.found)
    }

    /// A scan that has seen no report.
    pub fn start() -> (scan: AmdScan)
        ensures
            scan.value() is None,
            scan.found is None,
    {
        AmdScan { found: None }
    }

    /// Takes the next report into account, and says whether another one is wanted.
    pub fn offer(&mut self, report: &str) -> (more: bool)
        ensures
            final(self).value() == amd_after(old(self).value(), report@),
            more == (final(self).value() is None),
            more == (final(self).found is None),
            old(self).found is Some ==> final(self).found == old(self).found,
            old(self).found is None ==> (final(self).found matches Some(value) ==> gauge(report@)
                == Some(value@)),
            old(self).found is None ==> (final(self).found is None ==> gauge(report@) is None),
    {
        if self.found.is_none() {
            if let Some(value) = read_gauge(report) {
                self.found = Some(value.to_owned());
            }
        }
        self.found.is_none()
    }
}

/// A scan finds the number of the first report that holds one, and nothing only where no report
/// holds one.
pub proof fn lemma_amd_scan(reports: Seq<Seq<char>>)
    ensures
        match amd_after_all(None, reports) {
            Some(value) => exists|i: int|
                0 <= i < reports.len() && gauge(#[trigger] reports[i]) == Some(value) && forall|j: int|
                    0 <= j < i ==> gauge(#[trigger] reports[j]) is None,
            None => forall|i: int| 0 <= i < reports.len() ==> gauge(#[trigger] reports[i]) is None,
        },
    decreases reports.len(),
{
    if reports.len() > 0 {
        let rest = reports.drop_first();
        assert(forall|i: int| 0 < i < reports.len() ==> #[trigger] reports[i] == rest[i - 1]);
        match gauge(reports[0]) {
            Some(value) => {
                lemma_amd_settled(value, rest);
            },
            None => {
                lemma_amd_scan(rest);
                if let Some(value) = amd_after_all(None, rest) {
                    let i = choose|i: int|
                        0 <= i < rest.len() && gauge(#[trigger] rest[i]) == Some(value) && forall|
                            j: int,
                        |
                            0 <= j < i ==> gauge(#[trigger] rest[j]) is None;
                    assert(reports[i + 1] == rest[i]);
                }
            },
        }
    }
}

/// A scan that has found a number keeps it.
proof fn lemma_amd_settled(value: Seq<char>, reports: Seq<Seq<char>>)
    ensures
        amd_after_all(Some(value), reports) == Some(value),
    decreases reports.len(),
{
    if reports.len() > 0 {
        lemma_amd_settled(value, reports.drop_first());
    }
}

/// The current and the highest frequency of an Intel processor, as text, out of the reports of the
/// two.
pub fn gpu_intel<'a>(current: &'a str, highest: &'a str) -> (values: Option<(&'a str, &'a str)>)
    ensures
        match values {
            Some((c, h)) => gauge(current@) == Some(c@) && gauge(highest@) == Some(h@),
            None => gauge(current@) is None || gauge(highest@) is None,
        },
{
    let c = read_gauge(current)?;
    let h = read_gauge(highest)?;
    Some((c, h))
}

/// What stands in a report between the white space around it decides: it is read as it is where it
/// is a number, and nothing is read only where it is none.
pub proof fn lemma_gauge(lead: Seq<char>, core: Seq<char>, trail: Seq<char>)
    requires
        forall|i: int| 0 <= i < lead.len() ==> text::is_white(#[trigger] lead[i]),
        core.len() > 0 ==> !text::is_white(core[0]) && !text::is_white(core.last()),
        forall|i: int| 0 <= i < trail.len() ==> text::is_white(#[trigger] trail[i]),
    ensures
        number::is_float_literal(core) ==> gauge(lead + core + trail) == Some(core),
        !number::is_float_literal(core) ==> gauge(lead + core + trail) is None,
{
    if core.len() > 0 {
        text::lemma_trimmed(lead, core, trail);
    } else {
        let s = lead + core + trail;
        assert forall|i: int| 0 <= i < s.len() implies text::is_white(#[trigger] s[i]) by {
            if i < lead.len() {
                assert(s[i] == lead[i]);
            } else {
                assert(s[i] == trail[i - lead.len()]);
            }
        }
        text::lemma_trimmed_blank(s);
        assert(core =~= Seq::<char>::empty());
        if number::is_float_literal(core) {
            number::lemma_float_literal_chars(core);
        }
    }
}

/// Every number is read back from a report that holds it with any white space around it.
pub proof fn lemma_gauge_read_back(lead: Seq<char>, value: Seq<char>, trail: Seq<char>)
    requires
        forall|i: int| 0 <= i < lead.len() ==> text::is_white(#[trigger] lead[i]),
        number::is_float_literal(value),
        forall|i: int| 0 <= i < trail.len() ==> text::is_white(#[trigger] trail[i]),
    ensures
        gauge(lead + value + trail) == Some(value),
{
    number::lemma_float_literal_chars(value);
    assert(number::is_literal_char(value[0]) && number::is_literal_char(value[value.len() - 1]));
    lemma_gauge(lead, value, trail);
}

/// The first line of an answer decides, whatever follows it, and it may be the only one.
pub proof fn lemma_first_gauge(line: Seq<char>, more: Seq<char>)
    requires
        !line.contains('\n'),
    ensures
        line.len() == 0 || line.last() != '\r' ==> first_gauge(line + seq!['\n'] + more) == gauge(
            line,
        ),
        first_gauge(line + seq!['\r'] + seq!['\n'] + more) == gauge(line),
        first_gauge(line) == gauge(line),
        first_gauge(Seq::empty()) is None,
{
    let none = Seq::<char>::empty();
    text::lemma_lines(line, more);
    if line.len() == 0 {
        assert(line =~= none);
        lemma_gauge(none, none, none);
        assert(none + none + none =~= none);
        if number::is_float_literal(none) {
            number::lemma_float_literal_chars(none);
        }
    }
}

/// Every whole number, from 0 to 100 and beyond, is read back from its digits and a line feed, out
/// of the answer of NVIDIA's program, by a scan of AMD's reports and from a report as such.
pub proof fn lemma_percentages_read_back(digits: Seq<char>, more: Seq<char>)
    requires
        digits.len() > 0,
        forall|i: int| 0 <= i < digits.len() ==> '0' <= #[trigger] digits[i] <= '9',
    ensures
        gauge(digits + seq!['\n']) == Some(digits),
        gauge(digits) == Some(digits),
        first_gauge(digits + seq!['\n'] + more) == Some(digits),
        amd_after(None, digits + seq!['\n']) == Some(digits),
{
    let none = Seq::<char>::empty();
    number::lemma_digits_are_literal(digits);
    lemma_gauge_read_back(none, digits, seq!['\n']);
    lemma_gauge_read_back(none, digits, none);
    assert(none + digits + seq!['\n'] =~= digits + seq!['\n']);
    assert(none + digits + none =~= digits);
    assert forall|i: int| 0 <= i < digits.len() implies digits[i] != '\n' by {
        assert('0' <= digits[i] <= '9');
    }
    assert('0' <= digits[digits.len() - 1] <= '9');
    lemma_first_gauge(digits, more);
}

/// A scan takes the next report into account only while it has found nothing.
pub proof fn lemma_amd_step(value: Seq<char>, report: Seq<char>)
    ensures
        amd_after(Some(value), report) == Some(value),
        amd_after(None, report) == gauge(report),
{
}

} // verus!
