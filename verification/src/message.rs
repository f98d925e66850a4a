//! The lines of telemetry that are sent to the board.

use crate::text;
use crate::text::CharSet;
use crate::weather;
use crate::weather::{Outdoor, WeatherEvent, WeatherPhase};
use vstd::prelude::*;

verus! {

/// What has been measured, as texts with one decimal. What could not be measured is missing.
pub struct Readings<'a> {
    /// The processor's temperature in degrees.
    pub temp: Option<&'a str>,
    /// The processor's load in percent.
    pub cpu: Option<&'a str>,
    /// The memory in use in percent.
    pub mem: Option<&'a str>,
    /// The graphics processor's load in percent.
    pub gpu: Option<&'a str>,
}

/// What is written for a measurement: zero where it is missing.
pub open spec fn shown(value: Option<&str>) -> Seq<char> {
    match value {
        Some(value) => value@,
        None => "0.0"@,
    }
}

/// What is written for a measurement.
fn show(value: Option<&str>) -> (written: &str)
    ensures
        written@ == shown(value),
{
    match value {
        Some(value) => value,
        None => "0.0",
    }
}

/// The part of a line that reports the weather, which is missing where the weather is not known.
/// The temperature outside is given as text.
pub open spec fn weather_part(outdoor: Outdoor, out: Seq<char>) -> Seq<char> {
    if outdoor.known() {
        " WEATHER="@ + weather::kind_name(outdoor.kind) + " OUT="@ + out
    } else {
        Seq::empty()
    }
}

/// A line of telemetry without its ending.
pub open spec fn line_body(
    readings: Readings,
    ip: Seq<char>,
    outdoor: Outdoor,
    out: Seq<char>,
) -> Seq<char> {
    "TEMP="@ + shown(readings.temp) + " CPU="@ + shown(readings.cpu) + " MEM="@ + shown(
        readings.mem,
    ) + " GPU="@ + shown(readings.gpu) + " IP="@ + ip + weather_part(outdoor, out)
}

/// A line of telemetry.
pub open spec fn line(readings: Readings, ip: Seq<char>, outdoor: Outdoor, out: Seq<char>) -> Seq<
    char,
> {
    line_body(readings, ip, outdoor, out) + "\n"@
}

/// The line of telemetry for what has been measured, the host's address, and what is known of the
/// weather, with the temperature outside as text.
pub fn telemetry_line(readings: &Readings<'_>, ip: &str, outdoor: &Outdoor, out: &str) -> (message:
    String)
    ensures
        message@ == line(*readings, ip@, *outdoor, out@),
        message@ == "TEMP="@ + (match readings.temp {
            Some(temp) => temp@,
            None => "0.0"@,
        }) + " CPU="@ + (match readings.cpu {
            Some(cpu) => cpu@,
            None => "0.0"@,
        }) + " MEM="@ + (match readings.mem {
            Some(mem) => mem@,
            None => "0.0"@,
        }) + " GPU="@ + (match readings.gpu {
            Some(gpu) => gpu@,
            None => "0.0"@,
        }) + " IP="@ + ip@ + (if outdoor.kind != 0 && outdoor.tenths != i32::MIN {
            " WEATHER="@ + (if outdoor.kind == 1 {
                "sun"@
            } else if outdoor.kind == 2 {
                "cloud"@
            } else if outdoor.kind == 3 {
                "rain"@
            } else if outdoor.kind == 4 {
                "snow"@
            } else {
                "unknown"@
            }) + " OUT="@ + out@
        } else {
            Seq::empty()
        }) + "\n"@,
{
    let mut message = String::new();
    message.append("TEMP=");
    message.append(show(readings.temp));
    message.append(" CPU=");
    message.append(show(readings.cpu));
    message.append(" MEM=");
    message.append(show(readings.mem));
    message.append(" GPU=");
    message.append(show(readings.gpu));
    message.append(" IP=");
    message.append(ip);
    let ghost start = message@;
    if outdoor.is_known() {
        message.append(" WEATHER=");
        message.append(weather::kind_str(outdoor.kind));
        message.append(" OUT=");
        message.append(out);
        assert(message@ =~= start + weather_part(*outdoor, out@));
    } else {
        assert(message@ =~= start + weather_part(*outdoor, out@));
    }
    message.append("\n");
    assert(message@ =~= line(*readings, ip@, *outdoor, out@));
    message
}

/// The fields that report the weather.
pub open spec fn weather_fields(outdoor: Outdoor, out: Seq<char>) -> Seq<Seq<char>> {
    if outdoor.known() {
        seq!["WEATHER="@ + weather::kind_name(outdoor.kind), "OUT="@ + out]
    } else {
        Seq::empty()
    }
}

/// The fields of a line.
pub open spec fn fields(readings: Readings, ip: Seq<char>, outdoor: Outdoor, out: Seq<char>) -> Seq<
    Seq<char>,
> {
    seq![
        "TEMP="@ + shown(readings.temp),
        "CPU="@ + shown(readings.cpu),
        "MEM="@ + shown(readings.mem),
        "GPU="@ + shown(readings.gpu),
        "IP="@ + ip,
    ] + weather_fields(outdoor, out)
}

/// Two texts without white space make one without.
proof fn lemma_no_white_joined(a: Seq<char>, b: Seq<char>)
    requires
        text::no_white(a),
        text::no_white(b),
    ensures
        text::no_white(a + b),
{
    assert forall|i: int| 0 <= i < (a + b).len() implies !text::is_white(#[trigger] (a + b)[i]) by {
        if i < a.len() {
            assert((a + b)[i] == a[i]);
        } else {
            assert((a + b)[i] == b[i - a.len()]);
        }
    }
}

/// The names of the kinds of weather hold no white space.
proof fn lemma_kind_names(kind: u8)
    ensures
        text::no_white(weather::kind_name(kind)),
{
    reveal_strlit("sun");
    reveal_strlit("cloud");
    reveal_strlit("rain");
    reveal_strlit("snow");
    reveal_strlit("unknown");
    assert("sun"@ =~= seq!['s', 'u', 'n']);
    assert("cloud"@ =~= seq!['c', 'l', 'o', 'u', 'd']);
    assert("rain"@ =~= seq!['r', 'a', 'i', 'n']);
    assert("snow"@ =~= seq!['s', 'n', 'o', 'w']);
    assert("unknown"@ =~= seq!['u', 'n', 'k', 'n', 'o', 'w', 'n']);
}

/// The words of the part of a line that reports the weather, with the line's ending.
proof fn lemma_weather_words(outdoor: Outdoor, out: Seq<char>)
    requires
        text::no_white(out),
    ensures
        outdoor.known() ==> text::words(
            "WEATHER="@ + weather::kind_name(outdoor.kind) + seq![' '] + ("OUT="@ + out + seq![
                '\n',
            ]),
        ) == weather_fields(outdoor, out),
{
    lemma_literals();
    lemma_kind_names(outdoor.kind);
    let sky = "WEATHER="@ + weather::kind_name(outdoor.kind);
    let degrees = "OUT="@ + out;
    lemma_no_white_joined("WEATHER="@, weather::kind_name(outdoor.kind));
    lemma_no_white_joined("OUT="@, out);
    let none = Seq::<char>::empty();
    assert(degrees + seq!['\n'] + none =~= degrees + seq!['\n']);
    text::lemma_words_step(degrees, '\n', none);
    assert(text::trimmed_start(none) =~= none);
    text::lemma_words_step(sky, ' ', degrees + seq!['\n']);
    if outdoor.known() {
        assert(seq![sky] + (seq![degrees] + text::words(none)) =~= weather_fields(outdoor, out));
    }
}

/// Where neither the measurements nor the address hold white space, the words of a line are its
/// fields, each under its name and in a fixed order, and the weather is among them exactly where
/// it is known.
pub proof fn lemma_line_fields(readings: Readings, ip: Seq<char>, outdoor: Outdoor, out: Seq<char>)
    requires
        text::no_white(shown(readings.temp)),
        text::no_white(shown(readings.cpu)),
        text::no_white(shown(readings.mem)),
        text::no_white(shown(readings.gpu)),
        text::no_white(ip),
        text::no_white(out),
    ensures
        text::words(line(readings, ip, outdoor, out)) == fields(readings, ip, outdoor, out),
{
    lemma_literals();
    let temp = "TEMP="@ + shown(readings.temp);
    let cpu = "CPU="@ + shown(readings.cpu);
    let mem = "MEM="@ + shown(readings.mem);
    let gpu = "GPU="@ + shown(readings.gpu);
    let addr = "IP="@ + ip;
    lemma_no_white_joined("TEMP="@, shown(readings.temp));
    lemma_no_white_joined("CPU="@, shown(readings.cpu));
    lemma_no_white_joined("MEM="@, shown(readings.mem));
    lemma_no_white_joined("GPU="@, shown(readings.gpu));
    lemma_no_white_joined("IP="@, ip);
    let none = Seq::<char>::empty();
    let weather_text = "WEATHER="@ + weather::kind_name(outdoor.kind) + seq![' '] + ("OUT="@ + out
        + seq!['\n']);
    let r4 = if outdoor.known() {
        addr + seq![' '] + weather_text
    } else {
        addr + seq!['\n'] + none
    };
    let r3 = gpu + seq![' '] + r4;
    let r2 = mem + seq![' '] + r3;
    let r1 = cpu + seq![' '] + r2;
    assert(line(readings, ip, outdoor, out) == temp + seq![' '] + r1) by {
        lemma_line_regrouped(readings, ip, outdoor, out);
    }
    lemma_weather_words(outdoor, out);
    if outdoor.known() {
        text::lemma_words_step(addr, ' ', weather_text);
    } else {
        text::lemma_words_step(addr, '\n', none);
        assert(text::trimmed_start(none) =~= none);
    }
    assert(text::words(r4) =~= seq![addr] + weather_fields(outdoor, out));
    text::lemma_words_step(gpu, ' ', r4);
    text::lemma_words_step(mem, ' ', r3);
    text::lemma_words_step(cpu, ' ', r2);
    text::lemma_words_step(temp, ' ', r1);
    assert(text::words(line(readings, ip, outdoor, out)) =~= fields(readings, ip, outdoor, out));
}

/// A field at the end of a text belongs to what follows the text.
proof fn lemma_field_regrouped(
    start: Seq<char>,
    spaced: Seq<char>,
    name: Seq<char>,
    value: Seq<char>,
    rest: Seq<char>,
)
    requires
        spaced == seq![' '] + name,
    ensures
        start + spaced + value + rest == start + (seq![' '] + (name + value + rest)),
{
    assert(start + spaced + value + rest =~= start + (seq![' '] + (name + value + rest)));
}

/// A line is its first field, followed by what remains.
proof fn lemma_line_regrouped(
    readings: Readings,
    ip: Seq<char>,
    outdoor: Outdoor,
    out: Seq<char>,
)
    ensures
        ({
            let weather_text = "WEATHER="@ + weather::kind_name(outdoor.kind) + seq![' '] + ("OUT="@
                + out + seq!['\n']);
            let r4 = if outdoor.known() {
                "IP="@ + ip + seq![' '] + weather_text
            } else {
                "IP="@ + ip + seq!['\n'] + Seq::empty()
            };
            let r3 = "GPU="@ + shown(readings.gpu) + seq![' '] + r4;
            let r2 = "MEM="@ + shown(readings.mem) + seq![' '] + r3;
            let r1 = "CPU="@ + shown(readings.cpu) + seq![' '] + r2;
            line(readings, ip, outdoor, out) == "TEMP="@ + shown(readings.temp) + seq![' '] + r1
        }),
{
    lemma_literals();
    let kind = weather::kind_name(outdoor.kind);
    let weather_text = "WEATHER="@ + kind + seq![' '] + ("OUT="@ + out + seq!['\n']);
    let end = weather_part(outdoor, out) + "\n"@;
    let addr = "IP="@ + ip;
    let r4 = if outdoor.known() {
        addr + seq![' '] + weather_text
    } else {
        addr + seq!['\n'] + Seq::empty()
    };
    assert(addr + end == r4) by {
        if outdoor.known() {
            lemma_field_regrouped(Seq::empty(), " WEATHER="@, "WEATHER="@, kind, " OUT="@ + out + "\n"@);
            assert(end =~= Seq::<char>::empty() + " WEATHER="@ + kind + (" OUT="@ + out + "\n"@));
            assert("WEATHER="@ + kind + (" OUT="@ + out + "\n"@) =~= weather_text);
            assert(addr + end =~= r4);
        } else {
            assert(end =~= seq!['\n']);
            assert(addr + end =~= r4);
        }
    }
    let a1 = "TEMP="@ + shown(readings.temp);
    let a2 = a1 + " CPU="@ + shown(readings.cpu);
    let a3 = a2 + " MEM="@ + shown(readings.mem);
    let a4 = a3 + " GPU="@ + shown(readings.gpu);
    let a5 = a4 + " IP="@ + ip;
    let s4 = seq![' '] + r4;
    let s3 = seq![' '] + ("GPU="@ + shown(readings.gpu) + s4);
    let s2 = seq![' '] + ("MEM="@ + shown(readings.mem) + s3);
    let s1 = seq![' '] + ("CPU="@ + shown(readings.cpu) + s2);
    lemma_field_regrouped(a4, " IP="@, "IP="@, ip, end);
    lemma_field_regrouped(a3, " GPU="@, "GPU="@, shown(readings.gpu), s4);
    lemma_field_regrouped(a2, " MEM="@, "MEM="@, shown(readings.mem), s3);
    lemma_field_regrouped(a1, " CPU="@, "CPU="@, shown(readings.cpu), s2);
    assert(line(readings, ip, outdoor, out) =~= a5 + end);
    assert(a5 + end == a1 + s1);
    let r3 = "GPU="@ + shown(readings.gpu) + seq![' '] + r4;
    let r2 = "MEM="@ + shown(readings.mem) + seq![' '] + r3;
    let r1 = "CPU="@ + shown(readings.cpu) + seq![' '] + r2;
    assert(s3 =~= seq![' '] + r3);
    assert(s2 =~= seq![' '] + r2);
    assert(s1 =~= seq![' '] + r1);
    assert(a1 + s1 =~= a1 + seq![' '] + r1);
}

/// How the literals of a line are made up.
proof fn lemma_literals()
    ensures
        text::no_white("TEMP="@) && "TEMP="@.len() > 0,
        text::no_white("CPU="@) && "CPU="@.len() > 0,
        text::no_white("MEM="@) && "MEM="@.len() > 0,
        text::no_white("GPU="@) && "GPU="@.len() > 0,
        text::no_white("IP="@) && "IP="@.len() > 0,
        " CPU="@ == seq![' '] + "CPU="@,
        " MEM="@ == seq![' '] + "MEM="@,
        " GPU="@ == seq![' '] + "GPU="@,
        " IP="@ == seq![' '] + "IP="@,
        text::no_white("WEATHER="@) && "WEATHER="@.len() > 0,
        text::no_white("OUT="@) && "OUT="@.len() > 0,
        " WEATHER="@ == seq![' '] + "WEATHER="@,
        " OUT="@ == seq![' '] + "OUT="@,
        "\n"@ == seq!['\n'],
{
    reveal_strlit("TEMP=");
    reveal_strlit("CPU=");
    reveal_strlit("MEM=");
    reveal_strlit("GPU=");
    reveal_strlit("IP=");
    reveal_strlit("WEATHER=");
    reveal_strlit("OUT=");
    reveal_strlit(" CPU=");
    reveal_strlit(" MEM=");
    reveal_strlit(" GPU=");
    reveal_strlit(" IP=");
    reveal_strlit(" WEATHER=");
    reveal_strlit(" OUT=");
    reveal_strlit("\n");
    assert("TEMP="@ =~= seq!['T', 'E', 'M', 'P', '=']);
    assert("CPU="@ =~= seq!['C', 'P', 'U', '=']);
    assert("MEM="@ =~= seq!['M', 'E', 'M', '=']);
    assert("GPU="@ =~= seq!['G', 'P', 'U', '=']);
    assert("IP="@ =~= seq!['I', 'P', '=']);
    assert("WEATHER="@ =~= seq!['W', 'E', 'A', 'T', 'H', 'E', 'R', '=']);
    assert("OUT="@ =~= seq!['O', 'U', 'T', '=']);
    assert(" CPU="@ =~= seq![' '] + "CPU="@);
    assert(" MEM="@ =~= seq![' '] + "MEM="@);
    assert(" GPU="@ =~= seq![' '] + "GPU="@);
    assert(" IP="@ =~= seq![' '] + "IP="@);
    assert(" WEATHER="@ =~= seq![' '] + "WEATHER="@);
    assert(" OUT="@ =~= seq![' '] + "OUT="@);
    assert("\n"@ =~= seq!['\n']);
}

/// Where none of the parts holds a line feed, the only one in a line is its last character.
pub proof fn lemma_line_is_one_line(
    readings: Readings,
    ip: Seq<char>,
    outdoor: Outdoor,
    out: Seq<char>,
)
    requires
        no_feed(shown(readings.temp)),
        no_feed(shown(readings.cpu)),
        no_feed(shown(readings.mem)),
        no_feed(shown(readings.gpu)),
        no_feed(ip),
        no_feed(out),
    ensures
        text::first_in(line(readings, ip, outdoor, out), CharSet::Only('\n')) == line(
            readings,
            ip,
            outdoor,
            out,
        ).len() - 1,
{
    lemma_literals();
    lemma_kind_names(outdoor.kind);
    let kind = weather::kind_name(outdoor.kind);
    lemma_no_feed_spaced(" WEATHER="@, "WEATHER="@);
    lemma_no_feed_spaced(" OUT="@, "OUT="@);
    lemma_no_feed_spaced(" CPU="@, "CPU="@);
    lemma_no_feed_spaced(" MEM="@, "MEM="@);
    lemma_no_feed_spaced(" GPU="@, "GPU="@);
    lemma_no_feed_spaced(" IP="@, "IP="@);
    lemma_no_feed_word("TEMP="@);
    lemma_no_feed_word(kind);
    let w1 = " WEATHER="@ + kind;
    let w2 = w1 + " OUT="@;
    lemma_no_feed_joined(" WEATHER="@, kind);
    lemma_no_feed_joined(w1, " OUT="@);
    lemma_no_feed_joined(w2, out);
    let a1 = "TEMP="@ + shown(readings.temp);
    let b2 = a1 + " CPU="@;
    let a2 = b2 + shown(readings.cpu);
    let b3 = a2 + " MEM="@;
    let a3 = b3 + shown(readings.mem);
    let b4 = a3 + " GPU="@;
    let a4 = b4 + shown(readings.gpu);
    let b5 = a4 + " IP="@;
    let a5 = b5 + ip;
    lemma_no_feed_joined("TEMP="@, shown(readings.temp));
    lemma_no_feed_joined(a1, " CPU="@);
    lemma_no_feed_joined(b2, shown(readings.cpu));
    lemma_no_feed_joined(a2, " MEM="@);
    lemma_no_feed_joined(b3, shown(readings.mem));
    lemma_no_feed_joined(a3, " GPU="@);
    lemma_no_feed_joined(b4, shown(readings.gpu));
    lemma_no_feed_joined(a4, " IP="@);
    lemma_no_feed_joined(b5, ip);
    lemma_no_feed_joined(a5, weather_part(outdoor, out));
    let body = line_body(readings, ip, outdoor, out);
    let whole = line(readings, ip, outdoor, out);
    assert(body == a5 + weather_part(outdoor, out));
    assert forall|i: int| 0 <= i < body.len() implies !CharSet::Only('\n').has(
        #[trigger] whole[i],
    ) by {
        assert(whole[i] == body[i]);
    }
    text::lemma_first_in_unique(whole, CharSet::Only('\n'), body.len() as int);
}

/// Whether `s` holds no line feed.
pub open spec fn no_feed(s: Seq<char>) -> bool {
    forall|i: int| 0 <= i < s.len() ==> #[trigger] s[i] != '\n'
}

proof fn lemma_no_feed_joined(a: Seq<char>, b: Seq<char>)
    requires
        no_feed(a),
        no_feed(b),
    ensures
        no_feed(a + b),
{
    assert forall|i: int| 0 <= i < (a + b).len() implies #[trigger] (a + b)[i] != '\n' by {
        if i < a.len() {
            assert((a + b)[i] == a[i]);
        } else {
            assert((a + b)[i] == b[i - a.len()]);
        }
    }
}

proof fn lemma_no_feed_word(word: Seq<char>)
    requires
        text::no_white(word),
    ensures
        no_feed(word),
{
    assert forall|i: int| 0 <= i < word.len() implies #[trigger] word[i] != '\n' by {
        assert(!text::is_white(word[i]));
    }
}

proof fn lemma_no_feed_spaced(spaced: Seq<char>, word: Seq<char>)
    requires
        spaced == seq![' '] + word,
        text::no_white(word),
    ensures
        no_feed(spaced),
{
    lemma_no_feed_word(word);
    lemma_no_feed_joined(seq![' '], word);
}

/// Weather with a code of unknown kind is not reported, whatever was known before.
pub proof fn lemma_unknown_code_hides_weather(
    tenths: i32,
    code: u32,
    before: Outdoor,
    out: Seq<char>,
)
    requires
        weather::weather_kind(code as int) == 0,
    ensures
        weather_part(
            weather::outdoor_after(
                WeatherPhase::Observe,
                WeatherEvent::Observed { tenths, code },
                before,
            ),
            out,
        ) == Seq::<char>::empty(),
{
}

/// Where the measurements, the address and the temperature outside hold no white space, the words
/// of a line are the measurements as they were taken, each under its name, with zero for one that
/// is missing, then the address, and then the weather where its kind and its temperature are known.
pub proof fn lemma_line_words(
    readings: Readings,
    temp: Seq<char>,
    cpu: Seq<char>,
    mem: Seq<char>,
    gpu: Seq<char>,
    ip: Seq<char>,
    outdoor: Outdoor,
    out: Seq<char>,
)
    requires
        temp == (match readings.temp {
            Some(value) => value@,
            None => "0.0"@,
        }),
        cpu == (match readings.cpu {
            Some(value) => value@,
            None => "0.0"@,
        }),
        mem == (match readings.mem {
            Some(value) => value@,
            None => "0.0"@,
        }),
        gpu == (match readings.gpu {
            Some(value) => value@,
            None => "0.0"@,
        }),
        forall|i: int| 0 <= i < temp.len() ==> !text::is_white(#[trigger] temp[i]),
        forall|i: int| 0 <= i < cpu.len() ==> !text::is_white(#[trigger] cpu[i]),
        forall|i: int| 0 <= i < mem.len() ==> !text::is_white(#[trigger] mem[i]),
        forall|i: int| 0 <= i < gpu.len() ==> !text::is_white(#[trigger] gpu[i]),
        forall|i: int| 0 <= i < ip.len() ==> !text::is_white(#[trigger] ip[i]),
        forall|i: int| 0 <= i < out.len() ==> !text::is_white(#[trigger] out[i]),
    ensures
        outdoor.kind == 0 || outdoor.tenths == i32::MIN ==> text::words(
            line(readings, ip, outdoor, out),
        ) == seq!["TEMP="@ + temp, "CPU="@ + cpu, "MEM="@ + mem, "GPU="@ + gpu, "IP="@ + ip],
        outdoor.kind == 1 && outdoor.tenths != i32::MIN ==> text::words(
            line(readings, ip, outdoor, out),
        ) == seq![
            "TEMP="@ + temp,
            "CPU="@ + cpu,
            "MEM="@ + mem,
            "GPU="@ + gpu,
            "IP="@ + ip,
            "WEATHER="@ + "sun"@,
            "OUT="@ + out,
        ],
        outdoor.kind == 2 && outdoor.tenths != i32::MIN ==> text::words(
            line(readings, ip, outdoor, out),
        ) == seq![
            "TEMP="@ + temp,
            "CPU="@ + cpu,
            "MEM="@ + mem,
            "GPU="@ + gpu,
            "IP="@ + ip,
            "WEATHER="@ + "cloud"@,
            "OUT="@ + out,
        ],
        outdoor.kind == 3 && outdoor.tenths != i32::MIN ==> text::words(
            line(readings, ip, outdoor, out),
        ) == seq![
            "TEMP="@ + temp,
            "CPU="@ + cpu,
            "MEM="@ + mem,
            "GPU="@ + gpu,
            "IP="@ + ip,
            "WEATHER="@ + "rain"@,
            "OUT="@ + out,
        ],
        outdoor.kind == 4 && outdoor.tenths != i32::MIN ==> text::words(
            line(readings, ip, outdoor, out),
        ) == seq![
            "TEMP="@ + temp,
            "CPU="@ + cpu,
            "MEM="@ + mem,
            "GPU="@ + gpu,
            "IP="@ + ip,
            "WEATHER="@ + "snow"@,
            "OUT="@ + out,
        ],
{
    lemma_line_fields(readings, ip, outdoor, out);
    let start = seq!["TEMP="@ + temp, "CPU="@ + cpu, "MEM="@ + mem, "GPU="@ + gpu, "IP="@ + ip];
    let end = weather_fields(outdoor, out);
    assert(fields(readings, ip, outdoor, out) == start + end);
    if outdoor.known() {
        lemma_seven(start, end);
    } else {
        assert(start + end =~= start);
    }
}

proof fn lemma_seven(start: Seq<Seq<char>>, end: Seq<Seq<char>>)
    requires
        start.len() == 5,
        end.len() == 2,
    ensures
        start + end == seq![
            start[0],
            start[1],
            start[2],
            start[3],
            start[4],
            end[0],
            end[1],
        ],
{
    assert(start + end =~= seq![
        start[0],
        start[1],
        start[2],
        start[3],
        start[4],
        end[0],
        end[1],
    ]);
}

} // verus!
