//! The weather outside: where the host is, what the forecast service says, and what is kept of it.

use crate::json;
use crate::text;
use vstd::prelude::*;

verus! {

/// Where the position of the host's public address is asked for.
pub const LOCATION_URL: &'static str = "http://ip-api.com/json/?fields=lat,lon,city,status";

/// The pause between two updates, in seconds: ten minutes, after a success and after a failure.
pub const WEATHER_REFRESH_SECS: u64 = 600;

/// The outdoor temperature that stands for none.
pub const SENTINEL_UNSET: i32 = i32::MIN;

/// A position on Earth. The coordinates are texts of numbers.
pub struct Location<'a> {
    pub lat: &'a str,
    pub lon: &'a str,
    pub city: &'a str,
}

/// Why a reply gives no position.
#[derive(Clone, Copy, PartialEq, Eq, Structural, Debug)]
pub enum LocationError {
    /// The service does not report success.
    Status,
    /// There is no number for the latitude.
    Latitude,
    /// There is no number for the longitude.
    Longitude,
}

/// The city that a reply names, or a question mark.
pub open spec fn city_name(reply: Seq<char>) -> Seq<char> {
    match json::string_field(reply, "city"@) {
        Some(city) => city,
        None => "?"@,
    }
}

/// Whether a reply reports success.
pub open spec fn reports_success(reply: Seq<char>) -> bool {
    json::string_field(reply, "status"@) == Some("success"@)
}

/// The position in a reply of the location service.
pub fn read_location(reply: &str) -> (location: Result<Location<'_>, LocationError>)
    ensures
        match location {
            Ok(location) => {
                &&& reports_success(reply@)
                &&& json::number_field(reply@, "lat"@) == Some(location.lat@)
                &&& json::number_field(reply@, "lon"@) == Some(location.lon@)
                &&& location.city@ == city_name(reply@)
            },
            Err(LocationError::Status) => !reports_success(reply@),
            Err(LocationError::Latitude) => reports_success(reply@) && json::number_field(
                reply@,
                "lat"@,
            ) is None,
            Err(LocationError::Longitude) => reports_success(reply@) && json::number_field(
                reply@,
                "lat"@,
            ) is Some && json::number_field(reply@, "lon"@) is None,
        },
        location == Err::<Location<'_>, LocationError>(LocationError::Status)
            <==> json::string_field(reply@, "status"@) != Some("success"@),
        location matches Ok(location) ==> (json::string_field(reply@, "city"@) matches Some(city)
            ==> location.city@ == city),
        location matches Ok(location) ==> (json::string_field(reply@, "city"@) is None
            ==> location.city@ == "?"@),
{
    let success = match json::extract_string(reply, "status") {
        Some(status) => text::same(status, "success"),
        None => false,
    };
    if !success {
        return Err(LocationError::Status);
    }
    let lat = match json::extract_number(reply, "lat") {
        Some(lat) => lat,
        None => {
            return Err(LocationError::Latitude);
        },
    };
    let lon = match json::extract_number(reply, "lon") {
        Some(lon) => lon,
        None => {
            return Err(LocationError::Longitude);
        },
    };
    let city = match json::extract_string(reply, "city") {
        Some(city) => city,
        None => "?",
    };
    Ok(Location { lat, lon, city })
}

/// The address of the forecast for a position.
pub open spec fn forecast_address(lat: Seq<char>, lon: Seq<char>) -> Seq<char> {
    "https://api.open-meteo.com/v1/forecast?latitude="@ + lat + "&longitude="@ + lon
        + "&current=temperature_2m,weather_code"@
}

/// The address of the forecast for a position, whose coordinates are given as texts.
pub fn forecast_url(lat: &str, lon: &str) -> (url: String)
    ensures
        url@ == forecast_address(lat@, lon@),
        url@ == "https://api.open-meteo.com/v1/forecast?latitude="@ + lat@ + "&longitude="@ + lon@
            + "&current=temperature_2m,weather_code"@,
{
    let mut url = String::new();
    url.append("https://api.open-meteo.com/v1/forecast?latitude=");
    url.append(lat);
    url.append("&longitude=");
    url.append(lon);
    url.append("&current=temperature_2m,weather_code");
    assert(url@ =~= forecast_address(lat@, lon@));
    url
}

/// The current weather. Both are texts of numbers: the temperature in degrees, and the weather
/// code.
pub struct Forecast<'a> {
    pub temperature: &'a str,
    pub code: &'a str,
}

/// Why a reply gives no weather.
#[derive(Clone, Copy, PartialEq, Eq, Structural, Debug)]
pub enum ForecastError {
    /// There is no number for the temperature.
    Temperature,
    /// There is no number for the weather code.
    Code,
}

/// The current weather in a reply of the forecast service.
pub fn read_forecast(reply: &str) -> (forecast: Result<Forecast<'_>, ForecastError>)
    ensures
        match forecast {
            Ok(forecast) => json::number_field(reply@, "temperature_2m"@) == Some(
                forecast.temperature@,
            ) && json::number_field(reply@, "weather_code"@) == Some(forecast.code@),
            Err(ForecastError::Temperature) => json::number_field(reply@, "temperature_2m"@) is None,
            Err(ForecastError::Code) => json::number_field(reply@, "temperature_2m"@) is Some
                && json::number_field(reply@, "weather_code"@) is None,
        },
{
    let temperature = match json::extract_number(reply, "temperature_2m") {
        Some(temperature) => temperature,
        None => {
            return Err(ForecastError::Temperature);
        },
    };
    let code = match json::extract_number(reply, "weather_code") {
        Some(code) => code,
        None => {
            return Err(ForecastError::Code);
        },
    };
    Ok(Forecast { temperature, code })
}

/// The kind of weather that a WMO code stands for: 1 for sun, 2 for clouds, 3 for rain, 4 for
/// snow, and 0 where it is unknown.
pub open spec fn weather_kind(code: int) -> u8 {
    if 0 <= code <= 1 {
        1
    } else if 2 <= code <= 3 || code == 45 || code == 48 {
        2
    } else if 51 <= code <= 67 || 80 <= code <= 82 || 95 <= code <= 99 {
        3
    } else if 71 <= code <= 77 || code == 85 || code == 86 {
        4
    } else {
        0
    }
}

/// The kind of weather that a WMO code stands for. Fog counts as clouds, and a thunderstorm as
/// rain.
pub fn wmo_code_to_kind(code: u32) -> (kind: u8)
    ensures
        kind == weather_kind(code as int),
        kind <= 4,
        kind == 1 <==> code == 0 || code == 1,
        kind == 2 <==> code == 2 || code == 3 || code == 45 || code == 48,
        kind == 3 <==> 51 <= code <= 67 || 80 <= code <= 82 || 95 <= code <= 99,
        kind == 4 <==> 71 <= code <= 77 || code == 85 || code == 86,
{
    match code {
        0 | 1 => 1,
        2 | 3 => 2,
        45 | 48 => 2,
        51..=67 => 3,
        71..=77 => 4,
        80..=82 => 3,
        85 | 86 => 4,
        95..=99 => 3,
        _ => 0,
    }
}

/// The name of a kind of weather.
pub open spec fn kind_name(kind: u8) -> Seq<char> {
    if kind == 1 {
        "sun"@
    } else if kind == 2 {
        "cloud"@
    } else if kind == 3 {
        "rain"@
    } else if kind == 4 {
        "snow"@
    } else {
        "unknown"@
    }
}

/// The name of a kind of weather.
pub fn kind_str(k: u8) -> (name: &'static str)
    ensures
        name@ == kind_name(k),
        k == 1 ==> name@ == "sun"@,
        k == 2 ==> name@ == "cloud"@,
        k == 3 ==> name@ == "rain"@,
        k == 4 ==> name@ == "snow"@,
        k == 0 || k > 4 ==> name@ == "unknown"@,
{
    match k {
        1 => "sun",
        2 => "cloud",
        3 => "rain",
        4 => "snow",
        _ => "unknown",
    }
}

/// Different kinds of weather have different names.
pub proof fn lemma_kind_names_differ(a: u8, b: u8)
    requires
        a <= 4,
        b <= 4,
        kind_name(a) == kind_name(b),
    ensures
        a == b,
{
    reveal_strlit("sun");
    reveal_strlit("cloud");
    reveal_strlit("rain");
    reveal_strlit("snow");
    reveal_strlit("unknown");
    assert("sun"@[0] == 's' && "sun"@.len() == 3);
    assert("cloud"@.len() == 5);
    assert("rain"@[0] == 'r' && "rain"@.len() == 4);
    assert("snow"@[0] == 's' && "snow"@.len() == 4);
    assert("unknown"@.len() == 7);
}

/// What is known of the weather outside.
#[derive(Clone, Copy, PartialEq, Eq, Structural, Debug)]
pub struct Outdoor {
    /// The kind of weather, 0 where it is unknown.
    pub kind: u8,
    /// The temperature in tenths of a degree.
    pub tenths: i32,
}

impl Outdoor {
    /// Whether the kind is one of those that a code can stand for.
    pub open spec fn wf(self) -> bool {
        self.kind <= 4
    }

    /// Whether there is anything to report: a known kind and a temperature.
    pub open spec fn known(self) -> bool {
        self.kind != 0 && self.tenths != SENTINEL_UNSET
    }

    /// Nothing is known.
    pub fn unknown() -> (outdoor: Outdoor)
        ensures
            outdoor == (Outdoor { kind: 0, tenths: SENTINEL_UNSET }),
            outdoor == (Outdoor { kind: 0, tenths: i32::MIN }),
            outdoor.wf(),
            !outdoor.known(),
    {
        Outdoor { kind: 0, tenths: SENTINEL_UNSET }
    }

    /// Whether there is anything to report.
    pub fn is_known(&self) -> (known: bool)
        ensures
            known == self.known(),
            known <==> self.kind != 0 && self.tenths != i32::MIN,
    {
        self.kind != 0 && self.tenths != SENTINEL_UNSET
    }
}

/// What the update of the weather does next.
#[derive(Clone, Copy, PartialEq, Eq, Structural, Debug)]
pub enum WeatherPhase {
    /// Ask for the position.
    Locate,
    /// Ask for the weather at the position.
    Observe,
    /// Wait for the next update.
    Rest,
}

/// What has come out of a phase.
#[derive(Clone, Copy, PartialEq, Eq, Structural, Debug)]
pub enum WeatherEvent {
    /// The position is known.
    Located,
    /// The weather is known: the temperature in tenths of a degree, and the weather code.
    Observed { tenths: i32, code: u32 },
    /// What was asked for did not come.
    Failed,
    /// The pause is over.
    Rested,
}

impl WeatherPhase {
    /// The phase after an event: the weather is asked for once the position is known, and every
    /// other outcome of the two questions leads to the pause.
    pub open spec fn after(self, event: WeatherEvent) -> WeatherPhase {
        match self {
            WeatherPhase::Locate => if event == WeatherEvent::Located {
                WeatherPhase::Observe
            } else {
                WeatherPhase::Rest
            },
            WeatherPhase::Observe => WeatherPhase::Rest,
            WeatherPhase::Rest => WeatherPhase::Locate,
        }
    }
}

/// What is known of the weather after an event: what was observed, and otherwise what was known
/// before.
pub open spec fn outdoor_after(
    phase: WeatherPhase,
    event: WeatherEvent,
    outdoor: Outdoor,
) -> Outdoor {
    match (phase, event) {
        (WeatherPhase::Observe, WeatherEvent::Observed { tenths, code }) => Outdoor {
            kind: weather_kind(code as int),
            tenths,
        },
        _ => outdoor,
    }
}

/// Takes what has come out of a phase into account, and says which phase comes next.
pub fn weather_step(phase: WeatherPhase, event: WeatherEvent, outdoor: &mut Outdoor) -> (next:
    WeatherPhase)
    ensures
        next == phase.after(event),
        *final(outdoor) == outdoor_after(phase, event, *old(outdoor)),
        old(outdoor).wf() ==> final(outdoor).wf(),
        next == WeatherPhase::Observe <==> phase == WeatherPhase::Locate && event
            == WeatherEvent::Located,
        next == WeatherPhase::Locate <==> phase == WeatherPhase::Rest,
        phase != WeatherPhase::Observe || event !is Observed ==> *final(outdoor) == *old(outdoor),
        phase == WeatherPhase::Observe ==> (event matches WeatherEvent::Observed { tenths, code }
            ==> final(outdoor).tenths == tenths && final(outdoor).kind == weather_kind(code as int)),
{
    match phase {
        WeatherPhase::Locate => match event {
            WeatherEvent::Located => WeatherPhase::Observe,
            _ => WeatherPhase::Rest,
        },
        WeatherPhase::Observe => {
            if let WeatherEvent::Observed { tenths, code } = event {
                *outdoor = Outdoor { kind: wmo_code_to_kind(code), tenths };
            }
            WeatherPhase::Rest
        },
        WeatherPhase::Rest => WeatherPhase::Locate,
    }
}

/// However the two questions of an update end, the pause follows, and behind the pause the next
/// update begins: an update comes to its pause after the first question where that fails, and
/// otherwise after the second.
pub proof fn lemma_every_update_rests(
    first: WeatherEvent,
    second: WeatherEvent,
    third: WeatherEvent,
)
    ensures
        first != WeatherEvent::Located ==> WeatherPhase::Locate.after(first) == WeatherPhase::Rest,
        first == WeatherEvent::Located ==> WeatherPhase::Locate.after(first).after(second)
            == WeatherPhase::Rest,
        WeatherPhase::Rest.after(third) == WeatherPhase::Locate,
{
}

/// What is known of the weather after a series of events.
pub open spec fn outdoor_after_all(
    phase: WeatherPhase,
    events: Seq<WeatherEvent>,
    outdoor: Outdoor,
) -> Outdoor
    decreases events.len(),
{
    if events.len() == 0 {
        outdoor
    } else {
        outdoor_after_all(
            phase.after(events[0]),
            events.drop_first(),
            outdoor_after(phase, events[0], outdoor),
        )
    }
}

/// Whatever happens, the kind of weather that is kept is one of those that a code can stand for.
pub proof fn lemma_kind_stays_known(
    phase: WeatherPhase,
    events: Seq<WeatherEvent>,
    outdoor: Outdoor,
)
    requires
        outdoor.wf(),
    ensures
        outdoor_after_all(phase, events, outdoor).wf(),
    decreases events.len(),
{
    if events.len() > 0 {
        lemma_kind_stays_known(
            phase.after(events[0]),
            events.drop_first(),
            outdoor_after(phase, events[0], outdoor),
        );
    }
}

/// Failures never change what is known of the weather.
pub proof fn lemma_failures_keep_weather(
    phase: WeatherPhase,
    events: Seq<WeatherEvent>,
    outdoor: Outdoor,
)
    requires
        forall|i: int| 0 <= i < events.len() ==> (#[trigger] events[i]) !is Observed,
    ensures
        outdoor_after_all(phase, events, outdoor) == outdoor,
    decreases events.len(),
{
    if events.len() > 0 {
        let rest = events.drop_first();
        assert(events[0] !is Observed);
        assert forall|i: int| 0 <= i < rest.len() implies (#[trigger] rest[i]) !is Observed by {
            assert(rest[i] == events[i + 1]);
        }
        lemma_failures_keep_weather(phase.after(events[0]), rest, outdoor);
    }
}

/// Which codes stand for which kind of weather. Every other code stands for none.
pub proof fn lemma_weather_kinds(code: int)
    ensures
        weather_kind(code) == 1 <==> code == 0 || code == 1,
        weather_kind(code) == 2 <==> code == 2 || code == 3 || code == 45 || code == 48,
        weather_kind(code) == 3 <==> 51 <= code <= 67 || 80 <= code <= 82 || 95 <= code <= 99,
        weather_kind(code) == 4 <==> 71 <= code <= 77 || code == 85 || code == 86,
        weather_kind(code) <= 4,
{
}

/// Under which name each kind of weather is reported.
pub proof fn lemma_kind_names(kind: u8)
    ensures
        kind == 1 ==> kind_name(kind) == "sun"@,
        kind == 2 ==> kind_name(kind) == "cloud"@,
        kind == 3 ==> kind_name(kind) == "rain"@,
        kind == 4 ==> kind_name(kind) == "snow"@,
        kind == 0 || kind > 4 ==> kind_name(kind) == "unknown"@,
{
}

/// What was observed last is what is known, whatever was known before and whatever fails behind
/// it: the temperature as it was observed, and the kind that the code stands for.
pub proof fn lemma_last_observation_stays(
    before: Outdoor,
    tenths: i32,
    code: u32,
    events: Seq<WeatherEvent>,
)
    requires
        forall|i: int| 0 <= i < events.len() ==> (#[trigger] events[i]) !is Observed,
    ensures
        ({
            let known = outdoor_after_all(
                WeatherPhase::Observe,
                seq![WeatherEvent::Observed { tenths, code }] + events,
                before,
            );
            &&& known.tenths == tenths
            &&& known.kind == weather_kind(code as int)
            &&& known.known() <==> weather_kind(code as int) != 0 && tenths != i32::MIN
        }),
{
    let all = seq![WeatherEvent::Observed { tenths, code }] + events;
    assert(all.drop_first() =~= events);
    lemma_failures_keep_weather(
        WeatherPhase::Rest,
        events,
        Outdoor { kind: weather_kind(code as int), tenths },
    );
}

/// An observation counts only where one was asked for: before the position is known, and during
/// the pause, what is known of the weather stays as it is.
pub proof fn lemma_only_observations_count(
    phase: WeatherPhase,
    event: WeatherEvent,
    before: Outdoor,
)
    ensures
        phase != WeatherPhase::Observe || event !is Observed ==> outdoor_after(phase, event, before)
            == before,
        phase == WeatherPhase::Observe ==> (event matches WeatherEvent::Observed { tenths, code }
            ==> outdoor_after(phase, event, before) == (Outdoor {
            kind: weather_kind(code as int),
            tenths,
        })),
        phase.after(event) == WeatherPhase::Observe <==> phase == WeatherPhase::Locate && event
            == WeatherEvent::Located,
        phase.after(event) == WeatherPhase::Locate <==> phase == WeatherPhase::Rest,
        before.known() <==> before.kind != 0 && before.tenths != i32::MIN,
{
}

} // verus!
