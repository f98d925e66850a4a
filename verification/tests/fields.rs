use telemetry_host::json::{extract_number, extract_string};
use telemetry_host::weather::{
    forecast_url, kind_str, read_forecast, read_location, weather_step, wmo_code_to_kind,
    ForecastError, LocationError, Outdoor, WeatherEvent, WeatherPhase, LOCATION_URL,
    SENTINEL_UNSET, WEATHER_REFRESH_SECS,
};

const FORECAST: &str = "{\"latitude\":44.4375,\"longitude\":26.125,\"current_units\":\
{\"time\":\"iso8601\",\"interval\":\"seconds\",\"temperature_2m\":\"\u{b0}C\",\
\"weather_code\":\"wmo code\"},\"current\":{\"time\":\"2024-05-01T12:00\",\"interval\":900,\
\"temperature_2m\":20.3,\"weather_code\":3}}";

const LOCATION: &str =
    "{\"status\":\"success\",\"city\":\"Bucharest\",\"lat\":44.4323,\"lon\":26.1063}";

#[test]
fn numbers_skip_the_units() {
    assert_eq!(extract_number(FORECAST, "temperature_2m"), Some("20.3"));
    assert_eq!(extract_number(FORECAST, "weather_code"), Some("3"));
    assert_eq!(extract_number(FORECAST, "interval"), Some("900"));
    assert_eq!(extract_number(FORECAST, "latitude"), Some("44.4375"));
    assert_eq!(extract_number(FORECAST, "time"), None);
    assert_eq!(extract_number(FORECAST, "missing"), None);
}

#[test]
fn strings_come_from_the_first_occurrence() {
    assert_eq!(extract_string(FORECAST, "temperature_2m"), Some("\u{b0}C"));
    assert_eq!(extract_string(FORECAST, "time"), Some("iso8601"));
    assert_eq!(extract_string(FORECAST, "latitude"), None);
    assert_eq!(extract_string(FORECAST, "missing"), None);
    assert_eq!(extract_string(LOCATION, "city"), Some("Bucharest"));
}

#[test]
fn strings_at_the_edges() {
    assert_eq!(extract_string("\"a\"", "a"), None);
    assert_eq!(extract_string("\"a\":", "a"), None);
    assert_eq!(extract_string("\"a\":\"", "a"), None);
    assert_eq!(extract_string("\"a\":\"\"", "a"), Some(""));
    assert_eq!(extract_string("\"a\" junk :\t\n \"v\" tail", "a"), Some("v"));
    assert_eq!(extract_string("\"a\":\"x\\\"y\"", "a"), Some("x\\"));
    assert_eq!(extract_string("\"a\":1,\"b\":\"v\"", "a"), None);
    assert_eq!(extract_string("\"\":\"v\"", ""), Some("v"));
    assert_eq!(extract_string("{\"\u{1f980}\":\"\u{e9}t\u{e9}\"}", "\u{1f980}"), Some("\u{e9}t\u{e9}"));
}

#[test]
fn numbers_at_the_edges() {
    assert_eq!(extract_number("\"a\"", "a"), None);
    assert_eq!(extract_number("\"a\":", "a"), None);
    assert_eq!(extract_number("\"a\":7", "a"), Some("7"));
    assert_eq!(extract_number("\"a\" : -1.5e3 }", "a"), Some("-1.5e3"));
    assert_eq!(extract_number("[{\"a\":\n 2 ]", "a"), Some("2"));
    assert_eq!(extract_number("\"a\":true,\"a\":4", "a"), Some("4"));
    assert_eq!(extract_number("\"a\":null", "a"), None);
    assert_eq!(extract_number("\"a\":,\"a\":5", "a"), Some("5"));
    assert_eq!(extract_number("\"a\":nan}", "a"), Some("nan"));
    assert_eq!(extract_number("\"a\", \"b\":6", "a"), Some("6"));
    assert_eq!(extract_number("\"a\":1 2", "a"), None);
}

#[test]
fn written_fields_are_read_back() {
    for value in ["", "x", "a b", "caf\u{e9}", ":,{}"] {
        let json = format!("{{\"other\":1,\"k\" : \"{}\",\"z\":2}}", value);
        assert_eq!(extract_string(&json, "k"), Some(value));
    }
    for value in ["0", "-1", "3.25", "1e9", "+.5"] {
        let json = format!("{{\"other\":1,\"k\" :  {} ,\"z\":2}}", value);
        assert_eq!(extract_number(&json, "k"), Some(value));
    }
}

#[test]
fn location_of_a_reply() {
    let location = read_location(LOCATION).ok().unwrap();
    assert_eq!(location.lat, "44.4323");
    assert_eq!(location.lon, "26.1063");
    assert_eq!(location.city, "Bucharest");
    let nameless = read_location("{\"status\":\"success\",\"lat\":1,\"lon\":-2.5}").ok().unwrap();
    assert_eq!((nameless.lat, nameless.lon, nameless.city), ("1", "-2.5", "?"));
}

#[test]
fn replies_without_a_location() {
    assert_eq!(read_location("{\"status\":\"fail\",\"lat\":1,\"lon\":2}").err(), Some(LocationError::Status));
    assert_eq!(read_location("{\"lat\":1,\"lon\":2}").err(), Some(LocationError::Status));
    assert_eq!(read_location("{\"status\":\"Success\"}").err(), Some(LocationError::Status));
    assert_eq!(read_location("{\"status\":\"success\",\"lon\":2}").err(), Some(LocationError::Latitude));
    assert_eq!(read_location("{\"status\":\"success\",\"lat\":1}").err(), Some(LocationError::Longitude));
}

#[test]
fn forecast_of_a_reply() {
    let forecast = read_forecast(FORECAST).ok().unwrap();
    assert_eq!((forecast.temperature, forecast.code), ("20.3", "3"));
    assert_eq!(read_forecast("{}").err(), Some(ForecastError::Temperature));
    assert_eq!(read_forecast("{\"weather_code\":3}").err(), Some(ForecastError::Temperature));
    assert_eq!(read_forecast("{\"temperature_2m\":3}").err(), Some(ForecastError::Code));
}

#[test]
fn addresses() {
    assert_eq!(LOCATION_URL, "http://ip-api.com/json/?fields=lat,lon,city,status");
    assert_eq!(
        forecast_url("44.4323", "26.1063"),
        "https://api.open-meteo.com/v1/forecast?latitude=44.4323&longitude=26.1063&current=temperature_2m,weather_code"
    );
    assert_eq!(WEATHER_REFRESH_SECS, 600);
}

#[test]
fn weather_codes() {
    for (code, kind) in [
        (0, 1), (1, 1), (2, 2), (3, 2), (4, 0), (44, 0), (45, 2), (46, 0), (48, 2), (50, 0), (51, 3),
        (67, 3), (68, 0), (70, 0), (71, 4), (77, 4), (78, 0), (79, 0), (80, 3), (82, 3), (83, 0),
        (84, 0), (85, 4), (86, 4), (87, 0), (94, 0), (95, 3), (99, 3), (100, 0), (u32::MAX, 0),
    ] {
        assert_eq!(wmo_code_to_kind(code), kind, "{}", code);
    }
}

#[test]
fn weather_names() {
    let names: Vec<&str> = (0..=5).map(kind_str).collect();
    assert_eq!(names, vec!["unknown", "sun", "cloud", "rain", "snow", "unknown"]);
    assert_eq!(kind_str(255), "unknown");
}

#[test]
fn weather_update_cycle() {
    let mut outdoor = Outdoor::unknown();
    assert_eq!(outdoor, Outdoor { kind: 0, tenths: SENTINEL_UNSET });
    assert!(!outdoor.is_known());
    let observed = WeatherEvent::Observed { tenths: 203, code: 3 };
    let phase = weather_step(WeatherPhase::Locate, WeatherEvent::Located, &mut outdoor);
    assert_eq!(phase, WeatherPhase::Observe);
    let phase = weather_step(phase, observed, &mut outdoor);
    assert_eq!(phase, WeatherPhase::Rest);
    assert_eq!(outdoor, Outdoor { kind: 2, tenths: 203 });
    assert!(outdoor.is_known());
    let phase = weather_step(phase, WeatherEvent::Rested, &mut outdoor);
    assert_eq!(phase, WeatherPhase::Locate);
    assert_eq!(outdoor, Outdoor { kind: 2, tenths: 203 });
}

#[test]
fn failures_keep_the_weather() {
    let before = Outdoor { kind: 4, tenths: -35 };
    let mut outdoor = before;
    let phase = weather_step(WeatherPhase::Locate, WeatherEvent::Failed, &mut outdoor);
    assert_eq!((phase, outdoor), (WeatherPhase::Rest, before));
    let phase = weather_step(WeatherPhase::Observe, WeatherEvent::Failed, &mut outdoor);
    assert_eq!((phase, outdoor), (WeatherPhase::Rest, before));
}

#[test]
fn unset_temperatures_are_not_known() {
    assert!(!Outdoor { kind: 1, tenths: SENTINEL_UNSET }.is_known());
    assert!(!Outdoor { kind: 0, tenths: 10 }.is_known());
    assert!(Outdoor { kind: 1, tenths: 0 }.is_known());
}
