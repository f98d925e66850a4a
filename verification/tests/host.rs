use telemetry_host::command::{
    command_from_bytes, command_from_text, shell, shutdown_attempt, Action, Shutdown,
    SHUTDOWN_ATTEMPTS,
};
use telemetry_host::config::{
    read_config, CMD_LISTEN_ADDR, DEFAULT_DEST, DEFAULT_INTERVAL_MS, UNKNOWN_IP,
};
use telemetry_host::cpu::{counters_fit, read_cpu_temp, read_cpu_usage, CpuLoad, TEMP_LIMIT};
use telemetry_host::fetch::{curl, fetched, FetchError};
use telemetry_host::gpu::{
    detect_gpu_label, gpu_intel, gpu_nvidia, nvidia_query, read_first_gauge, read_gauge, AmdScan,
    GpuSearch, GpuVendor,
};
use telemetry_host::link::{Link, RETRY_MS};
use telemetry_host::memory::{read_mem_usage, MemUsage};
use telemetry_host::message::{telemetry_line, Readings};
use telemetry_host::weather::Outdoor;

fn strings(parts: &[&str]) -> Vec<String> {
    parts.iter().map(|p| p.to_string()).collect()
}

#[test]
fn hottest_zone() {
    assert_eq!(read_cpu_temp(&strings(&[])), None);
    assert_eq!(read_cpu_temp(&strings(&["45000\n", "52500\n", "38000\n"])), Some(52500));
    assert_eq!(read_cpu_temp(&strings(&["x", "", "-5000", "0", "150000", "151000"])), None);
    assert_eq!(read_cpu_temp(&strings(&["150000", "149999", "1"])), Some(149999));
    assert_eq!(read_cpu_temp(&strings(&["1", "-40000"])), Some(1));
    assert_eq!(read_cpu_temp(&strings(&["45.0", "99999999999"])), None);
    assert_eq!(TEMP_LIMIT, 150000);
}

#[test]
fn zone_limits_in_thousandths_are_those_in_degrees() {
    for milli in -2000..200_000_i32 {
        let degrees = milli as f32 / 1000.0;
        let plausible = degrees > 0.0 && degrees < 150.0;
        assert_eq!(0 < milli && milli < TEMP_LIMIT, plausible, "{}", milli);
    }
    assert_eq!(read_cpu_temp(&vec![i32::MAX.to_string(), i32::MIN.to_string()]), None);
}

const STAT: &str = "cpu  100 20 30 800 50\ncpu0 1 2 3 4 5\n";

#[test]
fn load_between_two_samples() {
    let mut prev = None;
    assert_eq!(read_cpu_usage(&mut prev, STAT), Some(CpuLoad::Unmeasured));
    assert_eq!(prev, Some((800, 1000)));
    let next = "cpu  150 20 30 900 50\n";
    assert_eq!(
        read_cpu_usage(&mut prev, next),
        Some(CpuLoad::Measured { idle: 100, total: 150 })
    );
    assert_eq!(prev, Some((900, 1150)));
    assert_eq!(read_cpu_usage(&mut prev, next), Some(CpuLoad::Unmeasured));
    assert_eq!(read_cpu_usage(&mut prev, STAT), Some(CpuLoad::Unmeasured));
    assert_eq!(prev, Some((800, 1000)));
    let idle_back = "cpu 400 0 0 700 0";
    assert_eq!(
        read_cpu_usage(&mut prev, idle_back),
        Some(CpuLoad::Measured { idle: 0, total: 100 })
    );
}

#[test]
fn statistics_without_counters() {
    let mut prev = Some((1, 2));
    for stat in ["", "\n", "cpu\n1 2 3 4", "cpu 1 2 3", "cpu 1 2 x 3", "1 2 3 4"] {
        assert!(counters_fit(stat));
        assert_eq!(read_cpu_usage(&mut prev, stat), None, "{:?}", stat);
        assert_eq!(prev, Some((1, 2)));
    }
    assert_eq!(read_cpu_usage(&mut prev, "cpu 1 x 2 3 4"), Some(CpuLoad::Measured { idle: 3, total: 8 }));
    assert_eq!(prev, Some((4, 10)));
}

#[test]
fn counters_that_cannot_be_added_up() {
    assert!(counters_fit("cpu 18446744073709551615 0 0 0"));
    assert!(!counters_fit("cpu 18446744073709551615 0 0 1"));
    assert!(counters_fit("cpu 18446744073709551615 1 0"));
    assert!(counters_fit("cpu 18446744073709551616 1 0 0 0"));
}

#[test]
fn memory_in_use() {
    let meminfo = "MemTotal:       16000000 kB\nMemFree:  1 kB\nMemAvailable:    4000000 kB\n";
    assert_eq!(
        read_mem_usage(meminfo),
        Some(MemUsage { total: 16000000, available: 4000000 })
    );
    assert_eq!(read_mem_usage("MemTotal: 5\n"), None);
    assert_eq!(read_mem_usage("MemAvailable: 5\n"), None);
    assert_eq!(read_mem_usage(""), None);
    assert_eq!(read_mem_usage(" MemTotal: 5\nMemAvailable: 5"), None);
}

#[test]
fn the_last_line_of_a_name_counts() {
    let twice = "MemTotal: 1\nMemAvailable:2\nMemTotal: 3\r\nMemAvailable: 4 kB";
    assert_eq!(read_mem_usage(twice), Some(MemUsage { total: 3, available: 4 }));
    assert_eq!(read_mem_usage("MemTotal: 1\nMemAvailable: 2\nMemTotal: x\n"), None);
    assert_eq!(read_mem_usage("MemTotal: 1\nMemAvailable: 2\nMemTotal:\n"), None);
    assert_eq!(read_mem_usage("MemTotal:0\nMemAvailable:2"), Some(MemUsage { total: 0, available: 2 }));
}

#[test]
fn gpu_search_order() {
    for (answers, label) in [
        ([true, true, true], "NVIDIA"),
        ([false, true, true], "AMD"),
        ([false, false, true], "Intel"),
        ([false, false, false], "necunoscut (0%)"),
    ] {
        let mut search = GpuSearch::start();
        let mut probed = Vec::new();
        while let GpuSearch::Probe(vendor) = search {
            probed.push(vendor);
            let answered = match vendor {
                GpuVendor::Nvidia => answers[0],
                GpuVendor::Amd => answers[1],
                GpuVendor::Intel => answers[2],
            };
            search = search.next(answered);
        }
        assert_eq!(detect_gpu_label(search), label);
        let order = [GpuVendor::Nvidia, GpuVendor::Amd, GpuVendor::Intel];
        let asked = answers.iter().position(|a| *a).map_or(3, |at| at + 1);
        assert_eq!(probed, order[..asked].to_vec());
        assert_eq!(search.next(true), search);
    }
}

#[test]
fn gauges() {
    assert_eq!(read_gauge(" 37\n"), Some("37"));
    assert_eq!(read_gauge("37 %"), None);
    assert_eq!(read_gauge(""), None);
    assert_eq!(read_first_gauge("12\r\n99\n"), Some("12"));
    assert_eq!(read_first_gauge("\n99\n"), None);
    assert_eq!(read_first_gauge(""), None);
}

#[test]
fn nvidia_answers() {
    assert_eq!(gpu_nvidia(true, b"37\n12\n"), Some("37".to_string()));
    assert_eq!(gpu_nvidia(false, b"37\n"), None);
    assert_eq!(gpu_nvidia(true, b""), None);
    assert_eq!(gpu_nvidia(true, b"[N/A]\n"), None);
    assert_eq!(gpu_nvidia(true, b"3\xff\n4\n"), None);
    assert_eq!(gpu_nvidia(true, b"5\n\xff"), Some("5".to_string()));
    let query = nvidia_query();
    assert_eq!(query.program, "nvidia-smi");
    assert_eq!(
        query.args,
        strings(&["--query-gpu=utilization.gpu", "--format=csv,noheader,nounits"])
    );
}

#[test]
fn the_first_amd_report_counts() {
    let mut scan = AmdScan::start();
    assert_eq!(scan.found, None);
    assert!(scan.offer("busy"));
    assert!(!scan.offer("42\n"));
    assert!(!scan.offer("7\n"));
    assert_eq!(scan.found, Some("42".to_string()));
}

#[test]
fn intel_frequencies() {
    assert_eq!(gpu_intel("300\n", "1200\n"), Some(("300", "1200")));
    assert_eq!(gpu_intel("x", "1200"), None);
    assert_eq!(gpu_intel("300", ""), None);
}

#[test]
fn commands_from_text() {
    for blank in ["", " \r\n\t"] {
        let command = command_from_text(blank);
        assert_eq!((command.text.as_str(), command.action), ("", Action::Ignore));
    }
    for order in ["SHUTDOWN", "shutdown\r\n", "  ShutDown "] {
        assert_eq!(command_from_text(order).action, Action::Shutdown);
    }
    for other in ["SHUTDOWN now", "uptime", "shut down"] {
        let command = command_from_text(other);
        assert_eq!((command.text.as_str(), command.action), (other, Action::Execute));
    }
    assert_eq!(command_from_text(" \u{a0}ls  -l\n").text, "ls  -l");
}

#[test]
fn commands_from_bytes() {
    let command = command_from_bytes(b" shutdown\n");
    assert_eq!((command.text.as_str(), command.action), ("shutdown", Action::Shutdown));
    let command = command_from_bytes(b"");
    assert_eq!((command.text.as_str(), command.action), ("", Action::Ignore));
    let command = command_from_bytes("echo \u{e9}\n".as_bytes());
    assert_eq!((command.text.as_str(), command.action), ("echo \u{e9}", Action::Execute));
    let command = command_from_bytes(b"\xffSHUTDOWN");
    assert_eq!((command.text.as_str(), command.action), ("\u{fffd}SHUTDOWN", Action::Execute));
    let command = command_from_bytes(b" \xc3 ");
    assert_eq!((command.text.as_str(), command.action), ("\u{fffd}", Action::Execute));
}

#[test]
fn the_shell_gets_the_command() {
    let invocation = shell("echo 'a b'");
    assert_eq!(invocation.program, "sh");
    assert_eq!(invocation.args, strings(&["-c", "echo 'a b'"]));
}

#[test]
fn ways_to_power_off() {
    let mut all = Vec::new();
    while let Some(invocation) = shutdown_attempt(all.len()) {
        all.push((invocation.program, invocation.args.join(" ")));
    }
    let expected: Vec<(String, String)> = [
        ("systemctl", "poweroff"),
        ("shutdown", "-h now"),
        ("sudo", "-n shutdown -h now"),
        ("loginctl", "poweroff"),
    ]
    .iter()
    .map(|(p, a)| (p.to_string(), a.to_string()))
    .collect();
    assert_eq!(all, expected);
    assert_eq!(SHUTDOWN_ATTEMPTS, 4);
    assert!(shutdown_attempt(usize::MAX).is_none());
}

#[test]
fn powering_off_stops_at_the_first_success() {
    for accepted in 0..=4_usize {
        let mut state = Shutdown::start();
        let mut tried = 0;
        while let Shutdown::Trying(attempt) = state {
            assert_eq!(attempt, tried);
            tried += 1;
            state = state.next(attempt == accepted);
        }
        if accepted < 4 {
            assert_eq!((state, tried), (Shutdown::Accepted(accepted), accepted + 1));
        } else {
            assert_eq!((state, tried), (Shutdown::Refused, 4));
        }
        assert_eq!(state.next(true), state);
    }
}

#[test]
fn curl_arguments() {
    let invocation = curl("http://x/");
    assert_eq!(invocation.program, "curl");
    assert_eq!(
        invocation.args,
        strings(&["-sS", "-4", "-L", "--connect-timeout", "5", "--max-time", "15", "http://x/"])
    );
}

#[test]
fn fetched_documents() {
    assert_eq!(fetched(true, "{\"a\":\"\u{b0}\"}".as_bytes().to_vec()), Ok("{\"a\":\"\u{b0}\"}".to_string()));
    assert_eq!(fetched(true, vec![]), Ok(String::new()));
    assert_eq!(fetched(false, b"text".to_vec()), Err(FetchError::Failed));
    assert_eq!(fetched(true, vec![b'a', 0xff]), Err(FetchError::NotUtf8));
    assert_eq!(fetched(false, vec![0xff]), Err(FetchError::Failed));
}

#[test]
fn command_line() {
    let config = read_config(&strings(&["telemetry-host"]));
    assert_eq!((config.dest.as_str(), config.interval_ms), ("192.168.1.200:9000", 1000));
    let config = read_config(&strings(&["telemetry-host", "10.0.0.1:80"]));
    assert_eq!((config.dest.as_str(), config.interval_ms), ("10.0.0.1:80", 1000));
    let config = read_config(&strings(&["telemetry-host", "192.168.1.200:9000", "500"]));
    assert_eq!((config.dest.as_str(), config.interval_ms), ("192.168.1.200:9000", 500));
    let config = read_config(&strings(&["telemetry-host", "x", "-5", "7"]));
    assert_eq!((config.dest.as_str(), config.interval_ms), ("x", 1000));
    let config = read_config(&strings(&[]));
    assert_eq!((config.dest.as_str(), config.interval_ms), (DEFAULT_DEST, DEFAULT_INTERVAL_MS));
    assert_eq!((CMD_LISTEN_ADDR, UNKNOWN_IP), ("0.0.0.0:9001", "0.0.0.0"));
}

#[test]
fn link_states() {
    assert_eq!(Link::Down.next(true, 1000), (Link::Up, 0));
    assert_eq!(Link::Down.next(false, 1000), (Link::Down, 3000));
    assert_eq!(Link::Up.next(true, 1000), (Link::Up, 1000));
    assert_eq!(Link::Up.next(false, 1000), (Link::Down, 0));
    assert_eq!(RETRY_MS, 3000);
}

fn readings() -> Readings<'static> {
    Readings { temp: Some("45.2"), cpu: Some("3.0"), mem: Some("50.1"), gpu: None }
}

#[test]
fn lines_without_weather() {
    let expected = "TEMP=45.2 CPU=3.0 MEM=50.1 GPU=0.0 IP=10.0.0.2\n";
    for outdoor in [
        Outdoor::unknown(),
        Outdoor { kind: 0, tenths: 203 },
        Outdoor { kind: 2, tenths: i32::MIN },
    ] {
        assert_eq!(telemetry_line(&readings(), "10.0.0.2", &outdoor, "20.3"), expected);
    }
    let none = Readings { temp: None, cpu: None, mem: None, gpu: None };
    assert_eq!(
        telemetry_line(&none, "0.0.0.0", &Outdoor::unknown(), ""),
        "TEMP=0.0 CPU=0.0 MEM=0.0 GPU=0.0 IP=0.0.0.0\n"
    );
}

#[test]
fn lines_with_weather() {
    let outdoor = Outdoor { kind: 3, tenths: -12 };
    let line = telemetry_line(&readings(), "10.0.0.2", &outdoor, "-1.2");
    assert_eq!(
        line,
        "TEMP=45.2 CPU=3.0 MEM=50.1 GPU=0.0 IP=10.0.0.2 WEATHER=rain OUT=-1.2\n"
    );
    let fields: Vec<&str> = line.split_whitespace().collect();
    assert_eq!(
        fields,
        vec!["TEMP=45.2", "CPU=3.0", "MEM=50.1", "GPU=0.0", "IP=10.0.0.2", "WEATHER=rain", "OUT=-1.2"]
    );
    assert_eq!(line.find('\n'), Some(line.len() - 1));
    let odd = Outdoor { kind: 9, tenths: 0 };
    assert_eq!(
        telemetry_line(&readings(), "::1", &odd, "0.0"),
        "TEMP=45.2 CPU=3.0 MEM=50.1 GPU=0.0 IP=::1 WEATHER=unknown OUT=0.0\n"
    );
}
