//! Settings of the host: fixed ones, and those given on the command line.

use crate::number;
use vstd::prelude::*;

verus! {

/// Where telemetry goes to where the command line does not say.
pub const DEFAULT_DEST: &'static str = "192.168.1.200:9000";

/// The pause between two telemetry lines, in milliseconds, where the command line does not say.
pub const DEFAULT_INTERVAL_MS: u64 = 1000;

/// Where commands are listened for.
pub const CMD_LISTEN_ADDR: &'static str = "0.0.0.0:9001";

/// The address that is reported where the host's own is not known.
pub const UNKNOWN_IP: &'static str = "0.0.0.0";

/// The settings that the command line can change.
pub struct Config {
    /// Where telemetry goes to.
    pub dest: String,
    /// The pause between two telemetry lines, in milliseconds.
    pub interval_ms: u64,
}

/// Where telemetry goes to: the first argument behind the name of the program, or the default.
pub open spec fn dest_of(args: Seq<String>) -> Seq<char> {
    if args.len() > 1 {
        args[1]@
    } else {
        DEFAULT_DEST@
    }
}

/// The pause between two telemetry lines: the second argument behind the name of the program where
/// it is a number that fits, or the default.
pub open spec fn interval_of(args: Seq<String>) -> u64 {
    if args.len() > 2 {
        match number::u64_value(args[2]@) {
            Some(interval) => interval,
            None => DEFAULT_INTERVAL_MS,
        }
    } else {
        DEFAULT_INTERVAL_MS
    }
}

/// The settings that a command line asks for. Its first argument is the name of the program.
pub fn read_config(args: &Vec<String>) -> (config: Config)
    ensures
        config.dest@ == dest_of(args@),
        config.interval_ms == interval_of(args@),
        args@.len() > 1 ==> config.dest@ == args@[1]@,
        args@.len() <= 1 ==> config.dest@ == "192.168.1.200:9000"@,
        args@.len() > 2 ==> (number::u64_value(args@[2]@) matches Some(interval)
            ==> config.interval_ms == interval),
        args@.len() <= 2 || number::u64_value(args@[2]@) is None ==> config.interval_ms == 1000,
{
    let dest = if args.len() > 1 {
        args[1].clone()
    } else {
        DEFAULT_DEST.to_owned()
    };
    let interval = if args.len() > 2 {
        number::parse_u64(args[2].as_str())
    } else {
        None
    };
    Config { dest, interval_ms: interval.unwrap_or(DEFAULT_INTERVAL_MS) }
}

/// An interval in milliseconds that is written in digits is read back, whatever arguments follow.
pub proof fn lemma_interval_read_back(args: Seq<String>, interval: u64)
    requires
        args.len() > 2,
        args[2]@ == number::numeral(interval as nat),
    ensures
        interval_of(args) == interval,
        dest_of(args) == args[1]@,
{
    number::lemma_numeral_read_back(interval as nat);
}

} // verus!
