//! Command-line decisions: the refresh interval flag, the language of the help text, CSV
//! quoting, and the exit status each kind of failure maps to.

use vstd::prelude::*;
use vstd::string::StringExecFns;
use crate::collector::CollectorError;
use crate::i18n::{parse_language, Language};
use crate::metrics::{RefreshInterval, REFRESH_MAX_MILLIS, REFRESH_MIN_MILLIS};
use crate::text::{chars_of, ends_with, parse_dec, parse_unsigned, replace_all, replace_str, starts_with, string_of};

verus! {

/// A failure of the command line itself.
#[derive(Debug, Clone, PartialEq, Eq)]
pub enum CliError {
    Usage(String),
    CapabilityUnavailable(String),
}

impl CliError {
    pub fn message(&self) -> (s: String)
        ensures
            s@ == (match *self {
                CliError::Usage(m) => m@,
                CliError::CapabilityUnavailable(m) => "capability-unavailable: "@ + m@,
            }),
    {
        match self {
            CliError::Usage(m) => m.clone(),
            CliError::CapabilityUnavailable(m) => {
                let mut s = "capability-unavailable: ".to_owned();
                s.append(m.as_str());
                s
            },
        }
    }
}

/// Any failure a command can end with, by its kind rather than its wording.
#[derive(Debug, Clone, PartialEq, Eq)]
pub enum AppError {
    Cli(CliError),
    Collector(CollectorError),
    Other(String),
}

pub fn usage(message: &str) -> (e: AppError)
    ensures
        e matches AppError::Cli(CliError::Usage(m)) && m@ == message@,
{
    AppError::Cli(CliError::Usage(message.to_owned()))
}

/// sysexits: 64 for usage errors, 69 for a missing capability, 77 for refused
/// authorization, 70 for everything else.
pub open spec fn exit_code_spec(e: AppError) -> i32 {
    match e {
        AppError::Cli(CliError::Usage(_)) => 64,
        AppError::Cli(CliError::CapabilityUnavailable(_)) => 69,
        AppError::Collector(CollectorError::AuthorizationDenied) => 77,
        _ => 70,
    }
}

pub fn exit_code(error: &AppError) -> (code: i32)
    ensures
        code == exit_code_spec(*error),
{
    match error {
        AppError::Cli(CliError::Usage(_)) => 64,
        AppError::Cli(CliError::CapabilityUnavailable(_)) => 69,
        AppError::Collector(CollectorError::AuthorizationDenied) => 77,
        _ => 70,
    }
}

/// Milliseconds an interval flag asks for: a decimal count with the suffix `ms`, or with
/// `s` for seconds (saturating), or `None` when it has neither suffix or no valid count.
pub open spec fn interval_flag_millis(value: Seq<char>) -> Option<Result<nat, ()>> {
    if ends_with(value, "ms"@) {
        match parse_unsigned(value.take(value.len() - 2), u64::MAX as nat) {
            Some(n) => Some(Ok(n)),
            None => Some(Err(())),
        }
    } else if value.len() > 0 && value.last() == 's' {
        match parse_unsigned(value.drop_last(), u64::MAX as nat) {
            Some(n) => Some(Ok(if n * 1000 <= u64::MAX { n * 1000 } else { u64::MAX as nat })),
            None => Some(Err(())),
        }
    } else {
        None
    }
}

/// The interval a flag like `500ms` or `2s` sets; usage errors when it has no unit, when
/// the count is not a number, or when it is out of range.
pub open spec fn interval_flag_ok(value: Seq<char>) -> Option<nat> {
    match interval_flag_millis(value) {
        Some(Ok(n)) => if REFRESH_MIN_MILLIS <= n <= REFRESH_MAX_MILLIS {
            Some(n)
        } else {
            None
        },
        _ => None,
    }
}

/// The message of the usage error an interval flag earns, if any: no `ms` or `s` unit, a
/// count that is not a number, or an interval outside 250ms..=60s.
pub open spec fn interval_flag_error(value: Seq<char>) -> Option<Seq<char>> {
    match interval_flag_millis(value) {
        None => Some("interval must use ms or s, for example 500ms or 1s"@),
        Some(Err(_)) => Some("invalid interval number"@),
        Some(Ok(n)) => if REFRESH_MIN_MILLIS <= n <= REFRESH_MAX_MILLIS {
            None
        } else {
            Some("refresh interval must be between 250ms and 60s"@)
        },
    }
}

pub fn parse_interval(value: &str) -> (r: Result<RefreshInterval, AppError>)
    ensures
        match interval_flag_error(value@) {
            Some(t) => r matches Err(AppError::Cli(CliError::Usage(m))) && m@ == t,
            None => r is Ok,
        },
        r is Ok <==> interval_flag_ok(value@) is Some,
        r matches Ok(i) ==> interval_flag_ok(value@) == Some(i.millis() as nat),
        r matches Err(e) ==> e matches AppError::Cli(CliError::Usage(_)),
{
    proof {
        reveal_strlit("ms");
    }
    let chars = chars_of(value);
    let n = chars.len();
    let (parsed, multiplier): (Option<u64>, u64) = if n >= 2 && chars[n - 2] == 'm' && chars[n - 1] == 's' {
        assert(chars@.subrange(n - 2, n as int) =~= "ms"@);
        assert(chars@.subrange(0, n - 2) =~= value@.take(n - 2));
        (parse_dec(chars.as_slice(), 0, n - 2, u64::MAX), 1)
    } else if n >= 1 && chars[n - 1] == 's' {
        proof {
            if ends_with(value@, "ms"@) {
                assert(value@.subrange(n - 2, n as int)[0] == 'm');
            }
        }
        assert(chars@.subrange(0, n - 1) =~= value@.drop_last());
        (parse_dec(chars.as_slice(), 0, n - 1, u64::MAX), 1000)
    } else {
        proof {
            if ends_with(value@, "ms"@) {
                assert(value@.subrange(n - 2, n as int)[1] == 's');
            }
        }
        return Err(usage("interval must use ms or s, for example 500ms or 1s"));
    };
    let number = match parsed {
        Some(v) => v,
        None => {
            return Err(usage("invalid interval number"));
        },
    };
    let millis = match number.checked_mul(multiplier) {
        Some(v) => v,
        None => u64::MAX,
    };
    match RefreshInterval::from_millis(millis) {
        Ok(interval) => Ok(interval),
        Err(error) => Err(usage(error.message())),
    }
}

/// A CSV field: quoted, with each quote doubled.
pub open spec fn csv_text(value: Seq<char>) -> Seq<char> {
    seq!['"'] + replace_all(value, seq!['"'], seq!['"', '"']) + seq!['"']
}

pub fn csv(value: &str) -> (s: String)
    ensures
        s@ == csv_text(value@),
{
    proof {
        reveal_strlit("\"");
        reveal_strlit("\"\"");
    }
    assert("\""@ =~= seq!['"']);
    assert("\"\""@ =~= seq!['"', '"']);
    let mut s = "\"".to_owned();
    let body = replace_str(value, "\"", "\"\"");
    s.append(body.as_str());
    s.append("\"");
    s
}

/// The language named on the command line before any parsing: the first `--lang=<v>`, or
/// `--lang <v>`, whose value names a language. A `--lang` whose value names none is passed
/// over together with that value.
pub open spec fn lang_flag(args: Seq<Seq<char>>, i: nat) -> Option<Language>
    decreases args.len() - i,
{
    if i >= args.len() {
        None
    } else if starts_with(args[i as int], "--lang="@) {
        match parse_language(args[i as int].skip(7)) {
            Some(l) => Some(l),
            None => lang_flag(args, i + 1),
        }
    } else if args[i as int] == "--lang"@ {
        if i + 1 < args.len() {
            match parse_language(args[i + 1int]) {
                Some(l) => Some(l),
                None => lang_flag(args, i + 2),
            }
        } else {
            None
        }
    } else {
        lang_flag(args, i + 1)
    }
}

/// The language of the help text: the one named on the command line, else `fallback`
/// (the one the environment's locale names).
pub fn preferred_language(arguments: &[String], fallback: Language) -> (l: Language)
    ensures
        l == (match lang_flag(crate::text::strings_view(arguments@), 0) {
            Some(l) => l,
            None => fallback,
        }),
{
    proof {
        reveal_strlit("--lang=");
        reveal_strlit("--lang");
    }
    let ghost args = crate::text::strings_view(arguments@);
    let mut i: usize = 0;
    while i < arguments.len()
        invariant
            i <= arguments@.len() + 1,
            args == crate::text::strings_view(arguments@),
            lang_flag(args, 0) == lang_flag(args, i as nat),
            "--lang="@.len() == 7,
            "--lang"@ =~= seq!['-', '-', 'l', 'a', 'n', 'g'],
            "--lang="@ =~= seq!['-', '-', 'l', 'a', 'n', 'g', '='],
        decreases arguments@.len() + 1 - i,
    {
        let a = chars_of(arguments[i].as_str());
        assert(args[i as int] == a@);
        if crate::text::starts_with_lit(a.as_slice(), "--lang=") {
            let v = string_of(a.as_slice(), 7, a.len());
            assert(a@.subrange(7, a@.len() as int) =~= a@.skip(7));
            match Language::parse(v.as_str()) {
                Ok(l) => {
                    return l;
                },
                Err(_) => {
                    i = i + 1;
                },
            }
        } else if crate::text::eq_chars(a.as_slice(), "--lang") {
            if i + 1 < arguments.len() {
                assert(args[i + 1] == arguments@[i + 1]@);
                match Language::parse(arguments[i + 1].as_str()) {
                    Ok(l) => {
                        return l;
                    },
                    Err(_) => {
                        i = i + 2;
                    },
                }
            } else {
                return fallback;
            }
        } else {
            i = i + 1;
        }
    }
    fallback
}

/// What a metric subcommand reports.
#[derive(Debug, Clone, Copy, PartialEq, Eq, Structural)]
pub enum MetricKind {
    Processes,
    Cpu,
    Memory,
    Network,
    Disk,
    Gpu,
    Sensors,
}

/// How a report is printed.
#[derive(Debug, Clone, Copy, PartialEq, Eq, Structural)]
pub enum ReportFormat {
    Table,
    Json,
    Jsonl,
    Csv,
}

/// How many samples a metric command takes: `--count N` takes N, `--watch` alone runs
/// until interrupted (as many as a `u32` counts), and otherwise one.
pub open spec fn sample_count(watch: bool, count: Option<u32>) -> u32 {
    match count {
        Some(c) => c,
        None => if watch { u32::MAX } else { 1 },
    }
}

/// The usage error a metric command's flags earn, if any: a zero count; several samples
/// as one JSON document; CSV for anything but processes and network.
pub open spec fn metric_flags_error(kind: MetricKind, format: ReportFormat, watch: bool, count: Option<u32>) -> Option<Seq<char>> {
    if count == Some(0u32) {
        Some("--count must be at least 1"@)
    } else if format == ReportFormat::Json && sample_count(watch, count) > 1 {
        Some("--watch/--count requires --format jsonl or table"@)
    } else if format == ReportFormat::Csv && !(kind == MetricKind::Processes || kind == MetricKind::Network) {
        Some("CSV is supported only for ps and network"@)
    } else {
        None
    }
}

/// The number of samples a metric command takes, or the usage error its flags earn.
pub fn metric_plan(kind: MetricKind, format: ReportFormat, watch: bool, count: Option<u32>) -> (r: Result<u32, AppError>)
    ensures
        match metric_flags_error(kind, format, watch, count) {
            Some(m) => r matches Err(AppError::Cli(CliError::Usage(t))) && t@ == m,
            None => r == Ok::<u32, AppError>(sample_count(watch, count)),
        },
{
    let samples: u32 = match count {
        Some(c) => c,
        None => if watch { u32::MAX } else { 1 },
    };
    if samples == 0 {
        return Err(usage("--count must be at least 1"));
    }
    if format == ReportFormat::Json && samples > 1 {
        return Err(usage("--watch/--count requires --format jsonl or table"));
    }
    if format == ReportFormat::Csv && !(kind == MetricKind::Processes || kind == MetricKind::Network) {
        return Err(usage("CSV is supported only for ps and network"));
    }
    Ok(samples)
}

/// The GPU report needs GPU utilization from the sample unless `--enhanced` adds
/// `powermetrics` output instead.
pub fn gpu_capability(kind: MetricKind, gpu_present: bool, enhanced: bool) -> (r: Result<(), AppError>)
    ensures
        r is Err <==> (kind == MetricKind::Gpu && !gpu_present && !enhanced),
        r matches Err(e) ==> e matches AppError::Cli(CliError::CapabilityUnavailable(m))
            && m@ == "GPU utilization is not exposed by this Mac"@,
{
    if kind == MetricKind::Gpu && !gpu_present && !enhanced {
        Err(AppError::Cli(CliError::CapabilityUnavailable("GPU utilization is not exposed by this Mac".to_owned())))
    } else {
        Ok(())
    }
}

/// Full command lines may carry tokens or keys: unless sensitive output was asked for,
/// every process's arguments are dropped from the report.
pub fn redact_process_arguments(arguments: &mut Vec<Option<Vec<String>>>, show_sensitive: bool)
    ensures
        final(arguments)@.len() == old(arguments)@.len(),
        show_sensitive ==> final(arguments)@ == old(arguments)@,
        !show_sensitive ==> forall|i: int| 0 <= i < final(arguments)@.len() ==> #[trigger] final(arguments)@[i] is None,
{
    if show_sensitive {
        return;
    }
    let n = arguments.len();
    let mut i: usize = 0;
    while i < n
        invariant
            i <= n,
            arguments@.len() == n,
            forall|j: int| 0 <= j < i ==> #[trigger] arguments@[j] is None,
        decreases n - i,
    {
        arguments.set(i, None);
        i = i + 1;
    }
}

} // verus!
