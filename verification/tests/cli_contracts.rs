use bmtop::cli::{
    csv, exit_code, gpu_capability, metric_plan, parse_interval, preferred_language, redact_process_arguments, usage,
    AppError, CliError, MetricKind, ReportFormat,
};
use bmtop::collector::CollectorError;
use bmtop::i18n::Language;

#[test]
fn parse_interval_accepts_ms_and_s_within_bounds() {
    assert_eq!(parse_interval("250ms").unwrap().as_millis(), 250);
    assert_eq!(parse_interval("2s").unwrap().as_millis(), 2_000);
    for invalid in ["1", "1m", "abcms", "-1s", "100ms", "61s", ""] {
        assert!(parse_interval(invalid).is_err(), "{invalid} should fail");
    }
}

#[test]
fn exit_codes_come_from_error_types_not_message_text() {
    assert_eq!(exit_code(&usage("bad flag")), 64);
    assert_eq!(
        exit_code(&AppError::Cli(CliError::CapabilityUnavailable("no GPU".into()))),
        69
    );
    assert_eq!(exit_code(&AppError::Collector(CollectorError::AuthorizationDenied)), 77);
    assert_eq!(exit_code(&AppError::Other("permission wording only".into())), 70);
}

#[test]
fn interval_errors_are_usage_errors_with_a_reason() {
    let message = |value: &str| match parse_interval(value) {
        Err(AppError::Cli(error)) => error.message(),
        other => panic!("unexpected {other:?}"),
    };
    assert_eq!(message("5"), "interval must use ms or s, for example 500ms or 1s");
    assert_eq!(message("xs"), "invalid interval number");
    assert_eq!(message("61s"), "refresh interval must be between 250ms and 60s");
    assert_eq!(message("99999999999999999999s"), "invalid interval number");
    assert_eq!(message("18446744073709551615s"), "refresh interval must be between 250ms and 60s");
    assert_eq!(parse_interval("+60s").unwrap().as_millis(), 60_000);
    assert_eq!(
        CliError::CapabilityUnavailable("no GPU".into()).message(),
        "capability-unavailable: no GPU"
    );
}

#[test]
fn csv_fields_are_quoted_with_doubled_quotes() {
    assert_eq!(csv("plain"), "\"plain\"");
    assert_eq!(csv("say \"hi\""), "\"say \"\"hi\"\"\"");
    assert_eq!(csv(""), "\"\"");
}

#[test]
fn the_language_flag_wins_over_the_environment() {
    let args = |values: &[&str]| values.iter().map(|v| v.to_string()).collect::<Vec<_>>();
    assert_eq!(preferred_language(&args(&["bmtop", "--lang=zh"]), Language::English), Language::Chinese);
    assert_eq!(preferred_language(&args(&["bmtop", "--lang", "en"]), Language::Chinese), Language::English);
    assert_eq!(preferred_language(&args(&["bmtop", "--lang=fr", "--lang", "zh"]), Language::English), Language::Chinese);
    assert_eq!(preferred_language(&args(&["bmtop", "--lang", "fr", "zh"]), Language::English), Language::English);
    assert_eq!(preferred_language(&args(&["bmtop", "--lang"]), Language::Chinese), Language::Chinese);
    assert_eq!(preferred_language(&args(&["bmtop"]), Language::Chinese), Language::Chinese);
}

#[test]
fn metric_flags_decide_the_number_of_samples() {
    let usage_error = |message: &str| Err(AppError::Cli(CliError::Usage(message.to_string())));
    assert_eq!(metric_plan(MetricKind::Cpu, ReportFormat::Table, false, None), Ok(1));
    assert_eq!(metric_plan(MetricKind::Cpu, ReportFormat::Jsonl, false, Some(60)), Ok(60));
    assert_eq!(metric_plan(MetricKind::Network, ReportFormat::Table, true, None), Ok(u32::MAX));
    assert_eq!(metric_plan(MetricKind::Cpu, ReportFormat::Table, true, Some(3)), Ok(3));
    assert_eq!(
        metric_plan(MetricKind::Memory, ReportFormat::Table, false, Some(0)),
        usage_error("--count must be at least 1")
    );
    assert_eq!(
        metric_plan(MetricKind::Memory, ReportFormat::Json, false, Some(2)),
        usage_error("--watch/--count requires --format jsonl or table")
    );
    assert_eq!(metric_plan(MetricKind::Memory, ReportFormat::Json, false, Some(1)), Ok(1));
    assert_eq!(
        metric_plan(MetricKind::Disk, ReportFormat::Csv, false, None),
        usage_error("CSV is supported only for ps and network")
    );
    assert_eq!(metric_plan(MetricKind::Processes, ReportFormat::Csv, false, None), Ok(1));
}

#[test]
fn gpu_reports_need_a_gpu_or_enhanced_sampling_and_arguments_stay_private() {
    assert_eq!(
        gpu_capability(MetricKind::Gpu, false, false),
        Err(AppError::Cli(CliError::CapabilityUnavailable("GPU utilization is not exposed by this Mac".into())))
    );
    assert_eq!(gpu_capability(MetricKind::Gpu, false, true), Ok(()));
    assert_eq!(gpu_capability(MetricKind::Gpu, true, false), Ok(()));
    assert_eq!(gpu_capability(MetricKind::Cpu, false, false), Ok(()));
    let original = vec![Some(vec!["--token".to_string(), "secret".to_string()]), None];
    let mut shown = original.clone();
    redact_process_arguments(&mut shown, true);
    assert_eq!(shown, original);
    let mut hidden = original.clone();
    redact_process_arguments(&mut hidden, false);
    assert_eq!(hidden, vec![None, None]);
}
