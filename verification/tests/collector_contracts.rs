use bmtop::metrics::RefreshInterval;
use bmtop::collector::{
    authorization_outcome, authorize_sudo, snapshot_capabilities, powermetrics_command, run_powermetrics_once, signal_outcome, c_string, disk_io_available, lsof_tags_are_ascii, parse_ps_output, uptime_seconds, PsRow, is_sensitive_key, parse_lsof_fields, powermetrics_args,
    NetworkConnection, command_failure, find_process, kill_command, parse_procargs2,
    parse_procargs2_args, process_name, process_path, process_state, send_signal_if_identity,
    signal_route, thread_state, CollectorConfig, CollectorError, ProcessRaw, ProcessSignal,
    SignalRoute,
};

fn raw(pid: i32, uid: u32, start_seconds: u64, name: &[u8]) -> ProcessRaw {
    let mut value = ProcessRaw {
        pid,
        parent_pid: 1,
        uid,
        status: 2,
        thread_count: 1,
        running_threads: 0,
        resident_bytes: 0,
        virtual_bytes: 0,
        user_ticks: 0,
        system_ticks: 0,
        start_seconds,
        start_microseconds: 7,
        name: [0; 64],
        path: [0; 1024],
    };
    value.name[..name.len()].copy_from_slice(name);
    value
}

#[test]
fn process_state_labels_match_bsd_values() {
    assert_eq!(process_state(4, 0), "stop");
    assert_eq!(process_state(5, 0), "zombie");
    assert_eq!(process_state(1, 0), "idle");
    assert_eq!(process_state(99, 0), "other");
}

#[test]
fn running_threads_separate_run_from_sleep() {
    assert_eq!(process_state(2, 0), "sleep");
    assert_eq!(process_state(2, 1), "run");
    assert_eq!(process_state(3, 0), "sleep");
    assert_eq!(process_state(3, 2), "run");
}

#[test]
fn thread_states_map_th_state_values() {
    assert_eq!(thread_state(1), "run");
    assert_eq!(thread_state(3), "sleep");
    assert_eq!(thread_state(4), "uwait");
    assert_eq!(thread_state(99), "other");
}

#[test]
fn procargs2_layout_is_parsed_into_argv() {
    let mut raw = 3i32.to_ne_bytes().to_vec();
    raw.extend_from_slice(b"/usr/bin/tool\0\0\0");
    raw.extend_from_slice(b"tool\0--flag\0value with space\0HOME=/Users/mac\0");
    assert_eq!(
        parse_procargs2(&raw),
        Some(vec![
            "tool".to_string(),
            "--flag".to_string(),
            "value with space".to_string()
        ])
    );
}

#[test]
fn procargs2_rejects_truncated_or_empty_buffers() {
    assert_eq!(parse_procargs2(&[]), None);
    assert_eq!(parse_procargs2(&[1, 0]), None);
    assert_eq!(parse_procargs2(&0i32.to_ne_bytes()), None);
    let mut raw = 1i32.to_ne_bytes().to_vec();
    raw.extend_from_slice(b"/bin/x");
    assert_eq!(parse_procargs2(&raw), None);
}

#[test]
fn procargs2_keeps_empty_arguments_and_stops_at_the_count() {
    assert_eq!(
        parse_procargs2_args(2, b"/bin/x\0\0a\0\0b\0"),
        Some(vec!["a".to_string(), String::new()])
    );
    assert_eq!(parse_procargs2_args(-1, b"/bin/x\0a\0"), None);
    assert_eq!(parse_procargs2_args(5, b"/bin/x\0a\0tail"), Some(vec!["a".to_string()]));
}

#[test]
fn nul_padded_fields_become_text_or_nothing() {
    assert_eq!(c_string(b"en0\0\0\0"), Some("en0".to_string()));
    assert_eq!(c_string(b"\0abc"), None);
    assert_eq!(c_string(b""), None);
    assert_eq!(c_string(b"caf\xc3\xa9\0"), Some("café".to_string()));
    assert_eq!(c_string(b"a\xffb"), Some("a\u{FFFD}b".to_string()));
}

#[test]
fn process_names_fall_back_to_the_pid() {
    let named = raw(42, 501, 1, b"Finder");
    assert_eq!(process_name(&named), "Finder");
    let unnamed = raw(-7, 501, 1, b"");
    assert_eq!(process_name(&unnamed), "PID -7");
    assert_eq!(process_path(&unnamed), None);
}

#[test]
fn signals_are_refused_for_protected_or_stale_targets() {
    let target = raw(500, 501, 100, b"app");
    let refuse = Err(CollectorError::UnsafeProcessTarget);
    assert_eq!(signal_route(1, 99, 501, Some(target), 100, 7), refuse.clone());
    assert_eq!(signal_route(0, 99, 501, Some(target), 100, 7), refuse.clone());
    assert_eq!(signal_route(500, 500, 501, Some(target), 100, 7), refuse.clone());
    assert_eq!(signal_route(500, 99, 501, None, 100, 7), refuse.clone());
    assert_eq!(signal_route(500, 99, 501, Some(target), 101, 7), refuse.clone());
    assert_eq!(signal_route(500, 99, 501, Some(target), 100, 8), refuse);
    assert_eq!(signal_route(500, 99, 501, Some(target), 100, 7), Ok(SignalRoute::Direct));
    assert_eq!(signal_route(500, 99, 0, Some(target), 100, 7), Ok(SignalRoute::ViaSudo));
}

#[test]
fn kill_commands_name_the_signal_and_pid() {
    let (program, args) = kill_command(SignalRoute::Direct, ProcessSignal::Terminate, 321);
    assert_eq!(program, "/bin/kill");
    assert_eq!(args, vec!["-s", "TERM", "321"]);
    let (program, args) = kill_command(SignalRoute::ViaSudo, ProcessSignal::Kill, 321);
    assert_eq!(program, "/usr/bin/sudo");
    assert_eq!(args, vec!["-n", "--", "/bin/kill", "-s", "KILL", "321"]);
}

#[test]
fn the_target_is_the_first_process_with_the_pid() {
    let rows = [raw(10, 0, 1, b"a"), raw(20, 0, 2, b"b"), raw(20, 0, 3, b"c")];
    assert_eq!(find_process(&rows, 20), Some(1));
    assert_eq!(find_process(&rows, 30), None);
}

#[test]
fn errors_read_as_sentences() {
    assert_eq!(
        CollectorError::UnsupportedPlatform.message(),
        "native collector is unavailable on this platform"
    );
    let failed = command_failure("df", "  disk busy\n");
    assert_eq!(failed.message(), "failed to execute df: disk busy");
    let parse = CollectorError::Parse { kind: "df".into(), message: "no reportable volume".into() };
    assert_eq!(parse.message(), "failed to parse df: no reportable volume");
    assert_eq!(authorization_outcome(true), Ok(()));
    assert_eq!(authorization_outcome(false), Err(CollectorError::AuthorizationDenied));
    assert_eq!(
        CollectorError::AuthorizationDenied.message(),
        "administrator authorization was not granted"
    );
}

#[test]
fn signals_are_refused_before_any_command_and_routed_by_owner() {
    let own = raw(500, 501, 100, b"fixture");
    let other = raw(600, 0, 100, b"daemon");
    for pid in [0, 1, 42] {
        assert_eq!(
            send_signal_if_identity(pid, 42, 501, Some(own), 100, 7, ProcessSignal::Terminate),
            Err(CollectorError::UnsafeProcessTarget)
        );
    }
    assert_eq!(
        send_signal_if_identity(500, 42, 501, None, 100, 7, ProcessSignal::Terminate),
        Err(CollectorError::UnsafeProcessTarget)
    );
    assert_eq!(
        send_signal_if_identity(500, 42, 501, Some(own), 101, 7, ProcessSignal::Terminate),
        Err(CollectorError::UnsafeProcessTarget)
    );
    let (route, (program, args)) =
        send_signal_if_identity(500, 42, 501, Some(own), 100, 7, ProcessSignal::Terminate).unwrap();
    assert_eq!(route, SignalRoute::Direct);
    assert_eq!(program, "/bin/kill");
    assert_eq!(args, vec!["-s", "TERM", "500"]);
    let (route, (program, args)) =
        send_signal_if_identity(600, 42, 501, Some(other), 100, 7, ProcessSignal::Kill).unwrap();
    assert_eq!(route, SignalRoute::ViaSudo);
    assert_eq!(program, "/usr/bin/sudo");
    assert_eq!(args, vec!["-n", "--", "/bin/kill", "-s", "KILL", "600"]);
    assert_eq!(signal_outcome(Ok(true)), Ok(()));
    assert_eq!(signal_outcome(Ok(false)), Err(CollectorError::AuthorizationDenied));
    assert_eq!(
        signal_outcome(Err("no such file".into())),
        Err(CollectorError::Command { program: "kill".into(), message: "no such file".into() })
    );
    let config = CollectorConfig::default();
    assert!(config.include_system_processes);
    assert!(!config.show_sensitive);
}

#[test]
fn sudo_and_powermetrics_outcomes_follow_their_exit() {
    assert_eq!(authorize_sudo(Ok(true)), Ok(()));
    assert_eq!(authorize_sudo(Ok(false)), Err(CollectorError::AuthorizationDenied));
    assert_eq!(
        authorize_sudo(Err("not found".into())),
        Err(CollectorError::Command { program: "sudo".into(), message: "not found".into() })
    );
    let (program, args) = powermetrics_command(RefreshInterval::from_millis(750).unwrap());
    assert_eq!(program, "/usr/bin/sudo");
    assert_eq!(
        args,
        vec!["-n", "--", "/usr/bin/powermetrics", "-n", "1", "-i", "750", "--samplers", "gpu_power,thermal", "-f", "plist"]
    );
    assert_eq!(run_powermetrics_once(Ok((true, b"<plist/>".to_vec(), String::new()))), Ok(b"<plist/>".to_vec()));
    assert_eq!(
        run_powermetrics_once(Ok((false, Vec::new(), "  sudo: a password is required\n".into()))),
        Err(CollectorError::Command {
            program: "powermetrics".into(),
            message: "sudo: a password is required".into()
        })
    );
    assert_eq!(
        run_powermetrics_once(Err("spawn failed".into())),
        Err(CollectorError::Command { program: "powermetrics".into(), message: "spawn failed".into() })
    );
}

#[test]
fn uptime_and_disk_counters_follow_what_was_read() {
    assert_eq!(uptime_seconds(0, 1_000, Some(4_600)), Some(3_600));
    assert_eq!(uptime_seconds(-1, 1_000, Some(4_600)), None);
    assert_eq!(uptime_seconds(0, 0, Some(4_600)), None);
    assert_eq!(uptime_seconds(0, 5_000, Some(4_600)), None);
    assert_eq!(uptime_seconds(0, 1_000, None), None);
    assert!(disk_io_available(Some((1, 2, 3, 4))));
    assert!(!disk_io_available(None));
}

#[test]
fn lsof_fields_become_one_row_per_process() {
    let text = "p101\0cSafari\0PTCP\0n10.0.0.2:5000->1.1.1.1:443\0TST=ESTABLISHED\0TQR=0\0\0p202\0cmDNS\0PUDP\0n*:5353\0";
    let rows = parse_lsof_fields(text);
    assert_eq!(
        rows,
        vec![
            NetworkConnection {
                pid: 101,
                command: Some("Safari".into()),
                protocol: Some("TCP".into()),
                endpoint: Some("10.0.0.2:5000->1.1.1.1:443".into()),
                state: Some("ESTABLISHED".into()),
            },
            NetworkConnection {
                pid: 202,
                command: Some("mDNS".into()),
                protocol: Some("UDP".into()),
                endpoint: Some("*:5353".into()),
                state: None,
            },
        ]
    );
    assert!(parse_lsof_fields("").is_empty());
}

#[test]
fn lsof_fields_without_a_valid_pid_carry_over() {
    let rows = parse_lsof_fields("pxyz\0cfirst\0p-7\0TST=ST=LISTEN\0");
    assert_eq!(rows.len(), 1);
    assert_eq!(rows[0].pid, -7);
    assert_eq!(rows[0].command.as_deref(), Some("first"));
    assert_eq!(rows[0].state.as_deref(), Some("LISTEN"));
}

#[test]
fn identifying_keys_are_recognised_in_any_case() {
    for key in ["device_serialNumber", "controller_address", "platform_UUID", "provisioning_UDID"] {
        assert!(is_sensitive_key(key), "{key}");
    }
    for key in ["machine_model", "model", "udi"] {
        assert!(!is_sensitive_key(key), "{key}");
    }
}

#[test]
fn powermetrics_is_asked_for_one_plist_sample() {
    let interval = RefreshInterval::from_millis(1_500).unwrap();
    assert_eq!(
        powermetrics_args(interval),
        vec!["-n", "--", "/usr/bin/powermetrics", "-n", "1", "-i", "1500", "--samplers", "gpu_power,thermal", "-f", "plist"]
    );
}

#[test]
fn ps_lines_become_rows_and_other_users_can_be_left_out() {
    let text = "    1     0     0 Ss     0.0  12345 /sbin/launchd\n  412     1   501 S      3.5   2048 /Applications/Safari.app/Contents/MacOS/Safari Helper\nbad line\n 77 1 0 R 1.0 x kernel stuff\n";
    let all = parse_ps_output(text, true, 501);
    assert_eq!(all.len(), 3);
    assert_eq!(
        all[0],
        PsRow {
            pid: 1,
            parent_pid: 0,
            uid: 0,
            state: "Ss".into(),
            cpu_text: "0.0".into(),
            resident_bytes: Some(12_641_280),
            name: "/sbin/launchd".into(),
        }
    );
    assert_eq!(all[1].name, "/Applications/Safari.app/Contents/MacOS/Safari Helper");
    assert_eq!(all[1].resident_bytes, Some(2_097_152));
    assert_eq!(all[2].resident_bytes, None);
    assert_eq!(all[2].name, "kernel stuff");
    let mine = parse_ps_output(text, false, 501);
    assert_eq!(mine.len(), 1);
    assert_eq!(mine[0].pid, 412);
    assert_eq!(mine[0].cpu_text, "3.5");
    assert!(parse_ps_output("", true, 0).is_empty());
    assert!(parse_ps_output("x 1 0 S 0.0 1 name\n", true, 0).is_empty());
}

#[test]
fn lsof_fields_need_one_byte_tags() {
    assert!(lsof_tags_are_ascii("p12\0cfoo\0PTCP\0"));
    assert!(lsof_tags_are_ascii(""));
    assert!(lsof_tags_are_ascii("\0\0p1"));
    assert!(lsof_tags_are_ascii("p1\0cé\0"));
    assert!(!lsof_tags_are_ascii("p1\0é\0"));
    assert!(!lsof_tags_are_ascii("ñp1"));
}

#[test]
fn capabilities_say_what_the_sample_holds() {
    assert_eq!(snapshot_capabilities(false, true, true), vec!["cpu", "memory", "network", "processes", "gpu", "soc"]);
    assert_eq!(
        snapshot_capabilities(true, false, false),
        vec!["cpu", "memory", "network", "processes:permission_denied", "soc:unavailable"]
    );
}
