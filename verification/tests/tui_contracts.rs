use bmtop::disk::DiskVolume;
use bmtop::format::format_uptime;
use bmtop::i18n::Language;
use bmtop::metrics::AppMode;
use bmtop::tui::{
    parse_interval_input, DetailSection, InputMode, KeyCode, KeyEvent, KeyModifiers, LoopState, ModeDetail,
    ProcessIdentity, ProcessSignalKind, SortKey, UiState,
};

const NONE: KeyModifiers = KeyModifiers { shift: false, control: false, alt: false, super_key: false };

fn key(code: KeyCode) -> KeyEvent {
    KeyEvent { code, modifiers: NONE }
}

fn chinese(mode: AppMode) -> UiState {
    let mut state = UiState::with_mode(mode, Language::English);
    state.set_language(Language::Chinese, false);
    state
}

fn english(mode: AppMode) -> UiState {
    UiState::with_mode(mode, Language::English)
}

const FIXTURE: [ProcessIdentity; 1] = [ProcessIdentity { pid: 4242, start_seconds: 10, start_microseconds: 20 }];

fn press(state: &mut UiState, code: KeyCode) -> bool {
    state.handle_key(key(code), &FIXTURE, false)
}

fn hardware_state() -> UiState {
    let mut state = chinese(AppMode::Hardware);
    state.sections = vec![
        DetailSection::new("硬件概览", "MacBook Pro"),
        DetailSection::new("显示与显卡", "3456 x 2234"),
        DetailSection::new("蓝牙", "on"),
    ];
    state
}

#[test]
fn process_uptime_is_formatted_by_magnitude() {
    let now = std::time::SystemTime::now()
        .duration_since(std::time::UNIX_EPOCH)
        .unwrap()
        .as_secs();
    assert_eq!(format_uptime(now - 9 * 3_600 - 18 * 60), "9h 18m");
    assert_eq!(format_uptime(now - 3 * 86_400 - 7 * 3_600), "3d 07h");
    assert_eq!(format_uptime(now - 64), "1m 04s");
    assert_eq!(format_uptime(0), "--");
    assert_eq!(format_uptime(now + 600), "--");
}

#[test]
fn help_key_opens_and_escape_closes() {
    let mut state = chinese(AppMode::Overview);
    assert!(!press(&mut state, KeyCode::Char('?')));
    assert_eq!(state.input_mode, InputMode::Help);
    assert!(!press(&mut state, KeyCode::Esc));
    assert_eq!(state.input_mode, InputMode::Normal);
}

#[test]
fn gpu_mode_is_ignored_when_capability_is_missing() {
    let mut state = chinese(AppMode::Overview);
    press(&mut state, KeyCode::Char('7'));
    assert_eq!(state.mode, AppMode::Overview);
}

#[test]
fn terminate_requires_explicit_confirmation() {
    let mut state = chinese(AppMode::Overview);
    assert!(!press(&mut state, KeyCode::Char('x')));
    assert_eq!(state.input_mode, InputMode::Action);
    press(&mut state, KeyCode::Char('y'));
    press(&mut state, KeyCode::Enter);
    let action = state.take_completed_action().expect("confirmed");
    assert_eq!(action.pid, 4242);
    assert_eq!(action.start_seconds, 10);
    assert_eq!(action.signal, ProcessSignalKind::Terminate);
    assert!(state.take_completed_action().is_none());
}

#[test]
fn force_kill_needs_the_pid_typed_out() {
    let mut state = english(AppMode::Processes);
    press(&mut state, KeyCode::Char('X'));
    press(&mut state, KeyCode::Char('y'));
    press(&mut state, KeyCode::Enter);
    assert!(state.take_completed_action().is_none());
    assert_eq!(state.input_mode, InputMode::Action);
    press(&mut state, KeyCode::Esc);
    assert!(state.pending_action.is_none());
    press(&mut state, KeyCode::Char('X'));
    for c in "4242".chars() {
        press(&mut state, KeyCode::Char(c));
    }
    press(&mut state, KeyCode::Enter);
    assert_eq!(state.take_completed_action().map(|a| a.signal), Some(ProcessSignalKind::Kill));
}

#[test]
fn refresh_request_is_a_flag_not_a_status_string_match() {
    let mut state = english(AppMode::Overview);
    assert!(!state.take_refresh_request());
    press(&mut state, KeyCode::Char('r'));
    assert!(state.take_refresh_request());
    assert!(!state.take_refresh_request());
}

#[test]
fn interval_keys_step_and_clamp() {
    let mut state = chinese(AppMode::Overview);
    state.interval_millis = 1_000;
    press(&mut state, KeyCode::Char('+'));
    assert_eq!(state.interval_millis, 1_250);
    press(&mut state, KeyCode::Char('='));
    assert_eq!(state.interval_millis, 1_500);
    state.interval_millis = 250;
    press(&mut state, KeyCode::Char('-'));
    assert_eq!(state.interval_millis, 250);
    state.interval_millis = 60_000;
    press(&mut state, KeyCode::Char('+'));
    assert_eq!(state.interval_millis, 60_000);
}

#[test]
fn interval_prompt_captures_digits_instead_of_switching_modes() {
    let mut state = chinese(AppMode::Overview);
    state.interval_millis = 1_000;
    press(&mut state, KeyCode::Char('s'));
    assert_eq!(state.input_mode, InputMode::Interval);
    press(&mut state, KeyCode::Char('2'));
    assert_eq!(state.mode, AppMode::Overview);
    assert_eq!(state.interval_input, "2");
    press(&mut state, KeyCode::Enter);
    assert_eq!(state.input_mode, InputMode::Normal);
    assert_eq!(state.interval_millis, 2_000);
    press(&mut state, KeyCode::Char('s'));
    for value in "100ms".chars() {
        press(&mut state, KeyCode::Char(value));
    }
    press(&mut state, KeyCode::Enter);
    assert_eq!(state.interval_millis, 250);
    press(&mut state, KeyCode::Char('s'));
    press(&mut state, KeyCode::Enter);
    assert_eq!(state.interval_millis, 250);
    press(&mut state, KeyCode::Char('s'));
    press(&mut state, KeyCode::Char('9'));
    press(&mut state, KeyCode::Esc);
    assert_eq!(state.interval_millis, 250);
    assert_eq!(state.input_mode, InputMode::Normal);
    press(&mut state, KeyCode::Char('s'));
    for value in "abc".chars() {
        press(&mut state, KeyCode::Char(value));
    }
    press(&mut state, KeyCode::Enter);
    assert_eq!(state.interval_millis, 250);
    assert_eq!(state.status, "无效的间隔，示例：2 或 500ms");
    assert_eq!(parse_interval_input("2s"), Some(2_000));
    assert_eq!(parse_interval_input(" 500ms "), Some(500));
    assert_eq!(parse_interval_input("1.5"), None);
}

#[test]
fn direct_sort_keys_and_r_reverse_follow_linux_top() {
    let mut state = chinese(AppMode::Processes);
    press(&mut state, KeyCode::Char('M'));
    assert_eq!(state.sort_key, SortKey::Memory);
    press(&mut state, KeyCode::Char('N'));
    assert_eq!(state.sort_key, SortKey::Pid);
    press(&mut state, KeyCode::Char('P'));
    assert_eq!(state.sort_key, SortKey::Cpu);
    assert!(state.sort_descending);
    press(&mut state, KeyCode::Char('R'));
    assert!(!state.sort_descending);
}

#[test]
fn k_and_d_are_top_style_aliases() {
    let mut state = chinese(AppMode::Processes);
    press(&mut state, KeyCode::Char('k'));
    assert_eq!(state.input_mode, InputMode::Action);
    assert_eq!(
        state.pending_action.as_ref().map(|action| action.signal),
        Some(ProcessSignalKind::Terminate)
    );
    press(&mut state, KeyCode::Esc);
    press(&mut state, KeyCode::Char('d'));
    assert_eq!(state.input_mode, InputMode::Interval);
}

#[test]
fn arrow_keys_cycle_modes_and_skip_the_missing_gpu_tab() {
    let mut state = chinese(AppMode::Overview);
    press(&mut state, KeyCode::Right);
    assert_eq!(state.mode, AppMode::Processes);
    press(&mut state, KeyCode::Left);
    press(&mut state, KeyCode::Left);
    assert_eq!(state.mode, AppMode::Sensors);
    state.mode = AppMode::Disk;
    press(&mut state, KeyCode::Tab);
    assert_eq!(state.mode, AppMode::Hardware);
    press(&mut state, KeyCode::BackTab);
    assert_eq!(state.mode, AppMode::Disk);
}

#[test]
fn section_cursor_moves_independently_of_the_process_selection() {
    let mut state = hardware_state();
    state.handle_key(key(KeyCode::Down), &FIXTURE, false);
    assert_eq!(state.sections[state.section_selected].name, "显示与显卡");
    assert_eq!(state.selected, 0);
    state.handle_key(key(KeyCode::End), &FIXTURE, false);
    assert_eq!(state.sections[state.section_selected].name, "蓝牙");
    state.handle_key(key(KeyCode::Down), &FIXTURE, false);
    assert_eq!(state.sections[state.section_selected].name, "蓝牙");
    state.handle_key(key(KeyCode::Home), &FIXTURE, false);
    assert_eq!(state.section_selected, 0);
}

#[test]
fn switching_modes_resets_the_section_cursor() {
    let mut state = hardware_state();
    state.handle_key(key(KeyCode::Down), &FIXTURE, false);
    state.detail_scroll = 20;
    assert_eq!(state.section_selected, 1);
    state.handle_key(key(KeyCode::Char('9')), &FIXTURE, false);
    assert_eq!(state.mode, AppMode::Sensors);
    assert_eq!(state.section_selected, 0);
    assert_eq!(state.detail_scroll, 0);
}

#[test]
fn page_keys_scroll_the_detail_pane_in_section_modes() {
    let mut state = hardware_state();
    state.handle_key(key(KeyCode::PageDown), &FIXTURE, false);
    assert_eq!(state.detail_scroll, 10);
    assert_eq!(state.selected, 0);
    state.handle_key(key(KeyCode::PageUp), &FIXTURE, false);
    assert_eq!(state.detail_scroll, 0);
    state.detail_scroll = 30;
    state.handle_key(key(KeyCode::Down), &FIXTURE, false);
    assert_eq!(state.detail_scroll, 0);
}

#[test]
fn quitting_is_only_from_the_normal_mode() {
    let mut state = english(AppMode::Overview);
    press(&mut state, KeyCode::Char('/'));
    assert!(!press(&mut state, KeyCode::Char('q')));
    assert_eq!(state.input, "q");
    press(&mut state, KeyCode::Esc);
    assert!(press(&mut state, KeyCode::Char('q')));
    let ctrl_c = KeyEvent { code: KeyCode::Char('c'), modifiers: KeyModifiers { control: true, ..NONE } };
    let mut fresh = english(AppMode::Overview);
    assert!(fresh.handle_key(ctrl_c, &FIXTURE, false));
}

#[test]
fn shrinking_section_list_keeps_the_cursor_in_range() {
    let mut state = hardware_state();
    state.handle_key(key(KeyCode::End), &FIXTURE, false);
    assert_eq!(state.section_selected, 2);
    state.apply_detail(Ok(ModeDetail::Sections(vec![DetailSection::new("只剩一个", "内容")])));
    assert_eq!(state.section_selected, 0);
    assert!(state.selected_section().is_some());
}

#[test]
fn detail_errors_do_not_wipe_previously_loaded_data() {
    let mut state = chinese(AppMode::Disk);
    let disks = vec![
        DiskVolume::new("/dev/disk3s1s1".into(), "/".into(), 994_662_584_320, 486_547_640_320),
        DiskVolume::new("/dev/disk5s1".into(), "/Volumes/Backup".into(), 2_000_000_000_000, 1_500_000_000_000),
    ];
    state.apply_detail(Ok(ModeDetail::Disks(disks)));
    state.apply_detail(Err("df 失败".into()));
    assert_eq!(state.disks.len(), 2);
    assert_eq!(state.detail_error.as_deref(), Some("df 失败"));
    state.apply_detail(Ok(ModeDetail::Nothing));
    assert_eq!(state.detail_error, None);
    assert_eq!(state.disks[1].used_bytes, 500_000_000_000);
}

#[test]
fn cursor_stays_on_the_process_when_rows_reorder() {
    let row = |pid| ProcessIdentity { pid, start_seconds: 0, start_microseconds: 0 };
    let before = [row(1), row(2), row(3)];
    let mut state = english(AppMode::Processes);
    state.handle_key(key(KeyCode::Down), &before, false);
    assert_eq!(state.selected_process_pid(&before), Some(2));
    let previous = state.selected_process_pid(&before);
    let after = [row(3), row(1), row(4), row(2)];
    state.after_snapshot(previous, &after, false);
    assert_eq!(state.selected, 3);
    assert_eq!(state.status, "LIVE");
    state.after_snapshot(Some(99), &[row(5)], false);
    assert_eq!(state.selected, 0);
    let mut gpu = english(AppMode::Gpu);
    gpu.after_snapshot(None, &[], false);
    assert_eq!(gpu.mode, AppMode::Overview);
    let mut kept = english(AppMode::Gpu);
    kept.after_snapshot(None, &[], true);
    assert_eq!(kept.mode, AppMode::Gpu);
}

#[test]
fn failures_reach_the_status_line_in_the_chosen_language() {
    let mut state = english(AppMode::Overview);
    state.sample_failed("IOReport unavailable");
    assert_eq!(state.status, "Sampling failed: IOReport unavailable");
    state.action_finished(Err("no such process".into()));
    assert_eq!(state.status, "Process action failed: no such process");
    state.action_finished(Ok("sent TERM to 4242".into()));
    assert_eq!(state.status, "sent TERM to 4242");
    let mut chinese_state = chinese(AppMode::Disk);
    chinese_state.sample_failed("x");
    assert_eq!(chinese_state.status, "采样失败: x");
    chinese_state.detail_arrived(Err("df exited 1".into()));
    assert_eq!(chinese_state.detail_error.as_deref(), Some("详情加载失败: df exited 1"));
    chinese_state.detail_arrived(Ok(ModeDetail::Nothing));
    assert_eq!(chinese_state.detail_error, None);
}

#[test]
fn the_loop_loads_each_page_once_and_never_piles_up_requests() {
    let mut looped = LoopState::new();
    assert_eq!(looped.detail_request(AppMode::Disk), Some(AppMode::Disk));
    assert!(looped.detail_in_flight);
    // Another page while the load is on its way waits.
    assert_eq!(looped.detail_request(AppMode::Hardware), None);
    looped.detail_arrived();
    assert_eq!(looped.detail_request(AppMode::Hardware), Some(AppMode::Hardware));
    looped.detail_arrived();
    assert_eq!(looped.detail_request(AppMode::Hardware), None);
    // Pages without extra data are noted but not loaded.
    assert_eq!(looped.detail_request(AppMode::Processes), None);
    assert_eq!(looped.loaded_detail_mode, Some(AppMode::Processes));
    looped.refresh_requested();
    assert_eq!(looped.loaded_detail_mode, None);
    assert!(looped.sample_request(false, true));
    assert!(!looped.sample_request(false, true));
    looped.sample_arrived();
    assert!(!looped.sample_request(true, true));
    assert!(!looped.sample_request(false, false));
    assert!(looped.sample_request(false, true));
    looped.request_lost(true);
    assert!(!looped.sample_in_flight);
}

#[test]
fn shortening_the_interval_pulls_the_next_sample_closer() {
    // From 60s back to 1s at t=5000: the sample planned for t=60000 moves to t=6000.
    assert_eq!(LoopState::next_due(60_000, 5_000, 1_000), 6_000);
    // Lengthening it leaves the planned sample where it was.
    assert_eq!(LoopState::next_due(6_000, 5_000, 60_000), 6_000);
    assert_eq!(LoopState::next_due(6_000, 5_000, 1_000), 6_000);
    // Far past the clock's range the planned time stands.
    assert_eq!(LoopState::next_due(u64::MAX - 1, u64::MAX - 10, 1_000), u64::MAX - 1);
    assert_eq!(LoopState::next_due(u64::MAX, u64::MAX - 10, 1_000), u64::MAX);
}

#[test]
fn process_table_title_names_the_sort_and_the_filters() {
    let mut state = english(AppMode::Processes);
    state.sort_key = SortKey::Cpu;
    state.sort_descending = true;
    assert_eq!(state.process_table_title(), "Processes · by CPU↓");
    state.sort_key = SortKey::Memory;
    state.sort_descending = false;
    state.user_filter = "root".to_string();
    state.hide_idle = true;
    assert_eq!(state.process_table_title(), "Processes · by MEM↑ · user root · active only");
    let mut chinese_state = chinese(AppMode::Processes);
    chinese_state.sort_key = SortKey::Pid;
    chinese_state.sort_descending = false;
    assert_eq!(chinese_state.process_table_title(), "进程 · PID↑ 排序");
}

#[test]
fn process_table_counts_group_thousands() {
    let state = english(AppMode::Processes);
    assert_eq!(state.process_table_counts(512, 4_096), "512 procs · 4,096 threads");
    let chinese_state = chinese(AppMode::Processes);
    assert_eq!(chinese_state.process_table_counts(3, 1_234_567), "3 项 · 1,234,567 线程");
}

#[test]
fn thread_total_skips_rows_without_a_count() {
    assert_eq!(UiState::thread_total(&[]), 0);
    assert_eq!(UiState::thread_total(&[Some(12), None, Some(3), Some(u32::MAX)]), 15 + u32::MAX as u64);
}
