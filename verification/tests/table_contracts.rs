use bmtop::i18n::Language;
use bmtop::metrics::AppMode;
use bmtop::table::{filter_processes, ProcessRowKey};
use bmtop::tui::{InputMode, KeyCode, KeyEvent, KeyModifiers, SortKey, UiState};

const NONE: KeyModifiers = KeyModifiers { shift: false, control: false, alt: false, super_key: false };

fn share(value: f64) -> u64 {
    value.to_bits()
}

/// The fixture process of the process page: pid 4242, 1% CPU, 1 KiB resident, 64.9
/// energy impact, 3.42 W.
fn fixture() -> ProcessRowKey {
    ProcessRowKey {
        pid: 4242,
        parent_pid: 1,
        name: "fixture".into(),
        user: "mac".into(),
        cpu: Some(share(1.0)),
        gpu: None,
        energy: Some(share(64.9)),
        power: Some(share(3.42)),
        resident_bytes: Some(1024),
    }
}

fn processes_page() -> UiState {
    let mut state = UiState::with_mode(AppMode::Processes, Language::English);
    state.set_language(Language::Chinese, false);
    state
}

fn press(state: &mut UiState, code: KeyCode) {
    state.handle_key(KeyEvent { code, modifiers: NONE }, &[], false);
}

fn pids(state: &UiState, rows: &[ProcessRowKey]) -> Vec<i32> {
    state.filtered_processes(rows).iter().map(|&(_, index)| rows[index].pid).collect()
}

#[test]
fn sort_key_cycles_and_direction_reverses() {
    let mut state = processes_page();
    let mut hot = fixture();
    hot.pid = 100;
    hot.cpu = Some(share(90.0));
    hot.resident_bytes = Some(1);
    let rows = vec![fixture(), hot];
    assert_eq!(pids(&state, &rows), vec![100, 4242]);
    press(&mut state, KeyCode::Char('o'));
    assert_eq!(state.sort_key, SortKey::Gpu);
    press(&mut state, KeyCode::Char('o'));
    assert_eq!(state.sort_key, SortKey::Energy);
    press(&mut state, KeyCode::Char('o'));
    assert_eq!(state.sort_key, SortKey::Power);
    press(&mut state, KeyCode::Char('o'));
    assert_eq!(state.sort_key, SortKey::Memory);
    assert_eq!(pids(&state, &rows), vec![4242, 100]);
    press(&mut state, KeyCode::Char('o'));
    assert_eq!(pids(&state, &rows), vec![4242, 100]);
    press(&mut state, KeyCode::Char('O'));
    assert_eq!(pids(&state, &rows), vec![100, 4242]);
}

#[test]
fn hide_idle_keeps_wakeup_heavy_processes() {
    let mut state = processes_page();
    let mut helper = fixture();
    helper.pid = 1205;
    helper.name = "Cursor Helper".into();
    helper.cpu = Some(share(0.0));
    helper.energy = Some(share(3.84));
    let rows = vec![fixture(), helper];
    press(&mut state, KeyCode::Char('i'));
    assert!(pids(&state, &rows).contains(&1205));
}

#[test]
fn energy_sort_keys_reach_both_new_columns() {
    let mut state = processes_page();
    let mut waker = fixture();
    waker.pid = 100;
    waker.cpu = Some(share(0.5));
    waker.energy = Some(share(115.9));
    waker.power = Some(share(0.2));
    let rows = vec![fixture(), waker];
    press(&mut state, KeyCode::Char('E'));
    assert_eq!(state.sort_key, SortKey::Energy);
    assert_eq!(pids(&state, &rows), vec![100, 4242]);
    press(&mut state, KeyCode::Char('W'));
    assert_eq!(state.sort_key, SortKey::Power);
    assert_eq!(pids(&state, &rows), vec![4242, 100]);
}

#[test]
fn user_filter_narrows_rows_and_esc_clears_it() {
    let mut state = processes_page();
    let mut root = fixture();
    root.pid = 7;
    root.user = "root".into();
    let rows = vec![fixture(), root];
    press(&mut state, KeyCode::Char('u'));
    assert_eq!(state.input_mode, InputMode::UserFilter);
    for value in "root".chars() {
        press(&mut state, KeyCode::Char(value));
    }
    assert_eq!(state.filtered_processes(&rows).len(), 1);
    press(&mut state, KeyCode::Enter);
    assert_eq!(state.input_mode, InputMode::Normal);
    press(&mut state, KeyCode::Char('u'));
    press(&mut state, KeyCode::Esc);
    assert_eq!(state.filtered_processes(&rows).len(), 2);
}

#[test]
fn hide_idle_keeps_unknown_cpu_rows_but_drops_zero_rows() {
    let mut state = processes_page();
    let mut idle = fixture();
    idle.pid = 8;
    idle.cpu = Some(share(0.0));
    idle.energy = Some(share(0.0));
    let mut unknown = fixture();
    unknown.pid = 9;
    unknown.cpu = None;
    let rows = vec![fixture(), idle, unknown];
    assert_eq!(state.filtered_processes(&rows).len(), 3);
    press(&mut state, KeyCode::Char('i'));
    let shown = pids(&state, &rows);
    assert!(!shown.contains(&8));
    assert!(shown.contains(&9));
}

#[test]
fn search_ties_and_ascending_order_follow_the_sample() {
    let mut state = processes_page();
    let mut a = fixture();
    a.pid = 1;
    a.name = "alpha".into();
    let mut b = fixture();
    b.pid = 2;
    b.name = "beta".into();
    let mut c = fixture();
    c.pid = 3;
    c.name = "alphabet".into();
    c.cpu = None;
    let rows = vec![a, b, c];
    // Equal CPU shares keep their sample order; an unknown share comes last.
    assert_eq!(pids(&state, &rows), vec![1, 2, 3]);
    // Ascending turns the whole list around, ties included.
    press(&mut state, KeyCode::Char('O'));
    assert_eq!(pids(&state, &rows), vec![3, 2, 1]);
    press(&mut state, KeyCode::Char('/'));
    for value in "ALPHA".chars() {
        press(&mut state, KeyCode::Char(value));
    }
    assert_eq!(pids(&state, &rows), vec![3, 1]);
}

fn row(pid: i32, user: &str, cpu: f64, resident: u64) -> ProcessRowKey {
    ProcessRowKey {
        pid,
        parent_pid: 1,
        name: format!("p{pid}"),
        user: user.into(),
        cpu: Some(share(cpu)),
        gpu: None,
        energy: None,
        power: None,
        resident_bytes: Some(resident),
    }
}

#[test]
fn filter_processes_filters_sorts_and_limits() {
    let rows = vec![row(1, "a", 5.0, 100), row(2, "b", 50.0, 10), row(3, "a", 25.0, 999)];
    let listed = |order: Vec<usize>| order.iter().map(|&index| rows[index].pid).collect::<Vec<_>>();
    assert_eq!(listed(filter_processes(&rows, None, None, "cpu", None)), vec![2, 3, 1]);
    let by_memory = filter_processes(&rows, None, None, "memory", Some(1));
    assert_eq!(by_memory.len(), 1);
    assert_eq!(rows[by_memory[0]].pid, 3);
    assert_eq!(listed(filter_processes(&rows, None, Some("a"), "pid", None)), vec![1, 3]);
    assert_eq!(filter_processes(&rows, Some(2), None, "cpu", None).len(), 1);
}

#[test]
fn listing_orders_by_energy_power_and_missing_memory_as_zero() {
    let mut rows = vec![row(1, "a", 5.0, 100), row(2, "b", 50.0, 10), row(3, "a", 25.0, 999)];
    rows[0].energy = Some(share(2.0));
    rows[1].power = Some(share(1.5));
    rows[2].resident_bytes = None;
    let listed = |order: Vec<usize>| order.iter().map(|&index| rows[index].pid).collect::<Vec<_>>();
    assert_eq!(listed(filter_processes(&rows, None, None, "nrg", None)), vec![1, 2, 3]);
    assert_eq!(listed(filter_processes(&rows, None, None, "watts", None)), vec![2, 1, 3]);
    assert_eq!(listed(filter_processes(&rows, None, None, "mem", None)), vec![1, 2, 3]);
    assert_eq!(listed(filter_processes(&rows, None, Some("A"), "cpu", Some(5))), Vec::<i32>::new());
    assert_eq!(listed(filter_processes(&rows, None, None, "cpu", Some(0))), Vec::<i32>::new());
}
