use bmtop::i18n::Language;
use bmtop::metrics::AppMode;
use bmtop::table::ProcessRowKey;
use bmtop::tree::{tree_order, TreeRow};
use bmtop::tui::{process_matches, KeyCode, KeyEvent, KeyModifiers, UiState};

fn rows(pairs: &[(i32, i32)]) -> Vec<TreeRow> {
    pairs.iter().map(|&(pid, parent_pid)| TreeRow { pid, parent_pid }).collect()
}

fn pids(input: &[TreeRow], order: &[(usize, usize)]) -> Vec<(usize, i32)> {
    order.iter().map(|&(depth, index)| (depth, input[index].pid)).collect()
}

fn process(pid: i32, parent_pid: i32, cpu: Option<f64>) -> ProcessRowKey {
    ProcessRowKey {
        pid,
        parent_pid,
        name: "fixture".into(),
        user: "mac".into(),
        cpu: cpu.map(f64::to_bits),
        gpu: None,
        energy: Some(64.9f64.to_bits()),
        power: Some(3.42f64.to_bits()),
        resident_bytes: Some(1024),
    }
}

#[test]
fn tree_view_orders_children_under_parents_with_depth() {
    let mut state = UiState::with_mode(AppMode::Processes, Language::English);
    let sample = vec![
        process(4242, 1, Some(1.0)),
        process(5000, 4242, Some(99.0)),
        process(5001, 5000, Some(50.0)),
        process(0, 0, Some(0.5)),
    ];
    let none = KeyModifiers { shift: false, control: false, alt: false, super_key: false };
    state.handle_key(KeyEvent { code: KeyCode::Char('V'), modifiers: none }, &[], false);
    let ordered: Vec<(usize, i32)> = state
        .filtered_processes(&sample)
        .iter()
        .map(|&(depth, index)| (depth, sample[index].pid))
        .collect();
    assert_eq!(ordered, vec![(0, 4242), (1, 5000), (2, 5001), (0, 0)]);
    state.handle_key(KeyEvent { code: KeyCode::Char('V'), modifiers: none }, &[], false);
    let first = state.filtered_processes(&sample)[0];
    assert_eq!((first.0, sample[first.1].pid), (0, 5000));
    // The same shape straight from the tree order of the CPU-sorted rows.
    let input = rows(&[(5000, 4242), (5001, 5000), (4242, 1), (0, 0)]);
    let order = tree_order(&input);
    assert_eq!(pids(&input, &order), vec![(0, 4242), (1, 5000), (2, 5001), (0, 0)]);
}

#[test]
fn tree_keeps_sibling_order_and_drops_parent_loops() {
    let input = rows(&[(3, 1), (2, 1), (1, 9), (7, 8), (8, 7), (4, 4), (2, 4)]);
    let order = tree_order(&input);
    assert_eq!(pids(&input, &order), vec![(0, 1), (1, 3), (1, 2), (0, 4)]);
}

#[test]
fn tree_of_nothing_is_empty() {
    assert!(tree_order(&[]).is_empty());
}

#[test]
fn search_matches_name_or_pid_and_user_filter_matches_user() {
    assert!(process_matches("Safari", 412, "mac", "", ""));
    assert!(process_matches("Safari", 412, "mac", "SAF", ""));
    assert!(process_matches("Safari", 412, "mac", "41", ""));
    assert!(!process_matches("Safari", 412, "mac", "chrome", ""));
    assert!(process_matches("Safari", 412, "Mac", "", "ma"));
    assert!(!process_matches("Safari", 412, "mac", "", "root"));
    assert!(process_matches("launchd", -1, "root", "-1", "ROOT"));
}

#[test]
fn indented_rows_sit_inside_their_parents_block() {
    let input = rows(&[(10, 1), (20, 10), (30, 20), (21, 10), (40, 1), (41, 40), (31, 20)]);
    let order = tree_order(&input);
    assert_eq!(
        pids(&input, &order),
        vec![(0, 10), (1, 20), (2, 30), (2, 31), (1, 21), (0, 40), (1, 41)]
    );
    for k in 0..order.len() {
        let (depth, index) = order[k];
        if depth == 0 {
            continue;
        }
        let j = (0..k).rev().find(|&j| order[j].0 < depth).unwrap();
        assert_eq!(order[j].0 + 1, depth);
        assert_eq!(input[order[j].1].pid, input[index].parent_pid);
    }
}
