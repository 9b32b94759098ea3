//! Interaction state of the dashboard and its response to key presses.
//!
//! The state here holds everything a key press can change. What a key press needs to know
//! about the current sample (the rows of the process table as shown, and whether a GPU is
//! present) comes in as plain arguments.

use crate::disk::DiskVolume;
use crate::i18n::{Language, Strings};
use crate::metrics::{AppMode, REFRESH_MAX_MILLIS, REFRESH_MIN_MILLIS};
use crate::table::{ordered_rows, table_order, table_rows, ProcessRowKey};
use crate::tree::pairs_view;
use crate::text::{
    chars_of, i32_string, idec, lower_seq, parse_dec, parse_unsigned, pop_char, push_char, push_chars,
    replace_all, replace_str, trim, trim_bounds,
};
use crate::format::{format_count, grouped};
use vstd::prelude::*;

verus! {

#[derive(Debug, Clone, Copy, PartialEq, Eq, Structural)]
pub enum InputMode {
    Normal,
    Search,
    UserFilter,
    /// `s` prompt for the sampling interval: digits typed here do not switch modes.
    Interval,
    Help,
    Action,
}

#[derive(Debug, Clone, Copy, PartialEq, Eq, Structural)]
pub enum ProcessSignalKind {
    Terminate,
    Kill,
}

/// Column the process table is sorted by.
#[derive(Debug, Clone, Copy, PartialEq, Eq, Structural)]
pub enum SortKey {
    Cpu,
    Gpu,
    Energy,
    Power,
    Memory,
    Pid,
}

impl SortKey {
    pub open spec fn spec_next(self) -> SortKey {
        match self {
            SortKey::Cpu => SortKey::Gpu,
            SortKey::Gpu => SortKey::Energy,
            SortKey::Energy => SortKey::Power,
            SortKey::Power => SortKey::Memory,
            SortKey::Memory => SortKey::Pid,
            SortKey::Pid => SortKey::Cpu,
        }
    }

    /// The column `o` moves to.
    pub fn next(self) -> (k: SortKey)
        ensures
            k == self.spec_next(),
    {
        match self {
            SortKey::Cpu => SortKey::Gpu,
            SortKey::Gpu => SortKey::Energy,
            SortKey::Energy => SortKey::Power,
            SortKey::Power => SortKey::Memory,
            SortKey::Memory => SortKey::Pid,
            SortKey::Pid => SortKey::Cpu,
        }
    }
}

/// One entry of the section list on the hardware page: its name and the text shown beside it.
#[derive(Debug, Clone, PartialEq, Eq)]
pub struct DetailSection {
    pub name: String,
    pub body: String,
}

impl DetailSection {
    pub fn new(name: &str, body: &str) -> (s: DetailSection)
        ensures
            s.name@ == name@,
            s.body@ == body@,
    {
        DetailSection { name: name.to_owned(), body: body.to_owned() }
    }
}

/// A signal waiting for, or given, the user's confirmation.
#[derive(Debug, Clone)]
pub struct PendingAction {
    pub pid: i32,
    pub start_seconds: u64,
    pub start_microseconds: u64,
    pub signal: ProcessSignalKind,
    pub confirmation: String,
}

#[verifier::ext_equal]
pub struct PendingActionView {
    pub pid: i32,
    pub start_seconds: u64,
    pub start_microseconds: u64,
    pub signal: ProcessSignalKind,
    pub confirmation: Seq<char>,
}

impl View for PendingAction {
    type V = PendingActionView;

    open spec fn view(&self) -> PendingActionView {
        PendingActionView {
            pid: self.pid,
            start_seconds: self.start_seconds,
            start_microseconds: self.start_microseconds,
            signal: self.signal,
            confirmation: self.confirmation@,
        }
    }
}

pub open spec fn action_view(a: Option<PendingAction>) -> Option<PendingActionView> {
    match a {
        Some(a) => Some(a@),
        None => None,
    }
}

/// Which key was pressed.
#[derive(Debug, Clone, Copy, PartialEq, Eq, Structural)]
pub enum KeyCode {
    Char(char),
    Esc,
    Enter,
    Backspace,
    Up,
    Down,
    PageUp,
    PageDown,
    Left,
    Right,
    Home,
    End,
    Tab,
    BackTab,
    F(u8),
    Other,
}

/// Modifier keys held with a key.
#[derive(Debug, Clone, Copy, PartialEq, Eq, Structural)]
pub struct KeyModifiers {
    pub shift: bool,
    pub control: bool,
    pub alt: bool,
    pub super_key: bool,
}

#[derive(Debug, Clone, Copy, PartialEq, Eq, Structural)]
pub struct KeyEvent {
    pub code: KeyCode,
    pub modifiers: KeyModifiers,
}

/// Text input excludes only Control, Alt and Super: terminals with the enhanced keyboard
/// protocol report Shift on capital letters.
pub open spec fn spec_is_text_input(m: KeyModifiers) -> bool {
    !m.control && !m.alt && !m.super_key
}

pub fn is_text_input(m: KeyModifiers) -> (b: bool)
    ensures
        b == spec_is_text_input(m),
{
    !m.control && !m.alt && !m.super_key
}

/// A process-table row as the key handler sees it: enough to pin the cursor and to name
/// the process a signal is for.
#[derive(Debug, Clone, Copy, PartialEq, Eq, Structural)]
pub struct ProcessIdentity {
    pub pid: i32,
    pub start_seconds: u64,
    pub start_microseconds: u64,
}


/// Everything a key press can read or change, apart from the sample itself.
pub struct UiState {
    pub mode: AppMode,
    pub paused: bool,
    pub input_mode: InputMode,
    /// Search text (`/`).
    pub input: String,
    pub sort_key: SortKey,
    pub sort_descending: bool,
    /// User filter (`u`); empty shows every user.
    pub user_filter: String,
    /// Text typed at the interval prompt (`s`).
    pub interval_input: String,
    pub show_full_path: bool,
    pub hide_idle: bool,
    pub tree_view: bool,
    pub thread_view: bool,
    /// Cursor row of the process table.
    pub selected: usize,
    pub status: String,
    /// Sections of the hardware page.
    pub sections: Vec<DetailSection>,
    /// Cursor in the section list, independent of `selected`.
    pub section_selected: usize,
    pub detail_scroll: u16,
    pub detail_error: Option<String>,
    /// Volumes of the disk page, kept until a later load succeeds.
    pub disks: Vec<DiskVolume>,
    pub refresh_requested: bool,
    pub interval_millis: u64,
    pub language: Language,
    pub fps_enabled: bool,
    pub pending_action: Option<PendingAction>,
    pub action_input: String,
    pub completed_action: Option<PendingAction>,
}

#[verifier::ext_equal]
pub struct UiView {
    pub mode: AppMode,
    pub paused: bool,
    pub input_mode: InputMode,
    pub input: Seq<char>,
    pub sort_key: SortKey,
    pub sort_descending: bool,
    pub user_filter: Seq<char>,
    pub interval_input: Seq<char>,
    pub show_full_path: bool,
    pub hide_idle: bool,
    pub tree_view: bool,
    pub thread_view: bool,
    pub selected: usize,
    pub status: Seq<char>,
    pub sections: Seq<DetailSection>,
    pub section_selected: usize,
    pub detail_scroll: u16,
    pub detail_error: Option<String>,
    pub disks: Seq<DiskVolume>,
    pub refresh_requested: bool,
    pub interval_millis: u64,
    pub language: Language,
    pub fps_enabled: bool,
    pub pending_action: Option<PendingActionView>,
    pub action_input: Seq<char>,
    pub completed_action: Option<PendingActionView>,
}

impl View for UiState {
    type V = UiView;

    open spec fn view(&self) -> UiView {
        UiView {
            mode: self.mode,
            paused: self.paused,
            input_mode: self.input_mode,
            input: self.input@,
            sort_key: self.sort_key,
            sort_descending: self.sort_descending,
            user_filter: self.user_filter@,
            interval_input: self.interval_input@,
            show_full_path: self.show_full_path,
            hide_idle: self.hide_idle,
            tree_view: self.tree_view,
            thread_view: self.thread_view,
            selected: self.selected,
            status: self.status@,
            sections: self.sections@,
            section_selected: self.section_selected,
            detail_scroll: self.detail_scroll,
            detail_error: self.detail_error,
            disks: self.disks@,
            refresh_requested: self.refresh_requested,
            interval_millis: self.interval_millis,
            language: self.language,
            fps_enabled: self.fps_enabled,
            pending_action: action_view(self.pending_action),
            action_input: self.action_input@,
            completed_action: action_view(self.completed_action),
        }
    }
}

pub open spec fn sat_dec(x: usize, k: usize) -> usize {
    if x >= k { (x - k) as usize } else { 0 }
}

/// The last row index of a table with `n` rows, or 0 for an empty one.
pub open spec fn last_row(n: nat) -> usize {
    if n > 0 { (n - 1) as usize } else { 0 }
}

/// `x + k`, kept within `[0, last]` (the saturating addition never reaches `usize::MAX`
/// in a way that matters, since the result is capped at `last`).
pub open spec fn step_down(x: usize, k: usize, last: usize) -> usize {
    if x + k <= last { (x + k) as usize } else { last }
}

pub open spec fn clamp_interval(x: int) -> u64 {
    if x < REFRESH_MIN_MILLIS { REFRESH_MIN_MILLIS }
    else if x > REFRESH_MAX_MILLIS { REFRESH_MAX_MILLIS }
    else { x as u64 }
}

/// What the interval prompt accepts: bare digits are seconds (as `top` reads them),
/// `500ms` and `2s` are accepted too; surrounding whitespace is ignored. Seconds are
/// scaled with the wrapping multiplication of release builds.
pub open spec fn interval_input_millis(raw: Seq<char>) -> Option<u64> {
    let t = trim(raw);
    if t.len() >= 2 && t[t.len() - 2] == 'm' && t.last() == 's' {
        match parse_unsigned(trim(t.take(t.len() - 2)), u64::MAX as nat) {
            Some(v) => Some(v as u64),
            None => None,
        }
    } else {
        let u = if t.len() >= 1 && t.last() == 's' { t.drop_last() } else { t };
        match parse_unsigned(trim(u), u64::MAX as nat) {
            Some(v) => Some(((v * 1000) % 0x1_0000_0000_0000_0000) as u64),
            None => None,
        }
    }
}

/// A signal may go ahead once the typed confirmation matches: `y` (either case) for
/// terminate, the process's PID for a forced kill.
pub open spec fn confirmation_matches(action: Option<PendingActionView>, typed: Seq<char>) -> bool {
    match action {
        Some(a) => (a.signal == ProcessSignalKind::Terminate && lower_seq(typed) == seq!['y'])
            || (a.signal == ProcessSignalKind::Kill && typed == idec(a.pid as int)),
        None => false,
    }
}

pub open spec fn edit(text: Seq<char>, key: KeyEvent) -> Seq<char> {
    match key.code {
        KeyCode::Backspace => if text.len() > 0 { text.drop_last() } else { text },
        KeyCode::Char(c) => if spec_is_text_input(key.modifiers) { text.push(c) } else { text },
        _ => text,
    }
}

pub open spec fn action_key(v: UiView, key: KeyEvent) -> UiView {
    match key.code {
        KeyCode::Esc => UiView {
            pending_action: None,
            action_input: seq![],
            input_mode: InputMode::Normal,
            status: v.language.text().status_action_cancel@,
            ..v
        },
        KeyCode::Enter => if confirmation_matches(v.pending_action, v.action_input) {
            UiView {
                completed_action: v.pending_action,
                pending_action: None,
                action_input: seq![],
                input_mode: InputMode::Normal,
                ..v
            }
        } else {
            UiView { status: v.language.text().status_action_mismatch@, ..v }
        },
        _ => UiView { action_input: edit(v.action_input, key), ..v },
    }
}

pub open spec fn help_key(v: UiView, key: KeyEvent) -> UiView {
    if key.code == KeyCode::Esc || key.code == KeyCode::Char('?') {
        UiView { input_mode: InputMode::Normal, ..v }
    } else {
        v
    }
}

pub open spec fn search_key(v: UiView, key: KeyEvent) -> UiView {
    let w = match key.code {
        KeyCode::Esc => UiView { input: seq![], input_mode: InputMode::Normal, ..v },
        KeyCode::Enter => UiView { input_mode: InputMode::Normal, ..v },
        _ => UiView { input: edit(v.input, key), ..v },
    };
    UiView { selected: 0, ..w }
}

pub open spec fn user_filter_key(v: UiView, key: KeyEvent) -> UiView {
    let w = match key.code {
        KeyCode::Esc => UiView { user_filter: seq![], input_mode: InputMode::Normal, ..v },
        KeyCode::Enter => UiView { input_mode: InputMode::Normal, ..v },
        _ => UiView { user_filter: edit(v.user_filter, key), ..v },
    };
    UiView { selected: 0, ..w }
}

pub open spec fn interval_key(v: UiView, key: KeyEvent) -> UiView {
    match key.code {
        KeyCode::Esc => UiView { interval_input: seq![], input_mode: InputMode::Normal, ..v },
        KeyCode::Enter => {
            let w = UiView { interval_input: seq![], input_mode: InputMode::Normal, ..v };
            if trim(v.interval_input).len() == 0 {
                w
            } else {
                match interval_input_millis(v.interval_input) {
                    Some(ms) => UiView { interval_millis: clamp_interval(ms as int), ..w },
                    None => UiView { status: v.language.text().status_interval_invalid@, ..w },
                }
            }
        },
        _ => UiView { interval_input: edit(v.interval_input, key), ..v },
    }
}

pub open spec fn switch_mode(v: UiView, mode: AppMode) -> UiView {
    if v.mode == mode {
        v
    } else {
        UiView { mode, section_selected: 0, detail_scroll: 0, ..v }
    }
}

/// GPU mode cannot be entered without a GPU; every other mode can.
pub open spec fn request_mode(v: UiView, mode: Option<AppMode>, gpu_available: bool) -> UiView {
    match mode {
        Some(m) => if m == AppMode::Gpu && !gpu_available { v } else { switch_mode(v, m) },
        None => v,
    }
}

/// The mode one step along the mode bar, wrapping around, stepping over GPU when there is
/// no GPU.
pub open spec fn cycle_target(mode: AppMode, forward: bool, gpu_available: bool) -> AppMode {
    let i = mode.spec_number() - 1;
    let j = if forward { (i + 1) % 9 } else { (i + 8) % 9 };
    let k = if forward { (j + 1) % 9 } else { (j + 8) % 9 };
    if AppMode::spec_all()[j] == AppMode::Gpu && !gpu_available {
        AppMode::spec_all()[k]
    } else {
        AppMode::spec_all()[j]
    }
}

pub open spec fn live_status(v: UiView) -> Seq<char> {
    if v.paused {
        v.language.text().status_paused@
    } else {
        v.language.text().status_live@
    }
}

/// Only the hardware page shows a section list.
pub open spec fn uses_section_list(mode: AppMode) -> bool {
    mode == AppMode::Hardware
}

pub open spec fn signal_request(v: UiView, kill: bool, rows: Seq<ProcessIdentity>) -> UiView {
    if v.selected < rows.len() {
        let row = rows[v.selected as int];
        let signal = if kill { ProcessSignalKind::Kill } else { ProcessSignalKind::Terminate };
        let template = if kill { v.language.text().confirm_kill@ } else { v.language.text().confirm_terminate@ };
        UiView {
            pending_action: Some(PendingActionView {
                pid: row.pid,
                start_seconds: row.start_seconds,
                start_microseconds: row.start_microseconds,
                signal,
                confirmation: replace_all(template, "{pid}"@, idec(row.pid as int)),
            }),
            action_input: seq![],
            input_mode: InputMode::Action,
            ..v
        }
    } else {
        v
    }
}

pub open spec fn section_key(v: UiView, code: KeyCode) -> Option<UiView> {
    let last = last_row(v.sections.len());
    if !uses_section_list(v.mode) {
        None
    } else if code == KeyCode::Up {
        Some(UiView { section_selected: sat_dec(v.section_selected, 1), detail_scroll: 0, ..v })
    } else if code == KeyCode::Down {
        Some(UiView { section_selected: step_down(v.section_selected, 1, last), detail_scroll: 0, ..v })
    } else if code == KeyCode::Home || code == KeyCode::Char('g') {
        Some(UiView { section_selected: 0, detail_scroll: 0, ..v })
    } else if code == KeyCode::End || code == KeyCode::Char('G') {
        Some(UiView { section_selected: last, detail_scroll: 0, ..v })
    } else if code == KeyCode::PageUp {
        Some(UiView { detail_scroll: if v.detail_scroll >= 10 { (v.detail_scroll - 10) as u16 } else { 0 }, ..v })
    } else if code == KeyCode::PageDown {
        Some(UiView { detail_scroll: if v.detail_scroll + 10 <= u16::MAX { (v.detail_scroll + 10) as u16 } else { u16::MAX }, ..v })
    } else {
        None
    }
}

pub open spec fn char_key(v: UiView, c: char, key: KeyEvent, rows: Seq<ProcessIdentity>, gpu: bool) -> UiView {
    if c == '?' { UiView { input_mode: InputMode::Help, ..v } }
    else if c == '/' { UiView { input: seq![], input_mode: InputMode::Search, ..v } }
    else if c == 'o' { UiView { sort_key: v.sort_key.spec_next(), ..v } }
    else if c == 'O' || c == 'R' { UiView { sort_descending: !v.sort_descending, ..v } }
    else if c == 'P' { UiView { sort_key: SortKey::Cpu, ..v } }
    else if c == 'M' { UiView { sort_key: SortKey::Memory, ..v } }
    else if c == 'N' { UiView { sort_key: SortKey::Pid, ..v } }
    else if c == 'E' { UiView { sort_key: SortKey::Energy, ..v } }
    else if c == 'W' { UiView { sort_key: SortKey::Power, ..v } }
    else if c == 's' || c == 'd' { UiView { interval_input: seq![], input_mode: InputMode::Interval, ..v } }
    else if c == 'c' { UiView { show_full_path: !v.show_full_path, ..v } }
    else if c == 'f' { UiView { fps_enabled: !v.fps_enabled, refresh_requested: true, ..v } }
    else if c == 'i' { UiView { hide_idle: !v.hide_idle, ..v } }
    else if c == 'V' { UiView { tree_view: !v.tree_view, ..v } }
    else if c == 'H' { UiView { thread_view: !v.thread_view, ..v } }
    else if c == 'u' { UiView { input_mode: InputMode::UserFilter, ..v } }
    else if c == '+' || c == '=' { UiView { interval_millis: clamp_interval(v.interval_millis + 250), ..v } }
    else if c == '-' { UiView { interval_millis: clamp_interval(v.interval_millis - 250), ..v } }
    else if c == ' ' {
        let w = UiView { paused: !v.paused, ..v };
        UiView { status: live_status(w), ..w }
    }
    else if c == 'r' { UiView { status: v.language.text().status_refreshing@, refresh_requested: true, ..v } }
    else if c == 'x' || c == 'k' || c == 'X' { signal_request(v, c == 'X', rows) }
    else if c == 'g' { UiView { selected: 0, ..v } }
    else if c == 'G' { UiView { selected: last_row(rows.len()), ..v } }
    else if '1' as u32 <= c as u32 <= '9' as u32 {
        request_mode(v, AppMode::spec_from_number((c as u32 - '0' as u32) as u8), gpu)
    }
    else { v }
}

pub open spec fn normal_key(v: UiView, key: KeyEvent, rows: Seq<ProcessIdentity>, gpu: bool) -> (UiView, bool) {
    let last = last_row(rows.len());
    match key.code {
        KeyCode::Esc => (v, true),
        KeyCode::Char(c) => if c == 'q' || (c == 'c' && key.modifiers.control) {
            (v, true)
        } else if (c == 'g' || c == 'G') && uses_section_list(v.mode) {
            (section_key(v, key.code).unwrap(), false)
        } else {
            (char_key(v, c, key, rows, gpu), false)
        },
        _ => match section_key(v, key.code) {
            Some(w) => (w, false),
            None => (match key.code {
                KeyCode::Up => UiView { selected: sat_dec(v.selected, 1), ..v },
                KeyCode::Down => UiView { selected: step_down(v.selected, 1, last), ..v },
                KeyCode::PageUp => UiView { selected: sat_dec(v.selected, 10), ..v },
                KeyCode::PageDown => UiView { selected: step_down(v.selected, 10, last), ..v },
                KeyCode::Left | KeyCode::BackTab => switch_mode(v, cycle_target(v.mode, false, gpu)),
                KeyCode::Right | KeyCode::Tab => switch_mode(v, cycle_target(v.mode, true, gpu)),
                KeyCode::Home => UiView { selected: 0, ..v },
                KeyCode::End => UiView { selected: last, ..v },
                KeyCode::F(n) => if 1 <= n <= 9 { request_mode(v, AppMode::spec_from_number(n), gpu) } else { v },
                _ => v,
            }, false),
        },
    }
}

/// The state after a key press, and whether the key asks to quit.
pub open spec fn key_step(v: UiView, key: KeyEvent, rows: Seq<ProcessIdentity>, gpu: bool) -> (UiView, bool) {
    match v.input_mode {
        InputMode::Action => (action_key(v, key), false),
        InputMode::Help => (help_key(v, key), false),
        InputMode::Search => (search_key(v, key), false),
        InputMode::UserFilter => (user_filter_key(v, key), false),
        InputMode::Interval => (interval_key(v, key), false),
        InputMode::Normal => normal_key(v, key, rows, gpu),
    }
}


/// On a page without a section list, in the normal input mode, the arrow keys move the
/// process table's cursor by one row: Up to the row above (staying on the first row),
/// Down to the row below (staying on the last row of `rows`), with any modifiers; nothing
/// else changes and neither key quits.
pub proof fn lemma_arrow_keys_move_the_cursor(
    v: UiView,
    modifiers: KeyModifiers,
    rows: Seq<ProcessIdentity>,
    gpu: bool,
)
    requires
        v.input_mode == InputMode::Normal,
        v.mode != AppMode::Hardware,
        rows.len() <= usize::MAX,
    ensures
        key_step(v, KeyEvent { code: KeyCode::Up, modifiers }, rows, gpu) == ((
            UiView { selected: (if v.selected > 0 { v.selected - 1 } else { 0 }) as usize, ..v }
        ), false),
        key_step(v, KeyEvent { code: KeyCode::Down, modifiers }, rows, gpu) == ((
            UiView {
                selected: (if rows.len() == 0 {
                    0
                } else if v.selected + 1 < rows.len() {
                    v.selected + 1
                } else {
                    rows.len() - 1
                }) as usize,
                ..v
            }
        ), false),
{
}

/// `parse_interval_input`: the interval prompt's text in milliseconds, if it reads as one.
#[verifier::spinoff_prover]
pub fn parse_interval_input(value: &str) -> (r: Option<u64>)
    ensures
        r == interval_input_millis(value@),
{
    let chars = chars_of(value);
    let (lo, hi) = trim_bounds(chars.as_slice(), 0, chars.len());
    assert(chars@.subrange(0, chars@.len() as int) =~= value@);
    let ghost t = trim(value@);
    assert(t =~= chars@.subrange(lo as int, hi as int));
    if hi - lo >= 2 && chars[hi - 2] == 'm' && chars[hi - 1] == 's' {
        let (a, b) = trim_bounds(chars.as_slice(), lo, hi - 2);
        assert(t.take(t.len() - 2) =~= chars@.subrange(lo as int, hi - 2));
        parse_dec(chars.as_slice(), a, b, u64::MAX)
    } else {
        let end = if hi - lo >= 1 && chars[hi - 1] == 's' { hi - 1 } else { hi };
        assert((if t.len() >= 1 && t.last() == 's' { t.drop_last() } else { t }) =~= chars@.subrange(lo as int, end as int));
        let (a, b) = trim_bounds(chars.as_slice(), lo, end);
        match parse_dec(chars.as_slice(), a, b, u64::MAX) {
            Some(v) => Some(v.wrapping_mul(1000)),
            None => None,
        }
    }
}

/// Whether the typed text confirms the pending signal.
fn confirmation_ok(action: &Option<PendingAction>, typed: &str) -> (b: bool)
    ensures
        b == confirmation_matches(action_view(*action), typed@),
{
    match action {
        Some(action) => {
            let chars = chars_of(typed);
            let terminate_ok = if action.signal == ProcessSignalKind::Terminate && chars.len() == 1 {
                let c = crate::text::lower_char(chars[0]);
                assert(lower_seq(typed@) =~= seq![crate::text::lower(typed@[0])]);
                if c == 'y' {
                    assert(lower_seq(typed@) =~= seq!['y']);
                    true
                } else {
                    assert(lower_seq(typed@)[0] != seq!['y'][0]);
                    false
                }
            } else {
                assert(action.signal != ProcessSignalKind::Terminate || lower_seq(typed@).len() != 1);
                false
            };
            let pid_text = i32_string(action.pid);
            let kill_ok = action.signal == ProcessSignalKind::Kill && crate::text::eq_chars(
                chars.as_slice(),
                pid_text.as_str(),
            );
            terminate_ok || kill_ok
        },
        None => false,
    }
}

impl UiState {
    /// A fresh state on `mode`, with text in `language`.
    pub fn with_mode(mode: AppMode, language: Language) -> (s: UiState)
        ensures
            s@.mode == mode,
            s@.language == language,
            s@.paused == false,
            s@.input_mode == InputMode::Normal,
            s@.input == Seq::<char>::empty(),
            s@.sort_key == SortKey::Cpu,
            s@.sort_descending == true,
            s@.user_filter == Seq::<char>::empty(),
            s@.interval_input == Seq::<char>::empty(),
            !s@.show_full_path && !s@.hide_idle && !s@.tree_view && !s@.thread_view,
            s@.selected == 0,
            s@.status == language.text().status_sampling@,
            s@.sections == Seq::<DetailSection>::empty(),
            s@.section_selected == 0,
            s@.detail_scroll == 0,
            s@.detail_error is None,
            s@.disks == Seq::<DiskVolume>::empty(),
            !s@.refresh_requested,
            s@.interval_millis == 1000,
            !s@.fps_enabled,
            s@.pending_action is None,
            s@.action_input == Seq::<char>::empty(),
            s@.completed_action is None,
    {
        UiState {
            mode,
            paused: false,
            input_mode: InputMode::Normal,
            input: String::new(),
            sort_key: SortKey::Cpu,
            sort_descending: true,
            user_filter: String::new(),
            interval_input: String::new(),
            show_full_path: false,
            hide_idle: false,
            tree_view: false,
            thread_view: false,
            selected: 0,
            status: language.strings().status_sampling.to_owned(),
            sections: Vec::new(),
            section_selected: 0,
            detail_scroll: 0,
            detail_error: None,
            disks: Vec::new(),
            refresh_requested: false,
            interval_millis: 1000,
            language,
            fps_enabled: false,
            pending_action: None,
            action_input: String::new(),
            completed_action: None,
        }
    }

    pub fn strings(&self) -> (s: Strings)
        ensures
            s == self.language.text(),
    {
        self.language.strings()
    }

    /// Reads and clears the request for an immediate sample.
    pub fn take_refresh_request(&mut self) -> (r: bool)
        ensures
            r == old(self)@.refresh_requested,
            final(self)@ == (UiView { refresh_requested: false, ..old(self)@ }),
    {
        let r = self.refresh_requested;
        self.refresh_requested = false;
        r
    }

    /// Hands over a confirmed signal, once.
    pub fn take_completed_action(&mut self) -> (r: Option<PendingAction>)
        ensures
            action_view(r) == old(self)@.completed_action,
            final(self)@ == (UiView { completed_action: None, ..old(self)@ }),
    {
        let r = self.completed_action.take();
        r
    }

    fn live_status_text(&self) -> (t: &'static str)
        ensures
            t@ == live_status(self@),
    {
        if self.paused {
            self.strings().status_paused
        } else {
            self.strings().status_live
        }
    }

    /// Switching language also rewrites the status line, so no text of the other
    /// language is left on screen.
    pub fn set_language(&mut self, language: Language, has_snapshot: bool)
        ensures
            final(self)@ == (UiView {
                language,
                status: if has_snapshot {
                    live_status(UiView { language, ..old(self)@ })
                } else {
                    language.text().status_sampling@
                },
                ..old(self)@
            }),
    {
        self.language = language;
        if has_snapshot {
            self.status = self.live_status_text().to_owned();
        } else {
            self.status = self.strings().status_sampling.to_owned();
        }
    }

    fn switch_mode(&mut self, mode: AppMode)
        ensures
            final(self)@ == switch_mode(old(self)@, mode),
    {
        if self.mode == mode {
            return;
        }
        self.mode = mode;
        self.section_selected = 0;
        self.detail_scroll = 0;
    }

    fn request_mode(&mut self, mode: Option<AppMode>, gpu_available: bool)
        ensures
            final(self)@ == request_mode(old(self)@, mode, gpu_available),
    {
        match mode {
            Some(m) => {
                if m == AppMode::Gpu && !gpu_available {
                    return;
                }
                self.switch_mode(m);
            },
            None => {},
        }
    }

    /// Moves along the mode bar (`←`/`→`), wrapping around.
    pub fn cycle_mode(&mut self, forward: bool, gpu_available: bool)
        ensures
            final(self)@ == switch_mode(old(self)@, cycle_target(old(self)@.mode, forward, gpu_available)),
    {
        let modes = AppMode::all();
        let i = (self.mode.number() - 1) as usize;
        let j = if forward { (i + 1) % 9 } else { (i + 8) % 9 };
        let k = if forward { (j + 1) % 9 } else { (j + 8) % 9 };
        let target = if modes[j] == AppMode::Gpu && !gpu_available { modes[k] } else { modes[j] };
        self.switch_mode(target);
    }

    fn adjust_interval(&mut self, up: bool)
        ensures
            final(self)@ == (UiView {
                interval_millis: clamp_interval(
                    if up { old(self)@.interval_millis + 250 } else { old(self)@.interval_millis - 250 },
                ),
                ..old(self)@
            }),
    {
        let current = self.interval_millis;
        self.interval_millis = if up {
            if current >= REFRESH_MAX_MILLIS - 250 { REFRESH_MAX_MILLIS }
            else if current + 250 < REFRESH_MIN_MILLIS { REFRESH_MIN_MILLIS }
            else { current + 250 }
        } else {
            if current < REFRESH_MIN_MILLIS + 250 { REFRESH_MIN_MILLIS }
            else if current - 250 > REFRESH_MAX_MILLIS { REFRESH_MAX_MILLIS }
            else { current - 250 }
        };
    }

    fn edit_text(text: &mut String, key: KeyEvent)
        ensures
            final(text)@ == edit(old(text)@, key),
    {
        match key.code {
            KeyCode::Backspace => pop_char(text),
            KeyCode::Char(c) => {
                if is_text_input(key.modifiers) {
                    push_char(text, c);
                }
            },
            _ => {},
        }
    }

    fn handle_action_key(&mut self, key: KeyEvent)
        requires
            old(self).input_mode == InputMode::Action,
        ensures
            final(self)@ =~= action_key(old(self)@, key),
    {
        match key.code {
            KeyCode::Esc => {
                self.pending_action = None;
                self.action_input = String::new();
                self.input_mode = InputMode::Normal;
                self.status = self.strings().status_action_cancel.to_owned();
            },
            KeyCode::Enter => {
                let valid = confirmation_ok(&self.pending_action, self.action_input.as_str());
                assert(valid == confirmation_matches(old(self)@.pending_action, old(self)@.action_input));
                if valid {
                    self.completed_action = self.pending_action.take();
                    self.action_input = String::new();
                    self.input_mode = InputMode::Normal;
                } else {
                    self.status = self.strings().status_action_mismatch.to_owned();
                }
            },
            _ => {
                Self::edit_text(&mut self.action_input, key);
            },
        }
    }

    fn handle_search_key(&mut self, key: KeyEvent)
        requires
            old(self).input_mode == InputMode::Search,
        ensures
            final(self)@ == search_key(old(self)@, key),
    {
        match key.code {
            KeyCode::Esc => {
                self.input = String::new();
                self.input_mode = InputMode::Normal;
            },
            KeyCode::Enter => self.input_mode = InputMode::Normal,
            _ => Self::edit_text(&mut self.input, key),
        }
        self.selected = 0;
    }

    fn handle_user_filter_key(&mut self, key: KeyEvent)
        requires
            old(self).input_mode == InputMode::UserFilter,
        ensures
            final(self)@ == user_filter_key(old(self)@, key),
    {
        match key.code {
            KeyCode::Esc => {
                self.user_filter = String::new();
                self.input_mode = InputMode::Normal;
            },
            KeyCode::Enter => self.input_mode = InputMode::Normal,
            _ => Self::edit_text(&mut self.user_filter, key),
        }
        self.selected = 0;
    }

    fn handle_interval_key(&mut self, key: KeyEvent)
        requires
            old(self).input_mode == InputMode::Interval,
        ensures
            final(self)@ == interval_key(old(self)@, key),
    {
        match key.code {
            KeyCode::Esc => {
                self.interval_input = String::new();
                self.input_mode = InputMode::Normal;
            },
            KeyCode::Enter => {
                self.input_mode = InputMode::Normal;
                let raw = self.interval_input.clone();
                self.interval_input = String::new();
                let chars = chars_of(raw.as_str());
                let (lo, hi) = trim_bounds(chars.as_slice(), 0, chars.len());
                assert(chars@.subrange(0, chars@.len() as int) =~= raw@);
                if lo < hi {
                    match parse_interval_input(raw.as_str()) {
                        Some(millis) => {
                            self.interval_millis = if millis < REFRESH_MIN_MILLIS {
                                REFRESH_MIN_MILLIS
                            } else if millis > REFRESH_MAX_MILLIS {
                                REFRESH_MAX_MILLIS
                            } else {
                                millis
                            };
                        },
                        None => {
                            self.status = self.strings().status_interval_invalid.to_owned();
                        },
                    }
                }
            },
            _ => Self::edit_text(&mut self.interval_input, key),
        }
    }

    fn request_signal(&mut self, kill: bool, rows: &[ProcessIdentity])
        ensures
            final(self)@ == signal_request(old(self)@, kill, rows@),
    {
        if self.selected < rows.len() {
            let row = rows[self.selected];
            let signal = if kill { ProcessSignalKind::Kill } else { ProcessSignalKind::Terminate };
            let text = self.strings();
            let template = if kill { text.confirm_kill } else { text.confirm_terminate };
            let pid_text = i32_string(row.pid);
            proof {
                reveal_strlit("{pid}");
            }
            let confirmation = replace_str(template, "{pid}", pid_text.as_str());
            self.pending_action = Some(PendingAction {
                pid: row.pid,
                start_seconds: row.start_seconds,
                start_microseconds: row.start_microseconds,
                signal,
                confirmation,
            });
            self.action_input = String::new();
            self.input_mode = InputMode::Action;
        }
    }

    #[verifier::rlimit(40)]
    fn handle_section_key(&mut self, code: KeyCode) -> (handled: bool)
        ensures
            handled == (section_key(old(self)@, code) is Some),
            handled ==> final(self)@ == section_key(old(self)@, code).unwrap(),
            !handled ==> final(self)@ == old(self)@,
    {
        if self.mode != AppMode::Hardware {
            return false;
        }
        let last = self.sections.len().saturating_sub(1);
        match code {
            KeyCode::Up => {
                self.section_selected = self.section_selected.saturating_sub(1);
                self.detail_scroll = 0;
            },
            KeyCode::Down => {
                self.section_selected = if self.section_selected < last { self.section_selected + 1 } else { last };
                self.detail_scroll = 0;
            },
            KeyCode::Home | KeyCode::Char('g') => {
                self.section_selected = 0;
                self.detail_scroll = 0;
            },
            KeyCode::End | KeyCode::Char('G') => {
                self.section_selected = last;
                self.detail_scroll = 0;
            },
            KeyCode::PageUp => self.detail_scroll = self.detail_scroll.saturating_sub(10),
            KeyCode::PageDown => self.detail_scroll = self.detail_scroll.saturating_add(10),
            _ => return false,
        }
        true
    }

    fn char_prompt(&mut self, c: char, key: KeyEvent, rows: &[ProcessIdentity], gpu_available: bool)
        requires
            c == '?' || c == '/' || c == 's' || c == 'd' || c == 'u',
        ensures
            final(self)@ == char_key(old(self)@, c, key, rows@, gpu_available),
    {
        if c == '?' {
            self.input_mode = InputMode::Help;
        } else if c == '/' {
            self.input = String::new();
            self.input_mode = InputMode::Search;
        } else if c == 's' || c == 'd' {
            self.interval_input = String::new();
            self.input_mode = InputMode::Interval;
        } else {
            self.input_mode = InputMode::UserFilter;
        }
    }

    fn char_sort(&mut self, c: char, key: KeyEvent, rows: &[ProcessIdentity], gpu_available: bool)
        requires
            c == 'o' || c == 'O' || c == 'R' || c == 'P' || c == 'M' || c == 'N' || c == 'E' || c == 'W',
        ensures
            final(self)@ == char_key(old(self)@, c, key, rows@, gpu_available),
    {
        if c == 'o' {
            self.sort_key = self.sort_key.next();
        } else if c == 'O' || c == 'R' {
            self.sort_descending = !self.sort_descending;
        } else if c == 'P' {
            self.sort_key = SortKey::Cpu;
        } else if c == 'M' {
            self.sort_key = SortKey::Memory;
        } else if c == 'N' {
            self.sort_key = SortKey::Pid;
        } else if c == 'E' {
            self.sort_key = SortKey::Energy;
        } else {
            self.sort_key = SortKey::Power;
        }
    }

    fn char_toggle(&mut self, c: char, key: KeyEvent, rows: &[ProcessIdentity], gpu_available: bool)
        requires
            c == 'c' || c == 'f' || c == 'i' || c == 'V' || c == 'H',
        ensures
            final(self)@ == char_key(old(self)@, c, key, rows@, gpu_available),
    {
        if c == 'c' {
            self.show_full_path = !self.show_full_path;
        } else if c == 'f' {
            self.fps_enabled = !self.fps_enabled;
            self.refresh_requested = true;
        } else if c == 'i' {
            self.hide_idle = !self.hide_idle;
        } else if c == 'V' {
            self.tree_view = !self.tree_view;
        } else {
            self.thread_view = !self.thread_view;
        }
    }

    fn char_control(&mut self, c: char, key: KeyEvent, rows: &[ProcessIdentity], gpu_available: bool)
        requires
            c == '+' || c == '=' || c == '-' || c == ' ' || c == 'r',
        ensures
            final(self)@ == char_key(old(self)@, c, key, rows@, gpu_available),
    {
        if c == '+' || c == '=' {
            self.adjust_interval(true);
        } else if c == '-' {
            self.adjust_interval(false);
        } else if c == ' ' {
            self.paused = !self.paused;
            self.status = self.live_status_text().to_owned();
        } else {
            self.status = self.strings().status_refreshing.to_owned();
            self.refresh_requested = true;
        }
    }

    fn char_rows(&mut self, c: char, key: KeyEvent, rows: &[ProcessIdentity], gpu_available: bool)
        requires
            c == 'x' || c == 'k' || c == 'X' || c == 'g' || c == 'G',
        ensures
            final(self)@ == char_key(old(self)@, c, key, rows@, gpu_available),
    {
        if c == 'x' || c == 'k' || c == 'X' {
            self.request_signal(c == 'X', rows);
        } else if c == 'g' {
            self.selected = 0;
        } else {
            self.selected = rows.len().saturating_sub(1);
        }
    }

    fn handle_char_key(&mut self, c: char, key: KeyEvent, rows: &[ProcessIdentity], gpu_available: bool)
        ensures
            final(self)@ == char_key(old(self)@, c, key, rows@, gpu_available),
    {
        if c == '?' || c == '/' || c == 's' || c == 'd' || c == 'u' {
            self.char_prompt(c, key, rows, gpu_available);
        } else if c == 'o' || c == 'O' || c == 'R' || c == 'P' || c == 'M' || c == 'N' || c == 'E' || c == 'W' {
            self.char_sort(c, key, rows, gpu_available);
        } else if c == 'c' || c == 'f' || c == 'i' || c == 'V' || c == 'H' {
            self.char_toggle(c, key, rows, gpu_available);
        } else if c == '+' || c == '=' || c == '-' || c == ' ' || c == 'r' {
            self.char_control(c, key, rows, gpu_available);
        } else if c == 'x' || c == 'k' || c == 'X' || c == 'g' || c == 'G' {
            self.char_rows(c, key, rows, gpu_available);
        } else if '1' <= c && c <= '9' {
            let number = ((c as u32) - 48) as u8;
            self.request_mode(AppMode::from_number(number), gpu_available);
        }
    }

    fn handle_normal_key(&mut self, key: KeyEvent, rows: &[ProcessIdentity], gpu_available: bool) -> (quit: bool)
        requires
            old(self).input_mode == InputMode::Normal,
        ensures
            (final(self)@, quit) == normal_key(old(self)@, key, rows@, gpu_available),
    {
        let last = rows.len().saturating_sub(1);
        match key.code {
            KeyCode::Esc => return true,
            KeyCode::Char(c) => {
                if c == 'q' || (c == 'c' && key.modifiers.control) {
                    return true;
                }
                if (c == 'g' || c == 'G') && self.mode == AppMode::Hardware {
                    let handled = self.handle_section_key(key.code);
                    return false;
                }
                self.handle_char_key(c, key, rows, gpu_available);
                return false;
            },
            _ => {},
        }
        if self.handle_section_key(key.code) {
            return false;
        }
        match key.code {
            KeyCode::Up => self.selected = self.selected.saturating_sub(1),
            KeyCode::Down => self.selected = if self.selected < last { self.selected + 1 } else { last },
            KeyCode::PageUp => self.selected = self.selected.saturating_sub(10),
            KeyCode::PageDown => self.selected = if self.selected < last && last - self.selected >= 10 {
                self.selected + 10
            } else {
                last
            },
            KeyCode::Left | KeyCode::BackTab => self.cycle_mode(false, gpu_available),
            KeyCode::Right | KeyCode::Tab => self.cycle_mode(true, gpu_available),
            KeyCode::Home => self.selected = 0,
            KeyCode::End => self.selected = last,
            KeyCode::F(n) => {
                if 1 <= n && n <= 9 {
                    self.request_mode(AppMode::from_number(n), gpu_available);
                }
            },
            _ => {},
        }
        false
    }

    /// Handles one key press. `rows` are the process-table rows in the order shown and
    /// `gpu_available` whether the last sample had a GPU. Returns whether the key quits.
    pub fn handle_key(&mut self, key: KeyEvent, rows: &[ProcessIdentity], gpu_available: bool) -> (quit: bool)
        ensures
            (final(self)@, quit) == key_step(old(self)@, key, rows@, gpu_available),
    {
        match self.input_mode {
            InputMode::Action => {
                self.handle_action_key(key);
                false
            },
            InputMode::Help => {
                if key.code == KeyCode::Esc || key.code == KeyCode::Char('?') {
                    self.input_mode = InputMode::Normal;
                }
                false
            },
            InputMode::Search => {
                self.handle_search_key(key);
                false
            },
            InputMode::UserFilter => {
                self.handle_user_filter_key(key);
                false
            },
            InputMode::Interval => {
                self.handle_interval_key(key);
                false
            },
            InputMode::Normal => self.handle_normal_key(key, rows, gpu_available),
        }
    }
}

/// A key asks to quit only in the normal mode: never while a prompt takes text, a signal
/// waits for confirmation, or the help is open.
pub proof fn lemma_quit_only_from_normal(v: UiView, key: KeyEvent, rows: Seq<ProcessIdentity>, gpu: bool)
    ensures
        key_step(v, key, rows, gpu).1 ==> v.input_mode == InputMode::Normal,
{
}

/// While a prompt, a confirmation or the help is open, no key switches the mode: digits
/// typed there are text.
pub proof fn lemma_prompts_keep_the_mode(v: UiView, key: KeyEvent, rows: Seq<ProcessIdentity>, gpu: bool)
    requires
        v.input_mode != InputMode::Normal,
    ensures
        key_step(v, key, rows, gpu).0.mode == v.mode,
{
}

/// No key takes the refresh interval out of 250 ms to 60 s.
pub proof fn lemma_interval_stays_in_range(v: UiView, key: KeyEvent, rows: Seq<ProcessIdentity>, gpu: bool)
    requires
        REFRESH_MIN_MILLIS <= v.interval_millis <= REFRESH_MAX_MILLIS,
    ensures
        REFRESH_MIN_MILLIS <= key_step(v, key, rows, gpu).0.interval_millis <= REFRESH_MAX_MILLIS,
{
    if v.input_mode == InputMode::Normal {
        lemma_normal_key_frame(v, key, rows, gpu);
    }
}

#[verifier::rlimit(60)]
proof fn lemma_char_key_frame(v: UiView, c: char, key: KeyEvent, rows: Seq<ProcessIdentity>, gpu: bool)
    ensures
        ({
            let w = char_key(v, c, key, rows, gpu);
            &&& w.completed_action == v.completed_action
            &&& w.sections == v.sections
            &&& (w.section_selected == v.section_selected || w.section_selected == 0)
            &&& (v.selected <= last_row(rows.len()) ==> w.selected <= last_row(rows.len()))
            &&& (w.pending_action != v.pending_action && w.pending_action is Some ==> aimed_at_selected(
                v,
                w,
                rows,
            ))
            &&& (REFRESH_MIN_MILLIS <= v.interval_millis <= REFRESH_MAX_MILLIS ==> REFRESH_MIN_MILLIS
                <= w.interval_millis <= REFRESH_MAX_MILLIS)
        }),
{
}

/// `w`'s pending signal is for the row under `v`'s cursor.
pub open spec fn aimed_at_selected(v: UiView, w: UiView, rows: Seq<ProcessIdentity>) -> bool {
    &&& v.selected < rows.len()
    &&& w.pending_action.unwrap().pid == rows[v.selected as int].pid
    &&& w.pending_action.unwrap().start_seconds == rows[v.selected as int].start_seconds
    &&& w.pending_action.unwrap().start_microseconds == rows[v.selected as int].start_microseconds
}

proof fn lemma_section_key_frame(v: UiView, code: KeyCode)
    ensures
        section_key(v, code) matches Some(w) ==> {
            &&& w.completed_action == v.completed_action
            &&& w.sections == v.sections
            &&& w.selected == v.selected
            &&& w.pending_action == v.pending_action
            &&& w.interval_millis == v.interval_millis
            &&& (v.section_selected <= last_row(v.sections.len()) ==> w.section_selected <= last_row(
                v.sections.len(),
            ))
        },
{
}

proof fn lemma_normal_key_frame(v: UiView, key: KeyEvent, rows: Seq<ProcessIdentity>, gpu: bool)
    ensures
        ({
            let w = normal_key(v, key, rows, gpu).0;
            &&& w.completed_action == v.completed_action
            &&& w.sections == v.sections
            &&& (v.selected <= last_row(rows.len()) ==> w.selected <= last_row(rows.len()))
            &&& (v.section_selected <= last_row(v.sections.len()) ==> w.section_selected <= last_row(
                v.sections.len(),
            ))
            &&& (w.pending_action != v.pending_action && w.pending_action is Some ==> aimed_at_selected(
                v,
                w,
                rows,
            ))
            &&& (REFRESH_MIN_MILLIS <= v.interval_millis <= REFRESH_MAX_MILLIS ==> REFRESH_MIN_MILLIS
                <= w.interval_millis <= REFRESH_MAX_MILLIS)
        }),
{
    lemma_section_key_frame(v, key.code);
    match key.code {
        KeyCode::Char(c) => {
            lemma_char_key_frame(v, c, key, rows, gpu);
        },
        _ => {},
    }
}

/// A signal is released only by Enter on a pending signal whose confirmation was typed,
/// and what is released is that pending signal.
pub proof fn lemma_signal_needs_confirmation(v: UiView, key: KeyEvent, rows: Seq<ProcessIdentity>, gpu: bool)
    requires
        v.completed_action is None,
    ensures
        key_step(v, key, rows, gpu).0.completed_action is Some ==> {
            &&& v.input_mode == InputMode::Action
            &&& key.code == KeyCode::Enter
            &&& confirmation_matches(v.pending_action, v.action_input)
            &&& key_step(v, key, rows, gpu).0.completed_action == v.pending_action
        },
{
    if v.input_mode == InputMode::Normal {
        lemma_normal_key_frame(v, key, rows, gpu);
    }
}

/// A signal is only ever aimed at the process under the cursor, named by its pid and its
/// start time so that a reused pid is not hit.
pub proof fn lemma_signal_targets_the_selected_row(
    v: UiView,
    key: KeyEvent,
    rows: Seq<ProcessIdentity>,
    gpu: bool,
)
    ensures
        ({
            let w = key_step(v, key, rows, gpu).0;
            w.pending_action != v.pending_action && w.pending_action is Some ==> aimed_at_selected(v, w, rows)
        }),
{
    if v.input_mode == InputMode::Normal {
        lemma_normal_key_frame(v, key, rows, gpu);
    }
}

/// The process cursor stays on a row of the table (on 0 when it is empty).
pub proof fn lemma_selection_stays_in_table(v: UiView, key: KeyEvent, rows: Seq<ProcessIdentity>, gpu: bool)
    requires
        v.selected <= last_row(rows.len()),
    ensures
        key_step(v, key, rows, gpu).0.selected <= last_row(rows.len()),
{
    if v.input_mode == InputMode::Normal {
        lemma_normal_key_frame(v, key, rows, gpu);
    }
}

/// The section cursor stays on a section of the list (on 0 when it is empty).
pub proof fn lemma_section_cursor_stays_in_list(v: UiView, key: KeyEvent, rows: Seq<ProcessIdentity>, gpu: bool)
    requires
        v.section_selected <= last_row(v.sections.len()),
    ensures
        key_step(v, key, rows, gpu).0.sections == v.sections,
        key_step(v, key, rows, gpu).0.section_selected <= last_row(v.sections.len()),
{
    if v.input_mode == InputMode::Normal {
        lemma_normal_key_frame(v, key, rows, gpu);
    }
}

/// A page's lazily loaded content.
pub enum ModeDetail {
    Nothing,
    Disks(Vec<DiskVolume>),
    Sections(Vec<DetailSection>),
}

/// The state once a load has finished: its content replaces that kind of content only, a
/// shorter section list pulls the cursor back onto it, and a failure is reported while
/// what was loaded before stays.
pub open spec fn detail_applied(v: UiView, detail: Result<ModeDetail, String>) -> UiView {
    match detail {
        Ok(ModeDetail::Nothing) => UiView { detail_error: None, ..v },
        Ok(ModeDetail::Disks(disks)) => UiView { disks: disks@, detail_error: None, ..v },
        Ok(ModeDetail::Sections(sections)) => UiView {
            sections: sections@,
            section_selected: if v.section_selected <= last_row(sections@.len()) {
                v.section_selected
            } else {
                last_row(sections@.len())
            },
            detail_error: None,
            ..v
        },
        Err(e) => UiView { detail_error: Some(e), ..v },
    }
}

/// Index of the first row with pid `pid`.
pub open spec fn pid_index(rows: Seq<ProcessIdentity>, pid: i32) -> Option<nat>
    decreases rows.len(),
{
    if rows.len() == 0 {
        None
    } else if rows[0].pid == pid {
        Some(0)
    } else {
        match pid_index(rows.drop_first(), pid) {
            Some(i) => Some(i + 1),
            None => None,
        }
    }
}

proof fn lemma_pid_index(rows: Seq<ProcessIdentity>, pid: i32, k: int)
    requires
        0 <= k <= rows.len(),
        forall|j: int| 0 <= j < k ==> (#[trigger] rows[j]).pid != pid,
    ensures
        k < rows.len() && rows[k].pid == pid ==> pid_index(rows, pid) == Some(k as nat),
        k == rows.len() ==> pid_index(rows, pid) is None,
    decreases k,
{
    if k > 0 {
        let d = rows.drop_first();
        assert forall|j: int| 0 <= j < k - 1 implies (#[trigger] d[j]).pid != pid by {
            assert(d[j] == rows[j + 1]);
        }
        lemma_pid_index(d, pid, k - 1);
        assert(rows[0].pid != pid);
        if k < rows.len() {
            assert(d[k - 1] == rows[k]);
        }
    }
}

proof fn lemma_pid_index_found(rows: Seq<ProcessIdentity>, pid: i32)
    ensures
        pid_index(rows, pid) matches Some(i) ==> i < rows.len() && rows[i as int].pid == pid,
    decreases rows.len(),
{
    if rows.len() > 0 && rows[0].pid != pid {
        lemma_pid_index_found(rows.drop_first(), pid);
    }
}

/// Where the cursor goes when a new sample arrives: onto the same process if it is still
/// listed (the sort order changes from sample to sample), else the same row, pulled back
/// onto the table when that has shrunk.
pub open spec fn pinned_row(selected: usize, previous_pid: Option<i32>, rows: Seq<ProcessIdentity>) -> nat {
    let found = match previous_pid {
        Some(pid) => pid_index(rows, pid),
        None => None,
    };
    match found {
        Some(i) => i,
        None => if selected <= last_row(rows.len()) {
            selected as nat
        } else {
            last_row(rows.len()) as nat
        },
    }
}

impl UiState {
    fn set_detail_error(&mut self, error: Option<String>)
        ensures
            final(self)@ == (UiView { detail_error: error, ..old(self)@ }),
    {
        self.detail_error = error;
    }

    fn set_disks(&mut self, disks: Vec<DiskVolume>)
        ensures
            final(self)@ == (UiView { disks: disks@, ..old(self)@ }),
    {
        self.disks = disks;
    }

    fn set_sections(&mut self, sections: Vec<DetailSection>)
        ensures
            final(self)@ == (UiView {
                sections: sections@,
                section_selected: if old(self)@.section_selected <= last_row(sections@.len()) {
                    old(self)@.section_selected
                } else {
                    last_row(sections@.len())
                },
                ..old(self)@
            }),
    {
        let last = if sections.len() > 0 { sections.len() - 1 } else { 0 };
        self.sections = sections;
        if self.section_selected > last {
            self.section_selected = last;
        }
    }

    pub fn apply_detail(&mut self, detail: Result<ModeDetail, String>)
        ensures
            final(self)@ == detail_applied(old(self)@, detail),
    {
        match detail {
            Ok(ModeDetail::Nothing) => {
                self.set_detail_error(None);
            },
            Ok(ModeDetail::Disks(disks)) => {
                self.set_disks(disks);
                self.set_detail_error(None);
            },
            Ok(ModeDetail::Sections(sections)) => {
                self.set_sections(sections);
                self.set_detail_error(None);
            },
            Err(error) => {
                self.set_detail_error(Some(error));
            },
        }
    }

    /// The section under the cursor.
    pub fn selected_section(&self) -> (r: Option<&DetailSection>)
        ensures
            self.section_selected < self.sections@.len() ==> r == Some(&self.sections@[self.section_selected as int]),
            self.section_selected >= self.sections@.len() ==> r is None,
    {
        if self.section_selected < self.sections.len() {
            Some(&self.sections[self.section_selected])
        } else {
            None
        }
    }

    /// The process page's rows for a sample, as (depth, index into `rows`): the rows that
    /// pass the search, user and idle filters, in the chosen column's order, in tree order
    /// when the tree view is on.
    pub fn filtered_processes(&self, rows: &[ProcessRowKey]) -> (r: Vec<(usize, usize)>)
        ensures
            pairs_view(r@) == table_rows(
                rows@,
                table_order(rows@, self.input@, self.user_filter@, self.hide_idle, self.sort_key, self.sort_descending),
                self.tree_view,
            ),
    {
        ordered_rows(
            rows,
            self.input.as_str(),
            self.user_filter.as_str(),
            self.hide_idle,
            self.sort_key,
            self.sort_descending,
            self.tree_view,
        )
    }

    /// The process table's title: the sort column with an arrow for its direction, then
    /// the user filter when one is set and a note when idle processes are hidden.
    pub fn process_table_title(&self) -> (out: String)
        ensures
            out@ == process_title_text(
                self.language.text(),
                self.sort_key,
                self.sort_descending,
                self.user_filter@,
                self.hide_idle,
            ),
    {
        proof {
            reveal_strlit("{key}");
            reveal_strlit("{user}");
        }
        let text = self.strings();
        let label = match self.sort_key {
            SortKey::Cpu => text.mode_cpu,
            SortKey::Gpu => text.field_gpu,
            SortKey::Energy => text.label_energy,
            SortKey::Power => text.label_power,
            SortKey::Memory => text.column_memory,
            SortKey::Pid => "PID",
        };
        let direction = if self.sort_descending {
            "↓"
        } else {
            "↑"
        };
        assert(label@ == sort_label(text, self.sort_key));
        let mut key = String::new();
        let label_chars = chars_of(label);
        push_chars(&mut key, label_chars.as_slice(), 0, label_chars.len());
        assert(label_chars@.subrange(0, label_chars@.len() as int) =~= label@);
        let direction_chars = chars_of(direction);
        push_chars(&mut key, direction_chars.as_slice(), 0, direction_chars.len());
        assert(direction_chars@.subrange(0, direction_chars@.len() as int) =~= direction@);
        assert(key@ =~= label@ + direction@);
        let mut title = replace_str(text.process_sorted_by, "{key}", key.as_str());
        let ghost head = title@;
        let user_present = chars_of(self.user_filter.as_str()).len() > 0;
        if user_present {
            let user = replace_str(text.process_user_filter, "{user}", self.user_filter.as_str());
            let user_chars = chars_of(user.as_str());
            push_chars(&mut title, user_chars.as_slice(), 0, user_chars.len());
            assert(user_chars@.subrange(0, user_chars@.len() as int) =~= user@);
        }
        let ghost user_part: Seq<char> = if user_present {
            replace_all(text.process_user_filter@, "{user}"@, self.user_filter@)
        } else {
            Seq::empty()
        };
        assert(title@ =~= head + user_part);
        let ghost mid = title@;
        if self.hide_idle {
            let note = chars_of(text.process_active_only);
            push_chars(&mut title, note.as_slice(), 0, note.len());
            assert(note@.subrange(0, note@.len() as int) =~= text.process_active_only@);
        }
        let ghost idle_part: Seq<char> = if self.hide_idle {
            text.process_active_only@
        } else {
            Seq::empty()
        };
        assert(title@ =~= mid + idle_part);
        title
    }

    /// The threads run by the rows shown, rows without a count adding none.
    pub fn thread_total(counts: &[Option<u32>]) -> (r: u64)
        requires
            thread_sum(counts@) <= u64::MAX,
        ensures
            r == thread_sum(counts@),
    {
        let mut total: u64 = 0;
        let mut i: usize = 0;
        while i < counts.len()
            invariant
                i <= counts@.len(),
                total == thread_sum(counts@.take(i as int)),
                thread_sum(counts@) <= u64::MAX,
            decreases counts@.len() - i,
        {
            proof {
                assert(counts@.take(i + 1).drop_last() =~= counts@.take(i as int));
                lemma_thread_sum_prefix(counts@, i + 1);
            }
            match counts[i] {
                Some(c) => {
                    total = total + c as u64;
                },
                None => {},
            }
            i = i + 1;
        }
        assert(counts@.take(counts@.len() as int) =~= counts@);
        total
    }

    /// The process table's footer: how many rows it shows and how many threads they run,
    /// both with thousands separators.
    pub fn process_table_counts(&self, items: usize, threads: usize) -> (out: String)
        ensures
            out@ == replace_all(
                replace_all(self.language.text().process_count@, "{items}"@, grouped(items as nat)),
                "{threads}"@,
                grouped(threads as nat),
            ),
    {
        proof {
            reveal_strlit("{items}");
            reveal_strlit("{threads}");
        }
        let text = self.strings();
        let items_text = format_count(items);
        let threads_text = format_count(threads);
        let with_items = replace_str(text.process_count, "{items}", items_text.as_str());
        replace_str(with_items.as_str(), "{threads}", threads_text.as_str())
    }

    /// The pid of the row under the cursor, for the detail fields the sampler fills in.
    pub fn selected_process_pid(&self, rows: &[ProcessIdentity]) -> (r: Option<i32>)
        ensures
            self.selected < rows@.len() ==> r == Some(rows@[self.selected as int].pid),
            self.selected >= rows@.len() ==> r is None,
    {
        if self.selected < rows.len() {
            Some(rows[self.selected].pid)
        } else {
            None
        }
    }

    /// A new sample: leave the GPU page when the GPU is gone, show the live status, and
    /// keep the cursor on the process it was on. `previous_pid` is the process under the
    /// cursor before, `rows` the table as the new sample shows it.
    pub fn after_snapshot(&mut self, previous_pid: Option<i32>, rows: &[ProcessIdentity], gpu_available: bool)
        ensures
            ({
                let w = if old(self)@.mode == AppMode::Gpu && !gpu_available {
                    switch_mode(old(self)@, AppMode::Overview)
                } else {
                    old(self)@
                };
                &&& final(self)@ == UiView { status: live_status(w), selected: final(self).selected, ..w }
                &&& final(self).selected == pinned_row(old(self)@.selected, previous_pid, rows@)
            }),
    {
        if self.mode == AppMode::Gpu && !gpu_available {
            self.switch_mode(AppMode::Overview);
        }
        self.status = self.live_status_text().to_owned();
        let mut found: Option<usize> = None;
        if let Some(pid) = previous_pid {
            let mut i: usize = 0;
            loop
                invariant_except_break
                    i <= rows@.len(),
                    forall|j: int| 0 <= j < i ==> (#[trigger] rows@[j]).pid != pid,
                    found is None,
                ensures
                    found matches Some(k) ==> pid_index(rows@, pid) == Some(k as nat),
                    found is None ==> pid_index(rows@, pid) is None,
                decreases rows@.len() - i,
            {
                if i >= rows.len() {
                    proof {
                        lemma_pid_index(rows@, pid, i as int);
                    }
                    break;
                }
                if rows[i].pid == pid {
                    proof {
                        lemma_pid_index(rows@, pid, i as int);
                    }
                    found = Some(i);
                    break;
                }
                i = i + 1;
            }
        }
        let last = if rows.len() > 0 { rows.len() - 1 } else { 0 };
        self.selected = match found {
            Some(k) => k,
            None => if self.selected <= last { self.selected } else { last },
        };
    }
}

proof fn lemma_first_match(rows: Seq<ProcessIdentity>, pid: i32, i: int)
    requires
        0 <= i < rows.len(),
        rows[i].pid == pid,
    ensures
        exists|k: int| 0 <= k < rows.len() && rows[k].pid == pid && forall|j: int| 0 <= j < k ==> rows[j].pid != pid,
    decreases i,
{
    if exists|j: int| 0 <= j < i && rows[j].pid == pid {
        let j = choose|j: int| 0 <= j < i && rows[j].pid == pid;
        lemma_first_match(rows, pid, j);
    } else {
        assert(0 <= i < rows.len() && rows[i].pid == pid && forall|j: int| 0 <= j < i ==> rows[j].pid != pid);
    }
}

/// With a new sample the cursor stays on the process it was on whenever that process is
/// still listed.
pub proof fn lemma_cursor_follows_the_process(selected: usize, pid: i32, rows: Seq<ProcessIdentity>)
    requires
        exists|i: int| 0 <= i < rows.len() && rows[i].pid == pid,
    ensures
        pinned_row(selected, Some(pid), rows) < rows.len(),
        rows[pinned_row(selected, Some(pid), rows) as int].pid == pid,
{
    let i = choose|i: int| 0 <= i < rows.len() && rows[i].pid == pid;
    if pid_index(rows, pid) is None {
        lemma_pid_index_none(rows, pid, i);
    }
    lemma_pid_index_found(rows, pid);
}

proof fn lemma_pid_index_none(rows: Seq<ProcessIdentity>, pid: i32, i: int)
    requires
        0 <= i < rows.len(),
        rows[i].pid == pid,
    ensures
        pid_index(rows, pid) is Some,
    decreases rows.len(),
{
    if rows[0].pid != pid {
        assert(rows.drop_first()[i - 1] == rows[i]);
        lemma_pid_index_none(rows.drop_first(), pid, i - 1);
    }
}

/// A load that fails leaves what was loaded before: the disks and the sections stay.
pub proof fn lemma_failed_load_keeps_data(v: UiView, error: String)
    ensures
        detail_applied(v, Err(error)).disks == v.disks,
        detail_applied(v, Err(error)).sections == v.sections,
        detail_applied(v, Err(error)).detail_error == Some(error),
{
}

/// Whether a process row passes the search and user filters: the search text, without
/// ASCII case, in its name or its pid; the user filter in its user name. Empty filters
/// pass every row.
pub open spec fn row_matches(name: Seq<char>, pid: i32, user: Seq<char>, query: Seq<char>, user_filter: Seq<char>) -> bool {
    let q = lower_seq(query);
    let u = lower_seq(user_filter);
    &&& (q.len() == 0 || crate::text::contains(lower_seq(name), q) || crate::text::contains(idec(pid as int), q))
    &&& (u.len() == 0 || crate::text::contains(lower_seq(user), u))
}

pub fn process_matches(name: &str, pid: i32, user: &str, query: &str, user_filter: &str) -> (b: bool)
    ensures
        b == row_matches(name@, pid, user@, query@, user_filter@),
{
    let q = crate::text::lower_chars(chars_of(query).as_slice());
    let u = crate::text::lower_chars(chars_of(user_filter).as_slice());
    let query_ok = if q.len() == 0 {
        true
    } else {
        let n = crate::text::lower_chars(chars_of(name).as_slice());
        let p = chars_of(i32_string(pid).as_str());
        assert(n@.subrange(0, n@.len() as int) =~= n@);
        assert(p@.subrange(0, p@.len() as int) =~= p@);
        crate::text::range_contains(n.as_slice(), 0, n.len(), q.as_slice()) || crate::text::range_contains(
            p.as_slice(),
            0,
            p.len(),
            q.as_slice(),
        )
    };
    let user_ok = if u.len() == 0 {
        true
    } else {
        let w = crate::text::lower_chars(chars_of(user).as_slice());
        assert(w@.subrange(0, w@.len() as int) =~= w@);
        crate::text::range_contains(w.as_slice(), 0, w.len(), u.as_slice())
    };
    query_ok && user_ok
}

/// What to do with the outcome of a page load: its content as it came, or its failure in
/// the language's words for a failed load.
pub open spec fn load_outcome_applied(v: UiView, w: UiView, result: Result<ModeDetail, String>) -> bool {
    match result {
        Ok(d) => w == detail_applied(v, Ok(d)),
        Err(e) => {
            &&& w.detail_error matches Some(m) && m@ == replace_all(
                v.language.text().detail_load_failed@,
                "{error}"@,
                e@,
            )
            &&& w == detail_applied(v, Err(w.detail_error->0))
        },
    }
}

impl UiState {
    /// A sample could not be taken: the status line says why.
    pub fn sample_failed(&mut self, error: &str)
        ensures
            final(self)@ == (UiView {
                status: replace_all(old(self)@.language.text().status_sample_failed@, "{error}"@, error@),
                ..old(self)@
            }),
    {
        proof {
            reveal_strlit("{error}");
        }
        let text = self.strings();
        self.status = replace_str(text.status_sample_failed, "{error}", error);
    }

    /// A page load has finished, well or not.
    pub fn detail_arrived(&mut self, result: Result<ModeDetail, String>)
        ensures
            load_outcome_applied(old(self)@, final(self)@, result),
    {
        proof {
            reveal_strlit("{error}");
        }
        let text = self.strings();
        match result {
            Ok(detail) => self.apply_detail(Ok(detail)),
            Err(error) => self.apply_detail(Err(replace_str(text.detail_load_failed, "{error}", error.as_str()))),
        }
    }

    /// A confirmed signal has been sent, or failed: the status line reports which.
    pub fn action_finished(&mut self, outcome: Result<String, String>)
        ensures
            final(self)@ == (UiView {
                status: match outcome {
                    Ok(message) => message@,
                    Err(error) => replace_all(old(self)@.language.text().status_action_failed@, "{error}"@, error@),
                },
                ..old(self)@
            }),
    {
        proof {
            reveal_strlit("{error}");
        }
        let text = self.strings();
        self.status = match outcome {
            Ok(message) => message,
            Err(error) => replace_str(text.status_action_failed, "{error}", error.as_str()),
        };
    }
}

/// Threads counted over `counts`, a missing count adding none.
pub open spec fn thread_sum(counts: Seq<Option<u32>>) -> nat
    decreases counts.len(),
{
    if counts.len() == 0 {
        0
    } else {
        thread_sum(counts.drop_last()) + match counts.last() {
            Some(c) => c as nat,
            None => 0nat,
        }
    }
}

proof fn lemma_thread_sum_prefix(counts: Seq<Option<u32>>, n: int)
    requires
        0 <= n <= counts.len(),
    ensures
        thread_sum(counts.take(n)) <= thread_sum(counts),
    decreases counts.len() - n,
{
    if n < counts.len() {
        lemma_thread_sum_prefix(counts, n + 1);
        assert(counts.take(n + 1).drop_last() =~= counts.take(n));
    } else {
        assert(counts.take(n) =~= counts);
    }
}

/// The name of a sort column as the process table's title shows it.
pub open spec fn sort_label(text: Strings, key: SortKey) -> Seq<char> {
    match key {
        SortKey::Cpu => text.mode_cpu@,
        SortKey::Gpu => text.field_gpu@,
        SortKey::Energy => text.label_energy@,
        SortKey::Power => text.label_power@,
        SortKey::Memory => text.column_memory@,
        SortKey::Pid => "PID"@,
    }
}

/// The process table's title for a sort column and direction, a user filter (empty for
/// none) and whether idle processes are hidden.
pub open spec fn process_title_text(
    text: Strings,
    key: SortKey,
    descending: bool,
    user_filter: Seq<char>,
    hide_idle: bool,
) -> Seq<char> {
    let arrow = if descending {
        "↓"@
    } else {
        "↑"@
    };
    replace_all(text.process_sorted_by@, "{key}"@, sort_label(text, key) + arrow) + (if user_filter.len() > 0 {
        replace_all(text.process_user_filter@, "{user}"@, user_filter)
    } else {
        Seq::empty()
    }) + (if hide_idle {
        text.process_active_only@
    } else {
        Seq::empty()
    })
}

/// Pages whose extra data (volumes, sections) is loaded when they are shown.
pub open spec fn loads_detail(mode: AppMode) -> bool {
    mode == AppMode::Overview || mode == AppMode::Disk || mode == AppMode::Hardware || mode == AppMode::Sensors
}

/// The dashboard loop's bookkeeping between key presses: which page was last loaded, and
/// whether a sample or a page load is still on its way, so that requests never pile up
/// behind a slow collector.
#[derive(Debug, Clone, Copy, PartialEq, Eq, Structural)]
pub struct LoopState {
    pub loaded_detail_mode: Option<AppMode>,
    pub sample_in_flight: bool,
    pub detail_in_flight: bool,
}

impl LoopState {
    pub fn new() -> (s: LoopState)
        ensures
            s.loaded_detail_mode is None,
            !s.sample_in_flight,
            !s.detail_in_flight,
    {
        LoopState { loaded_detail_mode: None, sample_in_flight: false, detail_in_flight: false }
    }

    /// Asked each time round with the page shown: the page whose data to load now, if any.
    /// A page is loaded once each time it is entered or a refresh is asked for, and never
    /// while another load is on its way.
    pub fn detail_request(&mut self, mode: AppMode) -> (r: Option<AppMode>)
        ensures
            if old(self).loaded_detail_mode != Some(mode) && !old(self).detail_in_flight {
                &&& final(self).loaded_detail_mode == Some(mode)
                &&& final(self).detail_in_flight == loads_detail(mode)
                &&& final(self).sample_in_flight == old(self).sample_in_flight
                &&& r == (if loads_detail(mode) { Some(mode) } else { None })
            } else {
                *final(self) == *old(self) && r is None
            },
    {
        if self.loaded_detail_mode != Some(mode) && !self.detail_in_flight {
            self.loaded_detail_mode = Some(mode);
            if mode == AppMode::Overview || mode == AppMode::Disk || mode == AppMode::Hardware || mode == AppMode::Sensors {
                self.detail_in_flight = true;
                return Some(mode);
            }
        }
        None
    }

    /// Asked each time round: whether to ask for a sample now. Not while paused, not
    /// before one is due, and not while the last one is still on its way.
    pub fn sample_request(&mut self, paused: bool, due: bool) -> (r: bool)
        ensures
            r == (!paused && !old(self).sample_in_flight && due),
            final(self).sample_in_flight == (old(self).sample_in_flight || r),
            final(self).loaded_detail_mode == old(self).loaded_detail_mode,
            final(self).detail_in_flight == old(self).detail_in_flight,
    {
        let r = !paused && !self.sample_in_flight && due;
        if r {
            self.sample_in_flight = true;
        }
        r
    }

    /// A request could not be handed to the collector: it is no longer on its way.
    pub fn request_lost(&mut self, sample: bool)
        ensures
            sample ==> *final(self) == (LoopState { sample_in_flight: false, ..*old(self) }),
            !sample ==> *final(self) == (LoopState { detail_in_flight: false, ..*old(self) }),
    {
        if sample {
            self.sample_in_flight = false;
        } else {
            self.detail_in_flight = false;
        }
    }

    /// A sample (or its failure) has come back.
    pub fn sample_arrived(&mut self)
        ensures
            *final(self) == (LoopState { sample_in_flight: false, ..*old(self) }),
    {
        self.sample_in_flight = false;
    }

    /// A page load (or its failure) has come back.
    pub fn detail_arrived(&mut self)
        ensures
            *final(self) == (LoopState { detail_in_flight: false, ..*old(self) }),
    {
        self.detail_in_flight = false;
    }

    /// The interval was changed to `refresh_ms`: the sample planned for `next` (in
    /// milliseconds on the loop's clock) comes no later than one new interval from `now`, so
    /// that shortening the interval takes effect at once. Times past the clock's range read
    /// as its last value.
    pub fn next_due(next: u64, now: u64, refresh_ms: u64) -> (r: u64)
        ensures
            r == (if next <= now + refresh_ms { next as int } else { now + refresh_ms }),
    {
        let later = now.saturating_add(refresh_ms);
        if next <= later {
            next
        } else {
            later
        }
    }

    /// `r` was pressed: the page is loaded again on the next round.
    pub fn refresh_requested(&mut self)
        ensures
            *final(self) == (LoopState { loaded_detail_mode: None, ..*old(self) }),
    {
        self.loaded_detail_mode = None;
    }
}

} // verus!
