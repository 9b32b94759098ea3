//! The collector's own decisions: its error type, the raw records the native layer hands
//! over, the state names it reports, the argument vector of a process, and whom it agrees
//! to signal.

use vstd::prelude::*;
use vstd::string::StringExecFns;
use vstd::utf8::decode_utf8;
use vstd::utf8::valid_utf8;
use crate::metrics::RefreshInterval;
use crate::text::i32_string;
use crate::text::idec;
use crate::text::strings_view;
use crate::text::{
    all_digits, chars_of, digits_value, join, lines, next_line, parse_dec, parse_unsigned, piece_end,
    split_char, split_words, starts_with, string_of, words,
};

verus! {

/// What went wrong while collecting.
#[derive(Debug, Clone, PartialEq, Eq)]
pub enum CollectorError {
    UnsupportedPlatform,
    Command { program: String, message: String },
    Parse { kind: String, message: String },
    UnsafeProcessTarget,
    AuthorizationDenied,
}

/// The sentence shown for an error.
pub open spec fn error_text(e: CollectorError) -> Seq<char> {
    match e {
        CollectorError::UnsupportedPlatform => "native collector is unavailable on this platform"@,
        CollectorError::Command { program, message } => "failed to execute "@ + program@ + ": "@
            + message@,
        CollectorError::Parse { kind, message } => "failed to parse "@ + kind@ + ": "@ + message@,
        CollectorError::UnsafeProcessTarget => "refusing to signal protected or stale process"@,
        CollectorError::AuthorizationDenied => "administrator authorization was not granted"@,
    }
}

impl CollectorError {
    pub fn message(&self) -> (s: String)
        ensures
            s@ == error_text(*self),
    {
        match self {
            CollectorError::UnsupportedPlatform => "native collector is unavailable on this platform".to_owned(),
            CollectorError::Command { program, message } => {
                let mut s = "failed to execute ".to_owned();
                s.append(program.as_str());
                s.append(": ");
                s.append(message.as_str());
                s
            },
            CollectorError::Parse { kind, message } => {
                let mut s = "failed to parse ".to_owned();
                s.append(kind.as_str());
                s.append(": ");
                s.append(message.as_str());
                s
            },
            CollectorError::UnsafeProcessTarget => "refusing to signal protected or stale process".to_owned(),
            CollectorError::AuthorizationDenied => "administrator authorization was not granted".to_owned(),
        }
    }
}

/// Which processes a snapshot lists, and whether identifying details are shown.
#[derive(Debug, Clone, Copy, PartialEq, Eq, Structural)]
pub struct CollectorConfig {
    pub include_system_processes: bool,
    pub show_sensitive: bool,
}

impl Default for CollectorConfig {
    fn default() -> (c: Self)
        ensures
            c.include_system_processes,
            !c.show_sensitive,
    {
        CollectorConfig { include_system_processes: true, show_sensitive: false }
    }
}

/// The two signals the process page can send.
#[derive(Debug, Clone, Copy, PartialEq, Eq, Structural)]
pub enum ProcessSignal {
    Terminate,
    Kill,
}

pub open spec fn signal_text(signal: ProcessSignal) -> Seq<char> {
    match signal {
        ProcessSignal::Terminate => "TERM"@,
        ProcessSignal::Kill => "KILL"@,
    }
}

impl ProcessSignal {
    /// The name `kill -s` takes.
    pub fn as_str(self) -> (s: &'static str)
        ensures
            s@ == signal_text(self),
    {
        match self {
            ProcessSignal::Terminate => "TERM",
            ProcessSignal::Kill => "KILL",
        }
    }
}

/// The state a process is shown in, from its BSD status and its running threads: the
/// kernel keeps nearly every process in `SRUN`, so run and sleep come from the threads.
pub open spec fn process_state_text(status: u32, running_threads: i32) -> Seq<char> {
    if status == 4 {
        "stop"@
    } else if status == 5 {
        "zombie"@
    } else if status == 1 {
        "idle"@
    } else if (status == 2 || status == 3) && running_threads > 0 {
        "run"@
    } else if status == 2 || status == 3 {
        "sleep"@
    } else {
        "other"@
    }
}

pub fn process_state(status: u32, running_threads: i32) -> (s: &'static str)
    ensures
        s@ == process_state_text(status, running_threads),
{
    if status == 4 {
        "stop"
    } else if status == 5 {
        "zombie"
    } else if status == 1 {
        "idle"
    } else if (status == 2 || status == 3) && running_threads > 0 {
        "run"
    } else if status == 2 || status == 3 {
        "sleep"
    } else {
        "other"
    }
}

/// A thread's `TH_STATE_*` value, named.
pub open spec fn thread_state_text(run_state: i32) -> Seq<char> {
    if run_state == 1 {
        "run"@
    } else if run_state == 2 {
        "stop"@
    } else if run_state == 3 {
        "sleep"@
    } else if run_state == 4 {
        "uwait"@
    } else if run_state == 5 {
        "halt"@
    } else {
        "other"@
    }
}

pub fn thread_state(run_state: i32) -> (s: &'static str)
    ensures
        s@ == thread_state_text(run_state),
{
    if run_state == 1 {
        "run"
    } else if run_state == 2 {
        "stop"
    } else if run_state == 3 {
        "sleep"
    } else if run_state == 4 {
        "uwait"
    } else if run_state == 5 {
        "halt"
    } else {
        "other"
    }
}

/// Aggregate CPU tick counters, as the native layer reports them.
#[derive(Debug, Clone, Copy, Default, PartialEq, Eq, Structural)]
pub struct CpuTicks {
    pub user: u64,
    pub system: u64,
    pub idle: u64,
    pub nice: u64,
}

/// Virtual-memory counters, pages and bytes as the native layer reports them.
#[derive(Debug, Clone, Copy, Default, PartialEq, Eq, Structural)]
pub struct MemoryRaw {
    pub total_bytes: u64,
    pub free_pages: u64,
    pub active_pages: u64,
    pub inactive_pages: u64,
    pub wired_pages: u64,
    pub compressed_pages: u64,
    pub purgeable_pages: u64,
    pub swapins: u64,
    pub swapouts: u64,
    pub swap_total_bytes: u64,
    pub swap_used_bytes: u64,
    pub page_size: u64,
}

/// One process as the native layer reports it; `name` and `path` are NUL-padded.
#[derive(Clone, Copy)]
pub struct ProcessRaw {
    pub pid: i32,
    pub parent_pid: i32,
    pub uid: u32,
    pub status: u32,
    pub thread_count: i32,
    pub running_threads: i32,
    pub resident_bytes: u64,
    pub virtual_bytes: u64,
    pub user_ticks: u64,
    pub system_ticks: u64,
    pub start_seconds: u64,
    pub start_microseconds: u64,
    pub name: [u8; 64],
    pub path: [u8; 1024],
}

/// One network interface and its cumulative byte counters; `name` is NUL-padded.
#[derive(Clone, Copy)]
pub struct InterfaceRaw {
    pub name: [u8; 64],
    pub received_bytes: u64,
    pub sent_bytes: u64,
}

/// Cumulative GPU time of one process, in nanoseconds.
#[derive(Debug, Clone, Copy, Default, PartialEq, Eq, Structural)]
pub struct GpuTimeRaw {
    pub pid: i32,
    pub gpu_time_ns: u64,
}

/// Length of the text before the first NUL byte.
pub open spec fn c_len(b: Seq<u8>) -> nat
    decreases b.len(),
{
    if b.len() == 0 || b[0] == 0 {
        0
    } else {
        1 + c_len(b.drop_first())
    }
}

pub proof fn lemma_c_len(b: Seq<u8>)
    ensures
        c_len(b) <= b.len(),
        c_len(b) < b.len() ==> b[c_len(b) as int] == 0,
        forall|j: int| 0 <= j < c_len(b) ==> b[j] != 0,
    decreases b.len(),
{
    if b.len() > 0 && b[0] != 0 {
        lemma_c_len(b.drop_first());
        assert forall|j: int| 0 <= j < c_len(b) implies b[j] != 0 by {
            if j > 0 {
                assert(b[j] == b.drop_first()[j - 1]);
            }
        }
    }
}

/// What `String::from_utf8_lossy` makes of a byte string.
pub uninterp spec fn lossy_text(bytes: Seq<u8>) -> Seq<char>;

/// `String::from_utf8_lossy(..).into_owned()`: the bytes decoded, each invalid sequence
/// replaced by U+FFFD; valid UTF-8 (so every ASCII string) decodes to its own characters.
#[verifier::external_body]
pub(crate) fn utf8_lossy(bytes: &[u8]) -> (s: String)
    ensures
        s@ == lossy_text(bytes@),
        valid_utf8(bytes@) ==> s@ == decode_utf8(bytes@),
{
    String::from_utf8_lossy(bytes).into_owned()
}

/// The position of the first NUL at or after `from`, or the end.
pub(crate) fn nul_from(b: &[u8], from: usize) -> (e: usize)
    requires
        from <= b@.len(),
    ensures
        e == from + c_len(b@.skip(from as int)),
        from <= e <= b@.len(),
{
    let mut e = from;
    while e < b.len() && b[e] != 0
        invariant
            from <= e <= b@.len(),
            c_len(b@.skip(from as int)) == (e - from) + c_len(b@.skip(e as int)),
        decreases b@.len() - e,
    {
        assert(b@.skip(e as int).drop_first() =~= b@.skip(e + 1));
        e = e + 1;
    }
    proof {
        lemma_c_len(b@.skip(e as int));
    }
    e
}

/// The text of a NUL-padded field: `None` when it is empty.
pub open spec fn c_text(b: Seq<u8>) -> Option<Seq<char>> {
    if c_len(b) == 0 {
        None
    } else {
        Some(lossy_text(b.take(c_len(b) as int)))
    }
}

pub fn c_string(value: &[u8]) -> (r: Option<String>)
    ensures
        r is None <==> c_text(value@) is None,
        r matches Some(s) ==> c_text(value@) == Some(s@),
        valid_utf8(value@.take(c_len(value@) as int)) ==> (r matches Some(s) ==> s@ == decode_utf8(
            value@.take(c_len(value@) as int),
        )),
{
    let end = nul_from(value, 0);
    assert(value@.skip(0) =~= value@);
    if end == 0 {
        None
    } else {
        let head = &value[0..end];
        assert(head@ =~= value@.take(end as int));
        Some(utf8_lossy(head))
    }
}

/// A process's name, or `PID <pid>` when the native layer gave none.
pub open spec fn process_name_text(value: ProcessRaw) -> Seq<char> {
    match c_text(value.name@) {
        Some(t) => t,
        None => "PID "@ + idec(value.pid as int),
    }
}

pub fn process_name(value: &ProcessRaw) -> (s: String)
    ensures
        s@ == process_name_text(*value),
{
    match c_string(value.name.as_slice()) {
        Some(s) => s,
        None => {
            let mut s = "PID ".to_owned();
            let n = i32_string(value.pid);
            s.append(n.as_str());
            s
        },
    }
}

pub fn process_path(value: &ProcessRaw) -> (r: Option<String>)
    ensures
        r is None <==> c_text(value.path@) is None,
        r matches Some(s) ==> c_text(value.path@) == Some(s@),
{
    c_string(value.path.as_slice())
}

pub fn interface_name(value: &InterfaceRaw) -> (r: Option<String>)
    ensures
        r is None <==> c_text(value.name@) is None,
        r matches Some(s) ==> c_text(value.name@) == Some(s@),
{
    c_string(value.name.as_slice())
}

/// Number of NUL bytes at the start.
pub open spec fn lead_nuls(b: Seq<u8>) -> nat
    decreases b.len(),
{
    if b.len() == 0 || b[0] != 0 {
        0
    } else {
        1 + lead_nuls(b.drop_first())
    }
}

/// The first `n` NUL-terminated pieces of `b`; an unterminated tail is no piece.
pub open spec fn nul_pieces(b: Seq<u8>, n: nat) -> Seq<Seq<u8>>
    decreases b.len(),
{
    if n == 0 || c_len(b) >= b.len() {
        seq![]
    } else {
        seq![b.take(c_len(b) as int)] + nul_pieces(b.skip(c_len(b) + 1int), (n - 1) as nat)
    }
}

/// The argument vector held in a `KERN_PROCARGS2` buffer after its count: the executable
/// path, the NULs that pad it, then up to `argc` NUL-terminated arguments. `None` when the
/// count is not positive, the path is unterminated, or no argument is complete.
pub open spec fn procargs(argc: int, rest: Seq<u8>) -> Option<Seq<Seq<u8>>> {
    if argc <= 0 || c_len(rest) >= rest.len() {
        None
    } else {
        let after = rest.skip(c_len(rest) as int);
        let pieces = nul_pieces(after.skip(lead_nuls(after) as int), argc as nat);
        if pieces.len() == 0 {
            None
        } else {
            Some(pieces)
        }
    }
}

/// Whether a list of strings is `expect` with each piece decoded.
pub open spec fn decoded_as(r: Option<Vec<String>>, expect: Option<Seq<Seq<u8>>>) -> bool {
    match (r, expect) {
        (None, None) => true,
        (Some(v), Some(e)) => v@.len() == e.len() && forall|i: int|
            0 <= i < e.len() ==> #[trigger] v@[i]@ == lossy_text(e[i]) && (valid_utf8(e[i]) ==> v@[i]@
                == decode_utf8(e[i])),
        _ => false,
    }
}

/// The arguments after the count, given the count.
pub fn parse_procargs2_args(argc: i32, rest: &[u8]) -> (r: Option<Vec<String>>)
    ensures
        decoded_as(r, procargs(argc as int, rest@)),
{
    if argc <= 0 {
        return None;
    }
    let path_end = nul_from(rest, 0);
    assert(rest@.skip(0) =~= rest@);
    if path_end >= rest.len() {
        return None;
    }
    let ghost after = rest@.skip(path_end as int);
    let mut cursor = path_end;
    while cursor < rest.len() && rest[cursor] == 0
        invariant
            path_end <= cursor <= rest@.len(),
            after == rest@.skip(path_end as int),
            lead_nuls(after) == (cursor - path_end) + lead_nuls(rest@.skip(cursor as int)),
        decreases rest@.len() - cursor,
    {
        assert(rest@.skip(cursor as int).drop_first() =~= rest@.skip(cursor + 1));
        cursor = cursor + 1;
    }
    assert(lead_nuls(rest@.skip(cursor as int)) == 0);
    assert(after.skip(lead_nuls(after) as int) =~= rest@.skip(cursor as int));
    let want = argc as usize;
    let mut args: Vec<String> = Vec::new();
    let ghost mut got: Seq<Seq<u8>> = seq![];
    let mut pos = cursor;
    let ghost body = rest@.skip(cursor as int);
    loop
        invariant
            cursor <= pos <= rest@.len(),
            want == argc as int,
            0 <= got.len() <= want,
            args@.len() == got.len(),
            forall|i: int| 0 <= i < got.len() ==> #[trigger] args@[i]@ == lossy_text(got[i]) && (valid_utf8(
                got[i],
            ) ==> args@[i]@ == decode_utf8(got[i])),
            body == rest@.skip(cursor as int),
            nul_pieces(body, want as nat) == got + nul_pieces(
                rest@.skip(pos as int),
                (want - got.len()) as nat,
            ),
        ensures
            cursor <= pos <= rest@.len(),
            got.len() >= want || c_len(rest@.skip(pos as int)) >= rest@.len() - pos,
        decreases rest@.len() - pos, want - args@.len(),
    {
        if args.len() >= want {
            break;
        }
        let z = nul_from(rest, pos);
        if z >= rest.len() {
            break;
        }
        let ghost tail = rest@.skip(pos as int);
        proof {
            lemma_c_len(tail);
        }
        let piece = &rest[pos..z];
        assert(piece@ =~= tail.take(c_len(tail) as int));
        assert(tail.skip(c_len(tail) + 1int) =~= rest@.skip(z + 1));
        let text = utf8_lossy(piece);
        args.push(text);
        proof {
            got = got.push(piece@);
            assert(seq![piece@] + nul_pieces(rest@.skip(z + 1), (want - got.len()) as nat)
                == nul_pieces(tail, (want - (got.len() - 1)) as nat));
            assert(got.drop_last() + seq![piece@] =~= got);
        }
        pos = z + 1;
    }
    proof {
        let tail = rest@.skip(pos as int);
        assert(nul_pieces(tail, (want - got.len()) as nat) =~= Seq::<Seq<u8>>::empty());
        assert(got + Seq::<Seq<u8>>::empty() =~= got);
    }
    if args.len() == 0 {
        None
    } else {
        Some(args)
    }
}

/// A little-endian reading of four bytes.
pub open spec fn le_u32(b0: u8, b1: u8, b2: u8, b3: u8) -> int {
    b0 + 256 * b1 + 65536 * b2 + 16777216 * b3
}

/// An unsigned 32-bit value read as two's complement.
pub open spec fn signed32(v: int) -> int {
    if v < 0x8000_0000 {
        v
    } else {
        v - 0x1_0000_0000
    }
}

/// `i32::from_ne_bytes`: the bytes in the machine's own order, which is little or big
/// endian; which of the two is not stated here.
#[verifier::external_body]
fn i32_from_native_bytes(b0: u8, b1: u8, b2: u8, b3: u8) -> (v: i32)
    ensures
        v as int == signed32(le_u32(b0, b1, b2, b3)) || v as int == signed32(le_u32(b3, b2, b1, b0)),
{
    i32::from_ne_bytes([b0, b1, b2, b3])
}

/// The argument vector of a `KERN_PROCARGS2` buffer: a native-endian `i32` count, then
/// what [`parse_procargs2_args`] reads.
pub fn parse_procargs2(raw: &[u8]) -> (r: Option<Vec<String>>)
    ensures
        raw@.len() < 4 ==> r is None,
        raw@.len() >= 4 ==> decoded_as(r, procargs(signed32(le_u32(raw@[0], raw@[1], raw@[2], raw@[3])), raw@.skip(4)))
            || decoded_as(r, procargs(signed32(le_u32(raw@[3], raw@[2], raw@[1], raw@[0])), raw@.skip(4))),
{
    if raw.len() < 4 {
        return None;
    }
    let argc = i32_from_native_bytes(raw[0], raw[1], raw[2], raw[3]);
    let rest = &raw[4..raw.len()];
    assert(rest@ =~= raw@.skip(4));
    parse_procargs2_args(argc, rest)
}

/// The first process in `processes` with pid `pid`.
pub open spec fn first_with_pid(processes: Seq<ProcessRaw>, pid: i32, i: int) -> bool {
    &&& 0 <= i < processes.len()
    &&& processes[i].pid == pid
    &&& forall|j: int| 0 <= j < i ==> #[trigger] processes[j].pid != pid
}

pub fn find_process(processes: &[ProcessRaw], pid: i32) -> (r: Option<usize>)
    ensures
        r matches Some(i) ==> first_with_pid(processes@, pid, i as int),
        r is None ==> forall|j: int| 0 <= j < processes@.len() ==> #[trigger] processes@[j].pid != pid,
{
    let mut i: usize = 0;
    while i < processes.len()
        invariant
            i <= processes@.len(),
            forall|j: int| 0 <= j < i ==> #[trigger] processes@[j].pid != pid,
        decreases processes@.len() - i,
    {
        if processes[i].pid == pid {
            return Some(i);
        }
        i = i + 1;
    }
    None
}

/// How a signal reaches a process: directly when it belongs to this user, else through
/// `sudo`.
#[derive(Debug, Clone, Copy, PartialEq, Eq, Structural)]
pub enum SignalRoute {
    Direct,
    ViaSudo,
}

/// Whether a signal may go to `pid`: never to pid 0, to launchd, or to this process; only
/// to a process that is still the one that was selected, recognised by its start time.
pub open spec fn signal_allowed(
    pid: i32,
    own_pid: i32,
    found: Option<ProcessRaw>,
    start_seconds: u64,
    start_microseconds: u64,
) -> bool {
    &&& pid > 1
    &&& pid != own_pid
    &&& found matches Some(p)
    &&& p.start_seconds == start_seconds
    &&& p.start_microseconds == start_microseconds
}

/// The route a signal takes, or the refusal. `found` is the process listed under `pid`.
pub fn signal_route(
    pid: i32,
    own_pid: i32,
    own_uid: u32,
    found: Option<ProcessRaw>,
    start_seconds: u64,
    start_microseconds: u64,
) -> (r: Result<SignalRoute, CollectorError>)
    ensures
        signal_allowed(pid, own_pid, found, start_seconds, start_microseconds) <==> r is Ok,
        r matches Err(e) ==> e == CollectorError::UnsafeProcessTarget,
        r matches Ok(route) ==> (route == SignalRoute::Direct <==> found.unwrap().uid == own_uid),
{
    if pid <= 1 || pid == own_pid {
        return Err(CollectorError::UnsafeProcessTarget);
    }
    match found {
        None => Err(CollectorError::UnsafeProcessTarget),
        Some(p) => {
            if p.start_seconds != start_seconds || p.start_microseconds != start_microseconds {
                Err(CollectorError::UnsafeProcessTarget)
            } else if p.uid == own_uid {
                Ok(SignalRoute::Direct)
            } else {
                Ok(SignalRoute::ViaSudo)
            }
        },
    }
}

/// Program and arguments that deliver `signal` to `pid` along `route`.
pub open spec fn kill_command_spec(route: SignalRoute, signal: ProcessSignal, pid: i32) -> (
    Seq<char>,
    Seq<Seq<char>>,
) {
    match route {
        SignalRoute::Direct => ("/bin/kill"@, seq!["-s"@, signal_text(signal), idec(pid as int)]),
        SignalRoute::ViaSudo => (
            "/usr/bin/sudo"@,
            seq!["-n"@, "--"@, "/bin/kill"@, "-s"@, signal_text(signal), idec(pid as int)],
        ),
    }
}

pub fn kill_command(route: SignalRoute, signal: ProcessSignal, pid: i32) -> (r: (String, Vec<String>))
    ensures
        (r.0@, strings_view(r.1@)) == kill_command_spec(route, signal, pid),
{
    let mut args: Vec<String> = Vec::new();
    let program = match route {
        SignalRoute::Direct => "/bin/kill".to_owned(),
        SignalRoute::ViaSudo => {
            args.push("-n".to_owned());
            args.push("--".to_owned());
            args.push("/bin/kill".to_owned());
            "/usr/bin/sudo".to_owned()
        },
    };
    args.push("-s".to_owned());
    args.push(signal.as_str().to_owned());
    args.push(i32_string(pid));
    assert(strings_view(args@) =~= kill_command_spec(route, signal, pid).1);
    (program, args)
}

/// The arguments `sudo` gets to take one plist sample of GPU power and thermal state.
pub open spec fn powermetrics_args_spec(millis: u64) -> Seq<Seq<char>> {
    seq![
        "-n"@,
        "--"@,
        "/usr/bin/powermetrics"@,
        "-n"@,
        "1"@,
        "-i"@,
        crate::text::dec(millis as nat),
        "--samplers"@,
        "gpu_power,thermal"@,
        "-f"@,
        "plist"@,
    ]
}

pub fn powermetrics_args(interval: RefreshInterval) -> (r: Vec<String>)
    ensures
        strings_view(r@) == powermetrics_args_spec(interval.millis()),
{
    let mut args: Vec<String> = Vec::new();
    args.push("-n".to_owned());
    args.push("--".to_owned());
    args.push("/usr/bin/powermetrics".to_owned());
    args.push("-n".to_owned());
    args.push("1".to_owned());
    args.push("-i".to_owned());
    args.push(crate::text::dec_string(interval.as_millis()));
    args.push("--samplers".to_owned());
    args.push("gpu_power,thermal".to_owned());
    args.push("-f".to_owned());
    args.push("plist".to_owned());
    assert(strings_view(args@) =~= powermetrics_args_spec(interval.millis()));
    args
}

/// The error for a command that ran and failed: its name and its trimmed standard error.
pub fn command_failure(program: &str, stderr: &str) -> (e: CollectorError)
    ensures
        e matches CollectorError::Command { program: p, message: m }
            && p@ == program@ && m@ == crate::text::trim(stderr@),
{
    let chars = crate::text::chars_of(stderr);
    let (lo, hi) = crate::text::trim_bounds(chars.as_slice(), 0, chars.len());
    assert(chars@.subrange(0, chars@.len() as int) =~= stderr@);
    CollectorError::Command {
        program: program.to_owned(),
        message: crate::text::string_of(chars.as_slice(), lo, hi),
    }
}

/// The outcome of `sudo -v` or `kill`, from whether it exited successfully.
pub fn authorization_outcome(success: bool) -> (r: Result<(), CollectorError>)
    ensures
        success <==> r is Ok,
        r matches Err(e) ==> e == CollectorError::AuthorizationDenied,
{
    if success {
        Ok(())
    } else {
        Err(CollectorError::AuthorizationDenied)
    }
}

/// Seconds since boot, from the `kern.boottime` read (its status and boot second) and the
/// clock (`None` when it reads before the epoch): none when the read failed, the boot time
/// is not after the epoch, or the clock is behind the boot time.
pub open spec fn uptime_spec(status: i32, boot_seconds: i64, now_seconds: Option<u64>) -> Option<u64> {
    if status != 0 || boot_seconds <= 0 {
        None
    } else {
        match now_seconds {
            Some(n) => if n >= boot_seconds { Some((n - boot_seconds) as u64) } else { None },
            None => None,
        }
    }
}

pub fn uptime_seconds(status: i32, boot_seconds: i64, now_seconds: Option<u64>) -> (r: Option<u64>)
    ensures
        r == uptime_spec(status, boot_seconds, now_seconds),
{
    if status != 0 || boot_seconds <= 0 {
        return None;
    }
    match now_seconds {
        Some(n) => {
            let boot = boot_seconds as u64;
            if n >= boot {
                Some(n - boot)
            } else {
                None
            }
        },
        None => None,
    }
}

/// Whether the system-wide disk I/O counters can be read: exactly when a read of them
/// (read, written bytes and operations) gave values.
pub fn disk_io_available(counters: Option<(u64, u64, u64, u64)>) -> (r: bool)
    ensures
        r == counters is Some,
{
    counters.is_some()
}

/// What `sudo -v` came to: `ran` is its exit (successful or not), or the reason it could
/// not be started. Success grants the rights; any other exit is a refusal.
pub fn authorize_sudo(ran: Result<bool, String>) -> (r: Result<(), CollectorError>)
    ensures
        match ran {
            Ok(success) => (success <==> r is Ok) && (r matches Err(e) ==> e == CollectorError::AuthorizationDenied),
            Err(message) => r matches Err(CollectorError::Command { program: p, message: m }) && p@ == "sudo"@
                && m@ == message@,
        },
{
    match ran {
        Ok(success) => authorization_outcome(success),
        Err(message) => Err(CollectorError::Command { program: "sudo".to_owned(), message }),
    }
}

/// The command that takes one `powermetrics` sample, run once `authorize_sudo` has
/// succeeded: `/usr/bin/sudo` with `powermetrics_args`, never through a shell.
pub fn powermetrics_command(interval: RefreshInterval) -> (r: (String, Vec<String>))
    ensures
        r.0@ == "/usr/bin/sudo"@,
        strings_view(r.1@) == powermetrics_args_spec(interval.millis()),
{
    ("/usr/bin/sudo".to_owned(), powermetrics_args(interval))
}

/// What the `powermetrics` run came to: `ran` is its exit status, standard output and
/// standard error, or the reason it could not be started. A successful exit gives the
/// output; otherwise the failure names `powermetrics`, with the trimmed standard error or
/// the reason.
pub fn run_powermetrics_once(ran: Result<(bool, Vec<u8>, String), String>) -> (r: Result<Vec<u8>, CollectorError>)
    ensures
        match ran {
            Ok((success, stdout, stderr)) => if success {
                r == Ok::<Vec<u8>, CollectorError>(stdout)
            } else {
                r matches Err(CollectorError::Command { program: p, message: m }) && p@ == "powermetrics"@
                    && m@ == crate::text::trim(stderr@)
            },
            Err(message) => r matches Err(CollectorError::Command { program: p, message: m })
                && p@ == "powermetrics"@ && m@ == message@,
        },
{
    match ran {
        Ok((success, stdout, stderr)) => {
            if success {
                Ok(stdout)
            } else {
                Err(command_failure("powermetrics", stderr.as_str()))
            }
        },
        Err(message) => Err(CollectorError::Command { program: "powermetrics".to_owned(), message }),
    }
}

/// Checks that a signal may go to `pid` and that it is still the selected process, and
/// gives the route and the command that sends it; `found` is the process listed under
/// `pid` in a fresh process table. A signal routed through `sudo` is sent only once
/// `authorize_sudo` has succeeded.
pub fn send_signal_if_identity(
    pid: i32,
    own_pid: i32,
    own_uid: u32,
    found: Option<ProcessRaw>,
    start_seconds: u64,
    start_microseconds: u64,
    signal: ProcessSignal,
) -> (r: Result<(SignalRoute, (String, Vec<String>)), CollectorError>)
    ensures
        signal_allowed(pid, own_pid, found, start_seconds, start_microseconds) <==> r is Ok,
        r matches Err(e) ==> e == CollectorError::UnsafeProcessTarget,
        r matches Ok((route, command)) ==> {
            &&& (route == SignalRoute::Direct <==> found.unwrap().uid == own_uid)
            &&& (command.0@, strings_view(command.1@)) == kill_command_spec(route, signal, pid)
        },
{
    let route = signal_route(pid, own_pid, own_uid, found, start_seconds, start_microseconds)?;
    Ok((route, kill_command(route, signal, pid)))
}

/// What sending the signal came to: `ran` is the exit of `kill` (successful or not), or
/// the reason it could not be started.
pub fn signal_outcome(ran: Result<bool, String>) -> (r: Result<(), CollectorError>)
    ensures
        match ran {
            Ok(success) => (success <==> r is Ok) && (r matches Err(e) ==> e == CollectorError::AuthorizationDenied),
            Err(message) => r matches Err(CollectorError::Command { program: p, message: m }) && p@ == "kill"@
                && m@ == message@,
        },
{
    match ran {
        Ok(success) => authorization_outcome(success),
        Err(message) => Err(CollectorError::Command { program: "kill".to_owned(), message }),
    }
}

/// How starting the frame counter went.
#[derive(Debug, Clone, Copy, PartialEq, Eq, Structural)]
pub enum FpsStart {
    Started,
    PermissionDenied,
    Unavailable,
}

/// The native start code, read: `0` started, `-1` refused by the user, else unavailable.
pub fn fps_start_from_code(code: i32) -> (r: FpsStart)
    ensures
        r == (if code == 0 {
            FpsStart::Started
        } else if code == -1 {
            FpsStart::PermissionDenied
        } else {
            FpsStart::Unavailable
        }),
{
    if code == 0 {
        FpsStart::Started
    } else if code == -1 {
        FpsStart::PermissionDenied
    } else {
        FpsStart::Unavailable
    }
}

/// What the frame counter needs, given whether it is wanted and whether it runs.
#[derive(Debug, Clone, Copy, PartialEq, Eq, Structural)]
pub enum FpsAction {
    Start,
    Stop,
    Keep,
}

/// What a sample says it holds, before the frame counter adds its own: CPU, memory and
/// network always; processes, or that listing them was refused; the GPU when one reported;
/// the SoC readings, or that they are unavailable.
pub open spec fn capabilities_spec(processes_empty: bool, gpu_present: bool, soc_available: bool) -> Seq<Seq<char>> {
    seq!["cpu"@, "memory"@, "network"@] + seq![
        if processes_empty { "processes:permission_denied"@ } else { "processes"@ },
    ] + (if gpu_present { seq!["gpu"@] } else { Seq::empty() }) + seq![
        if soc_available { "soc"@ } else { "soc:unavailable"@ },
    ]
}

pub fn snapshot_capabilities(processes_empty: bool, gpu_present: bool, soc_available: bool) -> (r: Vec<String>)
    ensures
        strings_view(r@) == capabilities_spec(processes_empty, gpu_present, soc_available),
{
    let mut r: Vec<String> = Vec::new();
    r.push("cpu".to_owned());
    r.push("memory".to_owned());
    r.push("network".to_owned());
    r.push(if processes_empty { "processes:permission_denied".to_owned() } else { "processes".to_owned() });
    if gpu_present {
        r.push("gpu".to_owned());
    }
    r.push(if soc_available { "soc".to_owned() } else { "soc:unavailable".to_owned() });
    assert(strings_view(r@) =~= capabilities_spec(processes_empty, gpu_present, soc_available));
    r
}

pub fn fps_action(enabled: bool, running: bool) -> (r: FpsAction)
    ensures
        r == (if enabled && !running {
            FpsAction::Start
        } else if !enabled && running {
            FpsAction::Stop
        } else {
            FpsAction::Keep
        }),
{
    if enabled && !running {
        FpsAction::Start
    } else if !enabled && running {
        FpsAction::Stop
    } else {
        FpsAction::Keep
    }
}

/// After a start attempt: whether the counter runs, and the capability that says so or
/// says why not.
pub open spec fn fps_started_spec(result: FpsStart) -> (bool, Seq<char>) {
    match result {
        FpsStart::Started => (true, "fps"@),
        FpsStart::PermissionDenied => (false, "fps:permission_denied"@),
        FpsStart::Unavailable => (false, "fps:unavailable"@),
    }
}

pub fn fps_started(result: FpsStart) -> (r: (bool, &'static str))
    ensures
        (r.0, r.1@) == fps_started_spec(result),
{
    match result {
        FpsStart::Started => (true, "fps"),
        FpsStart::PermissionDenied => (false, "fps:permission_denied"),
        FpsStart::Unavailable => (false, "fps:unavailable"),
    }
}

/// Which SoC sources answered, for the doctor report.
#[derive(Debug, Clone, Copy, Default, PartialEq, Eq, Structural)]
pub struct SocProbe {
    pub ioreport: bool,
    pub smc: bool,
    pub thermal: bool,
}

/// Handle on the SoC sampler; holding one means the sampler was set up.
pub struct SocCollector {
    _private: (),
}

/// One open socket, as `lsof -F` lists it.
#[derive(Debug, Clone, PartialEq, Eq)]
pub struct NetworkConnection {
    pub pid: i32,
    pub command: Option<String>,
    pub protocol: Option<String>,
    pub endpoint: Option<String>,
    pub state: Option<String>,
}

/// `str::parse::<i32>`: an optional sign, then decimal digits, within range.
pub open spec fn parse_i32_text(s: Seq<char>) -> Option<int> {
    if s.len() > 0 && s[0] == '-' {
        let d = s.drop_first();
        if d.len() > 0 && all_digits(d) && digits_value(d) <= 0x8000_0000 {
            Some(-(digits_value(d) as int))
        } else {
            None
        }
    } else {
        match parse_unsigned(s, 0x7fff_ffff) {
            Some(v) => Some(v as int),
            None => None,
        }
    }
}

pub(crate) fn parse_i32_range(chars: &[char], a: usize, b: usize) -> (r: Option<i32>)
    requires
        a <= b <= chars@.len(),
    ensures
        r matches Some(v) ==> parse_i32_text(chars@.subrange(a as int, b as int)) == Some(v as int),
        r is None ==> parse_i32_text(chars@.subrange(a as int, b as int)) is None,
{
    let ghost s = chars@.subrange(a as int, b as int);
    if a < b && chars[a] == '-' {
        assert(s.drop_first() =~= chars@.subrange(a + 1, b as int));
        if a + 1 == b || chars[a + 1] == '+' {
            proof {
                let d = s.drop_first();
                if d.len() > 0 {
                    assert(!crate::text::is_digit(d[0]));
                }
            }
            return None;
        }
        match parse_dec(chars, a + 1, b, 0x8000_0000) {
            Some(v) => {
                proof {
                    let d = s.drop_first();
                    assert(!(d.len() > 0 && d[0] == '+'));
                }
                Some((0 - (v as i64)) as i32)
            },
            None => {
                proof {
                    let d = s.drop_first();
                    if d.len() > 0 && d[0] == '+' {
                        assert(!all_digits(d));
                    }
                }
                None
            },
        }
    } else {
        match parse_dec(chars, a, b, 0x7fff_ffff) {
            Some(v) => Some(v as i32),
            None => None,
        }
    }
}

/// `trim_start_matches(p)`: every leading `p` removed.
pub open spec fn strip_prefix_all(s: Seq<char>, p: Seq<char>) -> Seq<char>
    decreases s.len(),
{
    if p.len() > 0 && starts_with(s, p) {
        strip_prefix_all(s.skip(p.len() as int), p)
    } else {
        s
    }
}

/// A connection as its fields.
pub type ConnectionView = (i32, Option<Seq<char>>, Option<Seq<char>>, Option<Seq<char>>, Option<Seq<char>>);

pub open spec fn opt_view(o: Option<String>) -> Option<Seq<char>> {
    match o {
        Some(s) => Some(s@),
        None => None,
    }
}

pub open spec fn connection_view(c: NetworkConnection) -> ConnectionView {
    (c.pid, opt_view(c.command), opt_view(c.protocol), opt_view(c.endpoint), opt_view(c.state))
}

/// What is read so far: the current process and its fields, and the finished rows.
pub type LsofState = (Option<int>, Option<Seq<char>>, Option<Seq<char>>, Option<Seq<char>>, Option<Seq<char>>, Seq<ConnectionView>);

/// One `lsof -F` field, a tag character and a value. `p` starts a process and closes the
/// previous one (whose fields it then clears); `c`, `P`, `n` set command, protocol and
/// endpoint; a `T` field `ST=<state>` sets the TCP state; any other field is skipped. An
/// unparsable pid leaves no process open, and the fields then carry over to the next one.
pub open spec fn lsof_step(st: LsofState, field: Seq<char>) -> LsofState {
    if field.len() == 0 {
        st
    } else {
        let tag = field[0];
        let value = field.drop_first();
        if tag == 'p' {
            let next = parse_i32_text(value);
            match st.0 {
                Some(pid) => (next, None, None, None, None, st.5.push((pid as i32, st.1, st.2, st.3, st.4))),
                None => (next, st.1, st.2, st.3, st.4, st.5),
            }
        } else if tag == 'c' {
            (st.0, Some(value), st.2, st.3, st.4, st.5)
        } else if tag == 'P' {
            (st.0, st.1, Some(value), st.3, st.4, st.5)
        } else if tag == 'n' {
            (st.0, st.1, st.2, Some(value), st.4, st.5)
        } else if tag == 'T' && starts_with(value, "ST="@) {
            (st.0, st.1, st.2, st.3, Some(strip_prefix_all(value, "ST="@)), st.5)
        } else {
            st
        }
    }
}

pub open spec fn lsof_fold(fields: Seq<Seq<char>>) -> LsofState
    decreases fields.len(),
{
    if fields.len() == 0 {
        (None, None, None, None, None, seq![])
    } else {
        lsof_step(lsof_fold(fields.drop_last()), fields.last())
    }
}

/// The connections of `lsof -nP -i -F0pcnPT` output: NUL-separated fields, empty ones
/// skipped, the last process closed at the end.
pub open spec fn lsof_connections(text: Seq<char>) -> Seq<ConnectionView> {
    let st = lsof_fold(split_char(text, '\0'));
    match st.0 {
        Some(pid) => st.5.push((pid as i32, st.1, st.2, st.3, st.4)),
        None => st.5,
    }
}

/// Every non-empty field starts with a one-byte tag.
pub open spec fn lsof_tags_ascii(text: Seq<char>) -> bool {
    forall|k: int| 0 <= k < split_char(text, '\0').len() && #[trigger] split_char(text, '\0')[k].len() > 0
        ==> (split_char(text, '\0')[k][0] as u32) < 128
}

/// Whether every field of `lsof -F0` output starts with a one-byte tag, as
/// `parse_lsof_fields` requires.
pub fn lsof_tags_are_ascii(text: &str) -> (b: bool)
    ensures
        b == lsof_tags_ascii(text@),
{
    let chars = chars_of(text);
    assert(chars@.subrange(0, chars@.len() as int) =~= text@);
    let ghost all = split_char(text@, '\0');
    let ghost mut done: Seq<Seq<char>> = seq![];
    let mut pos: usize = 0;
    loop
        invariant_except_break
            all == done + split_char(chars@.subrange(pos as int, chars@.len() as int), '\0'),
        invariant
            pos <= chars@.len(),
            chars@ == text@,
            all == split_char(text@, '\0'),
            forall|k: int| 0 <= k < done.len() && (#[trigger] done[k]).len() > 0 ==> (done[k][0] as u32) < 128,
        ensures
            all == done,
        decreases chars@.len() - pos,
    {
        let ghost rest = chars@.subrange(pos as int, chars@.len() as int);
        let e = piece_end(chars.as_slice(), pos, chars.len(), '\0');
        proof {
            crate::text::lemma_piece_len(rest, '\0');
            assert(rest.take(e - pos) =~= chars@.subrange(pos as int, e as int));
        }
        let ghost field = chars@.subrange(pos as int, e as int);
        proof {
            assert(all[done.len() as int] == field);
        }
        if e > pos && (chars[pos] as u32) >= 128 {
            proof {
                assert(all[done.len() as int][0] == chars@[pos as int]);
            }
            return false;
        }
        if e >= chars.len() {
            proof {
                assert(split_char(rest, '\0') =~= seq![field]);
                assert(all =~= done.push(field));
                done = done.push(field);
            }
            break;
        }
        proof {
            assert(rest.skip(e - pos + 1) =~= chars@.subrange(e + 1, chars@.len() as int));
            assert(all =~= done.push(field) + split_char(chars@.subrange(e + 1, chars@.len() as int), '\0'));
            done = done.push(field);
        }
        pos = e + 1;
    }
    true
}

fn opt_string(o: &Option<String>) -> (r: Option<String>)
    ensures
        opt_view(r) == opt_view(*o),
{
    match o {
        Some(s) => Some(s.clone()),
        None => None,
    }
}

pub fn parse_lsof_fields(text: &str) -> (r: Vec<NetworkConnection>)
    requires
        lsof_tags_ascii(text@),
    ensures
        r@.map_values(|c: NetworkConnection| connection_view(c)) == lsof_connections(text@),
{
    proof {
        reveal_strlit("ST=");
    }
    let chars = chars_of(text);
    assert(chars@.subrange(0, chars@.len() as int) =~= text@);
    let st_prefix = chars_of("ST=");
    let ghost all = split_char(text@, '\0');
    let ghost mut done: Seq<Seq<char>> = seq![];
    let mut pid: Option<i32> = None;
    let mut command: Option<String> = None;
    let mut protocol: Option<String> = None;
    let mut endpoint: Option<String> = None;
    let mut state: Option<String> = None;
    let mut rows: Vec<NetworkConnection> = Vec::new();
    let mut pos: usize = 0;
    loop
        invariant_except_break
            all == done + split_char(chars@.subrange(pos as int, chars@.len() as int), '\0'),
        invariant
            pos <= chars@.len(),
            chars@ == text@,
            st_prefix@ == "ST="@,
            "ST="@ =~= seq!['S', 'T', '='],
            all == split_char(text@, '\0'),
            lsof_tags_ascii(text@),
            ({
                let st = lsof_fold(done);
                &&& st.0 == (match pid { Some(p) => Some(p as int), None => None::<int> })
                &&& st.1 == opt_view(command)
                &&& st.2 == opt_view(protocol)
                &&& st.3 == opt_view(endpoint)
                &&& st.4 == opt_view(state)
                &&& st.5 == rows@.map_values(|c: NetworkConnection| connection_view(c))
            }),
        ensures
            all == done,
        decreases chars@.len() - pos,
    {
        let ghost rest = chars@.subrange(pos as int, chars@.len() as int);
        let e = piece_end(chars.as_slice(), pos, chars.len(), '\0');
        proof {
            crate::text::lemma_piece_len(rest, '\0');
            assert(rest.take(e - pos) =~= chars@.subrange(pos as int, e as int));
        }
        let ghost field = chars@.subrange(pos as int, e as int);
        let ghost before = rows@.map_values(|c: NetworkConnection| connection_view(c));
        proof {
            assert(all[done.len() as int] == field);
            assert(done.push(field).drop_last() =~= done);
            assert(done.push(field).last() == field);
        }
        if e > pos {
            let tag = chars[pos];
            assert(field.drop_first() =~= chars@.subrange(pos + 1, e as int));
            if tag == 'p' {
                let next = parse_i32_range(chars.as_slice(), pos + 1, e);
                if let Some(p) = pid {
                    rows.push(NetworkConnection {
                        pid: p,
                        command: opt_string(&command),
                        protocol: opt_string(&protocol),
                        endpoint: opt_string(&endpoint),
                        state: opt_string(&state),
                    });
                    command = None;
                    protocol = None;
                    endpoint = None;
                    state = None;
                    assert(rows@.map_values(|c: NetworkConnection| connection_view(c)) =~= before.push(
                        connection_view(rows@.last()),
                    ));
                }
                pid = next;
            } else if tag == 'c' {
                command = Some(string_of(chars.as_slice(), pos + 1, e));
            } else if tag == 'P' {
                protocol = Some(string_of(chars.as_slice(), pos + 1, e));
            } else if tag == 'n' {
                endpoint = Some(string_of(chars.as_slice(), pos + 1, e));
            } else if tag == 'T' && crate::text::matches_at(chars.as_slice(), pos + 1, st_prefix.as_slice())
                && pos + 4 <= e {
                let mut b = pos + 1;
                let ghost v = chars@.subrange(pos + 1, e as int);
                assert(starts_with(v, "ST="@)) by {
                    assert(v.subrange(0, 3) =~= chars@.subrange(pos + 1, pos + 4));
                }
                while e - b >= 3 && crate::text::matches_at(chars.as_slice(), b, st_prefix.as_slice())
                    invariant
                        pos + 1 <= b <= e <= chars@.len(),
                        st_prefix@ == "ST="@,
                        "ST="@ =~= seq!['S', 'T', '='],
                        strip_prefix_all(v, "ST="@) == strip_prefix_all(chars@.subrange(b as int, e as int), "ST="@),
                        v == chars@.subrange(pos + 1, e as int),
                    decreases e - b,
                {
                    assert(chars@.subrange(b as int, e as int).subrange(0, 3) =~= chars@.subrange(b as int, b + 3));
                    assert(chars@.subrange(b as int, e as int).skip(3) =~= chars@.subrange(b + 3, e as int));
                    b = b + 3;
                }
                proof {
                    let t = chars@.subrange(b as int, e as int);
                    if starts_with(t, "ST="@) {
                        assert(t.subrange(0, 3) =~= chars@.subrange(b as int, b + 3));
                    }
                }
                state = Some(string_of(chars.as_slice(), b, e));
            } else {
                proof {
                    if tag == 'T' && starts_with(field.drop_first(), "ST="@) {
                        assert(field.drop_first().subrange(0, 3) =~= chars@.subrange(pos + 1, pos + 4));
                    }
                }
            }
        }
        if e >= chars.len() {
            proof {
                assert(split_char(rest, '\0') =~= seq![field]);
                assert(all =~= done.push(field));
                done = done.push(field);
            }
            break;
        }
        proof {
            assert(rest.skip(e - pos + 1) =~= chars@.subrange(e + 1, chars@.len() as int));
            assert(all =~= done.push(field) + split_char(chars@.subrange(e + 1, chars@.len() as int), '\0'));
            done = done.push(field);
        }
        pos = e + 1;
    }
    proof {
        assert(done == all);
    }
    if let Some(p) = pid {
        let ghost before = rows@.map_values(|c: NetworkConnection| connection_view(c));
        rows.push(NetworkConnection { pid: p, command, protocol, endpoint, state });
        assert(rows@.map_values(|c: NetworkConnection| connection_view(c)) =~= before.push(
            connection_view(rows@.last()),
        ));
    }
    rows
}

/// A `system_profiler` key whose value identifies the machine or a person: serial
/// numbers, UUIDs and UDIDs (one letter apart, both matched), and addresses; compared
/// without ASCII case.
pub open spec fn sensitive_key(key: Seq<char>) -> bool {
    let k = crate::text::lower_seq(key);
    crate::text::contains(k, "serial"@) || crate::text::contains(k, "uuid"@) || crate::text::contains(
        k,
        "udid"@,
    ) || crate::text::contains(k, "address"@)
}

pub fn is_sensitive_key(key: &str) -> (b: bool)
    ensures
        b == sensitive_key(key@),
{
    let chars = chars_of(key);
    let lower = crate::text::lower_chars(chars.as_slice());
    let n = lower.len();
    assert(lower@.subrange(0, n as int) =~= lower@);
    let serial = chars_of("serial");
    let uuid = chars_of("uuid");
    let udid = chars_of("udid");
    let address = chars_of("address");
    crate::text::range_contains(lower.as_slice(), 0, n, serial.as_slice()) || crate::text::range_contains(
        lower.as_slice(),
        0,
        n,
        uuid.as_slice(),
    ) || crate::text::range_contains(lower.as_slice(), 0, n, udid.as_slice())
        || crate::text::range_contains(lower.as_slice(), 0, n, address.as_slice())
}

pub open spec fn sat_mul(a: u64, b: u64) -> u64 {
    if a * b <= u64::MAX {
        (a * b) as u64
    } else {
        u64::MAX
    }
}

pub open spec fn sat_sub(a: u64, b: u64) -> u64 {
    if a >= b {
        (a - b) as u64
    } else {
        0
    }
}

fn saturating_mul(a: u64, b: u64) -> (r: u64)
    ensures
        r == sat_mul(a, b),
{
    match a.checked_mul(b) {
        Some(v) => v,
        None => u64::MAX,
    }
}

/// Memory in bytes, from the page counts.
#[derive(Debug, Clone, Copy, PartialEq, Eq, Structural)]
pub struct MemoryBytes {
    pub total_bytes: u64,
    pub used_bytes: u64,
    pub free_bytes: u64,
    pub active_bytes: u64,
    pub inactive_bytes: u64,
    pub wired_bytes: u64,
    pub compressed_bytes: u64,
    pub purgeable_bytes: u64,
    pub swapins: u64,
    pub swapouts: u64,
    pub swap_total_bytes: u64,
    pub swap_used_bytes: u64,
    /// Wired plus compressed bytes: the part of memory that cannot be given back, which
    /// over the total is the pressure.
    pub pressure_bytes: u64,
}

/// Page counts times the page size, saturating; used memory is what is neither free nor
/// inactive.
pub open spec fn memory_bytes_spec(raw: MemoryRaw) -> MemoryBytes {
    let page = raw.page_size;
    let free = sat_mul(raw.free_pages, page);
    let inactive = sat_mul(raw.inactive_pages, page);
    let wired = sat_mul(raw.wired_pages, page);
    let compressed = sat_mul(raw.compressed_pages, page);
    MemoryBytes {
        total_bytes: raw.total_bytes,
        used_bytes: sat_sub(sat_sub(raw.total_bytes, free), inactive),
        free_bytes: free,
        active_bytes: sat_mul(raw.active_pages, page),
        inactive_bytes: inactive,
        wired_bytes: wired,
        compressed_bytes: compressed,
        purgeable_bytes: sat_mul(raw.purgeable_pages, page),
        swapins: raw.swapins,
        swapouts: raw.swapouts,
        swap_total_bytes: raw.swap_total_bytes,
        swap_used_bytes: raw.swap_used_bytes,
        pressure_bytes: if wired as int + compressed as int <= u64::MAX { (wired + compressed) as u64 } else { u64::MAX },
    }
}

pub fn memory_bytes(raw: &MemoryRaw) -> (m: MemoryBytes)
    ensures
        m == memory_bytes_spec(*raw),
{
    let page = raw.page_size;
    let free = saturating_mul(raw.free_pages, page);
    let inactive = saturating_mul(raw.inactive_pages, page);
    let wired = saturating_mul(raw.wired_pages, page);
    let compressed = saturating_mul(raw.compressed_pages, page);
    MemoryBytes {
        total_bytes: raw.total_bytes,
        used_bytes: raw.total_bytes.saturating_sub(free).saturating_sub(inactive),
        free_bytes: free,
        active_bytes: saturating_mul(raw.active_pages, page),
        inactive_bytes: inactive,
        wired_bytes: wired,
        compressed_bytes: compressed,
        purgeable_bytes: saturating_mul(raw.purgeable_pages, page),
        swapins: raw.swapins,
        swapouts: raw.swapouts,
        swap_total_bytes: raw.swap_total_bytes,
        swap_used_bytes: raw.swap_used_bytes,
        pressure_bytes: match wired.checked_add(compressed) {
            Some(v) => v,
            None => u64::MAX,
        },
    }
}

/// Ticks spent between two samples: busy (user, system, nice) and in all. Counters that
/// went back count as zero.
#[derive(Debug, Clone, Copy, PartialEq, Eq, Structural)]
pub struct TickDelta {
    pub user: u64,
    pub system: u64,
    pub nice: u64,
    pub idle: u64,
}

pub open spec fn tick_delta_spec(old: CpuTicks, new: CpuTicks) -> TickDelta {
    TickDelta {
        user: sat_sub(new.user, old.user),
        system: sat_sub(new.system, old.system),
        nice: sat_sub(new.nice, old.nice),
        idle: sat_sub(new.idle, old.idle),
    }
}

pub fn tick_delta(old: &CpuTicks, new: &CpuTicks) -> (d: TickDelta)
    ensures
        d == tick_delta_spec(*old, *new),
{
    TickDelta {
        user: new.user.saturating_sub(old.user),
        system: new.system.saturating_sub(old.system),
        nice: new.nice.saturating_sub(old.nice),
        idle: new.idle.saturating_sub(old.idle),
    }
}

/// Per-core tick deltas, paired core by core; none on the first sample or when the number
/// of cores changed, so that no core is ever paired with another.
pub fn per_core_deltas(previous: &[CpuTicks], current: &[CpuTicks]) -> (r: Vec<TickDelta>)
    ensures
        previous@.len() != current@.len() || current@.len() == 0 ==> r@.len() == 0,
        previous@.len() == current@.len() && current@.len() > 0 ==> r@.len() == current@.len()
            && forall|i: int| 0 <= i < current@.len() ==> #[trigger] r@[i] == tick_delta_spec(previous@[i], current@[i]),
{
    let mut r: Vec<TickDelta> = Vec::new();
    if previous.len() != current.len() || current.len() == 0 {
        return r;
    }
    let mut i: usize = 0;
    while i < current.len()
        invariant
            i <= current@.len(),
            previous@.len() == current@.len(),
            r@.len() == i,
            forall|j: int| 0 <= j < i ==> #[trigger] r@[j] == tick_delta_spec(previous@[j], current@[j]),
        decreases current@.len() - i,
    {
        r.push(tick_delta(&previous[i], &current[i]));
        i = i + 1;
    }
    r
}

/// A process as one line of `ps -axo pid=,ppid=,uid=,state=,%cpu=,rss=,comm=` gives it,
/// the CPU share still as the text `ps` printed.
#[derive(Debug, Clone, PartialEq, Eq)]
pub struct PsRow {
    pub pid: i32,
    pub parent_pid: i32,
    pub uid: u32,
    pub state: String,
    pub cpu_text: String,
    pub resident_bytes: Option<u64>,
    pub name: String,
}

/// A `ps` row as its fields: pid, parent, uid, state, CPU text, resident bytes, name.
pub type PsView = (i32, i32, u32, Seq<char>, Seq<char>, Option<u64>, Seq<char>);

pub open spec fn ps_view(r: PsRow) -> PsView {
    (r.pid, r.parent_pid, r.uid, r.state@, r.cpu_text@, r.resident_bytes, r.name@)
}

/// What one line of `ps` output gives: nothing for a line of fewer than seven words or
/// whose pid, parent or uid does not parse, nor for another user's process when system
/// processes are left out; else its fields, the resident size from KiB to bytes
/// (saturating), and the name as the remaining words joined by single spaces.
pub open spec fn ps_line(line: Seq<char>, include_system_processes: bool, current_uid: u32) -> Option<PsView> {
    let ws = words(line);
    if ws.len() < 7 {
        None
    } else {
        match (parse_i32_text(ws[0]), parse_i32_text(ws[1]), parse_unsigned(ws[2], 0xffff_ffff)) {
            (Some(pid), Some(parent), Some(uid)) => if !include_system_processes && uid != current_uid {
                None
            } else {
                Some(
                    (
                        pid as i32,
                        parent as i32,
                        uid as u32,
                        ws[3],
                        ws[4],
                        match parse_unsigned(ws[5], u64::MAX as nat) {
                            Some(kib) => Some(sat_mul(kib as u64, 1024)),
                            None => None,
                        },
                        join(ws.skip(6), " "@),
                    ),
                )
            },
            _ => None,
        }
    }
}

/// The processes of `ps` output, line by line.
pub open spec fn ps_rows(ls: Seq<Seq<char>>, include_system_processes: bool, current_uid: u32) -> Seq<PsView>
    decreases ls.len(),
{
    if ls.len() == 0 {
        Seq::empty()
    } else {
        let before = ps_rows(ls.drop_last(), include_system_processes, current_uid);
        match ps_line(ls.last(), include_system_processes, current_uid) {
            Some(v) => before.push(v),
            None => before,
        }
    }
}

fn parse_ps_line(line: &str, include_system_processes: bool, current_uid: u32) -> (r: Option<PsRow>)
    ensures
        match ps_line(line@, include_system_processes, current_uid) {
            Some(v) => r matches Some(row) && ps_view(row) == v,
            None => r is None,
        },
{
    let chars = chars_of(line);
    let bounds = split_words(chars.as_slice(), 0, chars.len());
    let ghost ws = words(line@);
    assert(chars@.subrange(0, chars@.len() as int) =~= line@);
    if bounds.len() < 7 {
        return None;
    }
    let pid = parse_i32_range(chars.as_slice(), bounds[0].0, bounds[0].1);
    let parent = parse_i32_range(chars.as_slice(), bounds[1].0, bounds[1].1);
    let uid = parse_dec(chars.as_slice(), bounds[2].0, bounds[2].1, 0xffff_ffff);
    match (pid, parent, uid) {
        (Some(pid), Some(parent), Some(uid)) => {
            if !include_system_processes && uid != current_uid as u64 {
                return None;
            }
            let state = string_of(chars.as_slice(), bounds[3].0, bounds[3].1);
            let cpu_text = string_of(chars.as_slice(), bounds[4].0, bounds[4].1);
            let resident_bytes = match parse_dec(chars.as_slice(), bounds[5].0, bounds[5].1, u64::MAX) {
                Some(kib) => Some(if kib <= u64::MAX / 1024 { kib * 1024 } else { u64::MAX }),
                None => None,
            };
            let name = crate::disk::join_words(chars.as_slice(), &bounds, 6, bounds.len(), Ghost(ws));
            assert(ws.subrange(6, ws.len() as int) =~= ws.skip(6));
            Some(PsRow { pid, parent_pid: parent, uid: uid as u32, state, cpu_text, resident_bytes, name })
        },
        _ => None,
    }
}

/// The processes in `ps -axo pid=,ppid=,uid=,state=,%cpu=,rss=,comm=` output, leaving out
/// other users' processes unless system processes are included.
pub fn parse_ps_output(text: &str, include_system_processes: bool, current_uid: u32) -> (r: Vec<PsRow>)
    ensures
        r@.map_values(|x: PsRow| ps_view(x)) == ps_rows(lines(text@), include_system_processes, current_uid),
{
    let chars = chars_of(text);
    assert(chars@.subrange(0, chars@.len() as int) =~= text@);
    let ghost all = lines(text@);
    let mut pos: usize = 0;
    let mut out: Vec<PsRow> = Vec::new();
    let ghost mut done: Seq<Seq<char>> = seq![];
    while pos < chars.len()
        invariant
            pos <= chars@.len(),
            all == done + lines(chars@.subrange(pos as int, chars@.len() as int)),
            out@.map_values(|x: PsRow| ps_view(x)) == ps_rows(done, include_system_processes, current_uid),
        decreases chars@.len() - pos,
    {
        let (a, b, next) = next_line(chars.as_slice(), pos, chars.len());
        let ghost line = chars@.subrange(a as int, b as int);
        let text_line = string_of(chars.as_slice(), a, b);
        proof {
            assert(done.push(line).drop_last() =~= done);
            assert(done.push(line).last() == line);
        }
        let ghost before = out@;
        match parse_ps_line(text_line.as_str(), include_system_processes, current_uid) {
            Some(row) => {
                out.push(row);
                assert(out@.map_values(|x: PsRow| ps_view(x)) =~= before.map_values(|x: PsRow| ps_view(x)).push(
                    ps_view(row),
                ));
            },
            None => {},
        }
        proof {
            done = done.push(line);
            assert(all =~= done + lines(chars@.subrange(next as int, chars@.len() as int)));
        }
        pos = next;
    }
    proof {
        assert(chars@.subrange(pos as int, chars@.len() as int) =~= Seq::<char>::empty());
        assert(lines(Seq::<char>::empty()) =~= Seq::<Seq<char>>::empty());
        assert(done =~= all);
    }
    out
}

} // verus!
