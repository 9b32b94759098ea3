//! Local volumes from `df -kP` and `mount`: which ones are reported, and in what order.

use vstd::prelude::*;
use crate::text::{
    chars_of, eq_chars, find_from, first_occurrence, is_digit, join, occurs_at,
    lemma_piece_len, parse_dec, parse_unsigned, piece_end, push_char, push_chars, range_eq, rfind_from,
    split_char, split_words, strings_view, contains_string, lines, next_line, starts_with, starts_with_lit, string_of, strip_end_bound, strip_end_char,
    trim, trim_bounds, words,
};

verus! {

/// Volumes smaller than this (recovery, EFI, preboot) are noise and are not reported.
pub const DISK_MIN_BYTES: u64 = 1073741824;

/// `df -kP` counts in blocks of this many bytes.
pub const KIB: u64 = 1024;

/// A mounted local volume. On APFS the root volume is a sealed snapshot whose own `used`
/// counts only system files, so usage is always total minus available.
#[derive(Debug, Clone, PartialEq, Eq)]
pub struct DiskVolume {
    pub filesystem: String,
    pub mountpoint: String,
    pub total_bytes: u64,
    pub used_bytes: u64,
    pub available_bytes: u64,
}

impl DiskVolume {
    pub fn new(filesystem: String, mountpoint: String, total_bytes: u64, available_bytes: u64) -> (v: Self)
        ensures
            v.filesystem == filesystem,
            v.mountpoint == mountpoint,
            v.total_bytes == total_bytes,
            v.available_bytes == available_bytes,
            v.used_bytes == (if total_bytes >= available_bytes { total_bytes - available_bytes } else { 0 }),
    {
        DiskVolume {
            filesystem,
            mountpoint,
            total_bytes,
            used_bytes: total_bytes.saturating_sub(available_bytes),
            available_bytes,
        }
    }
}

/// The inner volumes of an APFS container share its capacity with the root volume.
pub open spec fn is_internal_spec(mountpoint: Seq<char>) -> bool {
    mountpoint == "/dev"@ || starts_with(mountpoint, "/System/Volumes/"@) || starts_with(
        mountpoint,
        "/private/"@,
    )
}

pub fn is_internal_mountpoint(mountpoint: &str) -> (b: bool)
    ensures
        b == is_internal_spec(mountpoint@),
{
    let chars = chars_of(mountpoint);
    eq_chars(chars.as_slice(), "/dev") || starts_with_lit(chars.as_slice(), "/System/Volumes/")
        || starts_with_lit(chars.as_slice(), "/private/")
}

/// Order of volumes: the root first, then volumes under `/Volumes/`, then the rest.
pub open spec fn rank_spec(mountpoint: Seq<char>) -> u8 {
    if mountpoint == "/"@ {
        0
    } else if starts_with(mountpoint, "/Volumes/"@) {
        1
    } else {
        2
    }
}

pub fn volume_rank(mountpoint: &str) -> (r: u8)
    ensures
        r == rank_spec(mountpoint@),
{
    let chars = chars_of(mountpoint);
    if eq_chars(chars.as_slice(), "/") {
        0
    } else if starts_with_lit(chars.as_slice(), "/Volumes/") {
        1
    } else {
        2
    }
}

/// Length of the leading run of ASCII digits.
pub open spec fn digit_run(s: Seq<char>) -> nat
    decreases s.len(),
{
    if s.len() == 0 || !is_digit(s[0]) {
        0
    } else {
        1 + digit_run(s.drop_first())
    }
}

/// The whole disk a device node belongs to: `/dev/disk3s1s1` is `disk3`. `None` for
/// anything that is not a `/dev/disk<N>` node.
pub open spec fn base_device_spec(filesystem: Seq<char>) -> Option<Seq<char>> {
    if starts_with(filesystem, "/dev/disk"@) {
        let rest = filesystem.skip(9);
        if digit_run(rest) == 0 {
            None
        } else {
            Some("disk"@ + rest.take(digit_run(rest) as int))
        }
    } else {
        None
    }
}

pub fn base_device_name(filesystem: &str) -> (r: Option<String>)
    ensures
        r is None <==> base_device_spec(filesystem@) is None,
        r matches Some(s) ==> base_device_spec(filesystem@) == Some(s@),
{
    proof {
        reveal_strlit("/dev/disk");
        reveal_strlit("disk");
    }
    let chars = chars_of(filesystem);
    if !starts_with_lit(chars.as_slice(), "/dev/disk") {
        return None;
    }
    let ghost rest = chars@.skip(9);
    let mut end: usize = 9;
    while end < chars.len() && is_ascii_digit(chars[end])
        invariant
            9 <= end <= chars@.len(),
            rest == chars@.skip(9),
            digit_run(rest) == (end - 9) + digit_run(chars@.skip(end as int)),
        decreases chars@.len() - end,
    {
        assert(chars@.skip(end as int).drop_first() =~= chars@.skip(end + 1));
        end = end + 1;
    }
    if end == 9 {
        return None;
    }
    assert(rest.take(end - 9) =~= chars@.subrange(9, end as int));
    let mut out = "disk".to_owned();
    push_chars(&mut out, chars.as_slice(), 9, end);
    Some(out)
}

pub fn is_ascii_digit(c: char) -> (b: bool)
    ensures
        b == is_digit(c),
{
    '0' <= c && c <= '9'
}

/// `trim_end_matches('%')`: every trailing `%` removed.
pub open spec fn strip_pct(s: Seq<char>) -> Seq<char>
    decreases s.len(),
{
    if s.len() > 0 && s.last() == '%' {
        strip_pct(s.drop_last())
    } else {
        s
    }
}

/// The capacity column: ends in `%`, and is a `u64` once the `%`s are gone.
pub open spec fn is_capacity(w: Seq<char>) -> bool {
    w.len() > 0 && w.last() == '%' && parse_unsigned(strip_pct(w), u64::MAX as nat) is Some
}

/// Index of the first capacity column.
pub open spec fn capacity_index(ws: Seq<Seq<char>>) -> Option<nat>
    decreases ws.len(),
{
    if ws.len() == 0 {
        None
    } else if is_capacity(ws[0]) {
        Some(0)
    } else {
        match capacity_index(ws.drop_first()) {
            Some(i) => Some(i + 1),
            None => None,
        }
    }
}

proof fn lemma_capacity_index(ws: Seq<Seq<char>>, k: int)
    requires
        0 <= k <= ws.len(),
        forall|j: int| 0 <= j < k ==> !is_capacity(#[trigger] ws[j]),
    ensures
        k < ws.len() && is_capacity(ws[k]) ==> capacity_index(ws) == Some(k as nat),
        k == ws.len() ==> capacity_index(ws) is None,
    decreases k,
{
    if k > 0 {
        let d = ws.drop_first();
        assert forall|j: int| 0 <= j < k - 1 implies !is_capacity(#[trigger] d[j]) by {
            assert(d[j] == ws[j + 1]);
        }
        lemma_capacity_index(d, k - 1);
        assert(!is_capacity(ws[0]));
        if k < ws.len() {
            assert(d[k - 1] == ws[k]);
        }
    }
}

/// `n * 1024`, saturating at `u64::MAX`.
pub open spec fn kib_bytes(n: nat) -> nat {
    if n * 1024 <= u64::MAX {
        n * 1024
    } else {
        u64::MAX as nat
    }
}

fn kib_to_bytes(n: u64) -> (b: u64)
    ensures
        b == kib_bytes(n as nat),
{
    match n.checked_mul(KIB) {
        Some(v) => v,
        None => u64::MAX,
    }
}

/// One `df -kP` row: filesystem, mountpoint, total and available bytes. Both the
/// filesystem and the mountpoint may hold spaces, so the row is cut around its one
/// capacity column: the three numbers before it, the filesystem before them, the
/// mountpoint after it, each rejoined with single spaces.
pub open spec fn df_row_spec(line: Seq<char>) -> Option<(Seq<char>, Seq<char>, nat, nat)> {
    let ws = words(line);
    match capacity_index(ws) {
        None => None,
        Some(c) => if c < 4 || c + 1 >= ws.len() {
            None
        } else {
            match (
                parse_unsigned(ws[c - 3], u64::MAX as nat),
                parse_unsigned(ws[c - 2], u64::MAX as nat),
                parse_unsigned(ws[c - 1], u64::MAX as nat),
            ) {
                (Some(blocks), Some(_), Some(available)) => Some(
                    (
                        join(ws.take(c - 3), " "@),
                        join(ws.skip(c + 1int), " "@),
                        kib_bytes(blocks),
                        kib_bytes(available),
                    ),
                ),
                _ => None,
            }
        },
    }
}

pub open spec fn volume_matches(v: DiskVolume, row: (Seq<char>, Seq<char>, nat, nat)) -> bool {
    &&& v.filesystem@ == row.0
    &&& v.mountpoint@ == row.1
    &&& v.total_bytes == row.2
    &&& v.available_bytes == row.3
    &&& v.used_bytes == (if row.2 >= row.3 { row.2 - row.3 } else { 0 })
}

/// Words `from..to` of a line, joined by single spaces.
pub(crate) fn join_words(
    chars: &[char],
    bounds: &Vec<(usize, usize)>,
    from: usize,
    to: usize,
    Ghost(ws): Ghost<Seq<Seq<char>>>,
) -> (out: String)
    requires
        from <= to <= bounds@.len(),
        ws.len() == bounds@.len(),
        forall|k: int| 0 <= k < bounds@.len() ==> {
            &&& (#[trigger] bounds@[k]).0 <= bounds@[k].1 <= chars@.len()
            &&& chars@.subrange(bounds@[k].0 as int, bounds@[k].1 as int) == ws[k]
        },
    ensures
        out@ == join(ws.subrange(from as int, to as int), " "@),
{
    proof {
        reveal_strlit(" ");
    }
    let mut out = String::new();
    let mut k = from;
    assert(ws.subrange(from as int, from as int) =~= Seq::<Seq<char>>::empty());
    while k < to
        invariant
            from <= k <= to <= bounds@.len(),
            ws.len() == bounds@.len(),
            forall|j: int| 0 <= j < bounds@.len() ==> {
                &&& (#[trigger] bounds@[j]).0 <= bounds@[j].1 <= chars@.len()
                &&& chars@.subrange(bounds@[j].0 as int, bounds@[j].1 as int) == ws[j]
            },
            out@ == join(ws.subrange(from as int, k as int), " "@),
        decreases to - k,
    {
        let (a, b) = bounds[k];
        let ghost part = ws.subrange(from as int, k + 1);
        assert(part.drop_last() =~= ws.subrange(from as int, k as int));
        if k > from {
            push_char(&mut out, ' ');
        }
        push_chars(&mut out, chars, a, b);
        assert(chars@.subrange(bounds@[k as int].0 as int, bounds@[k as int].1 as int) == ws[k as int]);
        assert(part.last() == ws[k as int]);
        proof {
            if k == from {
                assert(part.len() == 1);
            } else {
                reveal_strlit(" ");
                assert(" "@ =~= seq![' ']);
            }
        }
        k = k + 1;
    }
    out
}

fn is_capacity_word(chars: &[char], a: usize, b: usize) -> (r: bool)
    requires
        a <= b <= chars@.len(),
    ensures
        r == is_capacity(chars@.subrange(a as int, b as int)),
{
    if b == a || chars[b - 1] != '%' {
        return false;
    }
    let ghost w = chars@.subrange(a as int, b as int);
    let mut e = b;
    while e > a && chars[e - 1] == '%'
        invariant
            a <= e <= b <= chars@.len(),
            strip_pct(w) == strip_pct(chars@.subrange(a as int, e as int)),
        decreases e - a,
    {
        assert(chars@.subrange(a as int, e as int).drop_last() =~= chars@.subrange(a as int, e - 1));
        e = e - 1;
    }
    parse_dec(chars, a, e, u64::MAX).is_some()
}

/// The filesystem, mountpoint and sizes of one `df -kP` row.
pub fn parse_df_row(line: &str) -> (r: Option<DiskVolume>)
    ensures
        r is None <==> df_row_spec(line@) is None,
        r matches Some(v) ==> volume_matches(v, df_row_spec(line@).unwrap()),
{
    let chars = chars_of(line);
    let bounds = split_words(chars.as_slice(), 0, chars.len());
    let ghost ws = words(line@);
    assert(chars@.subrange(0, chars@.len() as int) =~= line@);
    let mut c: usize = 0;
    while c < bounds.len() && !is_capacity_word(chars.as_slice(), bounds[c].0, bounds[c].1)
        invariant
            c <= bounds@.len(),
            ws == words(chars@.subrange(0, chars@.len() as int)),
            bounds@.len() == ws.len(),
            forall|k: int| 0 <= k < bounds@.len() ==> {
                &&& 0 <= (#[trigger] bounds@[k]).0 <= bounds@[k].1 <= chars@.len()
                &&& chars@.subrange(bounds@[k].0 as int, bounds@[k].1 as int) == ws[k]
            },
            forall|j: int| 0 <= j < c ==> !is_capacity(#[trigger] ws[j]),
        decreases bounds@.len() - c,
    {
        c = c + 1;
    }
    proof {
        lemma_capacity_index(ws, c as int);
    }
    if c == bounds.len() {
        return None;
    }
    if c < 4 || c + 1 >= bounds.len() {
        return None;
    }
    let blocks = parse_dec(chars.as_slice(), bounds[c - 3].0, bounds[c - 3].1, u64::MAX);
    let used = parse_dec(chars.as_slice(), bounds[c - 2].0, bounds[c - 2].1, u64::MAX);
    let available = parse_dec(chars.as_slice(), bounds[c - 1].0, bounds[c - 1].1, u64::MAX);
    match (blocks, used, available) {
        (Some(blocks), Some(_), Some(available)) => {
            let filesystem = join_words(chars.as_slice(), &bounds, 0, c - 3, Ghost(ws));
            let mountpoint = join_words(chars.as_slice(), &bounds, c + 1, bounds.len(), Ghost(ws));
            assert(ws.subrange(0, c - 3) =~= ws.take(c - 3));
            assert(ws.subrange(c + 1, ws.len() as int) =~= ws.skip(c + 1));
            Some(DiskVolume::new(filesystem, mountpoint, kib_to_bytes(blocks), kib_to_bytes(available)))
        },
        _ => None,
    }
}

/// Whether one of the comma-separated flags, once trimmed, is `flag`.
pub open spec fn has_flag(flags: Seq<char>, flag: Seq<char>) -> bool {
    exists|k: int| 0 <= k < split_char(flags, ',').len() && trim(#[trigger] split_char(flags, ',')[k]) == flag
}

/// Where `p` first occurs in `s`.
pub open spec fn first_index(s: Seq<char>, p: Seq<char>) -> Option<int> {
    if exists|i: int| first_occurrence(s, p, 0, s.len() as int, i) {
        Some(choose|i: int| first_occurrence(s, p, 0, s.len() as int, i))
    } else {
        None
    }
}

pub open spec fn last_occurrence(s: Seq<char>, p: Seq<char>, i: int) -> bool {
    occurs_at(s, p, i) && forall|j: int| i < j ==> !#[trigger] occurs_at(s, p, j)
}

/// Where `p` last occurs in `s`.
pub open spec fn last_index(s: Seq<char>, p: Seq<char>) -> Option<int> {
    if exists|i: int| last_occurrence(s, p, i) {
        Some(choose|i: int| last_occurrence(s, p, i))
    } else {
        None
    }
}

proof fn lemma_first_index(s: Seq<char>, p: Seq<char>, i: int)
    requires
        first_occurrence(s, p, 0, s.len() as int, i),
    ensures
        first_index(s, p) == Some(i),
{
    let c = choose|c: int| first_occurrence(s, p, 0, s.len() as int, c);
    assert(first_occurrence(s, p, 0, s.len() as int, c));
    if c < i {
        assert(!occurs_at(s, p, c));
    }
    if c > i {
        assert(!occurs_at(s, p, i));
    }
}

proof fn lemma_last_index(s: Seq<char>, p: Seq<char>, i: int)
    requires
        last_occurrence(s, p, i),
    ensures
        last_index(s, p) == Some(i),
{
    let c = choose|c: int| last_occurrence(s, p, c);
    assert(last_occurrence(s, p, c));
    if c < i {
        assert(!occurs_at(s, p, i));
    }
    if c > i {
        assert(!occurs_at(s, p, c));
    }
}

/// The mountpoint of a `mount` line `<device> on <mountpoint> (<flags>)` whose flags hold
/// `nobrowse`, the flag Finder hides volumes by. The mountpoint may hold spaces: it runs
/// from the first ` on ` to the last ` (`.
pub open spec fn nobrowse_of(line: Seq<char>) -> Option<Seq<char>> {
    match first_index(line, " on "@) {
        None => None,
        Some(i) => {
            let rest = line.skip(i + 4);
            match last_index(rest, " ("@) {
                None => None,
                Some(j) => if has_flag(strip_end_char(rest.skip(j + 2), ')'), "nobrowse"@) {
                    Some(rest.take(j))
                } else {
                    None
                },
            }
        },
    }
}

/// Whether the comma-separated flags in `chars[a..b]` hold `flag`.
fn flags_hold(chars: &[char], a: usize, b: usize, flag: &[char]) -> (r: bool)
    requires
        a <= b <= chars@.len(),
    ensures
        r == has_flag(chars@.subrange(a as int, b as int), flag@),
{
    let ghost all = split_char(chars@.subrange(a as int, b as int), ',');
    let ghost mut done: Seq<Seq<char>> = seq![];
    let mut pos = a;
    loop
        invariant
            a <= pos <= b <= chars@.len(),
            all == split_char(chars@.subrange(a as int, b as int), ','),
            all == done + split_char(chars@.subrange(pos as int, b as int), ','),
            forall|k: int| 0 <= k < done.len() ==> trim(#[trigger] done[k]) != flag@,
        decreases b - pos,
    {
        let ghost rest = chars@.subrange(pos as int, b as int);
        let e = piece_end(chars, pos, b, ',');
        proof {
            lemma_piece_len(rest, ',');
        }
        let (lo, hi) = trim_bounds(chars, pos, e);
        assert(rest.take(e - pos) =~= chars@.subrange(pos as int, e as int));
        if range_eq(chars, lo, hi, flag) {
            assert(all[done.len() as int] == chars@.subrange(pos as int, e as int));
            return true;
        }
        if e == b {
            assert(all =~= done.push(rest));
            assert forall|k: int| 0 <= k < all.len() implies trim(#[trigger] all[k]) != flag@ by {
                if k < done.len() {
                    assert(all[k] == done[k]);
                }
            }
            return false;
        }
        assert(rest.skip(e - pos + 1) =~= chars@.subrange(e + 1, b as int));
        proof {
            let piece = chars@.subrange(pos as int, e as int);
            assert(done + split_char(rest, ',') =~= done.push(piece) + split_char(
                chars@.subrange(e + 1, b as int),
                ',',
            ));
            done = done.push(piece);
        }
        pos = e + 1;
    }
}

/// The mountpoint of a `mount` line whose flags hold `nobrowse`, as bounds in `chars`.
fn nobrowse_bounds(chars: &[char]) -> (r: Option<(usize, usize)>)
    ensures
        r is None <==> nobrowse_of(chars@) is None,
        r matches Some((a, b)) ==> a <= b <= chars@.len() && nobrowse_of(chars@) == Some(
            chars@.subrange(a as int, b as int),
        ),
{
    proof {
        reveal_strlit(" on ");
        reveal_strlit(" (");
    }
    let on = chars_of(" on ");
    let open = chars_of(" (");
    let flag = chars_of("nobrowse");
    let i = match find_from(chars, 0, chars.len(), on.as_slice()) {
        None => {
            proof {
                if exists|i: int| first_occurrence(chars@, " on "@, 0, chars@.len() as int, i) {
                    let i = choose|i: int| first_occurrence(chars@, " on "@, 0, chars@.len() as int, i);
                    assert(occurs_at(chars@, on@, i));
                }
            }
            return None;
        },
        Some(i) => i,
    };
    proof {
        lemma_first_index(chars@, " on "@, i as int);
    }
    let start = i + 4;
    let ghost rest = chars@.skip(start as int);
    let j = match rfind_from(chars, start, chars.len(), open.as_slice()) {
        None => {
            proof {
                if exists|j: int| last_occurrence(rest, " ("@, j) {
                    let j = choose|j: int| last_occurrence(rest, " ("@, j);
                    assert(rest.subrange(j, j + 2) =~= chars@.subrange(start + j, start + j + 2));
                    assert(occurs_at(chars@, open@, start + j));
                }
            }
            return None;
        },
        Some(j) => j,
    };
    proof {
        assert(rest.subrange(j - start, j - start + 2) =~= chars@.subrange(j as int, j + 2));
        assert forall|k: int| j - start < k implies !#[trigger] occurs_at(rest, " ("@, k) by {
            if occurs_at(rest, " ("@, k) {
                assert(rest.subrange(k, k + 2) =~= chars@.subrange(start + k, start + k + 2));
                assert(occurs_at(chars@, open@, start + k));
            }
        }
        lemma_last_index(rest, " ("@, j - start);
    }
    let e = strip_end_bound(chars, j + 2, chars.len(), ')');
    assert(rest.skip(j - start + 2) =~= chars@.subrange(j + 2, chars@.len() as int));
    assert(rest.take(j - start) =~= chars@.subrange(start as int, j as int));
    if flags_hold(chars, j + 2, e, flag.as_slice()) {
        Some((start, j))
    } else {
        None
    }
}

/// Mountpoints without duplicates, in order of first appearance.
pub open spec fn hidden_mounts(ls: Seq<Seq<char>>) -> Seq<Seq<char>>
    decreases ls.len(),
{
    if ls.len() == 0 {
        seq![]
    } else {
        let d = hidden_mounts(ls.drop_last());
        match nobrowse_of(ls.last()) {
            Some(m) => if d.contains(m) {
                d
            } else {
                d.push(m)
            },
            None => d,
        }
    }
}

/// The mountpoints `mount` lists with the `nobrowse` flag: simulator runtime images, local
/// Time Machine snapshots. Read-only alone would not do: the sealed root is read-only too.
pub fn parse_nobrowse_mounts(text: &str) -> (r: Vec<String>)
    ensures
        strings_view(r@) == hidden_mounts(lines(text@)),
{
    let chars = chars_of(text);
    let mut out: Vec<String> = Vec::new();
    let ghost mut done: Seq<Seq<char>> = seq![];
    let mut pos: usize = 0;
    assert(chars@.subrange(0, chars@.len() as int) =~= text@);
    while pos < chars.len()
        invariant
            pos <= chars@.len(),
            chars@ == text@,
            lines(text@) == done + lines(chars@.subrange(pos as int, chars@.len() as int)),
            strings_view(out@) == hidden_mounts(done),
        decreases chars@.len() - pos,
    {
        let (a, b, next) = next_line(chars.as_slice(), pos, chars.len());
        let line = &chars[a..b];
        let ghost line_view = chars@.subrange(a as int, b as int);
        assert(line@ == line_view);
        let found = nobrowse_bounds(line);
        proof {
            assert(done.push(line_view).drop_last() =~= done);
            assert(done.push(line_view).last() == line_view);
        }
        match found {
            Some((x, y)) => {
                let m = string_of(line, x, y);
                if !contains_string(&out, &m) {
                    let ghost before = out@;
                    out.push(m);
                    assert(strings_view(out@) =~= strings_view(before).push(m@));
                }
            },
            None => {},
        }
        proof {
            assert(lines(text@) =~= done.push(line_view) + lines(chars@.subrange(next as int, chars@.len() as int)));
            done = done.push(line_view);
        }
        pos = next;
    }
    assert(chars@.subrange(pos as int, chars@.len() as int) =~= Seq::<char>::empty());
    assert(done + Seq::<Seq<char>>::empty() =~= done);
    out
}

/// A parsed `df` row: filesystem, mountpoint, total and available bytes.
pub type DfRow = (Seq<char>, Seq<char>, nat, nat);

pub open spec fn row_of(v: DiskVolume) -> DfRow {
    (v.filesystem@, v.mountpoint@, v.total_bytes as nat, v.available_bytes as nat)
}

pub open spec fn rows_of(vs: Seq<DiskVolume>) -> Seq<DfRow> {
    vs.map_values(|v: DiskVolume| row_of(v))
}

/// Whether a disk already has a row among `rows`.
pub open spec fn has_device(rows: Seq<DfRow>, device: Seq<char>) -> bool {
    exists|i: int| 0 <= i < rows.len() && base_device_spec(#[trigger] rows[i].0) == Some(device)
}

/// A row worth reporting on its own: at least a gibibyte, not an inner APFS volume, not
/// hidden from Finder, and on a `/dev/disk` node.
pub open spec fn row_shown(row: DfRow, hidden: Seq<Seq<char>>) -> bool {
    &&& row.2 >= DISK_MIN_BYTES
    &&& !is_internal_spec(row.1)
    &&& !hidden.contains(row.1)
    &&& base_device_spec(row.0) is Some
}

/// The rows reported, in `df` order: each shown row whose disk has no earlier row.
pub open spec fn reported(ls: Seq<Seq<char>>, hidden: Seq<Seq<char>>) -> Seq<DfRow>
    decreases ls.len(),
{
    if ls.len() == 0 {
        seq![]
    } else {
        let k = reported(ls.drop_last(), hidden);
        match df_row_spec(ls.last()) {
            Some(row) => if row_shown(row, hidden) && !has_device(k, base_device_spec(row.0).unwrap()) {
                k.push(row)
            } else {
                k
            },
            None => k,
        }
    }
}

/// `df` output without its header line.
pub open spec fn body_lines(ls: Seq<Seq<char>>) -> Seq<Seq<char>> {
    if ls.len() == 0 {
        ls
    } else {
        ls.drop_first()
    }
}

/// `a` may come before `b`: a lower rank, or the same rank and no less capacity.
pub open spec fn row_before(a: DfRow, b: DfRow) -> bool {
    rank_spec(a.1) < rank_spec(b.1) || (rank_spec(a.1) == rank_spec(b.1) && a.2 >= b.2)
}

pub open spec fn rows_sorted(s: Seq<DfRow>) -> bool {
    forall|i: int, j: int| 0 <= i < j < s.len() ==> row_before(#[trigger] s[i], #[trigger] s[j])
}

/// The rows of `s` with rank `r` and capacity `t`, in order.
pub open spec fn with_key(s: Seq<DfRow>, r: u8, t: nat) -> Seq<DfRow>
    decreases s.len(),
{
    if s.len() == 0 {
        seq![]
    } else if rank_spec(s.last().1) == r && s.last().2 == t {
        with_key(s.drop_last(), r, t).push(s.last())
    } else {
        with_key(s.drop_last(), r, t)
    }
}

/// `out` is `inp` sorted by rank, then by capacity from the largest, equal keys keeping
/// their order.
pub open spec fn stable_sorted(out: Seq<DfRow>, inp: Seq<DfRow>) -> bool {
    &&& rows_sorted(out)
    &&& forall|r: u8, t: nat| #[trigger] with_key(out, r, t) == with_key(inp, r, t)
}

proof fn lemma_with_key_concat(a: Seq<DfRow>, b: Seq<DfRow>, r: u8, t: nat)
    ensures
        with_key(a + b, r, t) == with_key(a, r, t) + with_key(b, r, t),
    decreases b.len(),
{
    if b.len() == 0 {
        assert(a + b =~= a);
        assert(with_key(a, r, t) + with_key(b, r, t) =~= with_key(a, r, t));
    } else {
        assert((a + b).drop_last() =~= a + b.drop_last());
        assert((a + b).last() == b.last());
        lemma_with_key_concat(a, b.drop_last(), r, t);
        if rank_spec(b.last().1) == r && b.last().2 == t {
            assert(with_key(a, r, t) + with_key(b.drop_last(), r, t).push(b.last()) =~= (with_key(
                a,
                r,
                t,
            ) + with_key(b.drop_last(), r, t)).push(b.last()));
        }
    }
}

proof fn lemma_with_key_absent(s: Seq<DfRow>, r: u8, t: nat)
    requires
        forall|i: int| 0 <= i < s.len() ==> !(rank_spec(#[trigger] s[i].1) == r && s[i].2 == t),
    ensures
        with_key(s, r, t) == Seq::<DfRow>::empty(),
    decreases s.len(),
{
    if s.len() > 0 {
        assert(s.last() == s[s.len() - 1]);
        lemma_with_key_absent(s.drop_last(), r, t);
    }
}

proof fn lemma_with_key_insert(before: Seq<DfRow>, p: int, x: DfRow, r: u8, t: nat)
    requires
        0 <= p <= before.len(),
        forall|j: int| p <= j < before.len() ==> !(rank_spec((#[trigger] before[j]).1) == rank_spec(x.1)
            && before[j].2 == x.2),
    ensures
        with_key(before.insert(p, x), r, t) == (if rank_spec(x.1) == r && x.2 == t {
            with_key(before, r, t).push(x)
        } else {
            with_key(before, r, t)
        }),
{
    let a = before.take(p);
    let tail = before.skip(p);
    assert(before.insert(p, x) =~= a + seq![x] + tail);
    lemma_with_key_concat(a + seq![x], tail, r, t);
    lemma_with_key_concat(a, seq![x], r, t);
    lemma_with_key_concat(a, tail, r, t);
    assert(a + tail =~= before);
    assert(seq![x].drop_last() =~= Seq::<DfRow>::empty());
    assert(seq![x].last() == x);
    assert(with_key(Seq::<DfRow>::empty(), r, t) == Seq::<DfRow>::empty());
    let wa = with_key(a, r, t);
    if rank_spec(x.1) == r && x.2 == t {
        assert forall|i: int| 0 <= i < tail.len() implies !(rank_spec((#[trigger] tail[i]).1) == r
            && tail[i].2 == t) by {
            assert(tail[i] == before[p + i]);
        }
        lemma_with_key_absent(tail, r, t);
        assert(with_key(seq![x], r, t) =~= Seq::<DfRow>::empty().push(x));
        assert(wa + seq![x] + Seq::<DfRow>::empty() =~= (wa + Seq::<DfRow>::empty()).push(x));
    } else {
        assert(with_key(seq![x], r, t) =~= Seq::<DfRow>::empty());
        assert(wa + Seq::<DfRow>::empty() + with_key(tail, r, t) =~= wa + with_key(tail, r, t));
    }
}

/// Inserts `v` after every row that may come before it.
fn insert_sorted(out: &mut Vec<DiskVolume>, v: DiskVolume)
    requires
        rows_sorted(rows_of(old(out)@)),
    ensures
        rows_sorted(rows_of(final(out)@)),
        forall|r: u8, t: nat| #[trigger] with_key(rows_of(final(out)@), r, t) == (if rank_spec(v.mountpoint@) == r
            && v.total_bytes == t {
            with_key(rows_of(old(out)@), r, t).push(row_of(v))
        } else {
            with_key(rows_of(old(out)@), r, t)
        }),
        forall|i: int| 0 <= i < final(out)@.len() ==> (#[trigger] final(out)@[i] == v || old(out)@.contains(final(out)@[i])),
{
    let ghost before = rows_of(out@);
    let ghost x = row_of(v);
    let rank = volume_rank(v.mountpoint.as_str());
    let mut p: usize = 0;
    loop
        invariant
            p <= out@.len(),
            out@ == old(out)@,
            before == rows_of(out@),
            rank == rank_spec(v.mountpoint@),
            forall|i: int| 0 <= i < p ==> row_before(#[trigger] before[i], row_of(v)),
        ensures
            p <= out@.len(),
            out@ == old(out)@,
            forall|i: int| 0 <= i < p ==> row_before(#[trigger] before[i], row_of(v)),
            p < out@.len() ==> !row_before(before[p as int], row_of(v)),
        decreases out@.len() - p,
    {
        if p >= out.len() {
            break;
        }
        let other = volume_rank(out[p].mountpoint.as_str());
        if !(other < rank || (other == rank && out[p].total_bytes >= v.total_bytes)) {
            break;
        }
        p = p + 1;
    }
    proof {
        assert(rows_sorted(before));
        assert forall|j: int| p <= j < before.len() implies !(rank_spec((#[trigger] before[j]).1) == rank
            && before[j].2 == v.total_bytes) && row_before(row_of(v), before[j]) by {
            if j > p {
                assert(row_before(before[p as int], before[j]));
            }
        }
    }
    out.insert(p, v);
    proof {
        let after = rows_of(out@);
        assert(after =~= before.insert(p as int, x));
        before.insert_ensures(p as int, x);
        assert(after =~= before.take(p as int) + seq![x] + before.skip(p as int));
        assert forall|i: int, j: int| 0 <= i < j < after.len() implies row_before(
            #[trigger] after[i],
            #[trigger] after[j],
        ) by {
            if j < p {
                assert(after[i] == before[i] && after[j] == before[j]);
            } else if j == p {
                assert(after[i] == before[i]);
            } else if i < p {
                assert(after[i] == before[i] && after[j] == before[j - 1]);
                assert(row_before(before[i], x));
            } else if i == p {
                assert(after[j] == before[j - 1]);
            } else {
                assert(after[i] == before[i - 1] && after[j] == before[j - 1]);
            }
        }
        assert forall|r: u8, t: nat| #[trigger] with_key(after, r, t) == (if rank_spec(v.mountpoint@) == r
            && v.total_bytes == t {
            with_key(before, r, t).push(x)
        } else {
            with_key(before, r, t)
        }) by {
            lemma_with_key_insert(before, p as int, x, r, t);
        }
        assert forall|i: int| 0 <= i < out@.len() implies (#[trigger] out@[i] == v || old(out)@.contains(out@[i])) by {
            if i < p {
                assert(out@[i] == old(out)@[i]);
            } else if i > p {
                assert(out@[i] == old(out)@[i - 1]);
            }
        }
    }
}

pub open spec fn used_consistent(vs: Seq<DiskVolume>) -> bool {
    forall|i: int| 0 <= i < vs.len() ==> (#[trigger] vs[i]).used_bytes == (if vs[i].total_bytes
        >= vs[i].available_bytes {
        vs[i].total_bytes - vs[i].available_bytes
    } else {
        0
    })
}

/// The volumes worth reporting from `df -kP` output, hiding those `mount` marks
/// `nobrowse`: one per disk, the root first, then `/Volumes/`, then the rest, larger
/// before smaller. With no `mount` output every volume stays visible.
pub fn parse_df_output(df_text: &str, mount_text: &str) -> (r: Vec<DiskVolume>)
    ensures
        stable_sorted(
            rows_of(r@),
            reported(body_lines(lines(df_text@)), hidden_mounts(lines(mount_text@))),
        ),
        used_consistent(r@),
{
    let hidden = parse_nobrowse_mounts(mount_text);
    let ghost hidden_v = hidden_mounts(lines(mount_text@));
    let chars = chars_of(df_text);
    assert(chars@.subrange(0, chars@.len() as int) =~= df_text@);
    let mut pos: usize = 0;
    if pos < chars.len() {
        let (_, _, next) = next_line(chars.as_slice(), 0, chars.len());
        pos = next;
    } else {
        assert(lines(df_text@) =~= Seq::<Seq<char>>::empty());
    }
    let ghost body = body_lines(lines(df_text@));
    assert(body == lines(chars@.subrange(pos as int, chars@.len() as int)));
    let mut out: Vec<DiskVolume> = Vec::new();
    let mut seen: Vec<String> = Vec::new();
    let ghost mut done: Seq<Seq<char>> = seq![];
    let ghost mut kept: Seq<DfRow> = seq![];
    assert(rows_of(out@) =~= Seq::<DfRow>::empty());
    while pos < chars.len()
        invariant
            pos <= chars@.len(),
            strings_view(hidden@) == hidden_v,
            body == done + lines(chars@.subrange(pos as int, chars@.len() as int)),
            kept == reported(done, hidden_v),
            seen@.len() == kept.len(),
            forall|i: int| 0 <= i < kept.len() ==> base_device_spec((#[trigger] kept[i]).0) == Some(seen@[i]@),
            stable_sorted(rows_of(out@), kept),
            used_consistent(out@),
        decreases chars@.len() - pos,
    {
        let (a, b, next) = next_line(chars.as_slice(), pos, chars.len());
        let ghost line = chars@.subrange(a as int, b as int);
        let text = crate::text::string_of(chars.as_slice(), a, b);
        proof {
            assert(done.push(line).drop_last() =~= done);
            assert(done.push(line).last() == line);
        }
        match parse_df_row(text.as_str()) {
            Some(v) => {
                let ghost row = df_row_spec(line).unwrap();
                assert(row_of(v) == row);
                if v.total_bytes >= DISK_MIN_BYTES && !is_internal_mountpoint(v.mountpoint.as_str())
                    && !contains_string(&hidden, &v.mountpoint) {
                    match base_device_name(v.filesystem.as_str()) {
                        Some(device) => {
                            let known = contains_string(&seen, &device);
                            proof {
                                if has_device(kept, device@) {
                                    let i = choose|i: int| 0 <= i < kept.len() && base_device_spec(
                                        #[trigger] kept[i].0,
                                    ) == Some(device@);
                                    assert(strings_view(seen@)[i] == device@);
                                }
                                if known {
                                    let i = choose|i: int| 0 <= i < strings_view(seen@).len()
                                        && strings_view(seen@)[i] == device@;
                                    assert(base_device_spec(kept[i].0) == Some(seen@[i]@));
                                }
                            }
                            if !known {
                                let ghost old_out = out@;
                                seen.push(device);
                                insert_sorted(&mut out, v);
                                proof {
                                    let nk = kept.push(row);
                                    assert(nk.drop_last() =~= kept);
                                    assert(nk.last() == row);
                                    assert forall|r: u8, t: nat| #[trigger] with_key(rows_of(out@), r, t)
                                        == with_key(nk, r, t) by {
                                        assert(with_key(rows_of(old_out), r, t) == with_key(kept, r, t));
                                    }
                                    assert forall|i: int| 0 <= i < out@.len() implies (#[trigger] out@[i]).used_bytes
                                        == (if out@[i].total_bytes >= out@[i].available_bytes {
                                        out@[i].total_bytes - out@[i].available_bytes
                                    } else {
                                        0
                                    }) by {
                                        if out@[i] != v {
                                            let k = choose|k: int| 0 <= k < old_out.len() && old_out[k] == out@[i];
                                            assert(old_out[k].used_bytes == out@[i].used_bytes);
                                        }
                                    }
                                    assert forall|i: int| 0 <= i < nk.len() implies base_device_spec(
                                        (#[trigger] nk[i]).0,
                                    ) == Some(seen@[i]@) by {
                                        if i < kept.len() {
                                            assert(nk[i] == kept[i]);
                                        }
                                    }
                                    kept = nk;
                                }
                            }
                        },
                        None => {},
                    }
                }
            },
            None => {},
        }
        proof {
            assert(body =~= done.push(line) + lines(chars@.subrange(next as int, chars@.len() as int)));
            done = done.push(line);
        }
        pos = next;
    }
    assert(chars@.subrange(pos as int, chars@.len() as int) =~= Seq::<char>::empty());
    assert(done + Seq::<Seq<char>>::empty() =~= done);
    out
}

} // verus!
