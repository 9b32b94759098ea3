//! Apple Silicon facts that are not sampled floats: fans, the core topology, which
//! group an SMC temperature key belongs to, and the words the sensor page shows for them.

use vstd::prelude::*;
use vstd::string::StringExecFns;
use vstd::utf8::encode_utf8;
use crate::collector::{c_len, lossy_text, nul_from, utf8_lossy};
use crate::i18n::Strings;
use crate::text::{chars_of, dec, eq_chars, push_dec};

verus! {

/// One fan, in RPM.
#[derive(Debug, Clone, PartialEq, Eq)]
pub struct FanReading {
    pub name: String,
    pub actual_rpm: u32,
    pub min_rpm: u32,
    pub max_rpm: u32,
    pub target_rpm: u32,
}

/// The CPU and GPU layout; fixed for the life of the process.
#[derive(Debug, Clone, PartialEq, Eq)]
pub struct CpuTopology {
    pub brand: String,
    pub e_cores: u32,
    pub p_cores: u32,
    pub gpu_cores: Option<u32>,
    /// Top of the GPU frequency table, in MHz.
    pub gpu_max_freq_mhz: Option<u32>,
}

/// The topology as the native layer fills it: a NUL-padded brand, counts that are not
/// positive when unknown.
#[derive(Clone, Copy)]
pub struct RawTopology {
    pub brand: [u8; 64],
    pub e_cores: i32,
    pub p_cores: i32,
    pub gpu_cores: i32,
    pub gpu_max_freq_mhz: i32,
}

/// A NUL-padded field as text: the bytes before the first NUL, decoded.
pub open spec fn field_text(b: Seq<u8>) -> Seq<char> {
    lossy_text(b.take(c_len(b) as int))
}

pub fn c_str_field(bytes: &[u8]) -> (s: String)
    ensures
        s@ == field_text(bytes@),
{
    let end = nul_from(bytes, 0);
    assert(bytes@.skip(0) =~= bytes@);
    let head = &bytes[0..end];
    assert(head@ =~= bytes@.take(end as int));
    utf8_lossy(head)
}

pub open spec fn topology_matches(t: CpuTopology, raw: RawTopology) -> bool {
    &&& t.brand@ == field_text(raw.brand@)
    &&& t.e_cores == (if raw.e_cores > 0 { raw.e_cores as u32 } else { 0 })
    &&& t.p_cores == (if raw.p_cores > 0 { raw.p_cores as u32 } else { 0 })
    &&& t.gpu_cores == (if raw.gpu_cores > 0 { Some(raw.gpu_cores as u32) } else { None })
    &&& t.gpu_max_freq_mhz == (if raw.gpu_max_freq_mhz > 0 {
        Some(raw.gpu_max_freq_mhz as u32)
    } else {
        None
    })
}

/// The topology from the native reading; unknown core counts become 0 and unknown GPU
/// figures `None`.
pub fn convert_topology(raw: &RawTopology) -> (t: CpuTopology)
    ensures
        topology_matches(t, *raw),
{
    CpuTopology {
        brand: c_str_field(raw.brand.as_slice()),
        e_cores: if raw.e_cores > 0 { raw.e_cores as u32 } else { 0 },
        p_cores: if raw.p_cores > 0 { raw.p_cores as u32 } else { 0 },
        gpu_cores: if raw.gpu_cores > 0 { Some(raw.gpu_cores as u32) } else { None },
        gpu_max_freq_mhz: if raw.gpu_max_freq_mhz > 0 {
            Some(raw.gpu_max_freq_mhz as u32)
        } else {
            None
        },
    }
}

/// `Apple M3 Max (4E+12P · 40 GPU)`, without the GPU part when its core count is unknown.
pub open spec fn topology_summary_text(t: CpuTopology) -> Seq<char> {
    let cores = dec(t.e_cores as nat) + "E+"@ + dec(t.p_cores as nat) + "P"@;
    match t.gpu_cores {
        Some(gpu) => t.brand@ + " ("@ + cores + " · "@ + dec(gpu as nat) + " GPU)"@,
        None => t.brand@ + " ("@ + cores + ")"@,
    }
}

pub fn topology_summary(topology: &CpuTopology) -> (s: String)
    ensures
        s@ == topology_summary_text(*topology),
{
    let mut s = topology.brand.clone();
    s.append(" (");
    push_dec(&mut s, topology.e_cores as u64);
    s.append("E+");
    push_dec(&mut s, topology.p_cores as u64);
    s.append("P");
    match topology.gpu_cores {
        Some(gpu) => {
            s.append(" · ");
            push_dec(&mut s, gpu as u64);
            s.append(" GPU)");
        },
        None => {
            s.append(")");
        },
    }
    s
}

/// Labels for the per-core grid. When the topology's counts add up to the cores seen,
/// `E1..En` then `P1..Pm` (efficiency cores are enumerated first); otherwise `#0..#N`.
pub open spec fn core_label(count: nat, topology: Option<CpuTopology>, i: nat) -> Seq<char> {
    match topology {
        Some(t) => if t.e_cores + t.p_cores == count && count > 0 {
            if i < t.e_cores {
                "E"@ + dec(i + 1)
            } else {
                "P"@ + dec((i - t.e_cores + 1) as nat)
            }
        } else {
            "#"@ + dec(i)
        },
        None => "#"@ + dec(i),
    }
}

pub fn core_labels(count: usize, topology: Option<&CpuTopology>) -> (r: Vec<String>)
    ensures
        r@.len() == count,
        forall|i: int| 0 <= i < count ==> #[trigger] r@[i]@ == core_label(
            count as nat,
            match topology {
                Some(t) => Some(*t),
                None => None,
            },
            i as nat,
        ),
{
    let ghost top = match topology {
        Some(t) => Some(*t),
        None => None::<CpuTopology>,
    };
    let split: Option<u64> = match topology {
        Some(t) => if t.e_cores as u64 + t.p_cores as u64 == count as u64 && count > 0 {
            Some(t.e_cores as u64)
        } else {
            None
        },
        None => None,
    };
    let mut r: Vec<String> = Vec::new();
    let mut i: usize = 0;
    while i < count
        invariant
            i <= count,
            r@.len() == i,
            top == (match topology {
                Some(t) => Some(*t),
                None => None::<CpuTopology>,
            }),
            split matches Some(e) ==> top matches Some(t) && e == t.e_cores && t.e_cores + t.p_cores
                == count && count > 0,
            split is None ==> !(top matches Some(t) && t.e_cores + t.p_cores == count && count > 0),
            forall|j: int| 0 <= j < i ==> #[trigger] r@[j]@ == core_label(count as nat, top, j as nat),
        decreases count - i,
    {
        let mut label = String::new();
        match split {
            Some(e) => {
                if (i as u64) < e {
                    label.append("E");
                    push_dec(&mut label, i as u64 + 1);
                } else {
                    label.append("P");
                    push_dec(&mut label, i as u64 - e + 1);
                }
            },
            None => {
                label.append("#");
                push_dec(&mut label, i as u64);
            },
        }
        r.push(label);
        i = i + 1;
    }
    r
}

/// An SMC key's bytes begin with `p`.
pub open spec fn key_starts(b: Seq<u8>, p: Seq<u8>) -> bool {
    p.len() <= b.len() && b.take(p.len() as int) == p
}

/// The group of an SMC temperature key. Keys are case-sensitive: `Tp*` are single cores,
/// `TPD*` the SoC package. Multi-letter prefixes decide first; the rest go by the second
/// byte.
pub open spec fn sensor_group_text(b: Seq<u8>) -> Seq<char> {
    if key_starts(b, seq![84u8, 80, 68]) || key_starts(b, seq![84u8, 80, 77]) || key_starts(
        b,
        seq![84u8, 80, 83],
    ) {
        "soc"@
    } else if key_starts(b, seq![84u8, 82, 68]) {
        "gpu"@
    } else if key_starts(b, seq![84u8, 67, 77]) || key_starts(b, seq![84u8, 67, 68]) {
        "cpu_die"@
    } else if key_starts(b, seq![84u8, 112]) {
        "cpu_p"@
    } else if key_starts(b, seq![84u8, 101]) {
        "cpu_e"@
    } else if key_starts(b, seq![84u8, 102]) {
        "cpu_p"@
    } else if b.len() < 2 {
        "other"@
    } else {
        let c = b[1];
        if c == 67 || c == 99 {
            "cpu_die"@
        } else if c == 103 || c == 82 {
            "gpu"@
        } else if c == 80 {
            "soc"@
        } else if c == 109 || c == 77 {
            "memory"@
        } else if c == 115 || c == 83 || c == 72 || c == 78 {
            "ssd"@
        } else if c == 97 || c == 65 || c == 70 {
            "ambient"@
        } else if c == 66 || c == 98 {
            "board"@
        } else if c == 86 {
            "vrm"@
        } else if c == 68 || c == 100 || c == 76 {
            "display"@
        } else if c == 119 || c == 87 {
            "wireless"@
        } else {
            "other"@
        }
    }
}

fn starts3(b: &[u8], x: u8, y: u8, z: u8) -> (r: bool)
    ensures
        r == key_starts(b@, seq![x, y, z]),
{
    if b.len() < 3 {
        return false;
    }
    let r = b[0] == x && b[1] == y && b[2] == z;
    proof {
        if r {
            assert(b@.take(3) =~= seq![x, y, z]);
        } else {
            if b@.take(3) == seq![x, y, z] {
                assert(b@.take(3)[0] == x && b@.take(3)[1] == y && b@.take(3)[2] == z);
            }
        }
    }
    r
}

fn starts2(b: &[u8], x: u8, y: u8) -> (r: bool)
    ensures
        r == key_starts(b@, seq![x, y]),
{
    if b.len() < 2 {
        return false;
    }
    let r = b[0] == x && b[1] == y;
    proof {
        if r {
            assert(b@.take(2) =~= seq![x, y]);
        } else {
            if b@.take(2) == seq![x, y] {
                assert(b@.take(2)[0] == x && b@.take(2)[1] == y);
            }
        }
    }
    r
}

pub fn sensor_group_for_key(key: &str) -> (s: &'static str)
    ensures
        s@ == sensor_group_text(encode_utf8(key@)),
{
    let b = key.as_bytes();
    if starts3(b, 84, 80, 68) || starts3(b, 84, 80, 77) || starts3(b, 84, 80, 83) {
        "soc"
    } else if starts3(b, 84, 82, 68) {
        "gpu"
    } else if starts3(b, 84, 67, 77) || starts3(b, 84, 67, 68) {
        "cpu_die"
    } else if starts2(b, 84, 112) {
        "cpu_p"
    } else if starts2(b, 84, 101) {
        "cpu_e"
    } else if starts2(b, 84, 102) {
        "cpu_p"
    } else if b.len() < 2 {
        "other"
    } else {
        let c = b[1];
        if c == 67 || c == 99 {
            "cpu_die"
        } else if c == 103 || c == 82 {
            "gpu"
        } else if c == 80 {
            "soc"
        } else if c == 109 || c == 77 {
            "memory"
        } else if c == 115 || c == 83 || c == 72 || c == 78 {
            "ssd"
        } else if c == 97 || c == 65 || c == 70 {
            "ambient"
        } else if c == 66 || c == 98 {
            "board"
        } else if c == 86 {
            "vrm"
        } else if c == 68 || c == 100 || c == 76 {
            "display"
        } else if c == 119 || c == 87 {
            "wireless"
        } else {
            "other"
        }
    }
}

/// One fan as the native layer reports it.
#[derive(Debug, Clone, Copy, Default, PartialEq, Eq, Structural)]
pub struct RawFan {
    pub actual_rpm: u32,
    pub min_rpm: u32,
    pub max_rpm: u32,
    pub target_rpm: u32,
}

/// The fans of a sample: the reported count, kept within the eight slots, each named
/// `Fan <index>`.
pub open spec fn fan_count_of(count: i32) -> nat {
    if count < 0 {
        0
    } else if count > 8 {
        8
    } else {
        count as nat
    }
}

pub fn fan_readings(fans: &[RawFan; 8], count: i32) -> (r: Vec<FanReading>)
    ensures
        r@.len() == fan_count_of(count),
        forall|i: int| 0 <= i < r@.len() ==> {
            &&& (#[trigger] r@[i]).name@ == "Fan "@ + dec(i as nat)
            &&& r@[i].actual_rpm == fans@[i].actual_rpm
            &&& r@[i].min_rpm == fans@[i].min_rpm
            &&& r@[i].max_rpm == fans@[i].max_rpm
            &&& r@[i].target_rpm == fans@[i].target_rpm
        },
{
    let n: usize = if count < 0 {
        0
    } else if count > 8 {
        8
    } else {
        count as usize
    };
    let mut r: Vec<FanReading> = Vec::new();
    let mut i: usize = 0;
    while i < n
        invariant
            i <= n <= 8,
            n == fan_count_of(count),
            r@.len() == i,
            forall|k: int| 0 <= k < i ==> {
                &&& (#[trigger] r@[k]).name@ == "Fan "@ + dec(k as nat)
                &&& r@[k].actual_rpm == fans@[k].actual_rpm
                &&& r@[k].min_rpm == fans@[k].min_rpm
                &&& r@[k].max_rpm == fans@[k].max_rpm
                &&& r@[k].target_rpm == fans@[k].target_rpm
            },
        decreases n - i,
    {
        let fan = fans[i];
        let mut name = "Fan ".to_owned();
        push_dec(&mut name, i as u64);
        r.push(
            FanReading {
                name,
                actual_rpm: fan.actual_rpm,
                min_rpm: fan.min_rpm,
                max_rpm: fan.max_rpm,
                target_rpm: fan.target_rpm,
            },
        );
        i = i + 1;
    }
    r
}

/// The thermal pressure level (0 nominal up to 4); negative means the reading is
/// missing. The level is kept as its low byte.
pub fn thermal_level(raw: i32) -> (r: Option<u8>)
    ensures
        r == (if raw >= 0 { Some((raw % 256) as u8) } else { None::<u8> }),
{
    if raw >= 0 {
        Some((raw % 256) as u8)
    } else {
        None
    }
}

/// The words for a thermal pressure level: nominal through sleeping, anything above the
/// top level reading as the top one.
pub open spec fn thermal_level_text(text: Strings, level: u8) -> &'static str {
    if level == 0 {
        text.thermal_level_0
    } else if level == 1 {
        text.thermal_level_1
    } else if level == 2 {
        text.thermal_level_2
    } else if level == 3 {
        text.thermal_level_3
    } else {
        text.thermal_level_4
    }
}

pub fn thermal_level_label(text: &Strings, level: u8) -> (s: &'static str)
    ensures
        s == thermal_level_text(*text, level),
{
    match level {
        0 => text.thermal_level_0,
        1 => text.thermal_level_1,
        2 => text.thermal_level_2,
        3 => text.thermal_level_3,
        _ => text.thermal_level_4,
    }
}

/// The heading of a temperature group, by the group's name; an unknown group reads as
/// "other".
pub open spec fn sensor_group_heading(text: Strings, group: Seq<char>) -> &'static str {
    if group == "cpu"@ {
        text.sensor_group_cpu
    } else if group == "cpu_e"@ {
        text.sensor_group_cpu_e
    } else if group == "cpu_p"@ {
        text.sensor_group_cpu_p
    } else if group == "cpu_die"@ {
        text.sensor_group_cpu_die
    } else if group == "gpu"@ {
        text.sensor_group_gpu
    } else if group == "soc"@ {
        text.sensor_group_soc
    } else if group == "memory"@ {
        text.sensor_group_memory
    } else if group == "ssd"@ {
        text.sensor_group_ssd
    } else if group == "ambient"@ {
        text.sensor_group_ambient
    } else if group == "board"@ {
        text.sensor_group_board
    } else if group == "vrm"@ {
        text.sensor_group_vrm
    } else if group == "display"@ {
        text.sensor_group_display
    } else if group == "wireless"@ {
        text.sensor_group_wireless
    } else {
        text.sensor_group_other
    }
}

pub fn sensor_group_label(text: &Strings, group: &str) -> (s: &'static str)
    ensures
        s == sensor_group_heading(*text, group@),
{
    let g = chars_of(group);
    let g = g.as_slice();
    if eq_chars(g, "cpu") {
        text.sensor_group_cpu
    } else if eq_chars(g, "cpu_e") {
        text.sensor_group_cpu_e
    } else if eq_chars(g, "cpu_p") {
        text.sensor_group_cpu_p
    } else if eq_chars(g, "cpu_die") {
        text.sensor_group_cpu_die
    } else if eq_chars(g, "gpu") {
        text.sensor_group_gpu
    } else if eq_chars(g, "soc") {
        text.sensor_group_soc
    } else if eq_chars(g, "memory") {
        text.sensor_group_memory
    } else if eq_chars(g, "ssd") {
        text.sensor_group_ssd
    } else if eq_chars(g, "ambient") {
        text.sensor_group_ambient
    } else if eq_chars(g, "board") {
        text.sensor_group_board
    } else if eq_chars(g, "vrm") {
        text.sensor_group_vrm
    } else if eq_chars(g, "display") {
        text.sensor_group_display
    } else if eq_chars(g, "wireless") {
        text.sensor_group_wireless
    } else {
        text.sensor_group_other
    }
}

/// The temperature groups of the sensor page, in the order it lists them.
pub open spec fn group_order() -> Seq<Seq<char>> {
    seq![
        "cpu_e"@,
        "cpu_p"@,
        "cpu_die"@,
        "gpu"@,
        "soc"@,
        "memory"@,
        "ssd"@,
        "vrm"@,
        "display"@,
        "wireless"@,
        "ambient"@,
        "board"@,
        "other"@,
    ]
}

fn group_name(k: usize) -> (s: &'static str)
    requires
        k < 13,
    ensures
        s@ == group_order()[k as int],
{
    if k == 0 {
        "cpu_e"
    } else if k == 1 {
        "cpu_p"
    } else if k == 2 {
        "cpu_die"
    } else if k == 3 {
        "gpu"
    } else if k == 4 {
        "soc"
    } else if k == 5 {
        "memory"
    } else if k == 6 {
        "ssd"
    } else if k == 7 {
        "vrm"
    } else if k == 8 {
        "display"
    } else if k == 9 {
        "wireless"
    } else if k == 10 {
        "ambient"
    } else if k == 11 {
        "board"
    } else {
        "other"
    }
}

/// The indices below `n` of the readings in group `g`, in order.
pub open spec fn group_members(groups: Seq<Seq<char>>, g: Seq<char>, n: nat) -> Seq<usize>
    decreases n,
{
    if n == 0 {
        Seq::empty()
    } else if groups[n - 1] == g {
        group_members(groups, g, (n - 1) as nat).push((n - 1) as usize)
    } else {
        group_members(groups, g, (n - 1) as nat)
    }
}

/// The first `k` groups of the page's order that have readings, each with its readings.
pub open spec fn sensor_groups_upto(groups: Seq<Seq<char>>, k: nat) -> Seq<(Seq<char>, Seq<usize>)>
    decreases k,
{
    if k == 0 {
        Seq::empty()
    } else {
        let before = sensor_groups_upto(groups, (k - 1) as nat);
        let g = group_order()[k - 1];
        let m = group_members(groups, g, groups.len());
        if m.len() == 0 {
            before
        } else {
            before.push((g, m))
        }
    }
}

pub open spec fn member_lists_view(v: Seq<(String, Vec<usize>)>) -> Seq<(Seq<char>, Seq<usize>)> {
    v.map_values(|e: (String, Vec<usize>)| (e.0@, e.1@))
}

/// The readings of each temperature group, by the groups' names: the groups in the
/// sensor page's order, those without readings left out, each reading by its index. The
/// page shows each group's average, lowest and highest temperature and count.
pub fn sensor_group_members(groups: &[String]) -> (r: Vec<(String, Vec<usize>)>)
    ensures
        member_lists_view(r@) == sensor_groups_upto(crate::text::strings_view(groups@), 13),
{
    let ghost gs = crate::text::strings_view(groups@);
    let mut r: Vec<(String, Vec<usize>)> = Vec::new();
    let mut k: usize = 0;
    while k < 13
        invariant
            k <= 13,
            gs == crate::text::strings_view(groups@),
            member_lists_view(r@) == sensor_groups_upto(gs, k as nat),
        decreases 13 - k,
    {
        let name = group_name(k);
        let target = chars_of(name);
        let mut members: Vec<usize> = Vec::new();
        let mut i: usize = 0;
        while i < groups.len()
            invariant
                i <= groups@.len(),
                gs == crate::text::strings_view(groups@),
                target@ == group_order()[k as int],
                members@ == group_members(gs, group_order()[k as int], i as nat),
            decreases groups@.len() - i,
        {
            if eq_chars(target.as_slice(), groups[i].as_str()) {
                members.push(i);
            }
            i = i + 1;
        }
        let ghost before = member_lists_view(r@);
        if members.len() > 0 {
            r.push((name.to_owned(), members));
            assert(member_lists_view(r@) =~= before.push((group_order()[k as int], members@)));
        }
        k = k + 1;
    }
    r
}

} // verus!
